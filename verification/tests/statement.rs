//! The permutation, the hash and the layout of the trace.

use title_verifier::air::PublicInputs;
use title_verifier::field::BaseElement;
use title_verifier::layout::{
    job_last_row, job_start_row, job_type_column, AUX_A, AUX_B, AUX_C, AUX_D, HELD_PID, HELD_SECRET,
    JOB_COUNT, JOB_LEAF, JOB_MERKLE_FIRST, JOB_MERKLE_LAST, JOB_NULLIFIER, JOB_OWNER,
    NUM_TRANSITION_CONSTRAINTS, RANGE_BITS, RC_BIT_0, REAL_JOB_COUNT, ROUNDS, ROW_LEAF_FIRST,
    ROW_MERKLE_LAST_OUTPUT, ROW_NULLIFIER_FIRST, ROW_NULLIFIER_OUTPUT, STATE_WIDTH, TRACE_LENGTH,
    TRACE_WIDTH, T_LEAF, T_MERKLE, T_NULLIFIER, T_OWNER,
};
use title_verifier::permutation::{apply_round, hash, round_constants};

fn zero() -> BaseElement {
    BaseElement::new(0)
}

#[test]
fn hash_is_deterministic() {
    let a = hash(&[BaseElement::new(1), BaseElement::new(2)]);
    let b = hash(&[BaseElement::new(1), BaseElement::new(2)]);
    assert_eq!(a, b);
    let c = hash(&[BaseElement::new(1), BaseElement::new(3)]);
    assert_ne!(a, c);
}

#[test]
fn trace_length_is_power_of_two() {
    assert!(TRACE_LENGTH.is_power_of_two());
    assert_eq!(TRACE_LENGTH, 256);
}

#[test]
fn hash_is_sensitive_to_input_order() {
    let a = hash(&[BaseElement::new(1), BaseElement::new(2)]);
    let b = hash(&[BaseElement::new(2), BaseElement::new(1)]);
    assert_ne!(a, b);
}

#[test]
fn hash_zero_pads_and_can_collide_across_lengths() {
    let a = hash(&[BaseElement::new(1)]);
    let b = hash(&[BaseElement::new(1), BaseElement::new(0)]);
    assert_eq!(a, b, "hash() zero-pads; this collision is expected");

    let c = hash(&[BaseElement::new(1), BaseElement::new(2)]);
    assert_ne!(a, c);
}

#[test]
fn hash_empty_input_is_deterministic_and_nonzero() {
    let a = hash(&[]);
    let b = hash(&[]);
    assert_eq!(a, b);
    assert_ne!(a, zero());
}

#[test]
fn hash_accepts_full_width_input() {
    let inputs = [BaseElement::new(7); STATE_WIDTH];
    let _ = hash(&inputs);
}

#[test]
fn round_constants_are_deterministic() {
    let a = round_constants();
    let b = round_constants();
    assert_eq!(a, b);
}

#[test]
fn round_constants_are_not_trivially_zero() {
    for round in round_constants().iter() {
        assert!(round.iter().any(|&c| c != zero()));
    }
}

#[test]
fn apply_round_is_deterministic() {
    let state = [BaseElement::new(1); STATE_WIDTH];
    let rc = round_constants()[0];
    let a = apply_round(&state, &rc);
    let b = apply_round(&state, &rc);
    assert_eq!(a, b);
}

#[test]
fn apply_round_changes_state() {
    let state = [BaseElement::new(1); STATE_WIDTH];
    let rc = round_constants()[0];
    let next = apply_round(&state, &rc);
    assert_ne!(state, next);
}

#[test]
fn apply_round_is_sensitive_to_round_constants() {
    let state = [BaseElement::new(5); STATE_WIDTH];
    let rcs = round_constants();
    let a = apply_round(&state, &rcs[0]);
    let b = apply_round(&state, &rcs[1]);
    assert_ne!(a, b);
}

#[test]
fn job_and_row_layout_matches_docs() {
    assert_eq!(JOB_OWNER, 0);
    assert_eq!(JOB_LEAF, 1);
    assert_eq!(JOB_MERKLE_FIRST, 2);
    assert_eq!(JOB_MERKLE_LAST, 26);
    assert_eq!(JOB_NULLIFIER, 27);
    assert_eq!(REAL_JOB_COUNT, 28);
    assert_eq!(JOB_COUNT, 32);

    assert_eq!(job_start_row(JOB_LEAF), 8);
    assert_eq!(ROW_LEAF_FIRST, 8);
    assert_eq!(job_last_row(JOB_MERKLE_LAST), 215);
    assert_eq!(ROW_MERKLE_LAST_OUTPUT, 215);
    assert_eq!(job_start_row(JOB_NULLIFIER), 216);
    assert_eq!(ROW_NULLIFIER_FIRST, 216);
    assert_eq!(job_last_row(JOB_NULLIFIER), 223);
    assert_eq!(ROW_NULLIFIER_OUTPUT, 223);

    assert_eq!(job_last_row(JOB_COUNT - 1), TRACE_LENGTH - 1);
    for job in 0..JOB_COUNT {
        assert_eq!(job_last_row(job) - job_start_row(job) + 1, ROUNDS);
        if job > 0 {
            assert_eq!(job_start_row(job), job_last_row(job - 1) + 1);
        }
    }
}

#[test]
fn job_type_column_covers_every_job_exactly_once_per_type() {
    assert_eq!(job_type_column(JOB_OWNER), T_OWNER);
    assert_eq!(job_type_column(JOB_LEAF), T_LEAF);
    assert_eq!(job_type_column(JOB_NULLIFIER), T_NULLIFIER);
    for job in JOB_MERKLE_FIRST..=JOB_MERKLE_LAST {
        assert_eq!(job_type_column(job), T_MERKLE);
    }
    for job in (JOB_NULLIFIER + 1)..JOB_COUNT {
        assert_eq!(job_type_column(job), T_MERKLE);
    }
}

#[test]
fn column_indices_are_within_bounds_and_non_overlapping() {
    let mut seen = vec![false; TRACE_WIDTH];
    let mut mark = |col: usize| {
        assert!(col < TRACE_WIDTH, "column {col} out of bounds");
        assert!(!seen[col], "column {col} used twice");
        seen[col] = true;
    };
    for c in 0..STATE_WIDTH {
        mark(c); // s0..s7
    }
    mark(AUX_A);
    mark(AUX_B);
    mark(AUX_C);
    mark(AUX_D);
    mark(HELD_SECRET);
    mark(HELD_PID);
    mark(T_OWNER);
    mark(T_LEAF);
    mark(T_MERKLE);
    mark(T_NULLIFIER);
    for i in 0..RANGE_BITS {
        mark(RC_BIT_0 + i);
    }
    assert!(seen.iter().all(|&b| b), "not every column is accounted for");
}

#[test]
fn num_transition_constraints_matches_formula() {
    assert_eq!(
        NUM_TRANSITION_CONSTRAINTS,
        STATE_WIDTH + 2 + 4 + 1 + 1 + RANGE_BITS + 1
    );
    assert_eq!(NUM_TRANSITION_CONSTRAINTS, 49);
}

#[test]
fn public_inputs_to_elements_preserves_order() {
    let pi = PublicInputs {
        registry_id: BaseElement::new(1),
        merkle_root: BaseElement::new(2),
        purpose: BaseElement::new(3),
        request_nonce: BaseElement::new(4),
        current_timestamp: BaseElement::new(5),
        nullifier: BaseElement::new(6),
    };
    assert_eq!(
        pi.to_elements(),
        vec![
            BaseElement::new(1),
            BaseElement::new(2),
            BaseElement::new(3),
            BaseElement::new(4),
            BaseElement::new(5),
            BaseElement::new(6),
        ]
    );
}
