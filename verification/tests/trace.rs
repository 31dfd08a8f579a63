//! The tree, the honest trace and tampered ones.

use title_verifier::air::TitleAir;
use title_verifier::context::{demo_proof_options, TraceInfo};
use title_verifier::demo::demo_witness;
use title_verifier::field::BaseElement;
use title_verifier::layout::{
    job_start_row, AUX_B, DOMAIN_LEAF, DOMAIN_NODE, DOMAIN_NULLIFIER, DOMAIN_OWNER_COMMITMENT,
    JOB_LEAF, ROUNDS, ROW_MERKLE_LAST_OUTPUT, S0, STATE_WIDTH, TRACE_LENGTH, TRACE_WIDTH, TREE_DEPTH,
};
use title_verifier::permutation::{apply_round, hash, round_constants};
use title_verifier::trace::{build_trace, eval_all_constraints, to_bits_le, Witness};
use title_verifier::tree::SparseTree;

fn zero() -> BaseElement {
    BaseElement::new(0)
}

fn one() -> BaseElement {
    BaseElement::new(1)
}

fn honest_air_and_trace() -> (TitleAir, Vec<Vec<BaseElement>>) {
    let (witness, _root) = demo_witness();
    let (cols, pub_inputs) = build_trace(&witness);
    let trace_info = TraceInfo::new(TRACE_WIDTH, TRACE_LENGTH);
    let air = TitleAir::new(trace_info, pub_inputs, demo_proof_options());
    (air, cols)
}

#[test]
fn empty_tree_root_matches_recursive_zero_hash() {
    let tree = SparseTree::new();
    let mut z = zero();
    for _ in 0..TREE_DEPTH {
        z = hash(&[BaseElement::new(DOMAIN_NODE as u128), z, z]);
    }
    assert_eq!(tree.root(), z);
}

#[test]
fn single_insert_changes_root() {
    let mut tree = SparseTree::new();
    let empty_root = tree.root();
    tree.insert_leaf(0, BaseElement::new(123));
    assert_ne!(tree.root(), empty_root);
}

#[test]
fn proof_recomputes_to_the_actual_root() {
    let mut tree = SparseTree::new();
    let leaf = BaseElement::new(999);
    tree.insert_leaf(12345, leaf);
    let (siblings, bits) = tree.merkle_proof(12345);
    let recomputed = SparseTree::recompute_root(leaf, &siblings, &bits);
    assert_eq!(recomputed, tree.root());
}

#[test]
fn proof_at_index_zero_and_max_index_both_work() {
    let max_index = (1usize << TREE_DEPTH) - 1;
    for &index in &[0usize, max_index] {
        let mut tree = SparseTree::new();
        let leaf = BaseElement::new(index as u128 + 1);
        tree.insert_leaf(index, leaf);
        let (siblings, bits) = tree.merkle_proof(index);
        assert_eq!(SparseTree::recompute_root(leaf, &siblings, &bits), tree.root());
    }
}

#[test]
fn two_leaves_both_verify_against_the_same_root() {
    let mut tree = SparseTree::new();
    let leaf_a = BaseElement::new(11);
    let leaf_b = BaseElement::new(22);
    tree.insert_leaf(5, leaf_a);
    tree.insert_leaf(6, leaf_b); // sibling of index 5
    let root = tree.root();

    let (sa, ba) = tree.merkle_proof(5);
    assert_eq!(SparseTree::recompute_root(leaf_a, &sa, &ba), root);
    let (sb, bb) = tree.merkle_proof(6);
    assert_eq!(SparseTree::recompute_root(leaf_b, &sb, &bb), root);
}

#[test]
fn to_bits_le_round_trips_small_values() {
    for v in [0u64, 1, 2, 3, 255, 256, 12345] {
        let bits = to_bits_le(v, 32);
        let mut reconstructed: u64 = 0;
        for (i, b) in bits.iter().enumerate() {
            if *b == one() {
                reconstructed |= 1 << i;
            }
        }
        assert_eq!(reconstructed, v, "round-trip failed for {v}");
    }
}

#[test]
fn to_bits_le_has_requested_length() {
    assert_eq!(to_bits_le(1, 32).len(), 32);
    assert_eq!(to_bits_le(1, 0).len(), 0);
}

#[test]
fn to_bits_le_bits_are_boolean() {
    let bits = to_bits_le(u64::MAX, 32);
    assert!(bits.iter().all(|b| *b == zero() || *b == one()));
}

#[test]
fn to_bits_le_drops_bits_above_n() {
    let with_high_bit = 1u64 << 32; // bit 32, outside the requested 32 bits
    let bits = to_bits_le(with_high_bit, 32);
    assert!(bits.iter().all(|b| *b == zero()));
}

#[test]
fn build_trace_merkle_root_matches_independent_tree() {
    let (witness, independent_root) = demo_witness();
    let (_cols, pub_inputs) = build_trace(&witness);
    assert_eq!(pub_inputs.merkle_root, independent_root);
}

#[test]
fn build_trace_merkle_root_matches_independent_tree_with_right_child_bits() {
    let registry_id = BaseElement::new(1);
    let owner_secret = BaseElement::new(0xB0B_u64 as u128);
    let property_id = BaseElement::new(7);
    let owner_commitment = hash(&[
        BaseElement::new(DOMAIN_OWNER_COMMITMENT as u128),
        owner_secret,
        property_id,
    ]);
    let current_timestamp: u64 = 1_754_000_000;
    let license_expiry: u64 = current_timestamp + 1000;
    let leaf = hash(&[
        BaseElement::new(DOMAIN_LEAF as u128),
        registry_id,
        owner_commitment,
        zero(),
        one(),
        BaseElement::new(license_expiry as u128),
    ]);

    let mut tree = SparseTree::new();
    for i in [0u64, 2, 3, 5, 9, 17].iter() {
        tree.insert_leaf(*i as usize, hash(&[BaseElement::new(*i as u128)]));
    }
    let index = 1usize;
    tree.insert_leaf(index, leaf);
    let (siblings, bits) = tree.merkle_proof(index);
    assert!(bits[0], "index 1's proof must have bit==true at level 0");
    let independent_root = tree.root();
    assert_eq!(
        SparseTree::recompute_root(leaf, &siblings, &bits),
        independent_root
    );

    let witness = Witness {
        registry_id,
        purpose: BaseElement::new(1),
        request_nonce: BaseElement::new(3),
        current_timestamp,
        owner_secret,
        property_id,
        license_expiry,
        merkle_siblings: siblings,
        merkle_bits: bits,
    };
    let (_cols, pub_inputs) = build_trace(&witness);
    assert_eq!(pub_inputs.merkle_root, independent_root);
}

#[test]
fn build_trace_public_inputs_echo_the_witness() {
    let (witness, _root) = demo_witness();
    let (_cols, pub_inputs) = build_trace(&witness);
    assert_eq!(pub_inputs.registry_id, witness.registry_id);
    assert_eq!(pub_inputs.purpose, witness.purpose);
    assert_eq!(pub_inputs.request_nonce, witness.request_nonce);
    assert_eq!(
        pub_inputs.current_timestamp,
        BaseElement::new(witness.current_timestamp as u128)
    );
}

#[test]
fn build_trace_nullifier_matches_plain_hash() {
    let (witness, _root) = demo_witness();
    let (_cols, pub_inputs) = build_trace(&witness);
    let expected = hash(&[
        BaseElement::new(DOMAIN_NULLIFIER as u128),
        witness.owner_secret,
        witness.property_id,
        witness.purpose,
        witness.request_nonce,
    ]);
    assert_eq!(pub_inputs.nullifier, expected);
}

#[test]
fn build_trace_output_has_correct_dimensions() {
    let (witness, _root) = demo_witness();
    let (cols, _pub_inputs) = build_trace(&witness);
    assert_eq!(cols.len(), TRACE_WIDTH);
    assert!(cols.iter().all(|c| c.len() == TRACE_LENGTH));
}

#[test]
fn honest_trace_satisfies_every_transition_constraint() {
    let (air, cols) = honest_air_and_trace();
    let results = eval_all_constraints(&air, &cols);
    for (step, r) in results.iter().enumerate() {
        for (i, v) in r.iter().enumerate() {
            assert_eq!(
                *v,
                zero(),
                "nonzero constraint at step {step}, index {i}: {v:?}"
            );
        }
    }
}

#[test]
fn honest_trace_satisfies_every_assertion() {
    let (air, cols) = honest_air_and_trace();
    for a in air.get_assertions() {
        assert_eq!(
            cols[a.column][a.first_step], a.value,
            "assertion failed: col={} step={}",
            a.column, a.first_step
        );
    }
}

#[test]
fn tampering_encumbrance_flag_breaks_its_assertion() {
    let (air, cols) = honest_air_and_trace();
    let leaf_start = job_start_row(JOB_LEAF);
    let mut tampered = cols;
    tampered[AUX_B][leaf_start] = one();

    let assertion = air
        .get_assertions()
        .into_iter()
        .find(|a| a.column == AUX_B && a.first_step == leaf_start)
        .expect("encumbrance_flag assertion must exist");
    assert_ne!(tampered[AUX_B][leaf_start], assertion.value);
}

#[test]
fn tampering_merkle_root_breaks_its_assertion() {
    let (air, cols) = honest_air_and_trace();
    let mut tampered = cols;
    let out_row = ROW_MERKLE_LAST_OUTPUT;
    tampered[S0][out_row] += one();

    let assertion = air
        .get_assertions()
        .into_iter()
        .find(|a| a.column == S0 && a.first_step == out_row)
        .expect("merkle_root assertion must exist");
    assert_ne!(tampered[S0][out_row], assertion.value);
}

#[test]
fn tampering_a_permutation_row_breaks_a_transition_constraint() {
    let (air, cols) = honest_air_and_trace();
    let mut tampered = cols;
    tampered[S0][3] += one(); // mid-round row inside job 0

    let results = eval_all_constraints(&air, &tampered);
    let any_nonzero = results.iter().flatten().any(|v| *v != zero());
    assert!(
        any_nonzero,
        "tampering a mid-permutation row produced no nonzero constraint anywhere"
    );
}

#[test]
fn hash_matches_run_job_round_count() {
    let (witness, _root) = demo_witness();
    let mut state = [zero(); STATE_WIDTH];
    state[0] = BaseElement::new(DOMAIN_OWNER_COMMITMENT as u128);
    state[1] = witness.owner_secret;
    state[2] = witness.property_id;
    let rcs = round_constants();
    let mut manual = state;
    for r in 0..ROUNDS - 1 {
        manual = apply_round(&manual, &rcs[r]);
    }
    let via_hash = hash(&[
        BaseElement::new(DOMAIN_OWNER_COMMITMENT as u128),
        witness.owner_secret,
        witness.property_id,
    ]);
    assert_eq!(manual[0], via_hash);
}
