//! One trial of each promise of the library on concrete values, and its edges.

use title_verifier::air::{PublicInputs, TitleAir};
use title_verifier::challenge::{
    check_throttle, heartbeat_impl, request_challenge_impl, verify_begin, verify_commit_impl, verify_crypto_impl,
    verify_finish, verify_precheck_impl, ProofCheck,
};
use title_verifier::cli::candid_args;
use title_verifier::context::{demo_proof_options, EvaluationFrame, TraceInfo};
use title_verifier::decimal::{fe_to_string, is_white_space, parse_fe};
use title_verifier::demo::{demo_witness, witness_for};
use title_verifier::field::{BaseElement, FieldElement, MODULUS};
use title_verifier::fuzz::{dummy_air, fuzz_boolean_violations_are_caught};
use title_verifier::layout::{
    AUX_B, AUX_D, DOMAIN_NODE, DOMAIN_OWNER_COMMITMENT, HELD_SECRET, NUM_ASSERTIONS,
    NUM_TRANSITION_CONSTRAINTS, RC_BIT_0, ROW_LEAF_FIRST, TRACE_LENGTH, TRACE_WIDTH, TREE_DEPTH,
    T_LEAF, T_MERKLE,
};
use title_verifier::permutation::{apply_round, hash, round_constants};
use title_verifier::principal::Principal;
use title_verifier::registry::{
    add_admin_impl, bootstrap_admin_impl, fresh_state, get_merkle_proof_impl, get_record_impl, health,
    is_admin, leaf_hash, remove_admin_impl, submit_record_impl, ChallengeView, Record, State, VerifyPublicInputs,
    CHALLENGE_TTL_NS, MIN_CALL_INTERVAL_NS, REGISTRY_ID,
};
use title_verifier::snapshot::{restore, snapshot};
use title_verifier::table::Table;
use title_verifier::trace::{build_trace, eval_all_constraints, to_bits_le, Witness};
use title_verifier::tree::{NodeStore, SparseTree};

fn el(n: u128) -> BaseElement {
    BaseElement::new(n)
}

fn p(n: u8) -> Principal {
    Principal::from_slice(&[n, 0xFF])
}

const SECOND: i64 = 1_000_000_000;

#[test]
fn elements_are_reduced_and_operations_wrap() {
    assert_eq!(el(MODULUS), el(0));
    assert_eq!(el(MODULUS + 5).as_int(), 5);
    assert_eq!((el(MODULUS - 1) + el(2)).as_int(), 1);
    assert_eq!((el(1) - el(2)).as_int(), MODULUS - 1);
    assert_eq!((-el(1)).as_int(), MODULUS - 1);
    assert_eq!((el(MODULUS - 1) * el(MODULUS - 1)).as_int(), 1);
    assert_eq!(el(7).exp(3).as_int(), 343);
    assert_eq!(BaseElement::from(9u32), el(9));
    assert_eq!(<BaseElement as FieldElement>::zero(), el(0));
    assert_eq!(<BaseElement as FieldElement>::one(), el(1));
    let mut x = el(10);
    x += el(1);
    x -= el(3);
    x *= el(4);
    assert_eq!(x.as_int(), 32);
    x /= el(8);
    assert_eq!(x.as_int(), 4);
}

#[test]
fn division_undoes_multiplication() {
    let a = el(0x1234_5678_9abc_def0);
    for n in [1u128, 2, 3, 65537, MODULUS - 1] {
        let b = el(n);
        assert_eq!((a * b) / b, a);
        assert_eq!((a / b) * b, a);
    }
    assert_eq!(a / el(0), el(0));
}

#[test]
fn first_round_constant_is_two_steps_of_the_generator() {
    let step = |mut x: u64| {
        x ^= x << 13;
        x ^= x >> 7;
        x ^= x << 17;
        x
    };
    let hi = step(0x5441_5145_454e_2d31);
    let lo = step(hi);
    assert_eq!(round_constants()[0][0], el(((hi as u128) << 64) | lo as u128));
}

#[test]
fn round_adds_cubes_and_mixes() {
    let state: [BaseElement; 8] = std::array::from_fn(|i| el(i as u128 + 1));
    let constants = [el(1); 8];
    let cubes: Vec<u128> = (0..8u128).map(|i| (i + 2) * (i + 2) * (i + 2)).collect();
    let total: u128 = cubes.iter().sum();
    let mixed = apply_round(&state, &constants);
    for i in 0..8 {
        assert_eq!(mixed[i].as_int(), total + cubes[i] + 2 * cubes[(i + 1) % 8]);
    }
}

#[test]
fn trailing_zeros_do_not_change_a_hash() {
    assert_eq!(hash(&[el(1), el(2)]), hash(&[el(1), el(2), el(0), el(0)]));
    assert_ne!(hash(&[el(1), el(2)]), hash(&[el(0), el(1), el(2)]));
}

#[test]
fn system_declares_its_shape() {
    let air = dummy_air();
    let context = air.context();
    assert_eq!(context.trace_info.width(), 50);
    assert_eq!(context.trace_info.length(), 256);
    assert_eq!(context.num_assertions, 39);
    let degrees = &context.transition_constraint_degrees;
    assert_eq!(degrees.len(), 49);
    let declared: Vec<(usize, usize)> = degrees.iter().map(|d| (d.base, d.cycles.len())).collect();
    assert_eq!(declared[0], (3, 1));
    assert_eq!(declared[8], (1, 0));
    assert_eq!(declared[10], (2, 1));
    assert_eq!(declared[14], (1, 1));
    assert_eq!(declared[15], (3, 1));
    assert_eq!(declared[16], (2, 0));
    assert_eq!(declared[48], (2, 1));
    assert!(air.pub_inputs().to_elements().iter().all(|e| *e == el(0)));
    let periodic = air.get_periodic_column_values();
    assert_eq!(periodic.len(), 10);
    assert_eq!(periodic[8][0], el(1));
    assert_eq!(periodic[8][1], el(0));
    assert_eq!(periodic[9][7], el(1));
    assert_eq!(periodic[9][6], el(0));
}

#[test]
fn assertions_name_the_cells_of_the_statement() {
    let inputs = PublicInputs {
        registry_id: el(11),
        merkle_root: el(12),
        purpose: el(13),
        request_nonce: el(14),
        current_timestamp: el(15),
        nullifier: el(16),
    };
    let info = TraceInfo::new(TRACE_WIDTH, TRACE_LENGTH);
    let air = TitleAir::new(info, inputs, demo_proof_options());
    let a: Vec<(usize, usize, u128)> = air
        .get_assertions()
        .iter()
        .map(|a| (a.column, a.first_step, a.value.as_int()))
        .collect();
    assert_eq!(a.len(), NUM_ASSERTIONS);
    assert_eq!(
        a[..9],
        [
            (8, 8, 11),
            (9, 8, 0),
            (10, 8, 1),
            (0, 215, 12),
            (8, 216, 13),
            (9, 216, 14),
            (0, 223, 16),
            (14, 0, 1),
            (15, 8, 1),
        ]
    );
    assert_eq!(a[38], (16, 248, 1));
}

#[test]
fn frames_can_be_written() {
    let mut frame: EvaluationFrame<BaseElement> = EvaluationFrame::new(3);
    assert_eq!(frame.current(), &[el(0); 3]);
    frame.current_mut()[1] = el(5);
    frame.next_mut()[2] = el(6);
    assert_eq!(frame.current(), &[el(0), el(5), el(0)]);
    assert_eq!(frame.next(), &[el(0), el(0), el(6)]);
}

#[test]
fn evaluation_leaves_further_results_alone() {
    let air = dummy_air();
    let frame: EvaluationFrame<BaseElement> = EvaluationFrame::new(TRACE_WIDTH);
    let mut result = vec![el(77); NUM_TRANSITION_CONSTRAINTS + 2];
    air.evaluate_transition(&frame, &[el(0); 10], &mut result);
    assert_eq!(result[NUM_TRANSITION_CONSTRAINTS], el(77));
    assert_eq!(result[NUM_TRANSITION_CONSTRAINTS + 1], el(77));
    assert_ne!(result[0], el(77));
}

#[test]
fn direction_that_is_no_bit_shows() {
    let air = dummy_air();
    let mut cur = vec![el(0); TRACE_WIDTH];
    cur[T_MERKLE] = el(1);
    cur[AUX_B] = el(2);
    let frame = EvaluationFrame::from_rows(cur, vec![el(0); TRACE_WIDTH]);
    let first: Vec<BaseElement> =
        air.get_periodic_column_values().iter().map(|c| c[0]).collect();
    let mut result = vec![el(0); NUM_TRANSITION_CONSTRAINTS];
    air.evaluate_transition(&frame, &first, &mut result);
    assert_eq!(result[15], el(2));
    assert_eq!(fuzz_boolean_violations_are_caught(1, 10), 0);
}

fn violations(cols: &[Vec<BaseElement>], inputs: PublicInputs) -> usize {
    let info = TraceInfo::new(TRACE_WIDTH, TRACE_LENGTH);
    let air = TitleAir::new(info, inputs, demo_proof_options());
    eval_all_constraints(&air, cols).iter().flatten().filter(|v| **v != el(0)).count()
}

#[test]
fn license_of_the_longest_countable_duration_satisfies_the_system() {
    for lasts in [1u64, 2, 1 << 32] {
        let (w, root) = witness_for(100, 3, 100 + lasts);
        let (cols, inputs) = build_trace(&w);
        assert_eq!(inputs.merkle_root, root);
        assert_eq!(violations(&cols, inputs), 0);
    }
}

#[test]
fn tampering_with_a_held_column_or_a_range_bit_shows() {
    let (w, _root) = demo_witness();
    let (cols, inputs) = build_trace(&w);
    let mut held = cols.clone();
    held[HELD_SECRET][100] += el(1);
    assert!(violations(&held, inputs) > 0);
    let mut bit = cols.clone();
    bit[RC_BIT_0][ROW_LEAF_FIRST] = el(1) - bit[RC_BIT_0][ROW_LEAF_FIRST];
    assert!(violations(&bit, inputs) > 0);
    let mut expiry = cols;
    expiry[AUX_D][ROW_LEAF_FIRST] += el(1);
    assert!(violations(&expiry, inputs) > 0);
}

#[test]
fn bits_are_the_lowest_ones_first() {
    let bits: Vec<u128> = to_bits_le(0b1011, 6).iter().map(|b| b.as_int()).collect();
    assert_eq!(bits, vec![1, 1, 0, 1, 0, 0]);
    let all = to_bits_le(u64::MAX, 64);
    assert!(all.len() == 64 && all.iter().all(|b| *b == el(1)));
}

#[test]
fn tree_nodes_follow_from_the_leaves_in_any_order() {
    let mut one = SparseTree::default();
    one.insert_leaf(3, el(30));
    one.insert_leaf(2, el(20));
    let mut other = SparseTree::new();
    other.insert_leaf(2, el(99));
    other.insert_leaf(2, el(20));
    other.insert_leaf(3, el(30));
    assert_eq!(one.root(), other.root());
    let parent = hash(&[el(DOMAIN_NODE as u128), el(20), el(30)]);
    assert_eq!(one.node_at(1, 1), parent);
    assert_eq!(one.node_at(0, 2), el(20));
    let (siblings, bits) = one.merkle_proof(3);
    assert_eq!(siblings[0], el(20));
    assert_eq!(bits[..3], [true, true, false]);
    assert_eq!(siblings.len(), TREE_DEPTH);
}

#[test]
fn leaf_beyond_the_tree_has_a_node_of_its_own() {
    let mut store = NodeStore::new();
    let empty = store.node_at(25, 0);
    let top = store.insert_leaf(1 << 25, el(5));
    assert_eq!(store.node_at(25, 0), empty);
    assert_eq!(store.node_at(25, 1), top);
    assert_ne!(top, empty);
    assert_eq!(store.insert_leaf(u64::MAX, el(6)), store.node_at(25, u64::MAX >> 25));
}

#[test]
fn white_space_is_that_of_the_standard_library() {
    for code in 0..=0x10FFFFu32 {
        if let Some(c) = char::from_u32(code) {
            assert_eq!(is_white_space(c), c.is_whitespace(), "{code:x}");
        }
    }
}

#[test]
fn numerals_are_read_as_the_standard_library_reads_them() {
    let texts = [
        "", " ", "0", "00", "7", "+7", "+", "-", "-0", "++1", "1+", "1 2", "\u{a0}12\u{3000}", "1_000",
        "0x10", "340282366920938463463374607431768211455", "340282366920938463463374607431768211456",
        "00000000000000000000000000000000000000000000000001", "99999999999999999999999999999999999999999",
        "\n\t42\r\n", "４２", "12a", "a12",
    ];
    for text in texts {
        let expected: Option<u128> = text.trim().parse().ok();
        match (parse_fe(text), expected) {
            (Ok(e), Some(n)) => assert_eq!(e, el(n)),
            (Err(message), None) => {
                assert_eq!(message, format!("could not parse '{text}' as a u128 decimal integer"))
            }
            (r, _) => panic!("{text:?}: {r:?}"),
        }
    }
}

#[test]
fn text_round_trip() {
    for n in [0u128, 9, 10, 1234567890, MODULUS - 1] {
        assert_eq!(fe_to_string(el(n)), format!("{n}"));
        assert_eq!(parse_fe(&fe_to_string(el(n))).unwrap(), el(n));
    }
    assert_eq!(parse_fe(&format!("{MODULUS}")).unwrap(), el(0));
}

#[test]
fn principals_are_their_bytes() {
    assert_eq!(Principal::anonymous(), Principal::from_slice(&[4]));
    assert_ne!(Principal::from_slice(&[]), Principal::from_slice(&[0]));
    assert_ne!(Principal::from_slice(&[1, 0]), Principal::from_slice(&[1]));
    let long: Vec<u8> = (0..29).collect();
    assert_eq!(Principal::from_slice(&long).to_bytes(), long);
}

#[test]
fn table_keeps_one_value_for_each_key() {
    let mut t: Table<Principal, i64> = Table::new();
    t.insert(p(1), 10);
    t.insert(p(2), 20);
    t.insert(p(1), 11);
    assert_eq!(t.get(&p(1)), Some(11));
    assert_eq!(t.get(&p(2)), Some(20));
    assert_eq!(t.get(&p(3)), None);
    assert_eq!(t.entries().len(), 2);
}

fn registry_with_demo_title() -> (State, Witness) {
    let (w, _root) = demo_witness();
    let mut s = fresh_state();
    bootstrap_admin_impl(&mut s, p(1)).unwrap();
    submit_record_impl(&mut s, p(1), 7, "5".to_string(), 0, 1, 999).unwrap();
    let commitment =
        hash(&[el(DOMAIN_OWNER_COMMITMENT as u128), w.owner_secret, w.property_id]);
    submit_record_impl(&mut s, p(1), 42, fe_to_string(commitment), 0, 1, w.license_expiry).unwrap();
    let path = get_merkle_proof_impl(&s, 42).unwrap();
    let siblings = path.siblings.iter().map(|t| parse_fe(t).unwrap()).collect();
    (s, Witness { merkle_siblings: siblings, merkle_bits: path.path_bits, ..w })
}

#[test]
fn owner_answers_a_challenge_once() {
    let (mut s, mut w) = registry_with_demo_title();
    let now = 1_754_000_000 * SECOND;
    let view = request_challenge_impl(&mut s, p(9), now, 1).unwrap();
    w.request_nonce = el(view.request_nonce as u128);
    w.current_timestamp = view.current_timestamp;
    let (cols, inputs) = build_trace(&w);
    assert_eq!(inputs.merkle_root, s.current_root);
    assert_eq!(violations(&cols, inputs), 0);

    let answer = VerifyPublicInputs {
        registry_id: view.registry_id,
        merkle_root: view.merkle_root.clone(),
        purpose: view.purpose,
        request_nonce: view.request_nonce,
        current_timestamp: view.current_timestamp,
        nullifier: fe_to_string(inputs.nullifier),
    };
    let id = view.challenge_id;
    assert_eq!(verify_begin(&mut s, p(9), now + 1, id, &answer).unwrap(), inputs);
    let rejected = ProofCheck::Rejected("no".to_string());
    assert_eq!(verify_finish(&mut s, id, &answer, rejected).unwrap_err(), "invalid proof: no");
    assert!(!s.challenges.get(&id).unwrap().consumed);
    assert!(s.nullifiers.find(&answer.nullifier).is_none());

    let ok = verify_finish(&mut s, id, &answer, ProofCheck::Accepted).unwrap();
    assert_eq!(ok.nullifier, answer.nullifier);
    assert!(s.challenges.get(&id).unwrap().consumed);

    let later = now + 1 + MIN_CALL_INTERVAL_NS;
    let err = verify_begin(&mut s, p(9), later, id, &answer).unwrap_err();
    assert_eq!(err, "challenge already consumed");
    let err = verify_finish(&mut s, id, &answer, ProofCheck::Accepted).unwrap_err();
    assert_eq!(err, "nullifier already spent");
}

fn repeated(view: &ChallengeView, nullifier: &str) -> VerifyPublicInputs {
    VerifyPublicInputs {
        registry_id: view.registry_id,
        merkle_root: view.merkle_root.clone(),
        purpose: view.purpose,
        request_nonce: view.request_nonce,
        current_timestamp: view.current_timestamp,
        nullifier: nullifier.to_string(),
    }
}

#[test]
fn spent_nullifier_is_spent_in_every_spelling() {
    let mut s = fresh_state();
    let first = request_challenge_impl(&mut s, p(1), SECOND, 1).unwrap();
    let second = request_challenge_impl(&mut s, p(2), SECOND, 1).unwrap();
    let answer = repeated(&first, "5");
    verify_begin(&mut s, p(1), SECOND, first.challenge_id, &answer).unwrap();
    verify_finish(&mut s, first.challenge_id, &answer, ProofCheck::Accepted).unwrap();

    let modulus_and_five = (MODULUS + 5).to_string();
    let mut now = SECOND;
    for spelling in ["5", "05", "0005", " 5", "5\n", "+5", modulus_and_five.as_str()] {
        let again = repeated(&second, spelling);
        let id = second.challenge_id;
        let err = verify_precheck_impl(&mut s, p(2), now, id, &again).unwrap_err();
        assert_eq!(err, "nullifier already spent", "{spelling:?}");
        let err = verify_finish(&mut s, id, &again, ProofCheck::Accepted).unwrap_err();
        assert_eq!(err, "nullifier already spent", "{spelling:?}");
        now += MIN_CALL_INTERVAL_NS;
    }
    let other = repeated(&second, "06");
    assert!(verify_precheck_impl(&mut s, p(2), now, second.challenge_id, &other).is_ok());
    let ok = verify_finish(&mut s, second.challenge_id, &other, ProofCheck::Accepted).unwrap();
    assert_eq!(ok.nullifier, "06");
    assert_eq!(s.nullifiers.find("6"), Some(true));

    let mut t = fresh_state();
    verify_commit_impl(&mut t, 7, "5").unwrap();
    let view = request_challenge_impl(&mut t, p(1), SECOND, 1).unwrap();
    let again = repeated(&view, "05");
    let err = verify_precheck_impl(&mut t, p(1), SECOND + 1, view.challenge_id, &again).unwrap_err();
    assert_eq!(err, "nullifier already spent");

    let mut stable = snapshot(&s);
    stable.nullifiers.push(("007".to_string(), true));
    let mut s = restore(&stable);
    for spelling in ["5", "05", "6", "7", "07"] {
        let err = verify_commit_impl(&mut s, 99, spelling).unwrap_err();
        assert_eq!(err, "nullifier already spent", "{spelling:?}");
    }
    assert!(verify_commit_impl(&mut s, 99, "08").is_ok());
}

#[test]
fn restored_nullifier_is_spent_if_one_spelling_is() {
    let mut stable = snapshot(&fresh_state());
    let entries = [
        ("5", true),
        ("05", false),
        ("07", false),
        ("7", true),
        ("8", true),
        ("8", false),
        ("9", false),
        ("n", true),
        (" n", false),
    ];
    stable.nullifiers = entries.iter().map(|(t, b)| (t.to_string(), *b)).collect();
    let s = restore(&stable);
    assert_eq!(s.nullifiers.find("5"), Some(true));
    assert_eq!(s.nullifiers.find("7"), Some(true));
    assert_eq!(s.nullifiers.find("8"), Some(false));
    assert_eq!(s.nullifiers.find("9"), Some(false));
    assert_eq!(s.nullifiers.find("n"), Some(true));
    assert_eq!(s.nullifiers.find(" n"), Some(false));
    assert_eq!(s.nullifiers.entries().len(), 6);
}

#[test]
fn rounds_tell_states_and_constants_apart() {
    let zero = [el(0); 8];
    let constants = round_constants()[0];
    let state: [BaseElement; 8] = [el(1), el(2), el(3), el(4), el(5), el(6), el(7), el(8)];
    let after = apply_round(&state, &constants);
    for lane in 0..8 {
        let mut other = state;
        other[lane] += el(1);
        assert_ne!(apply_round(&other, &constants), after);
        let mut shifted = constants;
        shifted[lane] -= el(1);
        assert_ne!(apply_round(&state, &shifted), after);
        assert_eq!(apply_round(&other, &shifted), after);
    }
    let mut sum = zero;
    for lane in 0..8 {
        sum[lane] = state[lane] + constants[lane];
    }
    assert_eq!(apply_round(&sum, &zero), after);
}

#[test]
fn range_bits_of_a_row_are_those_of_the_seconds_left() {
    let ts: u64 = 1_000;
    let inputs = PublicInputs {
        registry_id: el(0),
        merkle_root: el(0),
        purpose: el(0),
        request_nonce: el(0),
        current_timestamp: el(ts as u128),
        nullifier: el(0),
    };
    let info = TraceInfo::new(TRACE_WIDTH, TRACE_LENGTH);
    let air = TitleAir::new(info, inputs, demo_proof_options());
    let first: Vec<BaseElement> =
        air.get_periodic_column_values().iter().map(|c| c[0]).collect();
    let checked = |expiry: u64, bits: &[BaseElement]| {
        let mut cur = vec![el(0); TRACE_WIDTH];
        cur[T_LEAF] = el(1);
        cur[AUX_D] = el(expiry as u128);
        cur[RC_BIT_0..].copy_from_slice(bits);
        let frame = EvaluationFrame::from_rows(cur, vec![el(0); TRACE_WIDTH]);
        let mut result = vec![el(0); NUM_TRANSITION_CONSTRAINTS];
        air.evaluate_transition(&frame, &first, &mut result);
        result[16..].iter().all(|v| *v == el(0))
    };
    for expiry in [ts + 1, ts + 2, ts + 77, ts + (1 << 32)] {
        let mut bits = to_bits_le(expiry - ts - 1, 32);
        assert!(checked(expiry, &bits));
        bits[5] = el(1) - bits[5];
        assert!(!checked(expiry, &bits));
        bits[5] = el(2);
        assert!(!checked(expiry, &bits));
    }
    for expiry in [0, ts - 1, ts, ts + (1 << 32) + 1, u64::MAX] {
        assert!(!checked(expiry, &to_bits_le(expiry.wrapping_sub(ts).wrapping_sub(1), 32)));
    }
}

#[test]
fn numbers_and_nonces_go_up_over_pruning_and_upgrades() {
    let mut s = fresh_state();
    let mut seen: Vec<(u64, u64)> = Vec::new();
    let mut now = SECOND;
    for round in 0..6u8 {
        let view = request_challenge_impl(&mut s, p(round), now, 1).unwrap();
        if let Some((id, nonce)) = seen.last() {
            assert!(view.challenge_id > *id && view.request_nonce > *nonce);
        }
        seen.push((view.challenge_id, view.request_nonce));
        let roots = (s.current_root, s.records.len(), s.nullifiers.entries().len());
        assert!(request_challenge_impl(&mut s, p(round), now, 1).is_err());
        assert_eq!((s.next_challenge_id, s.next_nonce), (seen.len() as u64, seen.len() as u64));
        assert_eq!(roots, (s.current_root, s.records.len(), s.nullifiers.entries().len()));
        now += CHALLENGE_TTL_NS + 1;
        heartbeat_impl(&mut s, now);
        assert!(s.challenges.is_empty());
        s = restore(&snapshot(&s));
    }
    assert_eq!(seen, (0..6).map(|n| (n, n)).collect::<Vec<(u64, u64)>>());
}

#[test]
fn refused_requests_need_no_room() {
    let mut s = fresh_state();
    request_challenge_impl(&mut s, p(1), SECOND, 1).unwrap();
    s.next_challenge_id = u64::MAX;
    s.next_nonce = u64::MAX;
    assert_eq!(
        request_challenge_impl(&mut s, p(1), SECOND, 1).unwrap_err(),
        "rate limit: try again shortly"
    );
    assert_eq!(
        request_challenge_impl(&mut s, Principal::anonymous(), i64::MAX, 1).unwrap_err(),
        "anonymous callers are not permitted"
    );
    assert_eq!(
        check_throttle(&s.last_challenge_call_at, p(1), SECOND).unwrap_err(),
        "rate limit: try again shortly"
    );
    assert!(check_throttle(&s.last_challenge_call_at, p(2), SECOND).is_ok());
    s.next_leaf_index = u64::MAX;
    assert_eq!(
        submit_record_impl(&mut s, p(1), 1, "1".to_string(), 0, 1, 2).unwrap_err(),
        "unauthorized -- gate this behind real admin auth"
    );
    bootstrap_admin_impl(&mut s, p(1)).unwrap();
    assert_eq!(
        submit_record_impl(&mut s, p(1), 1, "one".to_string(), 0, 1, 2).unwrap_err(),
        "could not parse 'one' as a u128 decimal integer"
    );
}

#[test]
fn inverses_and_quotients() {
    for n in [1u128, 2, 7, MODULUS - 1, 1 << 100] {
        assert_eq!(el(n) * (el(1) / el(n)), el(1));
        assert_eq!(el(n) / el(0), el(0));
    }
    assert_eq!(el(0) / el(0), el(0));
    assert_eq!(el(0) / el(3), el(0));
}

#[test]
fn demonstration_options_are_those_of_the_empty_system() {
    let air = dummy_air();
    let options = air.context().options;
    assert_eq!((options.num_queries, options.blowup_factor, options.grinding_factor), (28, 8, 0));
}

#[test]
fn each_outcome_of_a_proof_check_has_its_answer() {
    let mut inputs = VerifyPublicInputs {
        registry_id: REGISTRY_ID,
        merkle_root: "1".to_string(),
        purpose: 1,
        request_nonce: 2,
        current_timestamp: 3,
        nullifier: "4".to_string(),
    };
    assert!(verify_crypto_impl(&inputs, ProofCheck::Accepted).is_ok());
    let undecodable = ProofCheck::Undecodable("short".to_string());
    assert_eq!(
        verify_crypto_impl(&inputs, undecodable).unwrap_err(),
        "failed to decode proof bytes: short"
    );
    let rejected = ProofCheck::Rejected("wrong".to_string());
    assert_eq!(verify_crypto_impl(&inputs, rejected).unwrap_err(), "invalid proof: wrong");
    assert_eq!(
        verify_crypto_impl(&inputs, ProofCheck::Panicked).unwrap_err(),
        "invalid proof: verifier panicked on malformed proof data"
    );
    inputs.nullifier = "x".to_string();
    assert_eq!(
        verify_crypto_impl(&inputs, ProofCheck::Accepted).unwrap_err(),
        "could not parse 'x' as a u128 decimal integer"
    );
}

#[test]
fn every_refusal_has_its_message() {
    let mut s = fresh_state();
    bootstrap_admin_impl(&mut s, p(1)).unwrap();
    assert_eq!(
        bootstrap_admin_impl(&mut s, p(2)).unwrap_err(),
        "admins already bootstrapped -- use add_admin instead"
    );
    assert_eq!(add_admin_impl(&mut s, p(2), p(3)).unwrap_err(), "unauthorized");
    assert_eq!(remove_admin_impl(&mut s, p(2), p(1)).unwrap_err(), "unauthorized");
    assert_eq!(
        remove_admin_impl(&mut s, p(1), p(1)).unwrap_err(),
        "cannot remove the last remaining admin"
    );
    assert_eq!(
        submit_record_impl(&mut s, p(2), 1, "1".to_string(), 0, 1, 2).unwrap_err(),
        "unauthorized -- gate this behind real admin auth"
    );
    let nobody = Principal::anonymous();
    assert_eq!(
        request_challenge_impl(&mut s, nobody, SECOND, 1).unwrap_err(),
        "anonymous callers are not permitted"
    );
    let view = request_challenge_impl(&mut s, p(5), SECOND, 4).unwrap();
    assert_eq!(
        request_challenge_impl(&mut s, p(5), SECOND, 4).unwrap_err(),
        "rate limit: try again shortly"
    );
    let id = view.challenge_id;
    let good = VerifyPublicInputs {
        registry_id: view.registry_id,
        merkle_root: view.merkle_root.clone(),
        purpose: 4,
        request_nonce: view.request_nonce,
        current_timestamp: view.current_timestamp,
        nullifier: "1".to_string(),
    };
    let mut now = SECOND;
    let mut ask = |s: &mut State, caller: Principal, id: u64, inputs: &VerifyPublicInputs| {
        now += MIN_CALL_INTERVAL_NS;
        verify_precheck_impl(s, caller, now, id, inputs).err().unwrap_or_default()
    };
    assert_eq!(ask(&mut s, p(5), id + 1, &good), "unknown or expired challenge");
    assert_eq!(
        ask(&mut s, p(6), id, &good),
        "caller does not match the principal that requested this challenge"
    );
    let changed = |f: fn(&mut VerifyPublicInputs)| {
        let mut inputs = good.clone();
        f(&mut inputs);
        inputs
    };
    assert_eq!(ask(&mut s, p(5), id, &changed(|i| i.registry_id = 2)), "registry_id mismatch");
    assert_eq!(
        ask(&mut s, p(5), id, &changed(|i| i.merkle_root = "?".to_string())),
        "could not parse '?' as a u128 decimal integer"
    );
    assert_eq!(
        ask(&mut s, p(5), id, &changed(|i| i.merkle_root = "5".to_string())),
        "merkle_root mismatch"
    );
    assert_eq!(ask(&mut s, p(5), id, &changed(|i| i.purpose = 5)), "purpose mismatch");
    assert_eq!(ask(&mut s, p(5), id, &changed(|i| i.request_nonce += 1)), "request_nonce mismatch");
    assert_eq!(
        ask(&mut s, p(5), id, &changed(|i| i.current_timestamp += 1)),
        "current_timestamp mismatch"
    );
    assert_eq!(ask(&mut s, p(5), id, &good), "");
    verify_commit_impl(&mut s, id + 7, "1").unwrap();
    assert_eq!(ask(&mut s, p(5), id, &good), "nullifier already spent");
    verify_commit_impl(&mut s, id, "2").unwrap();
    assert_eq!(ask(&mut s, p(5), id, &good), "challenge already consumed");
    let late = request_challenge_impl(&mut s, p(8), SECOND, 4).unwrap();
    let expired = verify_precheck_impl(
        &mut s,
        p(8),
        SECOND + CHALLENGE_TTL_NS + 1,
        late.challenge_id,
        &good,
    );
    assert_eq!(expired.unwrap_err(), "challenge expired");
}

#[test]
fn challenge_can_be_answered_up_to_its_last_moment() {
    let mut s = fresh_state();
    let view = request_challenge_impl(&mut s, p(1), SECOND, 1).unwrap();
    let inputs = VerifyPublicInputs {
        registry_id: view.registry_id,
        merkle_root: format!("  {}", view.merkle_root),
        purpose: 1,
        request_nonce: view.request_nonce,
        current_timestamp: view.current_timestamp,
        nullifier: "n".to_string(),
    };
    assert!(verify_precheck_impl(&mut s, p(1), view.expires_at, view.challenge_id, &inputs).is_ok());
}

#[test]
fn times_before_the_epoch_wrap_as_casts_do() {
    for now in [0i64, 999_999_999, SECOND, -1, -999_999_999, -SECOND, -5 * SECOND - 1, i64::MIN] {
        let mut s = fresh_state();
        let view = request_challenge_impl(&mut s, p(1), now, 1).unwrap();
        assert_eq!(view.current_timestamp, (now / SECOND) as u64);
    }
}

#[test]
fn administrators_come_and_go_but_one_remains() {
    let mut s = fresh_state();
    bootstrap_admin_impl(&mut s, p(1)).unwrap();
    add_admin_impl(&mut s, p(1), p(2)).unwrap();
    add_admin_impl(&mut s, p(2), p(3)).unwrap();
    remove_admin_impl(&mut s, p(3), p(1)).unwrap();
    remove_admin_impl(&mut s, p(3), p(3)).unwrap();
    assert_eq!(s.admins, vec![p(2)]);
    assert!(remove_admin_impl(&mut s, p(2), p(2)).is_err());
    assert!(is_admin(&s, &p(2)));
}

#[test]
fn other_titles_keep_their_leaf() {
    let (mut s, _w) = registry_with_demo_title();
    let before = get_merkle_proof_impl(&s, 42).unwrap();
    submit_record_impl(&mut s, p(1), 1000, "1".to_string(), 1, 0, 1).unwrap();
    let after = get_merkle_proof_impl(&s, 42).unwrap();
    assert_eq!(before.leaf_index, after.leaf_index);
    assert_ne!(before.root, after.root);
    let leaf = leaf_hash(&get_record_impl(&s, 42).unwrap()).unwrap();
    let siblings: Vec<BaseElement> = after.siblings.iter().map(|t| parse_fe(t).unwrap()).collect();
    let root = SparseTree::recompute_root(leaf, &siblings, &after.path_bits);
    assert_eq!(root, s.current_root);
}

#[test]
fn leaf_hash_needs_a_numeral() {
    let record = Record {
        property_id: 1,
        owner_commitment: "one".to_string(),
        encumbrance_flag: 0,
        license_status: 1,
        license_expiry: 2,
    };
    assert!(leaf_hash(&record).unwrap_err().contains("could not parse 'one'"));
}

#[test]
fn heartbeat_stops_at_the_first_open_challenge() {
    let mut s = fresh_state();
    let first = request_challenge_impl(&mut s, p(1), SECOND, 1).unwrap();
    let second = request_challenge_impl(&mut s, p(2), 100 * SECOND, 1).unwrap();
    let third = request_challenge_impl(&mut s, p(3), 2 * SECOND, 1).unwrap();
    heartbeat_impl(&mut s, 2 * SECOND + CHALLENGE_TTL_NS + 1);
    assert!(!s.challenges.contains_key(&first.challenge_id));
    assert!(s.challenges.contains_key(&second.challenge_id));
    assert!(s.challenges.contains_key(&third.challenge_id));
    assert_eq!(s.oldest_unpruned_challenge_id, second.challenge_id);
    heartbeat_impl(&mut s, 100 * SECOND + CHALLENGE_TTL_NS);
    assert_eq!(s.oldest_unpruned_challenge_id, second.challenge_id);
    heartbeat_impl(&mut s, 100 * SECOND + CHALLENGE_TTL_NS + 1);
    assert_eq!(s.oldest_unpruned_challenge_id, s.next_challenge_id);
    assert!(s.challenges.is_empty());
}

#[test]
fn heartbeat_prunes_exactly_its_bound() {
    let mut s = fresh_state();
    for i in 0..60u8 {
        request_challenge_impl(&mut s, p(i), SECOND, 1).unwrap();
    }
    heartbeat_impl(&mut s, i64::MAX);
    assert_eq!(s.challenges.len(), 10);
    assert_eq!(s.oldest_unpruned_challenge_id, 50);
}

#[test]
fn upgrades_keep_the_registry() {
    let (mut s, _w) = registry_with_demo_title();
    let view = request_challenge_impl(&mut s, p(9), 5 * SECOND, 1).unwrap();
    verify_commit_impl(&mut s, view.challenge_id, "spent").unwrap();
    request_challenge_impl(&mut s, p(8), 6 * SECOND, 2).unwrap();
    let t = restore(&snapshot(&s));
    assert_eq!(t.admins, s.admins);
    assert_eq!(t.current_root, s.current_root);
    assert_eq!(t.next_leaf_index, s.next_leaf_index);
    assert_eq!(t.next_challenge_id, 2);
    assert_eq!(t.next_nonce, 2);
    assert!(t.challenges.get(&view.challenge_id).unwrap().consumed);
    assert_eq!(t.challenges.get(&1).unwrap().requester, p(8));
    assert_eq!(t.challenges.get(&1).unwrap().merkle_root, s.current_root);
    assert_eq!(t.nullifiers.find("spent"), Some(true));
    assert_eq!(t.last_challenge_call_at.get(&p(8)), Some(6 * SECOND));
    let (a, b) = (get_merkle_proof_impl(&s, 42).unwrap(), get_merkle_proof_impl(&t, 42).unwrap());
    assert_eq!(a.siblings, b.siblings);
    assert_eq!(get_record_impl(&t, 7).unwrap().owner_commitment, "5");
}

#[test]
fn empty_registry_survives_an_upgrade() {
    let t = restore(&snapshot(&fresh_state()));
    assert_eq!(t.current_root, fresh_state().current_root);
    assert!(t.records.is_empty() && t.challenges.is_empty() && t.admins.is_empty());
}

#[test]
fn sign_of_life() {
    assert_eq!(health(), "title_verifier canister is running");
}

#[test]
fn arguments_of_a_call_are_written_out() {
    let inputs = PublicInputs {
        registry_id: el(1),
        merkle_root: el(22),
        purpose: el(3),
        request_nonce: el(4),
        current_timestamp: el(5),
        nullifier: el(66),
    };
    assert_eq!(
        candid_args(&[0x00, 0x0f, 0xa9, 0xff], &inputs),
        "({challengeId}, blob \"\\00\\0f\\a9\\ff\", record { registry_id = 1 : nat64; \
         merkle_root = \"22\"; purpose = 3 : nat64; request_nonce = 4 : nat64; \
         current_timestamp = 5 : nat64; nullifier = \"66\" })"
    );
}
