//! The registry, its challenges and the answers to them.

use title_verifier::challenge::{
    check_and_update_throttle, heartbeat_impl, request_challenge_impl, verify_commit_impl,
    verify_precheck_impl,
};
use title_verifier::decimal::{fe_to_string, parse_fe};
use title_verifier::field::BaseElement;
use title_verifier::layout::{DOMAIN_NODE, TREE_DEPTH};
use title_verifier::permutation::hash;
use title_verifier::principal::Principal;
use title_verifier::registry::{
    add_admin_impl, bootstrap_admin_impl, fe, fresh_state, get_merkle_proof_impl, get_record_impl,
    insert_leaf, is_admin, leaf_hash, node_at, remove_admin_impl, submit_record_impl,
    VerifyPublicInputs, CHALLENGE_TTL_NS, MAX_PRUNE_PER_HEARTBEAT, MIN_CALL_INTERVAL_NS, REGISTRY_ID,
};
use title_verifier::table::Table;
use title_verifier::tree::init_zero_hashes;

fn zero() -> BaseElement {
    BaseElement::new(0)
}

fn p(n: u8) -> Principal {
    Principal::from_slice(&[n, 0xFF])
}

fn vpi(root: BaseElement, nonce: u64, ts: u64, nullifier: &str) -> VerifyPublicInputs {
    VerifyPublicInputs {
        registry_id: REGISTRY_ID,
        merkle_root: fe_to_string(root),
        purpose: 1,
        request_nonce: nonce,
        current_timestamp: ts,
        nullifier: nullifier.to_string(),
    }
}

#[test]
fn bootstrap_admin_succeeds_when_no_admins() {
    let mut s = fresh_state();
    assert!(bootstrap_admin_impl(&mut s, p(1)).is_ok());
    assert!(is_admin(&s, &p(1)));
}

#[test]
fn bootstrap_admin_fails_second_time() {
    let mut s = fresh_state();
    bootstrap_admin_impl(&mut s, p(1)).unwrap();
    let err = bootstrap_admin_impl(&mut s, p(2)).unwrap_err();
    assert!(err.contains("already bootstrapped"));
    assert!(is_admin(&s, &p(1)));
    assert!(!is_admin(&s, &p(2)));
}

#[test]
fn add_admin_unauthorized_rejected() {
    let mut s = fresh_state();
    bootstrap_admin_impl(&mut s, p(1)).unwrap();
    let err = add_admin_impl(&mut s, p(99), p(99)).unwrap_err();
    assert_eq!(err, "unauthorized");
    assert!(!is_admin(&s, &p(99)));
}

#[test]
fn add_admin_by_admin_succeeds() {
    let mut s = fresh_state();
    bootstrap_admin_impl(&mut s, p(1)).unwrap();
    assert!(add_admin_impl(&mut s, p(1), p(2)).is_ok());
    assert!(is_admin(&s, &p(2)));
}

#[test]
fn add_admin_duplicate_is_idempotent_noop() {
    let mut s = fresh_state();
    bootstrap_admin_impl(&mut s, p(1)).unwrap();
    add_admin_impl(&mut s, p(1), p(2)).unwrap();
    add_admin_impl(&mut s, p(1), p(2)).unwrap();
    assert_eq!(s.admins.iter().filter(|a| **a == p(2)).count(), 1);
}

#[test]
fn remove_admin_unauthorized_rejected() {
    let mut s = fresh_state();
    bootstrap_admin_impl(&mut s, p(1)).unwrap();
    add_admin_impl(&mut s, p(1), p(2)).unwrap();
    let err = remove_admin_impl(&mut s, p(99), p(2)).unwrap_err();
    assert_eq!(err, "unauthorized");
    assert!(is_admin(&s, &p(2)));
}

#[test]
fn remove_admin_last_admin_protected() {
    let mut s = fresh_state();
    bootstrap_admin_impl(&mut s, p(1)).unwrap();
    let err = remove_admin_impl(&mut s, p(1), p(1)).unwrap_err();
    assert!(err.contains("last remaining admin"));
    assert!(is_admin(&s, &p(1)));
}

#[test]
fn remove_admin_succeeds_with_multiple_admins() {
    let mut s = fresh_state();
    bootstrap_admin_impl(&mut s, p(1)).unwrap();
    add_admin_impl(&mut s, p(1), p(2)).unwrap();
    assert!(remove_admin_impl(&mut s, p(1), p(2)).is_ok());
    assert!(!is_admin(&s, &p(2)));
}

#[test]
fn remove_admin_nonexistent_principal_is_noop_not_error() {
    let mut s = fresh_state();
    bootstrap_admin_impl(&mut s, p(1)).unwrap();
    add_admin_impl(&mut s, p(1), p(2)).unwrap();
    assert!(remove_admin_impl(&mut s, p(1), p(200)).is_ok());
    assert!(is_admin(&s, &p(1)) && is_admin(&s, &p(2)));
}

#[test]
fn submit_record_unauthorized_rejected() {
    let mut s = fresh_state();
    bootstrap_admin_impl(&mut s, p(1)).unwrap();
    let root_before = s.current_root;
    let err = submit_record_impl(&mut s, p(2), 42, "5".into(), 0, 1, 999).unwrap_err();
    assert!(err.contains("unauthorized"));
    assert_eq!(s.current_root, root_before, "an unauthorized call must not mutate the tree");
}

#[test]
fn submit_record_by_admin_succeeds_and_changes_root() {
    let mut s = fresh_state();
    bootstrap_admin_impl(&mut s, p(1)).unwrap();
    let root_before = s.current_root;
    let root_after = submit_record_impl(&mut s, p(1), 42, "5".into(), 0, 1, 999).unwrap();
    assert_ne!(fe_to_string(root_before), root_after);
    assert_eq!(fe_to_string(s.current_root), root_after);
}

#[test]
fn submit_record_invalid_owner_commitment_rejected() {
    let mut s = fresh_state();
    bootstrap_admin_impl(&mut s, p(1)).unwrap();
    let err = submit_record_impl(&mut s, p(1), 42, "not-a-number".into(), 0, 1, 999).unwrap_err();
    assert!(err.contains("could not parse"));
}

#[test]
fn submit_record_resubmission_updates_leaf_in_place_not_appended() {
    let mut s = fresh_state();
    bootstrap_admin_impl(&mut s, p(1)).unwrap();
    let r1 = submit_record_impl(&mut s, p(1), 42, "5".into(), 0, 1, 999).unwrap();
    let r2 = submit_record_impl(&mut s, p(1), 42, "5".into(), 0, 1, 999).unwrap();
    assert_eq!(r1, r2);
    assert_eq!(s.next_leaf_index, 1, "resubmission must not consume a new leaf index");
}

#[test]
fn submit_record_two_distinct_properties_get_distinct_leaf_indices() {
    let mut s = fresh_state();
    bootstrap_admin_impl(&mut s, p(1)).unwrap();
    submit_record_impl(&mut s, p(1), 42, "5".into(), 0, 1, 999).unwrap();
    submit_record_impl(&mut s, p(1), 43, "6".into(), 0, 1, 999).unwrap();
    assert_eq!(s.next_leaf_index, 2);
    assert_ne!(s.leaf_index_by_property.get(&42), s.leaf_index_by_property.get(&43));
}

#[test]
fn submit_record_updating_one_property_changes_root_but_preserves_other_leaf() {
    let mut s = fresh_state();
    bootstrap_admin_impl(&mut s, p(1)).unwrap();
    submit_record_impl(&mut s, p(1), 42, "5".into(), 0, 1, 999).unwrap();
    submit_record_impl(&mut s, p(1), 43, "6".into(), 0, 1, 999).unwrap();
    let proof_43_before = get_merkle_proof_impl(&s, 43).unwrap();

    submit_record_impl(&mut s, p(1), 42, "999".into(), 1, 0, 12345).unwrap();
    let proof_43_after = get_merkle_proof_impl(&s, 43).unwrap();

    assert_eq!(proof_43_before.leaf_index, proof_43_after.leaf_index);
    assert_ne!(
        proof_43_before.root, proof_43_after.root,
        "root must change after any leaf update"
    );
    assert_eq!(get_record_impl(&s, 43).unwrap().owner_commitment, "6");
}

#[test]
fn get_record_unknown_returns_none() {
    let s = fresh_state();
    assert!(get_record_impl(&s, 999).is_none());
}

#[test]
fn get_record_known_returns_data() {
    let mut s = fresh_state();
    bootstrap_admin_impl(&mut s, p(1)).unwrap();
    submit_record_impl(&mut s, p(1), 42, "5".into(), 0, 1, 999).unwrap();
    let rec = get_record_impl(&s, 42).unwrap();
    assert_eq!(rec.property_id, 42);
    assert_eq!(rec.owner_commitment, "5");
}

#[test]
fn get_merkle_proof_unknown_returns_none() {
    let s = fresh_state();
    assert!(get_merkle_proof_impl(&s, 999).is_none());
}

#[test]
fn get_merkle_proof_matches_manually_recomputed_root() {
    let mut s = fresh_state();
    bootstrap_admin_impl(&mut s, p(1)).unwrap();
    submit_record_impl(&mut s, p(1), 42, "5".into(), 0, 1, 999).unwrap();
    let rec = get_record_impl(&s, 42).unwrap();
    let proof = get_merkle_proof_impl(&s, 42).unwrap();

    let mut cur = leaf_hash(&rec).unwrap();
    for level in 0..TREE_DEPTH {
        let sib = parse_fe(&proof.siblings[level]).unwrap();
        let bit = proof.path_bits[level];
        cur = if bit {
            hash(&[fe(DOMAIN_NODE), sib, cur])
        } else {
            hash(&[fe(DOMAIN_NODE), cur, sib])
        };
    }
    assert_eq!(fe_to_string(cur), proof.root);
}

#[test]
fn request_challenge_anonymous_rejected() {
    let mut s = fresh_state();
    let err = request_challenge_impl(&mut s, Principal::anonymous(), 1_000_000_000, 1).unwrap_err();
    assert!(err.contains("anonymous"));
}

#[test]
fn request_challenge_throttle_blocks_rapid_calls() {
    let mut s = fresh_state();
    request_challenge_impl(&mut s, p(1), 1_000_000_000, 1).unwrap();
    let err = request_challenge_impl(&mut s, p(1), 1_000_000_000 + 1, 1).unwrap_err();
    assert!(err.contains("rate limit"));
}

#[test]
fn request_challenge_succeeds_after_interval() {
    let mut s = fresh_state();
    request_challenge_impl(&mut s, p(1), 1_000_000_000, 1).unwrap();
    let ok = request_challenge_impl(&mut s, p(1), 1_000_000_000 + MIN_CALL_INTERVAL_NS, 1);
    assert!(ok.is_ok());
}

#[test]
fn request_challenge_captures_current_root_snapshot() {
    let mut s = fresh_state();
    bootstrap_admin_impl(&mut s, p(1)).unwrap();
    submit_record_impl(&mut s, p(1), 42, "5".into(), 0, 1, 999).unwrap();
    let view = request_challenge_impl(&mut s, p(2), 1_000_000_000, 1).unwrap();
    assert_eq!(view.merkle_root, fe_to_string(s.current_root));
}

#[test]
fn request_challenge_ids_and_nonces_increase_monotonically() {
    let mut s = fresh_state();
    let v1 = request_challenge_impl(&mut s, p(1), 1_000_000_000, 1).unwrap();
    let v2 = request_challenge_impl(&mut s, p(2), 1_000_000_000 + MIN_CALL_INTERVAL_NS, 1).unwrap();
    assert!(v2.challenge_id > v1.challenge_id);
    assert!(v2.request_nonce > v1.request_nonce);
}

#[test]
fn request_challenge_expires_at_is_now_plus_ttl() {
    let mut s = fresh_state();
    let now = 1_000_000_000i64;
    let view = request_challenge_impl(&mut s, p(1), now, 1).unwrap();
    assert_eq!(view.expires_at, now + CHALLENGE_TTL_NS);
}

#[test]
fn verify_unknown_challenge_id_rejected() {
    let mut s = fresh_state();
    let inputs = vpi(zero(), 0, 0, "1");
    let err = verify_precheck_impl(&mut s, p(1), 1_000_000_000, 999_999, &inputs).unwrap_err();
    assert!(err.contains("unknown or expired"));
}

#[test]
fn verify_consumed_challenge_rejected_replay_attack() {
    let mut s = fresh_state();
    let view = request_challenge_impl(&mut s, p(1), 1_000_000_000, 1).unwrap();
    let root = s.current_root;
    let inputs = vpi(root, view.request_nonce, view.current_timestamp, "n1");
    let t2 = 1_000_000_000 + MIN_CALL_INTERVAL_NS;
    verify_precheck_impl(&mut s, p(1), t2, view.challenge_id, &inputs).unwrap();
    verify_commit_impl(&mut s, view.challenge_id, "n1").unwrap();

    let t3 = t2 + MIN_CALL_INTERVAL_NS;
    let err = verify_precheck_impl(&mut s, p(1), t3, view.challenge_id, &inputs).unwrap_err();
    assert!(err.contains("already consumed"));
}

#[test]
fn verify_expired_challenge_rejected() {
    let mut s = fresh_state();
    let view = request_challenge_impl(&mut s, p(1), 1_000_000_000, 1).unwrap();
    let root = s.current_root;
    let inputs = vpi(root, view.request_nonce, view.current_timestamp, "n1");
    let after_expiry = view.expires_at + 1;
    let err = verify_precheck_impl(&mut s, p(1), after_expiry, view.challenge_id, &inputs).unwrap_err();
    assert!(err.contains("expired"));
}

#[test]
fn verify_registry_id_mismatch_rejected() {
    let mut s = fresh_state();
    let view = request_challenge_impl(&mut s, p(1), 1_000_000_000, 1).unwrap();
    let root = s.current_root;
    let mut inputs = vpi(root, view.request_nonce, view.current_timestamp, "n1");
    inputs.registry_id = 999;
    let err = verify_precheck_impl(&mut s, p(1), 1_000_000_000 + 1, view.challenge_id, &inputs).unwrap_err();
    assert!(err.contains("registry_id"));
}

#[test]
fn verify_merkle_root_mismatch_rejected() {
    let mut s = fresh_state();
    let view = request_challenge_impl(&mut s, p(1), 1_000_000_000, 1).unwrap();
    let wrong_root = BaseElement::new(999_999_999);
    let inputs = vpi(wrong_root, view.request_nonce, view.current_timestamp, "n1");
    let err = verify_precheck_impl(&mut s, p(1), 1_000_000_000 + 1, view.challenge_id, &inputs).unwrap_err();
    assert!(err.contains("merkle_root"));
}

#[test]
fn verify_purpose_mismatch_rejected() {
    let mut s = fresh_state();
    let view = request_challenge_impl(&mut s, p(1), 1_000_000_000, 1).unwrap();
    let root = s.current_root;
    let mut inputs = vpi(root, view.request_nonce, view.current_timestamp, "n1");
    inputs.purpose = 2;
    let err = verify_precheck_impl(&mut s, p(1), 1_000_000_000 + 1, view.challenge_id, &inputs).unwrap_err();
    assert!(err.contains("purpose"));
}

#[test]
fn verify_cross_challenge_public_input_mixing_rejected() {
    let mut s = fresh_state();
    let view_a = request_challenge_impl(&mut s, p(1), 1_000_000_000, 1).unwrap();
    let t2 = 1_000_000_000 + MIN_CALL_INTERVAL_NS;
    let view_b = request_challenge_impl(&mut s, p(2), t2, 1).unwrap();
    let root = s.current_root;
    let inputs_from_a = vpi(root, view_a.request_nonce, view_a.current_timestamp, "n1");

    let t3 = t2 + MIN_CALL_INTERVAL_NS;
    let err = verify_precheck_impl(&mut s, p(2), t3, view_b.challenge_id, &inputs_from_a).unwrap_err();
    assert!(err.contains("mismatch"));
}

#[test]
fn verify_current_timestamp_mismatch_rejected() {
    let mut s = fresh_state();
    let view = request_challenge_impl(&mut s, p(1), 1_000_000_000, 1).unwrap();
    let root = s.current_root;
    let mut inputs = vpi(root, view.request_nonce, view.current_timestamp, "n1");
    inputs.current_timestamp += 1;
    let err = verify_precheck_impl(&mut s, p(1), 1_000_000_000 + 1, view.challenge_id, &inputs).unwrap_err();
    assert!(err.contains("current_timestamp"));
}

#[test]
fn verify_nullifier_double_spend_across_different_challenges_rejected() {
    let mut s = fresh_state();
    let view1 = request_challenge_impl(&mut s, p(1), 1_000_000_000, 1).unwrap();
    let root = s.current_root;
    let inputs1 = vpi(root, view1.request_nonce, view1.current_timestamp, "SAME_NULLIFIER");
    let t2 = 1_000_000_000 + MIN_CALL_INTERVAL_NS;
    verify_precheck_impl(&mut s, p(1), t2, view1.challenge_id, &inputs1).unwrap();
    verify_commit_impl(&mut s, view1.challenge_id, "SAME_NULLIFIER").unwrap();

    let t3 = t2 + MIN_CALL_INTERVAL_NS;
    let view2 = request_challenge_impl(&mut s, p(3), t3, 1).unwrap();
    let inputs2 = vpi(root, view2.request_nonce, view2.current_timestamp, "SAME_NULLIFIER");
    let t4 = t3 + MIN_CALL_INTERVAL_NS;
    let err = verify_precheck_impl(&mut s, p(3), t4, view2.challenge_id, &inputs2).unwrap_err();
    assert!(err.contains("nullifier already spent"));
}

#[test]
fn verify_caller_other_than_requester_rejected_front_running_guard() {
    let mut s = fresh_state();
    let view = request_challenge_impl(&mut s, p(1), 1_000_000_000, 1).unwrap();
    let root = s.current_root;
    let inputs = vpi(root, view.request_nonce, view.current_timestamp, "n1");
    let err = verify_precheck_impl(&mut s, p(2), 1_000_000_000 + 1, view.challenge_id, &inputs).unwrap_err();
    assert!(err.contains("does not match"));
}

#[test]
fn verify_by_original_requester_still_succeeds() {
    let mut s = fresh_state();
    let view = request_challenge_impl(&mut s, p(1), 1_000_000_000, 1).unwrap();
    let root = s.current_root;
    let inputs = vpi(root, view.request_nonce, view.current_timestamp, "n1");
    assert!(verify_precheck_impl(&mut s, p(1), 1_000_000_000 + 1, view.challenge_id, &inputs).is_ok());
}

#[test]
fn verify_anonymous_caller_rejected() {
    let mut s = fresh_state();
    let view = request_challenge_impl(&mut s, p(1), 1_000_000_000, 1).unwrap();
    let root = s.current_root;
    let inputs = vpi(root, view.request_nonce, view.current_timestamp, "n1");
    let err = verify_precheck_impl(&mut s, Principal::anonymous(), 1_000_000_000 + 1, view.challenge_id, &inputs)
        .unwrap_err();
    assert!(err.contains("anonymous"));
}

#[test]
fn verify_throttle_blocks_rapid_repeated_calls() {
    let mut s = fresh_state();
    let view = request_challenge_impl(&mut s, p(1), 1_000_000_000, 1).unwrap();
    let root = s.current_root;
    let inputs = vpi(root, view.request_nonce, view.current_timestamp, "n1");
    verify_precheck_impl(&mut s, p(1), 1_000_000_000 + 1, view.challenge_id, &inputs).unwrap();
    let err = verify_precheck_impl(&mut s, p(1), 1_000_000_000 + 2, view.challenge_id, &inputs).unwrap_err();
    assert!(err.contains("rate limit"));
}

#[test]
fn verify_malformed_merkle_root_string_rejected_gracefully() {
    let mut s = fresh_state();
    let view = request_challenge_impl(&mut s, p(1), 1_000_000_000, 1).unwrap();
    let root = s.current_root;
    let mut inputs = vpi(root, view.request_nonce, view.current_timestamp, "n1");
    inputs.merkle_root = "'; DROP TABLE registry; --".to_string();
    let err = verify_precheck_impl(&mut s, p(1), 1_000_000_000 + 1, view.challenge_id, &inputs).unwrap_err();
    assert!(err.contains("could not parse"));
}

#[test]
fn verify_commit_marks_challenge_consumed_and_nullifier_spent() {
    let mut s = fresh_state();
    let view = request_challenge_impl(&mut s, p(1), 1_000_000_000, 1).unwrap();
    let ok = verify_commit_impl(&mut s, view.challenge_id, "n1").unwrap();
    assert_eq!(ok.nullifier, "n1");
    assert!(s.challenges.get(&view.challenge_id).unwrap().consumed);
    assert!(s.nullifiers.find("n1").unwrap());
}

#[test]
fn verify_commit_rejects_already_spent_nullifier_defense_in_depth() {
    let mut s = fresh_state();
    let view = request_challenge_impl(&mut s, p(1), 1_000_000_000, 1).unwrap();
    verify_commit_impl(&mut s, view.challenge_id, "n1").unwrap();
    let err = verify_commit_impl(&mut s, view.challenge_id, "n1").unwrap_err();
    assert!(err.contains("nullifier already spent"));
}

#[test]
fn heartbeat_prunes_expired_challenges() {
    let mut s = fresh_state();
    let view = request_challenge_impl(&mut s, p(1), 1_000_000_000, 1).unwrap();
    assert!(s.challenges.contains_key(&view.challenge_id));
    heartbeat_impl(&mut s, view.expires_at + 1);
    assert!(!s.challenges.contains_key(&view.challenge_id));
}

#[test]
fn heartbeat_keeps_unexpired_challenges() {
    let mut s = fresh_state();
    let view = request_challenge_impl(&mut s, p(1), 1_000_000_000, 1).unwrap();
    heartbeat_impl(&mut s, view.expires_at - 1);
    assert!(s.challenges.contains_key(&view.challenge_id));
}

#[test]
fn heartbeat_does_not_prune_more_than_its_per_tick_bound() {
    let mut s = fresh_state();
    let mut now = 1_000_000_000i64;
    let mut last_expires = 0i64;
    let total = MAX_PRUNE_PER_HEARTBEAT + 10;
    for i in 0..total {
        let view = request_challenge_impl(&mut s, p((i % 250) as u8 + 1), now, 1).unwrap();
        last_expires = view.expires_at;
        now += MIN_CALL_INTERVAL_NS;
    }
    heartbeat_impl(&mut s, last_expires + 1);
    let remaining = s.challenges.len() as u64;
    assert!(
        remaining >= 10,
        "a single heartbeat tick must not prune more than MAX_PRUNE_PER_HEARTBEAT challenges"
    );
}

#[test]
fn init_zero_hashes_has_correct_length() {
    let z = init_zero_hashes();
    assert_eq!(z.len(), TREE_DEPTH + 1);
}

#[test]
fn node_at_falls_back_to_zero_hash_for_unset_nodes() {
    let s = fresh_state();
    assert_eq!(node_at(&s, 2, 123_456), s.tree.zero_hashes()[2]);
}

#[test]
fn insert_leaf_is_deterministic() {
    let mut s1 = fresh_state();
    let mut s2 = fresh_state();
    let leaf = BaseElement::new(777);
    insert_leaf(&mut s1, 0, leaf);
    insert_leaf(&mut s2, 0, leaf);
    assert_eq!(s1.current_root, s2.current_root);
}

#[test]
fn insert_leaf_at_different_indices_produces_different_roots() {
    let mut s1 = fresh_state();
    let mut s2 = fresh_state();
    let leaf = BaseElement::new(777);
    insert_leaf(&mut s1, 0, leaf);
    insert_leaf(&mut s2, 1, leaf);
    assert_ne!(
        s1.current_root, s2.current_root,
        "the same leaf value at a different tree position must produce a different root"
    );
}

#[test]
fn throttle_rejects_anonymous() {
    let mut store = Table::new();
    let err = check_and_update_throttle(&mut store, Principal::anonymous(), 0).unwrap_err();
    assert!(err.contains("anonymous"));
}

#[test]
fn throttle_rejects_rapid_repeat_from_same_caller() {
    let mut store = Table::new();
    check_and_update_throttle(&mut store, p(1), 1000).unwrap();
    let err = check_and_update_throttle(&mut store, p(1), 1000 + MIN_CALL_INTERVAL_NS - 1).unwrap_err();
    assert!(err.contains("rate limit"));
}

#[test]
fn throttle_allows_call_exactly_at_interval_boundary() {
    let mut store = Table::new();
    check_and_update_throttle(&mut store, p(1), 1000).unwrap();
    assert!(check_and_update_throttle(&mut store, p(1), 1000 + MIN_CALL_INTERVAL_NS).is_ok());
}

#[test]
fn throttle_is_independent_per_principal() {
    let mut store = Table::new();
    check_and_update_throttle(&mut store, p(1), 1000).unwrap();
    assert!(check_and_update_throttle(&mut store, p(2), 1001).is_ok());
}

#[test]
fn parse_fe_rejects_non_numeric_input() {
    assert!(parse_fe("abc").is_err());
}

#[test]
fn parse_fe_rejects_negative_numbers() {
    assert!(parse_fe("-5").is_err());
}

#[test]
fn parse_fe_rejects_empty_string() {
    assert!(parse_fe("").is_err());
}

#[test]
fn parse_fe_accepts_valid_decimal_and_roundtrips_through_fe_to_string() {
    let v = parse_fe("12345").unwrap();
    assert_eq!(fe_to_string(v), "12345");
}

#[test]
fn parse_fe_tolerates_surrounding_whitespace() {
    assert!(parse_fe("  42  ").is_ok());
}
