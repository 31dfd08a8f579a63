//! The random trials.

use title_verifier::fuzz::{fuzz_boolean_violations_are_caught, Rng};

#[test]
fn rng_is_deterministic_given_a_seed() {
    let mut a = Rng(12345);
    let mut b = Rng(12345);
    for _ in 0..10 {
        assert_eq!(a.next_u64(), b.next_u64());
    }
}

#[test]
fn rng_does_not_get_stuck() {
    let mut rng = Rng(0xF00DBABE);
    let first = rng.next_u64();
    let second = rng.next_u64();
    assert_ne!(first, second);
}

#[test]
fn rng_zero_seed_still_produces_output() {
    let mut rng = Rng(0);
    assert_eq!(rng.next_u64(), 0);
}

#[test]
fn boolean_violations_are_always_caught() {
    let missed = fuzz_boolean_violations_are_caught(0xC0FFEE, 200);
    assert_eq!(
        missed, 0,
        "found a non-boolean AUX_B value that the merkle-bit constraint didn't flag"
    );
}
