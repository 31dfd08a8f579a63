//! Challenges and the answers to them.

use vstd::prelude::*;

use crate::air::PublicInputs;
use crate::challenge;
use crate::challenge::{
    air_public_inputs, check_and_update_throttle, check_throttle, heartbeat_impl,
    request_challenge_impl, verify_begin, verify_commit_impl, verify_crypto_impl, verify_finish,
    verify_precheck_impl, ProofCheck,
};
use crate::decimal;
use crate::field;
use crate::principal::Principal;
use crate::promises;
use crate::registry;
use crate::registry::{Challenge, ChallengeView, State, VerifyOk, VerifyPublicInputs};
use crate::table::{Table, TextKey};

verus! {

/// Whether a caller may call: they say who they are, and their last call lies two
/// seconds back.
pub open spec fn admitted(calls: Map<Seq<char>, i64>, caller: Principal, now_ns: i64) -> bool {
    &&& caller@ != seq![4u8]
    &&& calls.contains_key(caller.text_of()) ==> now_ns - calls[caller.text_of()] >= 2_000_000_000
}

/// Whether the time since the last call of a caller who says who they are can be counted
/// in 64 bits.
pub open spec fn clock_fits(calls: Map<Seq<char>, i64>, caller: Principal, now_ns: i64) -> bool {
    caller@ != seq![4u8] && calls.contains_key(caller.text_of()) ==> -0x8000_0000_0000_0000
        <= now_ns - calls[caller.text_of()] <= 0x7fff_ffff_ffff_ffff
}

/// Whether a call notes its time, and touches the time of no other caller.
pub open spec fn noted(
    before: Map<Seq<char>, i64>,
    after: Map<Seq<char>, i64>,
    caller: Principal,
    now_ns: i64,
) -> bool {
    &&& after.contains_key(caller.text_of())
    &&& after[caller.text_of()] == now_ns
    &&& forall|t: Seq<char>|
        t != caller.text_of() ==> (#[trigger] after.contains_key(t) <==> before.contains_key(t)) && (
        before.contains_key(t) ==> after[t] == before[t])
}

/// A call is let through exactly if its caller says who they are and has waited for
/// two seconds; otherwise it is told which of the two was missing.
pub proof fn law_throttle(
    calls: &Table<Principal, i64>,
    caller: Principal,
    now_ns: i64,
    r: Result<(), String>,
)
    requires
        calls.wf(),
        clock_fits(calls@, caller, now_ns),
        call_ensures(check_throttle, (calls, caller, now_ns), r),
    ensures
        r is Ok <==> admitted(calls@, caller, now_ns),
        caller@ == seq![4u8] ==> r is Err && r->Err_0@ == "anonymous callers are not permitted"@,
        caller@ != seq![4u8] && !admitted(calls@, caller, now_ns) ==> r is Err && r->Err_0@
            == "rate limit: try again shortly"@,
{
}

/// Whether a number of seconds is that of a time in nanoseconds: the whole seconds
/// since the epoch, or, for a time before it, the whole seconds to it, counted down
/// from `2^64`.
pub open spec fn whole_seconds_of(now_ns: i64, ts: u64) -> bool {
    if now_ns >= 0 {
        ts * 1_000_000_000 <= now_ns < (ts + 1) * 1_000_000_000
    } else {
        exists|back: int|
            0 <= back && #[trigger] (back * 1_000_000_000) <= -now_ns < back * 1_000_000_000
                + 1_000_000_000 && ts == (if back == 0 {
                0
            } else {
                0x1_0000_0000_0000_0000 - back
            })
    }
}

/// A request is granted exactly to a caller who may call. Who is granted one gets the
/// next number and the next nonce, for their purpose, the current root and the whole
/// seconds of the current time, open for five minutes; the registry keeps the same
/// for them alone, not yet consumed. Nothing else changes, and nothing at all where
/// the request is refused.
pub proof fn law_requests(
    before: State,
    caller: Principal,
    now_ns: i64,
    purpose: u64,
    r: Result<ChallengeView, String>,
    after: State,
)
    requires
        before.wf(),
        clock_fits(before.last_challenge_call_at@, caller, now_ns),
        admitted(before.last_challenge_call_at@, caller, now_ns) ==> {
            &&& before.next_challenge_id < u64::MAX
            &&& before.next_nonce < u64::MAX
            &&& now_ns + 300_000_000_000 <= i64::MAX
        },
        exists|s: &mut State|
            *s == before && *final(s) == after && #[trigger] call_ensures(
                request_challenge_impl,
                (s, caller, now_ns, purpose),
                r,
            ),
    ensures
        r is Ok <==> admitted(before.last_challenge_call_at@, caller, now_ns),
        r is Err ==> after == before,
        r is Err && caller@ == seq![4u8] ==> r->Err_0@ == "anonymous callers are not permitted"@,
        r is Err && caller@ != seq![4u8] ==> r->Err_0@ == "rate limit: try again shortly"@,
        r is Ok ==> {
            let view = r->Ok_0;
            let kept = after.challenges@[before.next_challenge_id];
            &&& view.challenge_id == before.next_challenge_id
            &&& view.registry_id == 1
            &&& decimal::parsed(view.merkle_root@) == Some(before.current_root)
            &&& view.merkle_root@ == decimal::numeral_of(before.current_root@)
            &&& view.purpose == purpose
            &&& view.request_nonce == before.next_nonce
            &&& whole_seconds_of(now_ns, view.current_timestamp)
            &&& view.expires_at == now_ns + 300_000_000_000
            &&& after.challenges@.contains_key(before.next_challenge_id)
            &&& kept.registry_id == 1
            &&& kept.merkle_root == before.current_root
            &&& kept.purpose == purpose
            &&& kept.request_nonce == before.next_nonce
            &&& kept.current_timestamp == view.current_timestamp
            &&& kept.expires_at == now_ns + 300_000_000_000
            &&& !kept.consumed
            &&& kept.requester == caller
        },
        r is Ok ==> {
            &&& forall|id: u64|
                id != before.next_challenge_id ==> (#[trigger] after.challenges@.contains_key(id)
                    <==> before.challenges@.contains_key(id)) && (before.challenges@.contains_key(id)
                    ==> after.challenges@[id] == before.challenges@[id])
            &&& after.next_challenge_id == before.next_challenge_id + 1
            &&& after.next_nonce == before.next_nonce + 1
            &&& noted(
                before.last_challenge_call_at@,
                after.last_challenge_call_at@,
                caller,
                now_ns,
            )
            &&& after == (State {
                challenges: after.challenges,
                next_challenge_id: after.next_challenge_id,
                next_nonce: after.next_nonce,
                last_challenge_call_at: after.last_challenge_call_at,
                ..before
            })
        },
        after.wf(),
{
    decimal::law_text_round_trip(before.current_root);
    if now_ns < 0 {
        let back = (-now_ns) / 1_000_000_000;
        assert((back * 1_000_000_000) <= -now_ns < back * 1_000_000_000 + 1_000_000_000);
    }
}

/// Of two challenges the one that was issued later shows no earlier time, and a later
/// one if a second has passed, as long as no time lies before the epoch.
pub proof fn law_later_requests_show_later_times(
    first_ns: i64,
    first: ChallengeView,
    second_ns: i64,
    second: ChallengeView,
    one: State,
    one_after: State,
    one_caller: Principal,
    one_purpose: u64,
    other: State,
    other_after: State,
    other_caller: Principal,
    other_purpose: u64,
)
    requires
        one.wf(),
        other.wf(),
        0 <= first_ns <= second_ns <= i64::MAX - 300_000_000_000,
        clock_fits(one.last_challenge_call_at@, one_caller, first_ns),
        clock_fits(other.last_challenge_call_at@, other_caller, second_ns),
        one.next_challenge_id < u64::MAX && one.next_nonce < u64::MAX,
        other.next_challenge_id < u64::MAX && other.next_nonce < u64::MAX,
        exists|s: &mut State|
            *s == one && *final(s) == one_after && #[trigger] call_ensures(
                request_challenge_impl,
                (s, one_caller, first_ns, one_purpose),
                Ok(first),
            ),
        exists|s: &mut State|
            *s == other && *final(s) == other_after && #[trigger] call_ensures(
                request_challenge_impl,
                (s, other_caller, second_ns, other_purpose),
                Ok(second),
            ),
    ensures
        first.current_timestamp <= second.current_timestamp,
        second_ns - first_ns >= 1_000_000_000 ==> first.current_timestamp
            < second.current_timestamp,
        first.expires_at <= second.expires_at,
{
    law_requests(one, one_caller, first_ns, one_purpose, Ok(first), one_after);
    law_requests(other, other_caller, second_ns, other_purpose, Ok(second), other_after);
}

/// Whether two texts are one nullifier: the same text, or the same number.
pub open spec fn same_nullifier(a: Seq<char>, b: Seq<char>) -> bool {
    a == b || (decimal::parsed(a) is Some && decimal::parsed(a) == decimal::parsed(b))
}

/// Whether a nullifier is marked as spent under some text.
pub open spec fn marked_spent(s: State, nullifier: Seq<char>) -> bool {
    exists|t: Seq<char>| #[trigger]
        s.nullifiers@.contains_key(t) && s.nullifiers@[t] && same_nullifier(t, nullifier)
}

/// The key of a nullifier is a text of it, and two nullifiers have one key exactly if
/// they are one.
pub proof fn law_keys_tell_nullifiers_apart(a: Seq<char>, b: Seq<char>)
    ensures
        same_nullifier(registry::nullifier_key(a), a),
        registry::nullifier_key(a) == registry::nullifier_key(b) <==> same_nullifier(a, b),
{
    if decimal::parsed(a) is Some {
        field::lemma_elem_view(decimal::numeral(decimal::trimmed(a))->0);
        decimal::law_text_round_trip(decimal::parsed(a)->0);
    }
    if decimal::parsed(b) is Some {
        field::lemma_elem_view(decimal::numeral(decimal::trimmed(b))->0);
        decimal::law_text_round_trip(decimal::parsed(b)->0);
    }
}

/// A nullifier is spent exactly if it is marked as spent under some text.
proof fn lemma_spent(s: State, nullifier: Seq<char>)
    requires
        s.wf(),
    ensures
        challenge::spent(s, nullifier) <==> marked_spent(s, nullifier),
{
    let key = registry::nullifier_key(nullifier);
    law_keys_tell_nullifiers_apart(nullifier, nullifier);
    if challenge::spent(s, nullifier) {
        assert(s.nullifiers@.contains_key(key) && s.nullifiers@[key]);
    }
    if marked_spent(s, nullifier) {
        let t = choose|t: Seq<char>| #[trigger]
            s.nullifiers@.contains_key(t) && s.nullifiers@[t] && same_nullifier(t, nullifier);
        law_keys_tell_nullifiers_apart(t, nullifier);
    }
}

/// Whether an answer fits a challenge that is there: it comes from whoever asked for
/// it, in time and for the first time, repeats its registry, root, purpose, nonce and
/// time, and its nullifier is not spent.
pub open spec fn fits(
    s: State,
    caller: Principal,
    now_ns: i64,
    id: u64,
    inputs: VerifyPublicInputs,
) -> bool {
    &&& s.challenges@.contains_key(id)
    &&& caller == s.challenges@[id].requester
    &&& !s.challenges@[id].consumed
    &&& now_ns <= s.challenges@[id].expires_at
    &&& inputs.registry_id == s.challenges@[id].registry_id
    &&& decimal::parsed(inputs.merkle_root@) == Some(s.challenges@[id].merkle_root)
    &&& inputs.purpose == s.challenges@[id].purpose
    &&& inputs.request_nonce == s.challenges@[id].request_nonce
    &&& inputs.current_timestamp == s.challenges@[id].current_timestamp
    &&& !marked_spent(s, inputs.nullifier@)
}

/// What a look at an answer leaves behind: the time of the call, if it was let
/// through, and nothing else.
pub open spec fn only_noted(before: State, after: State, caller: Principal, now_ns: i64) -> bool {
    &&& admitted(before.last_verify_call_at@, caller, now_ns) ==> noted(
        before.last_verify_call_at@,
        after.last_verify_call_at@,
        caller,
        now_ns,
    )
    &&& !admitted(before.last_verify_call_at@, caller, now_ns) ==> after.last_verify_call_at@
        == before.last_verify_call_at@
    &&& after == (State { last_verify_call_at: after.last_verify_call_at, ..before })
}

/// The pre-check passes exactly those answers whose caller may call and that fit a
/// challenge in every respect; whatever it finds, it changes at most the time of the
/// caller's last answer.
pub proof fn law_prechecks(
    before: State,
    caller: Principal,
    now_ns: i64,
    id: u64,
    inputs: &VerifyPublicInputs,
    r: Result<(), String>,
    after: State,
)
    requires
        before.wf(),
        clock_fits(before.last_verify_call_at@, caller, now_ns),
        exists|s: &mut State|
            *s == before && *final(s) == after && #[trigger] call_ensures(
                verify_precheck_impl,
                (s, caller, now_ns, id, inputs),
                r,
            ),
    ensures
        r is Ok <==> admitted(before.last_verify_call_at@, caller, now_ns) && fits(
            before,
            caller,
            now_ns,
            id,
            *inputs,
        ),
        r is Err ==> r->Err_0@ == told(before, caller, now_ns, id, *inputs),
        only_noted(before, after, caller, now_ns),
        after.wf(),
{
    lemma_spent(before, inputs.nullifier@);
}

/// What an answer is told that the pre-check refuses: the first thing that is wrong with
/// it, in this order.
pub open spec fn told(
    s: State,
    caller: Principal,
    now_ns: i64,
    id: u64,
    inputs: VerifyPublicInputs,
) -> Seq<char> {
    let c = s.challenges@[id];
    if caller@ == seq![4u8] {
        "anonymous callers are not permitted"@
    } else if !admitted(s.last_verify_call_at@, caller, now_ns) {
        "rate limit: try again shortly"@
    } else if !s.challenges@.contains_key(id) {
        "unknown or expired challenge"@
    } else if caller != c.requester {
        "caller does not match the principal that requested this challenge"@
    } else if c.consumed {
        "challenge already consumed"@
    } else if now_ns > c.expires_at {
        "challenge expired"@
    } else if inputs.registry_id != c.registry_id {
        "registry_id mismatch"@
    } else if decimal::parsed(inputs.merkle_root@) is None {
        unreadable(inputs.merkle_root@)
    } else if decimal::parsed(inputs.merkle_root@) != Some(c.merkle_root) {
        "merkle_root mismatch"@
    } else if inputs.purpose != c.purpose {
        "purpose mismatch"@
    } else if inputs.request_nonce != c.request_nonce {
        "request_nonce mismatch"@
    } else if inputs.current_timestamp != c.current_timestamp {
        "current_timestamp mismatch"@
    } else {
        "nullifier already spent"@
    }
}

/// What a text is told that is no numeral.
pub open spec fn unreadable(text: Seq<char>) -> Seq<char> {
    "could not parse '"@ + text + "' as a u128 decimal integer"@
}

/// Whether public inputs are those that an answer names: its numbers as they are, and
/// its texts as the numbers that they read as.
pub open spec fn named_by(pi: PublicInputs, inputs: VerifyPublicInputs) -> bool {
    &&& pi.registry_id@ == inputs.registry_id
    &&& decimal::parsed(inputs.merkle_root@) == Some(pi.merkle_root)
    &&& pi.purpose@ == inputs.purpose
    &&& pi.request_nonce@ == inputs.request_nonce
    &&& pi.current_timestamp@ == inputs.current_timestamp
    &&& decimal::parsed(inputs.nullifier@) == Some(pi.nullifier)
}

/// An answer claims the statement with exactly the public inputs that it names, and is
/// refused where root or nullifier is no numeral.
pub proof fn law_answers_claim_what_they_name(
    inputs: &VerifyPublicInputs,
    r: Result<PublicInputs, String>,
)
    requires
        call_ensures(air_public_inputs, (inputs,), r),
    ensures
        r is Ok <==> decimal::parsed(inputs.merkle_root@) is Some && decimal::parsed(
            inputs.nullifier@,
        ) is Some,
        r is Ok ==> named_by(r->Ok_0, *inputs),
        r is Err ==> r->Err_0@ == "could not parse '"@ + (if decimal::parsed(
            inputs.merkle_root@,
        ) is None {
            inputs.merkle_root@
        } else {
            inputs.nullifier@
        }) + "' as a u128 decimal integer"@,
{
    lemma_small(inputs.registry_id);
    lemma_small(inputs.purpose);
    lemma_small(inputs.request_nonce);
    lemma_small(inputs.current_timestamp);
}

/// A 64-bit number is its own representative.
proof fn lemma_small(n: u64)
    ensures
        field::elem(n as int)@ == n,
{
    field::lemma_elem_view(n as int);
    vstd::arithmetic::div_mod::lemma_small_mod(n as nat, field::p() as nat);
}

/// An answer is taken in exactly if the pre-check passes it and its nullifier is a
/// numeral; its proof is then checked against the registry, root, purpose, nonce and
/// time of the challenge.
pub proof fn law_answers_are_checked_against_their_challenge(
    before: State,
    caller: Principal,
    now_ns: i64,
    id: u64,
    inputs: &VerifyPublicInputs,
    r: Result<PublicInputs, String>,
    after: State,
)
    requires
        before.wf(),
        clock_fits(before.last_verify_call_at@, caller, now_ns),
        exists|s: &mut State|
            *s == before && *final(s) == after && #[trigger] call_ensures(
                verify_begin,
                (s, caller, now_ns, id, inputs),
                r,
            ),
    ensures
        r is Ok <==> admitted(before.last_verify_call_at@, caller, now_ns) && fits(
            before,
            caller,
            now_ns,
            id,
            *inputs,
        ) && decimal::parsed(inputs.nullifier@) is Some,
        r is Ok ==> {
            let c = before.challenges@[id];
            let pi = r->Ok_0;
            &&& pi.registry_id@ == c.registry_id
            &&& pi.merkle_root == c.merkle_root
            &&& pi.purpose@ == c.purpose
            &&& pi.request_nonce@ == c.request_nonce
            &&& pi.current_timestamp@ == c.current_timestamp
            &&& decimal::parsed(inputs.nullifier@) == Some(pi.nullifier)
        },
        r is Err ==> r->Err_0@ == (if admitted(before.last_verify_call_at@, caller, now_ns) && fits(
            before,
            caller,
            now_ns,
            id,
            *inputs,
        ) {
            unreadable(inputs.nullifier@)
        } else {
            told(before, caller, now_ns, id, *inputs)
        }),
        only_noted(before, after, caller, now_ns),
        after.wf(),
{
    lemma_spent(before, inputs.nullifier@);
    lemma_small(inputs.registry_id);
    lemma_small(inputs.purpose);
    lemma_small(inputs.request_nonce);
    lemma_small(inputs.current_timestamp);
}

/// Only a proof that was found valid passes, and it passes exactly if root and
/// nullifier are numerals; otherwise the answer is told what was wrong with its
/// numerals or with its proof.
pub proof fn law_only_valid_proofs_pass(
    inputs: &VerifyPublicInputs,
    check: ProofCheck,
    r: Result<(), String>,
)
    requires
        call_ensures(verify_crypto_impl, (inputs, check), r),
    ensures
        r is Ok <==> check is Accepted && decimal::parsed(inputs.merkle_root@) is Some
            && decimal::parsed(inputs.nullifier@) is Some,
        decimal::parsed(inputs.merkle_root@) is Some && decimal::parsed(inputs.nullifier@) is Some
            ==> match check {
            ProofCheck::Accepted => r is Ok,
            ProofCheck::Undecodable(e) => r is Err && r->Err_0@
                == "failed to decode proof bytes: "@ + e@,
            ProofCheck::Rejected(e) => r is Err && r->Err_0@ == "invalid proof: "@ + e@,
            ProofCheck::Panicked => r is Err && r->Err_0@
                == "invalid proof: verifier panicked on malformed proof data"@,
        },
        decimal::parsed(inputs.merkle_root@) is None ==> r is Err && r->Err_0@
            == "could not parse '"@ + inputs.merkle_root@ + "' as a u128 decimal integer"@,
        decimal::parsed(inputs.merkle_root@) is Some && decimal::parsed(inputs.nullifier@) is None
            ==> r is Err && r->Err_0@ == "could not parse '"@ + inputs.nullifier@
            + "' as a u128 decimal integer"@,
{
}

/// What an accepted answer leaves behind: its challenge is consumed and otherwise as
/// it was, its nullifier is spent in each of its spellings, and every other challenge
/// and nullifier, and the rest of the registry, are as they were.
pub open spec fn accepted(before: State, after: State, id: u64, nullifier: Seq<char>) -> bool {
    &&& forall|k: u64| #[trigger]
        after.challenges@.contains_key(k) <==> before.challenges@.contains_key(k)
    &&& forall|k: u64|
        k != id && before.challenges@.contains_key(k) ==> #[trigger] after.challenges@[k]
            == before.challenges@[k]
    &&& before.challenges@.contains_key(id) ==> {
        &&& after.challenges@[id].consumed
        &&& after.challenges@[id] == (Challenge { consumed: true, ..before.challenges@[id] })
    }
    &&& forall|other: Seq<char>| #[trigger]
        marked_spent(after, other) <==> marked_spent(before, other) || same_nullifier(
            other,
            nullifier,
        )
    &&& after == (State { challenges: after.challenges, nullifiers: after.nullifiers, ..before })
}

proof fn lemma_accepted(before: State, after: State, id: u64, nullifier: Seq<char>)
    requires
        before.wf(),
        after.wf(),
        challenge::committed(before, after, id, nullifier),
    ensures
        accepted(before, after, id, nullifier),
{
    assert forall|other: Seq<char>| #[trigger] marked_spent(after, other) <==> marked_spent(
        before,
        other,
    ) || same_nullifier(other, nullifier) by {
        lemma_spent(before, other);
        lemma_spent(after, other);
        law_keys_tell_nullifiers_apart(other, nullifier);
    }
}

/// A proof is accepted exactly if its nullifier was not spent, in any spelling.
pub proof fn law_commits(
    before: State,
    id: u64,
    nullifier: &str,
    r: Result<VerifyOk, String>,
    after: State,
)
    requires
        before.wf(),
        exists|s: &mut State|
            *s == before && *final(s) == after && #[trigger] call_ensures(
                verify_commit_impl,
                (s, id, nullifier),
                r,
            ),
    ensures
        r is Ok <==> !marked_spent(before, nullifier@),
        r is Ok ==> r->Ok_0.nullifier@ == nullifier@ && accepted(before, after, id, nullifier@),
        r is Err ==> r->Err_0@ == "nullifier already spent"@ && after == before,
        after.wf(),
{
    lemma_spent(before, nullifier@);
    if r is Ok {
        lemma_accepted(before, after, id, nullifier@);
    }
}

/// Distinct nullifiers do not touch each other: accepting a proof with one of them
/// leaves as it is whether another one is spent, and does not stop a proof with it.
pub proof fn law_other_nullifiers_are_untouched(
    before: State,
    id: u64,
    nullifier: &str,
    r: Result<VerifyOk, String>,
    after: State,
    other: &str,
    other_id: u64,
    s: Result<VerifyOk, String>,
    end: State,
)
    requires
        before.wf(),
        nullifier@ != other@,
        decimal::parsed(nullifier@) is None || decimal::parsed(nullifier@) != decimal::parsed(other@),
        exists|t: &mut State|
            *t == before && *final(t) == after && #[trigger] call_ensures(
                verify_commit_impl,
                (t, id, nullifier),
                r,
            ),
        exists|t: &mut State|
            *t == after && *final(t) == end && #[trigger] call_ensures(
                verify_commit_impl,
                (t, other_id, other),
                s,
            ),
    ensures
        marked_spent(after, other@) <==> marked_spent(before, other@),
        s is Ok <==> !marked_spent(before, other@),
{
    law_commits(before, id, nullifier, r, after);
    law_commits(after, other_id, other, s, end);
}

/// An answer is accepted exactly if its proof was found valid, its numerals can be read
/// and its nullifier was not spent in the meantime; otherwise nothing changes.
pub proof fn law_finishes(
    before: State,
    id: u64,
    inputs: &VerifyPublicInputs,
    check: ProofCheck,
    r: Result<VerifyOk, String>,
    after: State,
)
    requires
        before.wf(),
        exists|s: &mut State|
            *s == before && *final(s) == after && #[trigger] call_ensures(
                verify_finish,
                (s, id, inputs, check),
                r,
            ),
    ensures
        r is Ok <==> {
            &&& check is Accepted
            &&& decimal::parsed(inputs.merkle_root@) is Some
            &&& decimal::parsed(inputs.nullifier@) is Some
            &&& !marked_spent(before, inputs.nullifier@)
        },
        r is Ok ==> r->Ok_0.nullifier@ == inputs.nullifier@ && accepted(
            before,
            after,
            id,
            inputs.nullifier@,
        ),
        r is Err ==> after == before,
        r is Err ==> r->Err_0@ == (if decimal::parsed(inputs.merkle_root@) is None {
            unreadable(inputs.merkle_root@)
        } else if decimal::parsed(inputs.nullifier@) is None {
            unreadable(inputs.nullifier@)
        } else {
            match check {
                ProofCheck::Accepted => "nullifier already spent"@,
                ProofCheck::Undecodable(e) => "failed to decode proof bytes: "@ + e@,
                ProofCheck::Rejected(e) => "invalid proof: "@ + e@,
                ProofCheck::Panicked => "invalid proof: verifier panicked on malformed proof data"@,
            }
        }),
        after.wf(),
{
    lemma_spent(before, inputs.nullifier@);
    if r is Ok {
        lemma_accepted(before, after, id, inputs.nullifier@);
    }
}

/// An answer that was taken in is accepted if its proof is found valid, and then never
/// taken in again, by anybody and at any time, nor any other answer for its challenge or
/// with its nullifier.
pub proof fn law_valid_answers_are_accepted_once(
    before: State,
    caller: Principal,
    now_ns: i64,
    id: u64,
    inputs: &VerifyPublicInputs,
    pi: PublicInputs,
    middle: State,
    r: Result<VerifyOk, String>,
    after: State,
    later_caller: Principal,
    later_ns: i64,
    later_id: u64,
    later_inputs: &VerifyPublicInputs,
    q: Result<PublicInputs, String>,
    end: State,
)
    requires
        before.wf(),
        clock_fits(before.last_verify_call_at@, caller, now_ns),
        exists|s: &mut State|
            *s == before && *final(s) == middle && #[trigger] call_ensures(
                verify_begin,
                (s, caller, now_ns, id, inputs),
                Ok(pi),
            ),
        exists|s: &mut State|
            *s == middle && *final(s) == after && #[trigger] call_ensures(
                verify_finish,
                (s, id, inputs, ProofCheck::Accepted),
                r,
            ),
        clock_fits(after.last_verify_call_at@, later_caller, later_ns),
        later_id == id || same_nullifier(later_inputs.nullifier@, inputs.nullifier@),
        exists|s: &mut State|
            *s == after && *final(s) == end && #[trigger] call_ensures(
                verify_begin,
                (s, later_caller, later_ns, later_id, later_inputs),
                q,
            ),
    ensures
        r is Ok,
        r->Ok_0.nullifier@ == inputs.nullifier@,
        q is Err,
{
    law_answers_are_checked_against_their_challenge(
        before,
        caller,
        now_ns,
        id,
        inputs,
        Ok(pi),
        middle,
    );
    law_finishes(middle, id, inputs, ProofCheck::Accepted, r, after);
    assert(marked_spent(before, inputs.nullifier@) <==> marked_spent(middle, inputs.nullifier@));
    assert(after.challenges@.contains_key(id));
    assert(marked_spent(after, later_inputs.nullifier@) || later_id == id);
    law_answers_are_checked_against_their_challenge(
        after,
        later_caller,
        later_ns,
        later_id,
        later_inputs,
        q,
        end,
    );
}

/// A heartbeat goes through at most 50 numbers, from the oldest one that it has not
/// gone through yet. It removes the challenges with the numbers that it goes through,
/// all of them expired, and nothing else; it stops early only at an open challenge or
/// at the end.
pub proof fn law_heartbeats(before: State, now_ns: i64, after: State)
    requires
        before.wf(),
        exists|s: &mut State|
            *s == before && *final(s) == after && #[trigger] call_ensures(
                heartbeat_impl,
                (s, now_ns),
                (),
            ),
    ensures
        ({
            let from = before.oldest_unpruned_challenge_id;
            let to = after.oldest_unpruned_challenge_id;
            &&& from <= to <= before.next_challenge_id
            &&& to - from <= 50
            &&& forall|id: u64| #[trigger]
                after.challenges@.contains_key(id) <==> before.challenges@.contains_key(id) && !(from
                    <= id < to)
            &&& forall|id: u64|
                after.challenges@.contains_key(id) ==> #[trigger] after.challenges@[id]
                    == before.challenges@[id]
            &&& forall|id: u64|
                from <= id < to && #[trigger] before.challenges@.contains_key(id) ==> now_ns
                    > before.challenges@[id].expires_at
            &&& to - from < 50 ==> to == before.next_challenge_id || (
            before.challenges@.contains_key(to) && now_ns <= before.challenges@[to].expires_at)
        }),
        after == (State {
            challenges: after.challenges,
            oldest_unpruned_challenge_id: after.oldest_unpruned_challenge_id,
            ..before
        }),
        after.wf(),
{
    promises::law_pruning_is_bounded_and_removes_expired_only(
        before.challenges@,
        before.oldest_unpruned_challenge_id,
        before.next_challenge_id,
        now_ns,
        50,
    );
}

/// Noting a call lets it through exactly if its caller may call, and changes the times
/// of nobody else.
pub proof fn law_throttle_notes_calls(
    before: Table<Principal, i64>,
    caller: Principal,
    now_ns: i64,
    r: Result<(), String>,
    after: Table<Principal, i64>,
)
    requires
        before.wf(),
        clock_fits(before@, caller, now_ns),
        exists|t: &mut Table<Principal, i64>|
            *t == before && *final(t) == after && #[trigger] call_ensures(
                check_and_update_throttle,
                (t, caller, now_ns),
                r,
            ),
    ensures
        r is Ok <==> admitted(before@, caller, now_ns),
        r is Ok ==> noted(before@, after@, caller, now_ns),
        r is Err ==> after == before,
        r is Err && caller@ == seq![4u8] ==> r->Err_0@ == "anonymous callers are not permitted"@,
        r is Err && caller@ != seq![4u8] ==> r->Err_0@ == "rate limit: try again shortly"@,
        after.wf(),
{
}

/// A challenge can be answered by whoever asked for it: an answer that repeats what
/// they were told passes the pre-check until five minutes have gone, whatever new
/// nullifier it comes with, and at no time after.
pub proof fn law_requests_can_be_answered_for_five_minutes(
    before: State,
    caller: Principal,
    then_ns: i64,
    purpose: u64,
    view: ChallengeView,
    middle: State,
    now_ns: i64,
    inputs: &VerifyPublicInputs,
    r: Result<(), String>,
    after: State,
)
    requires
        before.wf(),
        before.next_challenge_id < u64::MAX,
        before.next_nonce < u64::MAX,
        then_ns + 300_000_000_000 <= i64::MAX,
        clock_fits(before.last_challenge_call_at@, caller, then_ns),
        exists|s: &mut State|
            *s == before && *final(s) == middle && #[trigger] call_ensures(
                request_challenge_impl,
                (s, caller, then_ns, purpose),
                Ok(view),
            ),
        inputs.registry_id == view.registry_id,
        inputs.merkle_root@ == view.merkle_root@,
        inputs.purpose == view.purpose,
        inputs.request_nonce == view.request_nonce,
        inputs.current_timestamp == view.current_timestamp,
        !marked_spent(middle, inputs.nullifier@),
        admitted(middle.last_verify_call_at@, caller, now_ns),
        clock_fits(middle.last_verify_call_at@, caller, now_ns),
        exists|s: &mut State|
            *s == middle && *final(s) == after && #[trigger] call_ensures(
                verify_precheck_impl,
                (s, caller, now_ns, view.challenge_id, inputs),
                r,
            ),
    ensures
        r is Ok <==> now_ns - then_ns <= 300_000_000_000,
{
    law_requests(before, caller, then_ns, purpose, Ok(view), middle);
    law_prechecks(middle, caller, now_ns, view.challenge_id, inputs, r, after);
}

/// Every operation on challenges may be called on every registry that is in order, as
/// long as the clock and the counters have room for what the call does.
pub proof fn law_challenge_operations_may_be_called(
    before: State,
    caller: Principal,
    now_ns: i64,
    purpose: u64,
    id: u64,
    inputs: &VerifyPublicInputs,
    nullifier: &str,
    check: ProofCheck,
)
    requires
        before.wf(),
        clock_fits(before.last_challenge_call_at@, caller, now_ns),
        clock_fits(before.last_verify_call_at@, caller, now_ns),
        admitted(before.last_challenge_call_at@, caller, now_ns) ==> {
            &&& before.next_challenge_id < u64::MAX
            &&& before.next_nonce < u64::MAX
            &&& now_ns + 300_000_000_000 <= i64::MAX
        },
    ensures
        forall|s: &mut State|
            *s == before ==> #[trigger] call_requires(
                request_challenge_impl,
                (s, caller, now_ns, purpose),
            ),
        forall|s: &mut State|
            *s == before ==> #[trigger] call_requires(
                verify_precheck_impl,
                (s, caller, now_ns, id, inputs),
            ),
        forall|s: &mut State|
            *s == before ==> #[trigger] call_requires(
                verify_begin,
                (s, caller, now_ns, id, inputs),
            ),
        forall|s: &mut State|
            *s == before ==> #[trigger] call_requires(verify_commit_impl, (s, id, nullifier)),
        forall|s: &mut State|
            *s == before ==> #[trigger] call_requires(verify_finish, (s, id, inputs, check)),
        forall|s: &mut State| *s == before ==> #[trigger] call_requires(heartbeat_impl, (s, now_ns)),
        call_requires(air_public_inputs, (inputs,)),
        call_requires(verify_crypto_impl, (inputs, check)),
{
}

/// Proofs are accepted from 80 bits of conjectured security on.
pub proof fn law_least_security()
    ensures
        challenge::MIN_CONJECTURED_SECURITY == 80,
{
}

} // verus!
