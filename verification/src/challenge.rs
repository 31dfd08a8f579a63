//! Challenges and the proofs that answer them.
//!
//! Whoever wants to prove a title asks for a challenge, which fixes the public
//! inputs of the proof. An answer is looked at in three steps: whether it fits an
//! open challenge of the caller, whether its proof is valid, and what an accepted
//! proof changes. The middle step is decided outside; its outcome comes in as a
//! [`ProofCheck`].

use vstd::prelude::*;
use vstd::string::*;

use crate::air::PublicInputs;
use crate::decimal;
use crate::decimal::{fe_to_string, parse_fe};
use crate::field;
use crate::principal;
use crate::principal::Principal;
use crate::registry;
use crate::registry::{
    fe, key_of, refuse, Challenge, ChallengeView, State, VerifyOk, VerifyPublicInputs, CHALLENGE_TTL_NS,
    MAX_PRUNE_PER_HEARTBEAT, MIN_CALL_INTERVAL_NS, REGISTRY_ID,
};
use crate::table::{Table, TextKey};

verus! {

/// Why a call is refused before it is looked at: whoever does not say who they
/// are may not call, and nobody twice within the interval.
pub open spec fn throttled(
    store: Map<Seq<char>, i64>,
    caller: Principal,
    now_ns: i64,
) -> Option<Seq<char>> {
    if caller@ == seq![4u8] {
        Some("anonymous callers are not permitted"@)
    } else if store.contains_key(caller.text_of()) && now_ns - store[caller.text_of()]
        < MIN_CALL_INTERVAL_NS {
        Some("rate limit: try again shortly"@)
    } else {
        None
    }
}

/// Whether the time since the last call of a caller who says who they are can be
/// counted.
pub open spec fn countable(store: Map<Seq<char>, i64>, caller: Principal, now_ns: i64) -> bool {
    caller@ != seq![4u8] && store.contains_key(caller.text_of()) ==> i64::MIN <= now_ns
        - store[caller.text_of()] <= i64::MAX
}

/// Refuses a call that comes too early or from nobody.
pub fn check_throttle(store: &Table<Principal, i64>, caller: Principal, now_ns: i64) -> (r: Result<
    (),
    String,
>)
    requires
        store.wf(),
        countable(store@, caller, now_ns),
    ensures
        match throttled(store@, caller, now_ns) {
            Some(message) => registry::refused(r, message),
            None => r is Ok,
        },
{
    let anonymous = Principal::anonymous();
    proof {
        use_type_invariant(&caller);
        if caller@ == anonymous@ {
            principal::lemma_principal_bytes(caller, anonymous);
        }
    }
    if caller == anonymous {
        return refuse("anonymous callers are not permitted");
    }
    match store.get(&caller) {
        Some(last) => {
            if now_ns - last < MIN_CALL_INTERVAL_NS {
                return refuse("rate limit: try again shortly");
            }
        },
        None => {},
    }
    Ok(())
}

/// Refuses a call that comes too early or from nobody; otherwise notes its time.
pub fn check_and_update_throttle(
    store: &mut Table<Principal, i64>,
    caller: Principal,
    now_ns: i64,
) -> (r: Result<(), String>)
    requires
        old(store).wf(),
        countable(old(store)@, caller, now_ns),
    ensures
        final(store).wf(),
        match throttled(old(store)@, caller, now_ns) {
            Some(message) => registry::refused(r, message) && *final(store) == *old(store),
            None => r is Ok && final(store)@ == old(store)@.insert(caller.text_of(), now_ns),
        },
{
    match check_throttle(store, caller, now_ns) {
        Ok(()) => {
            store.insert(caller, now_ns);
            Ok(())
        },
        Err(e) => Err(e),
    }
}

/// Nanoseconds as whole seconds, rounded towards zero and taken modulo `2^64`.
pub open spec fn seconds(now_ns: i64) -> u64 {
    if now_ns >= 0 {
        (now_ns as int / 1_000_000_000) as u64
    } else {
        let s = (-now_ns) / 1_000_000_000;
        (if s == 0 {
            0
        } else {
            0x1_0000_0000_0000_0000 - s
        }) as u64
    }
}

/// Nanoseconds as whole seconds.
fn whole_seconds(now_ns: i64) -> (r: u64)
    ensures
        r == seconds(now_ns),
{
    if now_ns >= 0 {
        (now_ns / 1_000_000_000) as u64
    } else {
        let magnitude: u64 = (-(now_ns as i128)) as u64;
        let s: u64 = magnitude / 1_000_000_000;
        if s == 0 {
            0
        } else {
            u64::MAX - s + 1
        }
    }
}

/// The challenge that is made for a caller.
pub open spec fn new_challenge(s: State, caller: Principal, now_ns: i64, purpose: u64) -> Challenge {
    Challenge {
        registry_id: REGISTRY_ID,
        merkle_root: s.current_root,
        purpose,
        request_nonce: s.next_nonce,
        current_timestamp: seconds(now_ns),
        expires_at: (now_ns + CHALLENGE_TTL_NS) as i64,
        consumed: false,
        requester: caller,
    }
}

/// Whether a view shows the challenge with the given number.
pub open spec fn shows(view: ChallengeView, id: u64, c: Challenge) -> bool {
    &&& view.challenge_id == id
    &&& view.registry_id == c.registry_id
    &&& view.merkle_root@ == decimal::numeral_of(c.merkle_root@)
    &&& view.purpose == c.purpose
    &&& view.request_nonce == c.request_nonce
    &&& view.current_timestamp == c.current_timestamp
    &&& view.expires_at == c.expires_at
}

/// What the state is once a challenge was made for a caller: the challenge is open
/// under the next number, and both counters have gone up.
pub open spec fn issued(
    before: State,
    after: State,
    caller: Principal,
    now_ns: i64,
    purpose: u64,
) -> bool {
    &&& after.challenges@ == before.challenges@.insert(
        before.next_challenge_id,
        new_challenge(before, caller, now_ns, purpose),
    )
    &&& after.next_challenge_id == before.next_challenge_id + 1
    &&& after.next_nonce == before.next_nonce + 1
    &&& after.last_challenge_call_at@ == before.last_challenge_call_at@.insert(
        caller.text_of(),
        now_ns,
    )
    &&& after == (State {
        challenges: after.challenges,
        next_challenge_id: after.next_challenge_id,
        next_nonce: after.next_nonce,
        last_challenge_call_at: after.last_challenge_call_at,
        ..before
    })
}

/// Makes a challenge for a caller.
pub fn request_challenge_impl(s: &mut State, caller: Principal, now_ns: i64, purpose: u64) -> (r:
    Result<ChallengeView, String>)
    requires
        old(s).connected(),
        countable(old(s).last_challenge_call_at@, caller, now_ns),
        throttled(old(s).last_challenge_call_at@, caller, now_ns) is None ==> {
            &&& old(s).next_challenge_id < u64::MAX
            &&& old(s).next_nonce < u64::MAX
            &&& now_ns + CHALLENGE_TTL_NS <= i64::MAX
        },
    ensures
        final(s).connected(),
        match throttled(old(s).last_challenge_call_at@, caller, now_ns) {
            Some(message) => registry::refused(r, message) && *final(s) == *old(s),
            None => {
                &&& r is Ok
                &&& shows(
                    r->Ok_0,
                    old(s).next_challenge_id,
                    new_challenge(*old(s), caller, now_ns, purpose),
                )
                &&& issued(*old(s), *final(s), caller, now_ns, purpose)
            },
        },
        old(s).wf() ==> final(s).wf(),
{
    broadcast use vstd::std_specs::hash::group_hash_axioms;

    match check_and_update_throttle(&mut s.last_challenge_call_at, caller, now_ns) {
        Ok(()) => {},
        Err(e) => {
            return Err(e);
        },
    }
    let id: u64 = s.next_challenge_id;
    s.next_challenge_id = id + 1;
    let nonce: u64 = s.next_nonce;
    s.next_nonce = nonce + 1;
    let challenge = Challenge {
        registry_id: REGISTRY_ID,
        merkle_root: s.current_root,
        purpose,
        request_nonce: nonce,
        current_timestamp: whole_seconds(now_ns),
        expires_at: now_ns + CHALLENGE_TTL_NS,
        consumed: false,
        requester: caller,
    };
    proof {
        use_type_invariant(&caller);
    }
    let view = ChallengeView {
        challenge_id: id,
        registry_id: challenge.registry_id,
        merkle_root: fe_to_string(challenge.merkle_root),
        purpose: challenge.purpose,
        request_nonce: challenge.request_nonce,
        current_timestamp: challenge.current_timestamp,
        expires_at: challenge.expires_at,
    };
    s.challenges.insert(id, challenge);
    Ok(view)
}

/// Whether a nullifier was spent, in whichever way it was written.
pub open spec fn spent(s: State, nullifier: Seq<char>) -> bool {
    let key = registry::nullifier_key(nullifier);
    s.nullifiers@.contains_key(key) && s.nullifiers@[key]
}

/// Why an answer does not fit, once the call itself is admitted: the challenge has
/// to be open and the caller's own, the public inputs have to be those of the
/// challenge, and the nullifier has to be new.
pub open spec fn misfit(
    s: State,
    caller: Principal,
    now_ns: i64,
    challenge_id: u64,
    inputs: VerifyPublicInputs,
) -> Option<Seq<char>> {
    let c = s.challenges@[challenge_id];
    let root = decimal::parsed(inputs.merkle_root@);
    if !s.challenges@.contains_key(challenge_id) {
        Some("unknown or expired challenge"@)
    } else if caller != c.requester {
        Some("caller does not match the principal that requested this challenge"@)
    } else if c.consumed {
        Some("challenge already consumed"@)
    } else if now_ns > c.expires_at {
        Some("challenge expired"@)
    } else if inputs.registry_id != c.registry_id {
        Some("registry_id mismatch"@)
    } else if root is None {
        Some(decimal::parse_error(inputs.merkle_root@))
    } else if root->0 != c.merkle_root {
        Some("merkle_root mismatch"@)
    } else if inputs.purpose != c.purpose {
        Some("purpose mismatch"@)
    } else if inputs.request_nonce != c.request_nonce {
        Some("request_nonce mismatch"@)
    } else if inputs.current_timestamp != c.current_timestamp {
        Some("current_timestamp mismatch"@)
    } else if spent(s, inputs.nullifier@) {
        Some("nullifier already spent"@)
    } else {
        None
    }
}

/// Why an answer is refused before its proof is looked at.
pub open spec fn precheck(
    s: State,
    caller: Principal,
    now_ns: i64,
    challenge_id: u64,
    inputs: VerifyPublicInputs,
) -> Option<Seq<char>> {
    match throttled(s.last_verify_call_at@, caller, now_ns) {
        Some(message) => Some(message),
        None => misfit(s, caller, now_ns, challenge_id, inputs),
    }
}

/// What the state is once an answer was looked at: at most the time of the call
/// is noted.
pub open spec fn looked_at(before: State, after: State, caller: Principal, now_ns: i64) -> bool {
    &&& after.last_verify_call_at@ == (if throttled(before.last_verify_call_at@, caller, now_ns) is None {
        before.last_verify_call_at@.insert(caller.text_of(), now_ns)
    } else {
        before.last_verify_call_at@
    })
    &&& after == (State { last_verify_call_at: after.last_verify_call_at, ..before })
}

/// Looks whether an answer fits an open challenge of the caller.
pub fn verify_precheck_impl(
    s: &mut State,
    caller: Principal,
    now_ns: i64,
    challenge_id: u64,
    public_inputs: &VerifyPublicInputs,
) -> (r: Result<(), String>)
    requires
        old(s).connected(),
        countable(old(s).last_verify_call_at@, caller, now_ns),
    ensures
        final(s).connected(),
        match precheck(*old(s), caller, now_ns, challenge_id, *public_inputs) {
            Some(message) => registry::refused(r, message),
            None => r is Ok,
        },
        looked_at(*old(s), *final(s), caller, now_ns),
        old(s).wf() ==> final(s).wf(),
{
    broadcast use vstd::std_specs::hash::group_hash_axioms;

    match check_and_update_throttle(&mut s.last_verify_call_at, caller, now_ns) {
        Ok(()) => {},
        Err(e) => {
            return Err(e);
        },
    }
    let challenge: Challenge = match s.challenges.get(&challenge_id) {
        Some(c) => *c,
        None => {
            return refuse("unknown or expired challenge");
        },
    };
    if caller != challenge.requester {
        return refuse("caller does not match the principal that requested this challenge");
    }
    if challenge.consumed {
        return refuse("challenge already consumed");
    }
    if now_ns > challenge.expires_at {
        return refuse("challenge expired");
    }
    if public_inputs.registry_id != challenge.registry_id {
        return refuse("registry_id mismatch");
    }
    let merkle_root = match parse_fe(public_inputs.merkle_root.as_str()) {
        Ok(root) => root,
        Err(e) => {
            return Err(e);
        },
    };
    if merkle_root != challenge.merkle_root {
        return refuse("merkle_root mismatch");
    }
    if public_inputs.purpose != challenge.purpose {
        return refuse("purpose mismatch");
    }
    if public_inputs.request_nonce != challenge.request_nonce {
        return refuse("request_nonce mismatch");
    }
    if public_inputs.current_timestamp != challenge.current_timestamp {
        return refuse("current_timestamp mismatch");
    }
    if is_spent(s, public_inputs.nullifier.as_str()) {
        return refuse("nullifier already spent");
    }
    Ok(())
}

/// Whether a nullifier was spent.
fn is_spent(s: &State, nullifier: &str) -> (r: bool)
    requires
        s.connected(),
    ensures
        r == spent(*s, nullifier@),
{
    match s.nullifiers.find(key_of(nullifier).as_str()) {
        Some(b) => b,
        None => false,
    }
}

/// The public inputs of the statement that an answer claims, if its numerals can
/// be read.
pub open spec fn claimed(inputs: VerifyPublicInputs) -> Result<PublicInputs, Seq<char>> {
    match decimal::parsed(inputs.merkle_root@) {
        None => Err(decimal::parse_error(inputs.merkle_root@)),
        Some(root) => match decimal::parsed(inputs.nullifier@) {
            None => Err(decimal::parse_error(inputs.nullifier@)),
            Some(nullifier) => Ok(
                PublicInputs {
                    registry_id: field::elem(inputs.registry_id as int),
                    merkle_root: root,
                    purpose: field::elem(inputs.purpose as int),
                    request_nonce: field::elem(inputs.request_nonce as int),
                    current_timestamp: field::elem(inputs.current_timestamp as int),
                    nullifier,
                },
            ),
        },
    }
}

/// The public inputs of the statement that an answer claims.
pub fn air_public_inputs(public_inputs: &VerifyPublicInputs) -> (r: Result<PublicInputs, String>)
    ensures
        match claimed(*public_inputs) {
            Ok(pi) => r is Ok && r->Ok_0 == pi,
            Err(message) => registry::refused(r, message),
        },
{
    let merkle_root = match parse_fe(public_inputs.merkle_root.as_str()) {
        Ok(root) => root,
        Err(e) => {
            return Err(e);
        },
    };
    let nullifier = match parse_fe(public_inputs.nullifier.as_str()) {
        Ok(nullifier) => nullifier,
        Err(e) => {
            return Err(e);
        },
    };
    Ok(
        PublicInputs {
            registry_id: fe(public_inputs.registry_id),
            merkle_root,
            purpose: fe(public_inputs.purpose),
            request_nonce: fe(public_inputs.request_nonce),
            current_timestamp: fe(public_inputs.current_timestamp),
            nullifier,
        },
    )
}

/// How many bits of conjectured security a proof has to reach to be accepted.
pub const MIN_CONJECTURED_SECURITY: u32 = 80;

/// What came of checking a proof.
#[derive(Clone, Debug)]
pub enum ProofCheck {
    /// The proof is valid, at the least security that is asked for.
    Accepted,
    /// The bytes are no proof, for the given reason.
    Undecodable(String),
    /// The proof is not valid, for the given reason.
    Rejected(String),
    /// The check broke off.
    Panicked,
}

/// How a check that failed is reported.
pub open spec fn check_error(check: ProofCheck) -> Option<Seq<char>> {
    match check {
        ProofCheck::Accepted => None,
        ProofCheck::Undecodable(e) => Some("failed to decode proof bytes: "@ + e@),
        ProofCheck::Rejected(e) => Some("invalid proof: "@ + e@),
        ProofCheck::Panicked => Some("invalid proof: verifier panicked on malformed proof data"@),
    }
}

/// Why an answer is refused once its proof was checked against what it claims.
pub open spec fn crypto_error(inputs: VerifyPublicInputs, check: ProofCheck) -> Option<Seq<char>> {
    match claimed(inputs) {
        Err(message) => Some(message),
        Ok(_) => check_error(check),
    }
}

/// What the outcome of a proof check means for an answer.
pub fn verify_crypto_impl(public_inputs: &VerifyPublicInputs, check: ProofCheck) -> (r: Result<
    (),
    String,
>)
    ensures
        match crypto_error(*public_inputs, check) {
            Some(message) => registry::refused(r, message),
            None => r is Ok,
        },
{
    match air_public_inputs(public_inputs) {
        Ok(_) => {},
        Err(e) => {
            return Err(e);
        },
    }
    match check {
        ProofCheck::Accepted => Ok(()),
        ProofCheck::Undecodable(e) => {
            let mut message = "failed to decode proof bytes: ".to_owned();
            message.append(e.as_str());
            Err(message)
        },
        ProofCheck::Rejected(e) => {
            let mut message = "invalid proof: ".to_owned();
            message.append(e.as_str());
            Err(message)
        },
        ProofCheck::Panicked => refuse("invalid proof: verifier panicked on malformed proof data"),
    }
}

/// The challenges once the one with the given number was answered.
pub open spec fn consumed(challenges: Map<u64, Challenge>, id: u64) -> Map<u64, Challenge> {
    if challenges.contains_key(id) {
        challenges.insert(id, Challenge { consumed: true, ..challenges[id] })
    } else {
        challenges
    }
}

/// What the state is once an answer was accepted: its challenge is consumed and
/// its nullifier spent, however it is written from now on.
pub open spec fn committed(before: State, after: State, id: u64, nullifier: Seq<char>) -> bool {
    &&& after.challenges@ == consumed(before.challenges@, id)
    &&& after.nullifiers@ == before.nullifiers@.insert(registry::nullifier_key(nullifier), true)
    &&& after == (State { challenges: after.challenges, nullifiers: after.nullifiers, ..before })
}

/// Consumes the challenge and spends the nullifier of an accepted answer.
pub fn verify_commit_impl(s: &mut State, challenge_id: u64, nullifier: &str) -> (r: Result<
    VerifyOk,
    String,
>)
    requires
        old(s).connected(),
    ensures
        final(s).connected(),
        if spent(*old(s), nullifier@) {
            &&& registry::refused(r, "nullifier already spent"@)
            &&& *final(s) == *old(s)
        } else {
            &&& r is Ok
            &&& r->Ok_0.nullifier@ == nullifier@
            &&& committed(*old(s), *final(s), challenge_id, nullifier@)
        },
        old(s).wf() ==> final(s).wf(),
{
    broadcast use vstd::std_specs::hash::group_hash_axioms;

    if is_spent(s, nullifier) {
        return refuse("nullifier already spent");
    }
    let found = match s.challenges.get(&challenge_id) {
        Some(c) => Some(*c),
        None => None,
    };
    match found {
        Some(mut c) => {
            c.consumed = true;
            s.challenges.insert(challenge_id, c);
        },
        None => {},
    }
    proof {
        registry::lemma_key_of_key(nullifier@);
    }
    s.nullifiers.insert(key_of(nullifier), true);
    Ok(VerifyOk { nullifier: nullifier.to_owned() })
}

/// Takes in an answer, up to what its proof has to be checked against.
pub fn verify_begin(
    s: &mut State,
    caller: Principal,
    now_ns: i64,
    challenge_id: u64,
    public_inputs: &VerifyPublicInputs,
) -> (r: Result<PublicInputs, String>)
    requires
        old(s).connected(),
        countable(old(s).last_verify_call_at@, caller, now_ns),
    ensures
        final(s).connected(),
        match precheck(*old(s), caller, now_ns, challenge_id, *public_inputs) {
            Some(message) => registry::refused(r, message),
            None => match claimed(*public_inputs) {
                Ok(pi) => r is Ok && r->Ok_0 == pi,
                Err(message) => registry::refused(r, message),
            },
        },
        looked_at(*old(s), *final(s), caller, now_ns),
        old(s).wf() ==> final(s).wf(),
{
    match verify_precheck_impl(s, caller, now_ns, challenge_id, public_inputs) {
        Ok(()) => air_public_inputs(public_inputs),
        Err(e) => Err(e),
    }
}

/// Decides on an answer that was taken in, once its proof was checked.
pub fn verify_finish(
    s: &mut State,
    challenge_id: u64,
    public_inputs: &VerifyPublicInputs,
    check: ProofCheck,
) -> (r: Result<VerifyOk, String>)
    requires
        old(s).connected(),
    ensures
        final(s).connected(),
        match crypto_error(*public_inputs, check) {
            Some(message) => registry::refused(r, message) && *final(s) == *old(s),
            None => if spent(*old(s), public_inputs.nullifier@) {
                &&& registry::refused(r, "nullifier already spent"@)
                &&& *final(s) == *old(s)
            } else {
                &&& r is Ok
                &&& r->Ok_0.nullifier@ == public_inputs.nullifier@
                &&& committed(*old(s), *final(s), challenge_id, public_inputs.nullifier@)
            },
        },
        old(s).wf() ==> final(s).wf(),
{
    match verify_crypto_impl(public_inputs, check) {
        Ok(()) => verify_commit_impl(s, challenge_id, public_inputs.nullifier.as_str()),
        Err(e) => Err(e),
    }
}

/// Where pruning stops that starts at `id`: at the first challenge that is still
/// open, at the end, or when it has looked at `budget` numbers.
pub open spec fn prune_stop(
    challenges: Map<u64, Challenge>,
    id: u64,
    next: u64,
    now_ns: i64,
    budget: nat,
) -> u64
    decreases budget,
{
    if budget == 0 || id >= next || (challenges.contains_key(id) && now_ns
        <= challenges[id].expires_at) {
        id
    } else {
        prune_stop(challenges, (id + 1) as u64, next, now_ns, (budget - 1) as nat)
    }
}

/// The challenges without those numbered from `from` to below `to`.
pub open spec fn pruned(challenges: Map<u64, Challenge>, from: u64, to: u64) -> Map<u64, Challenge> {
    Map::new(
        |id: u64| challenges.contains_key(id) && !(from <= id < to),
        |id: u64| challenges[id],
    )
}

/// What the state is once expired challenges were removed.
pub open spec fn swept(before: State, after: State, now_ns: i64) -> bool {
    let from = before.oldest_unpruned_challenge_id;
    let to = prune_stop(
        before.challenges@,
        from,
        before.next_challenge_id,
        now_ns,
        MAX_PRUNE_PER_HEARTBEAT as nat,
    );
    &&& after.challenges@ == pruned(before.challenges@, from, to)
    &&& after == (State {
        challenges: after.challenges,
        oldest_unpruned_challenge_id: to,
        ..before
    })
}

/// Removes expired challenges, the oldest ones first.
pub fn heartbeat_impl(s: &mut State, now_ns: i64)
    ensures
        swept(*old(s), *final(s), now_ns),
        old(s).wf() ==> final(s).wf(),
{
    broadcast use vstd::std_specs::hash::group_hash_axioms;

    let ghost before = *s;
    let ghost all = s.challenges@;
    let ghost from = s.oldest_unpruned_challenge_id;
    let ghost budget = MAX_PRUNE_PER_HEARTBEAT as nat;
    let mut scanned: u64 = 0;
    assert(all =~= pruned(all, from, from));
    while scanned < MAX_PRUNE_PER_HEARTBEAT && s.oldest_unpruned_challenge_id < s.next_challenge_id
        invariant
            scanned <= MAX_PRUNE_PER_HEARTBEAT,
            all == before.challenges@,
            from == before.oldest_unpruned_challenge_id,
            budget == MAX_PRUNE_PER_HEARTBEAT,
            from <= s.oldest_unpruned_challenge_id,
            before.wf() ==> s.oldest_unpruned_challenge_id <= s.next_challenge_id,
            s.challenges@ == pruned(all, from, s.oldest_unpruned_challenge_id),
            *s == (State {
                challenges: s.challenges,
                oldest_unpruned_challenge_id: s.oldest_unpruned_challenge_id,
                ..before
            }),
            prune_stop(all, from, before.next_challenge_id, now_ns, budget) == prune_stop(
                all,
                s.oldest_unpruned_challenge_id,
                before.next_challenge_id,
                now_ns,
                (budget - scanned) as nat,
            ),
        ensures
            s.oldest_unpruned_challenge_id == prune_stop(
                all,
                from,
                before.next_challenge_id,
                now_ns,
                budget,
            ),
        decreases MAX_PRUNE_PER_HEARTBEAT - scanned,
    {
        broadcast use vstd::std_specs::hash::group_hash_axioms;

        let id: u64 = s.oldest_unpruned_challenge_id;
        let expired = match s.challenges.get(&id) {
            None => false,
            Some(c) => {
                if now_ns <= c.expires_at {
                    break;
                }
                true
            },
        };
        if expired {
            s.challenges.remove(&id);
        }
        s.oldest_unpruned_challenge_id = id + 1;
        assert(s.challenges@ =~= pruned(all, from, s.oldest_unpruned_challenge_id));
        scanned = scanned + 1;
    }
}

} // verus!
