//! What the registry promises across its operations.

use vstd::prelude::*;

use crate::air::PublicInputs;
use crate::challenge;
use crate::decimal;
use crate::field;
use crate::field::BaseElement;
use crate::honest;
use crate::layout::{ROW_NULLIFIER_OUTPUT, TREE_DEPTH};
use crate::principal;
use crate::principal::Principal;
use crate::registry;
use crate::registry::{
    Challenge, ChallengeView, State, VerifyPublicInputs, LEAF_CAPACITY, MAX_PRUNE_PER_HEARTBEAT, MIN_CALL_INTERVAL_NS, REGISTRY_ID,
};
use crate::statement;
use crate::table::TextKey;
use crate::trace;
use crate::trace::Witness;
use crate::tree;

verus! {

/// The path that the registry gives out for a title leads from the title's leaf
/// to the current root.
pub proof fn law_paths_lead_to_the_current_root(s: State, property_id: u64)
    requires
        s.wf(),
        s.next_leaf_index <= LEAF_CAPACITY,
        s.records@.contains_key(property_id),
    ensures
        ({
            let index = s.leaf_index_by_property@[property_id] as int;
            &&& registry::leaf_of(s.records@[property_id]) is Some
            &&& statement::climbed(
                registry::leaf_of(s.records@[property_id])->0,
                tree::path_siblings(s.tree@, index),
                tree::path_bits(index),
                TREE_DEPTH as nat,
            ) == s.current_root
        }),
{
    let index = s.leaf_index_by_property@[property_id];
    assert(s.leaf_index_by_property@.contains_key(property_id));
    assert(index < LEAF_CAPACITY);
    tree::law_path_reaches_the_root(s.tree@, index as int);
}

/// Whether a witness is that of the owner of a registered title: the record holds
/// their commitment, is unencumbered and validly licensed, and the path is the
/// one that the registry gives out.
pub open spec fn owns(w: Witness, s: State, property_id: u64) -> bool {
    let record = s.records@[property_id];
    let index = s.leaf_index_by_property@[property_id] as int;
    &&& s.records@.contains_key(property_id)
    &&& decimal::parsed(record.owner_commitment@) == Some(
        statement::owner_commitment(w.owner_secret, w.property_id),
    )
    &&& record.encumbrance_flag == 0
    &&& record.license_status == 1
    &&& record.license_expiry == w.license_expiry
    &&& w.registry_id == field::elem(REGISTRY_ID as int)
    &&& w.merkle_siblings@ == tree::path_siblings(s.tree@, index)
    &&& w.merkle_bits@ == tree::path_bits(index)
}

/// The registry and the statement agree: the public inputs of an owner's trace
/// have the registry's current root, so the two never drift apart.
pub proof fn law_owners_prove_against_the_current_root(s: State, property_id: u64, w: Witness)
    requires
        s.wf(),
        s.next_leaf_index <= LEAF_CAPACITY,
        owns(w, s, property_id),
    ensures
        w.public_inputs().merkle_root == s.current_root,
{
    law_paths_lead_to_the_current_root(s, property_id);
    let record = s.records@[property_id];
    assert(registry::leaf_of(record) == Some(w.leaf()));
}

/// Registering or replacing a title does not touch the leaf of another one.
pub proof fn law_other_titles_keep_their_leaf(s: State, property_id: u64, leaf: BaseElement, other: u64)
    requires
        s.wf(),
        other != property_id,
        s.records@.contains_key(other),
    ensures
        ({
            let index = s.leaf_index_by_property@[other] as int;
            let leaves = s.tree@.insert(registry::leaf_index(s, property_id) as int, leaf);
            &&& leaves.contains_key(index)
            &&& leaves[index] == s.tree@[index]
            &&& registry::leaf_of(s.records@[other]) == Some(leaves[index])
        }),
{
    assert(s.leaf_index_by_property@.contains_key(other));
    if s.leaf_index_by_property@.contains_key(property_id) {
        assert(s.leaf_index_by_property@[property_id] != s.leaf_index_by_property@[other]);
    }
}

/// Removing an administrator leaves one.
pub proof fn law_an_administrator_remains(admins: Seq<Principal>, removed: Principal)
    requires
        admins.no_duplicates(),
        admins.len() > 1,
    ensures
        admins.filter(|a: Principal| a != removed).len() > 0,
        !admins.filter(|a: Principal| a != removed).contains(removed),
        forall|a: Principal|
            #[trigger] admins.contains(a) && a != removed ==> admins.filter(
                |b: Principal| b != removed,
            ).contains(a),
{
    let others = |a: Principal| a != removed;
    registry::lemma_filter_keeps_distinct(admins, others);
    let kept = if admins[0] != removed {
        admins[0]
    } else {
        admins[1]
    };
    assert(admins.contains(kept));
    assert(others(kept));
    assert(admins.filter(others).contains(kept));
}

/// Whoever has just called waits for the interval, and no longer.
pub proof fn law_callers_wait_for_the_interval(
    store: Map<Seq<char>, i64>,
    caller: Principal,
    first: i64,
    second: i64,
)
    requires
        caller@ != seq![4u8],
    ensures
        challenge::throttled(store.insert(caller.text_of(), first), caller, second) == (if second
            - first < MIN_CALL_INTERVAL_NS {
            Some("rate limit: try again shortly"@)
        } else {
            None
        }),
{
}

/// Callers do not wait for one another.
pub proof fn law_callers_are_throttled_apart(
    store: Map<Seq<char>, i64>,
    one: Principal,
    other: Principal,
    then: i64,
    now_ns: i64,
)
    requires
        one.wf(),
        other.wf(),
        one != other,
    ensures
        challenge::throttled(store.insert(one.text_of(), then), other, now_ns)
            == challenge::throttled(store, other, now_ns),
{
    if one.text_of() == other.text_of() {
        principal::lemma_text_tells_apart(one, other);
    }
}

/// A new challenge has a number and a nonce that no other challenge has.
pub proof fn law_challenges_are_fresh(s: State, id: u64)
    requires
        s.wf(),
        s.challenges@.contains_key(id),
    ensures
        id != s.next_challenge_id,
        s.challenges@[id].request_nonce != s.next_nonce,
{
}

/// Making a challenge changes nothing but the challenges, the counters and the time
/// of the caller's last request; the challenges that there were stay as they are.
pub proof fn law_making_a_challenge_touches_nothing_else(
    before: State,
    after: State,
    caller: Principal,
    now_ns: i64,
    purpose: u64,
)
    requires
        before.wf(),
        challenge::issued(before, after, caller, now_ns, purpose),
    ensures
        after.admins == before.admins,
        after.records == before.records,
        after.leaf_index_by_property == before.leaf_index_by_property,
        after.tree == before.tree,
        after.current_root == before.current_root,
        after.next_leaf_index == before.next_leaf_index,
        after.oldest_unpruned_challenge_id == before.oldest_unpruned_challenge_id,
        after.nullifiers == before.nullifiers,
        after.last_verify_call_at == before.last_verify_call_at,
        forall|id: u64| #[trigger]
            before.challenges@.contains_key(id) ==> after.challenges@.contains_key(id)
                && after.challenges@[id] == before.challenges@[id],
{
}

/// Whether an answer repeats what a view of a challenge said.
pub open spec fn repeats(inputs: VerifyPublicInputs, view: ChallengeView) -> bool {
    &&& inputs.registry_id == view.registry_id
    &&& inputs.merkle_root@ == view.merkle_root@
    &&& inputs.purpose == view.purpose
    &&& inputs.request_nonce == view.request_nonce
    &&& inputs.current_timestamp == view.current_timestamp
}

/// An answer that repeats what the caller was told fits, until the challenge
/// expires, with any nullifier that is new.
pub proof fn law_challenges_can_be_answered(
    s: State,
    id: u64,
    view: ChallengeView,
    now_ns: i64,
    inputs: VerifyPublicInputs,
)
    requires
        s.challenges@.contains_key(id),
        s.challenges@[id].merkle_root.wf(),
        !s.challenges@[id].consumed,
        challenge::shows(view, id, s.challenges@[id]),
        repeats(inputs, view),
        now_ns <= s.challenges@[id].expires_at,
        !challenge::spent(s, inputs.nullifier@),
    ensures
        challenge::misfit(s, s.challenges@[id].requester, now_ns, id, inputs) is None,
{
    decimal::law_text_round_trip(s.challenges@[id].merkle_root);
}

/// Nobody answers the challenge of another.
pub proof fn law_only_the_requester_answers(
    s: State,
    caller: Principal,
    now_ns: i64,
    id: u64,
    inputs: VerifyPublicInputs,
)
    requires
        s.challenges@.contains_key(id),
        caller != s.challenges@[id].requester,
    ensures
        challenge::precheck(s, caller, now_ns, id, inputs) is Some,
{
}

/// An answer that fits claims the statement that its challenge asks for.
pub proof fn law_answers_claim_what_was_asked(
    s: State,
    caller: Principal,
    now_ns: i64,
    id: u64,
    inputs: VerifyPublicInputs,
)
    requires
        challenge::misfit(s, caller, now_ns, id, inputs) is None,
        challenge::claimed(inputs) is Ok,
    ensures
        ({
            let c = s.challenges@[id];
            let pi = challenge::claimed(inputs)->Ok_0;
            &&& pi.registry_id == field::elem(c.registry_id as int)
            &&& pi.merkle_root == c.merkle_root
            &&& pi.purpose == field::elem(c.purpose as int)
            &&& pi.request_nonce == field::elem(c.request_nonce as int)
            &&& pi.current_timestamp == field::elem(c.current_timestamp as int)
        }),
{
}

/// An owner can answer a challenge: with the values of the challenge, and the
/// nullifier written as a numeral, the answer claims exactly the statement that
/// the owner's trace satisfies.
pub proof fn law_owners_claim_what_their_trace_satisfies(
    s: State,
    property_id: u64,
    w: Witness,
    c: Challenge,
    inputs: VerifyPublicInputs,
)
    requires
        s.wf(),
        s.next_leaf_index <= LEAF_CAPACITY,
        owns(w, s, property_id),
        w.wf(),
        w.complete(),
        c.registry_id == REGISTRY_ID,
        c.merkle_root == s.current_root,
        w.purpose == field::elem(c.purpose as int),
        w.request_nonce == field::elem(c.request_nonce as int),
        w.current_timestamp == c.current_timestamp,
        inputs.registry_id == c.registry_id,
        inputs.merkle_root@ == decimal::numeral_of(c.merkle_root@),
        inputs.purpose == c.purpose,
        inputs.request_nonce == c.request_nonce,
        inputs.current_timestamp == c.current_timestamp,
        inputs.nullifier@ == decimal::numeral_of(w.public_inputs().nullifier@),
    ensures
        challenge::claimed(inputs) == Ok::<PublicInputs, Seq<char>>(w.public_inputs()),
{
    law_owners_prove_against_the_current_root(s, property_id, w);
    decimal::law_text_round_trip(s.current_root);
    trace::lemma_digests(w, 0);
    honest::lemma_honest_row_wf(w, ROW_NULLIFIER_OUTPUT as int);
    assert(w.public_inputs().nullifier == trace::honest_row(
        w,
        ROW_NULLIFIER_OUTPUT as int,
    )[0]);
    decimal::law_text_round_trip(w.public_inputs().nullifier);
}

/// An accepted answer cannot be given again: its challenge takes no further
/// answer, and its nullifier fits no challenge, however it is written, whoever
/// calls and whenever.
pub proof fn law_accepted_answers_are_not_replayed(
    before: State,
    after: State,
    id: u64,
    nullifier: Seq<char>,
    caller: Principal,
    now_ns: i64,
    later_id: u64,
    inputs: VerifyPublicInputs,
)
    requires
        before.challenges@.contains_key(id),
        challenge::committed(before, after, id, nullifier),
        later_id == id || registry::nullifier_key(inputs.nullifier@) == registry::nullifier_key(
            nullifier,
        ),
    ensures
        challenge::precheck(after, caller, now_ns, later_id, inputs) is Some,
{
}

/// What was spent stays spent, and a nullifier is spent in all the ways in which
/// its number is written.
pub proof fn law_spent_nullifiers_stay_spent(
    before: State,
    after: State,
    id: u64,
    nullifier: Seq<char>,
    other: Seq<char>,
)
    requires
        challenge::committed(before, after, id, nullifier),
        challenge::spent(before, other) || registry::nullifier_key(other)
            == registry::nullifier_key(nullifier),
    ensures
        challenge::spent(after, other),
{
}

/// Texts that stand for the same element are the same nullifier.
pub proof fn law_nullifiers_are_numbers(s: State, one: Seq<char>, other: Seq<char>)
    requires
        decimal::parsed(one) is Some,
        decimal::parsed(one) == decimal::parsed(other),
    ensures
        challenge::spent(s, one) == challenge::spent(s, other),
{
}

/// Pruning looks at no more challenges than it may, removes only expired ones,
/// and stops early only at one that is open or at the end.
pub proof fn law_pruning_is_bounded_and_removes_expired_only(
    challenges: Map<u64, Challenge>,
    from: u64,
    next: u64,
    now_ns: i64,
    budget: nat,
)
    requires
        from <= next,
    ensures
        ({
            let to = challenge::prune_stop(challenges, from, next, now_ns, budget);
            &&& from <= to <= next
            &&& to - from <= budget
            &&& forall|id: u64|
                from <= id < to && #[trigger] challenges.contains_key(id) ==> now_ns
                    > challenges[id].expires_at
            &&& to - from < budget ==> to == next || (challenges.contains_key(to) && now_ns
                <= challenges[to].expires_at)
        }),
    decreases budget,
{
    if budget == 0 || from >= next || (challenges.contains_key(from) && now_ns
        <= challenges[from].expires_at) {
    } else {
        law_pruning_is_bounded_and_removes_expired_only(
            challenges,
            (from + 1) as u64,
            next,
            now_ns,
            (budget - 1) as nat,
        );
    }
}

/// A challenge that a heartbeat removes could not have been answered any more.
pub proof fn law_pruned_challenges_were_expired(
    s: State,
    now_ns: i64,
    id: u64,
    caller: Principal,
    inputs: VerifyPublicInputs,
)
    requires
        s.wf(),
        s.challenges@.contains_key(id),
        !challenge::pruned(
            s.challenges@,
            s.oldest_unpruned_challenge_id,
            challenge::prune_stop(
                s.challenges@,
                s.oldest_unpruned_challenge_id,
                s.next_challenge_id,
                now_ns,
                MAX_PRUNE_PER_HEARTBEAT as nat,
            ),
        ).contains_key(id),
    ensures
        challenge::misfit(s, caller, now_ns, id, inputs) is Some,
{
    law_pruning_is_bounded_and_removes_expired_only(
        s.challenges@,
        s.oldest_unpruned_challenge_id,
        s.next_challenge_id,
        now_ns,
        MAX_PRUNE_PER_HEARTBEAT as nat,
    );
}

} // verus!
