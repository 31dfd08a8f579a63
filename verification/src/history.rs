//! What the registry promises over its whole life: over any sequence of
//! operations, refused ones, heartbeats and upgrades among them.

use vstd::prelude::*;

use crate::challenge;
use crate::principal::Principal;
use crate::registry;
use crate::registry::{ChallengeView, Record, State, VerifyPublicInputs};
use crate::snapshot;
use crate::snapshot::StableState;

verus! {

/// Whether only the administrators differ.
pub open spec fn administrators_changed(before: State, after: State) -> bool {
    after == (State { admins: after.admins, ..before })
}

/// Whether the registry was taken down with a snapshot and given back from it.
pub open spec fn upgraded(before: State, after: State, stable: StableState) -> bool {
    snapshot::shows(stable, before) && snapshot::restores(stable, after)
}

/// Whether one operation leads from a state to another: it is refused, changes the
/// administrators, registers a title, makes a challenge, looks at an answer,
/// accepts one, removes expired challenges, or upgrades the registry.
pub open spec fn changes(before: State, after: State) -> bool {
    ||| after == before
    ||| administrators_changed(before, after)
    ||| exists|record: Record| #[trigger] registry::registered(before, after, record)
    ||| exists|caller: Principal, now_ns: i64, purpose: u64| #[trigger]
        challenge::issued(before, after, caller, now_ns, purpose)
    ||| exists|caller: Principal, now_ns: i64| #[trigger]
        challenge::looked_at(before, after, caller, now_ns)
    ||| exists|id: u64, nullifier: Seq<char>| #[trigger]
        challenge::committed(before, after, id, nullifier)
    ||| exists|now_ns: i64| #[trigger] challenge::swept(before, after, now_ns)
    ||| exists|stable: StableState| #[trigger] upgraded(before, after, stable)
}

/// Whether the `i`-th state is followed by one that an operation leads to, which
/// keeps what every operation keeps.
pub open spec fn follows(states: Seq<State>, i: int) -> bool {
    &&& changes(states[i], states[i + 1])
    &&& states[i].wf() ==> states[i + 1].wf()
}

/// Whether states follow one another.
pub open spec fn history(states: Seq<State>) -> bool {
    forall|i: int| 0 <= i < states.len() - 1 ==> #[trigger] follows(states, i)
}

/// What every operation keeps holds all the time once it holds.
proof fn lemma_kept(states: Seq<State>, i: int, j: int)
    requires
        history(states),
        0 <= i <= j < states.len(),
        states[i].wf(),
    ensures
        states[j].wf(),
    decreases j - i,
{
    if i < j {
        lemma_kept(states, i, j - 1);
        assert(follows(states, j - 1));
    }
}

/// The counters never go down, whatever happens.
pub proof fn law_counters_never_go_down(states: Seq<State>, i: int, j: int)
    requires
        history(states),
        0 <= i <= j < states.len(),
    ensures
        states[i].next_challenge_id <= states[j].next_challenge_id,
        states[i].next_nonce <= states[j].next_nonce,
    decreases j - i,
{
    if i < j {
        law_counters_never_go_down(states, i, j - 1);
        assert(follows(states, j - 1));
    }
}

/// What a challenge was numbered with is below the counters ever after.
pub proof fn law_issued_numbers_stay_below_the_counters(
    states: Seq<State>,
    i: int,
    caller: Principal,
    now_ns: i64,
    purpose: u64,
    view: ChallengeView,
    j: int,
)
    requires
        history(states),
        0 <= i < j < states.len(),
        challenge::issued(states[i], states[i + 1], caller, now_ns, purpose),
        challenge::shows(
            view,
            states[i].next_challenge_id,
            challenge::new_challenge(states[i], caller, now_ns, purpose),
        ),
    ensures
        view.challenge_id < states[j].next_challenge_id,
        view.request_nonce < states[j].next_nonce,
{
    law_counters_never_go_down(states, i + 1, j);
}

/// Numbers and nonces of challenges are never used again: of two challenges that
/// were made one after the other, the later one has the greater number and the
/// greater nonce, whatever happened in between to the first one.
pub proof fn law_numbers_and_nonces_are_never_reused(
    states: Seq<State>,
    i: int,
    first_caller: Principal,
    first_ns: i64,
    first_purpose: u64,
    first: ChallengeView,
    j: int,
    second_caller: Principal,
    second_ns: i64,
    second_purpose: u64,
    second: ChallengeView,
)
    requires
        history(states),
        0 <= i < j < states.len() - 1,
        challenge::issued(states[i], states[i + 1], first_caller, first_ns, first_purpose),
        challenge::shows(
            first,
            states[i].next_challenge_id,
            challenge::new_challenge(states[i], first_caller, first_ns, first_purpose),
        ),
        challenge::issued(states[j], states[j + 1], second_caller, second_ns, second_purpose),
        challenge::shows(
            second,
            states[j].next_challenge_id,
            challenge::new_challenge(states[j], second_caller, second_ns, second_purpose),
        ),
    ensures
        first.challenge_id < second.challenge_id,
        first.request_nonce < second.request_nonce,
{
    law_issued_numbers_stay_below_the_counters(
        states,
        i,
        first_caller,
        first_ns,
        first_purpose,
        first,
        j,
    );
}

/// A nullifier that was spent stays spent, however it is written.
pub proof fn law_nullifiers_stay_spent_for_good(
    states: Seq<State>,
    i: int,
    j: int,
    nullifier: Seq<char>,
)
    requires
        history(states),
        0 <= i <= j < states.len(),
        states[i].wf(),
        challenge::spent(states[i], nullifier),
    ensures
        challenge::spent(states[j], nullifier),
    decreases j - i,
{
    if i < j {
        law_nullifiers_stay_spent_for_good(states, i, j - 1, nullifier);
        lemma_kept(states, i, j - 1);
        let (before, after) = (states[j - 1], states[j]);
        assert(follows(states, j - 1));
        if exists|stable: StableState| #[trigger] upgraded(before, after, stable) {
            let stable = choose|stable: StableState| #[trigger] upgraded(before, after, stable);
            snapshot::law_upgrades_keep_the_registry(before, stable, after);
        }
    }
}

/// Whether no challenge is open under a number, and none will be.
pub open spec fn closed_for_good(s: State, id: u64) -> bool {
    &&& id < s.next_challenge_id
    &&& s.challenges@.contains_key(id) ==> s.challenges@[id].consumed
}

/// A number that is closed for good stays so.
proof fn lemma_closed_for_good(states: Seq<State>, i: int, j: int, id: u64)
    requires
        history(states),
        0 <= i <= j < states.len(),
        states[i].wf(),
        closed_for_good(states[i], id),
    ensures
        closed_for_good(states[j], id),
    decreases j - i,
{
    if i < j {
        lemma_closed_for_good(states, i, j - 1, id);
        lemma_kept(states, i, j - 1);
        let (before, after) = (states[j - 1], states[j]);
        assert(follows(states, j - 1));
        if exists|stable: StableState| #[trigger] upgraded(before, after, stable) {
            let stable = choose|stable: StableState| #[trigger] upgraded(before, after, stable);
            snapshot::law_upgrades_keep_the_registry(before, stable, after);
        }
    }
}

/// An accepted answer cannot be given again at any later time: neither for its
/// challenge, nor with its nullifier, however that is written, for another one.
pub proof fn law_accepted_answers_are_never_replayed(
    states: Seq<State>,
    i: int,
    id: u64,
    nullifier: Seq<char>,
    j: int,
    caller: Principal,
    now_ns: i64,
    later_id: u64,
    inputs: VerifyPublicInputs,
)
    requires
        history(states),
        0 <= i < j < states.len(),
        states[i].wf(),
        states[i].challenges@.contains_key(id),
        challenge::committed(states[i], states[i + 1], id, nullifier),
        later_id == id || registry::nullifier_key(inputs.nullifier@) == registry::nullifier_key(
            nullifier,
        ),
    ensures
        challenge::precheck(states[j], caller, now_ns, later_id, inputs) is Some,
{
    lemma_kept(states, i, i + 1);
    lemma_closed_for_good(states, i + 1, j, id);
    law_nullifiers_stay_spent_for_good(states, i + 1, j, nullifier);
}

} // verus!
