//! What an upgrade keeps: what a snapshot holds of the registry, and what is given
//! back of a snapshot.

use vstd::prelude::*;

use crate::challenge_laws;
use crate::decimal;
use crate::registry;
use crate::registry::{Challenge, Record, State};
use crate::snapshot;
use crate::snapshot::{restore, StableChallenge, StableRecord, StableState};
use crate::table;
use crate::table::TextKey;
use crate::tree;

verus! {

/// Upgrades keep the registry: what is given back of a snapshot of it has the same
/// administrators, titles, leaves, challenges, counters, spent nullifiers and times of
/// calls, and the same root as long as there are no more titles than leaves.
pub proof fn law_upgrades(s: &State, stable: StableState, t: State)
    requires
        s.wf(),
        call_ensures(snapshot::snapshot, (s,), stable),
        call_ensures(restore, (&stable,), t),
    ensures
        t.wf(),
        t.admins@ == s.admins@,
        t.records@ == s.records@,
        t.leaf_index_by_property@ == s.leaf_index_by_property@,
        t.tree@ == s.tree@,
        t.current_root == tree::subtree(t.tree@, 25, 0),
        s.next_leaf_index <= 0x200_0000 ==> t.current_root == s.current_root,
        t.next_leaf_index == s.next_leaf_index,
        t.challenges@ == s.challenges@,
        t.next_challenge_id == s.next_challenge_id,
        t.next_nonce == s.next_nonce,
        t.oldest_unpruned_challenge_id == s.oldest_unpruned_challenge_id,
        t.nullifiers@ == s.nullifiers@,
        t.last_challenge_call_at@ == s.last_challenge_call_at@,
        t.last_verify_call_at@ == s.last_verify_call_at@,
{
    snapshot::law_snapshots_are_readable(*s, stable);
    snapshot::law_upgrades_keep_the_registry(*s, stable, t);
}

/// A snapshot may be taken of every registry that is in order, and what it was taken of
/// may be given back.
pub proof fn law_upgrades_may_happen(s: &State, stable: StableState)
    requires
        s.wf(),
        call_ensures(snapshot::snapshot, (s,), stable),
    ensures
        call_requires(snapshot::snapshot, (s,)),
        call_requires(restore, (&stable,)),
{
    snapshot::law_snapshots_are_readable(*s, stable);
}

/// Whether a title in a snapshot is a record, field by field.
pub open spec fn same_title(a: StableRecord, r: Record) -> bool {
    &&& a.property_id == r.property_id
    &&& a.owner_commitment@ == r.owner_commitment@
    &&& a.encumbrance_flag == r.encumbrance_flag
    &&& a.license_status == r.license_status
    &&& a.license_expiry == r.license_expiry
}

/// Whether a challenge in a snapshot is a challenge, field by field, with its root in
/// numerals.
pub open spec fn same_question(a: StableChallenge, c: Challenge) -> bool {
    &&& a.registry_id == c.registry_id
    &&& decimal::parsed(a.merkle_root@) == Some(c.merkle_root)
    &&& a.purpose == c.purpose
    &&& a.request_nonce == c.request_nonce
    &&& a.current_timestamp == c.current_timestamp
    &&& a.expires_at == c.expires_at
    &&& a.consumed == c.consumed
    &&& a.requester == c.requester
}

/// A snapshot lists each title once, as its record is, with the index of its leaf; each
/// challenge once, as it is; and the administrators and counters.
pub proof fn law_snapshots_hold_titles_and_challenges(
    s: &State,
    stable: StableState,
    property_id: u64,
    id: u64,
)
    requires
        s.wf(),
        call_ensures(snapshot::snapshot, (s,), stable),
    ensures
        stable.admins@ == s.admins@,
        stable.next_leaf_index == s.next_leaf_index,
        stable.next_challenge_id == s.next_challenge_id,
        stable.next_nonce == s.next_nonce,
        stable.oldest_unpruned_challenge_id == s.oldest_unpruned_challenge_id,
        s.records@.contains_key(property_id) <==> exists|i: int|
            0 <= i < stable.records@.len() && (#[trigger] stable.records@[i]).property_id
                == property_id,
        forall|i: int|
            0 <= i < stable.records@.len() ==> same_title(
                #[trigger] stable.records@[i],
                s.records@[stable.records@[i].property_id],
            ),
        forall|i: int, j: int|
            0 <= i < j < stable.records@.len() ==> (#[trigger] stable.records@[i]).property_id != (
            #[trigger] stable.records@[j]).property_id,
        s.leaf_index_by_property@.contains_key(property_id) <==> exists|i: int|
            0 <= i < stable.leaf_index_by_property@.len()
                && #[trigger] stable.leaf_index_by_property@[i] == (
                property_id,
                s.leaf_index_by_property@[property_id],
            ),
        s.challenges@.contains_key(id) <==> exists|i: int|
            0 <= i < stable.challenges@.len() && (#[trigger] stable.challenges@[i]).id == id,
        forall|i: int|
            0 <= i < stable.challenges@.len() ==> same_question(
                #[trigger] stable.challenges@[i],
                s.challenges@[stable.challenges@[i].id],
            ) && stable.challenges@[i].merkle_root@ == decimal::numeral_of(
                s.challenges@[stable.challenges@[i].id].merkle_root@,
            ),
        forall|i: int, j: int|
            0 <= i < j < stable.challenges@.len() ==> (#[trigger] stable.challenges@[i]).id != (
            #[trigger] stable.challenges@[j]).id,
{
    let rk = choose|keys: Seq<u64>| #[trigger]
        tree::walks(keys, s.records@) && keys.len() == stable.records@.len() && forall|i: int|
            0 <= i < stable.records@.len() ==> snapshot::record_of(#[trigger] stable.records@[i])
                == s.records@[keys[i]];
    assert forall|i: int| 0 <= i < stable.records@.len() implies (
    #[trigger] stable.records@[i]).property_id == rk[i] && same_title(
        stable.records@[i],
        s.records@[rk[i]],
    ) by {
        assert(rk.contains(rk[i]));
        assert(snapshot::record_of(stable.records@[i]) == s.records@[rk[i]]);
    }
    if s.records@.contains_key(property_id) {
        assert(rk.contains(property_id));
        let i = choose|i: int| 0 <= i < rk.len() && rk[i] == property_id;
        assert(stable.records@[i].property_id == property_id);
    }
    if exists|i: int|
        0 <= i < stable.records@.len() && (#[trigger] stable.records@[i]).property_id
            == property_id {
        let i = choose|i: int|
            0 <= i < stable.records@.len() && (#[trigger] stable.records@[i]).property_id
                == property_id;
        assert(rk.contains(rk[i]));
    }
    let pk = choose|keys: Seq<u64>| #[trigger]
        tree::walks(keys, s.leaf_index_by_property@) && keys.len()
            == stable.leaf_index_by_property@.len() && forall|i: int|
            0 <= i < stable.leaf_index_by_property@.len()
                ==> #[trigger] stable.leaf_index_by_property@[i] == (
                keys[i],
                s.leaf_index_by_property@[keys[i]],
            );
    if s.leaf_index_by_property@.contains_key(property_id) {
        assert(pk.contains(property_id));
        let i = choose|i: int| 0 <= i < pk.len() && pk[i] == property_id;
        assert(stable.leaf_index_by_property@[i] == (
            property_id,
            s.leaf_index_by_property@[property_id],
        ));
    }
    if exists|i: int|
        0 <= i < stable.leaf_index_by_property@.len()
            && #[trigger] stable.leaf_index_by_property@[i] == (
            property_id,
            s.leaf_index_by_property@[property_id],
        ) {
        let i = choose|i: int|
            0 <= i < stable.leaf_index_by_property@.len()
                && #[trigger] stable.leaf_index_by_property@[i] == (
                property_id,
                s.leaf_index_by_property@[property_id],
            );
        assert(pk.contains(pk[i]));
    }
    let ck = choose|keys: Seq<u64>| #[trigger]
        tree::walks(keys, s.challenges@) && keys.len() == stable.challenges@.len() && forall|i: int|
            0 <= i < stable.challenges@.len() ==> snapshot::same_challenge(
                #[trigger] stable.challenges@[i],
                keys[i],
                s.challenges@[keys[i]],
            );
    assert forall|i: int| 0 <= i < stable.challenges@.len() implies (
    #[trigger] stable.challenges@[i]).id == ck[i] && same_question(
        stable.challenges@[i],
        s.challenges@[ck[i]],
    ) by {
        assert(ck.contains(ck[i]));
        assert(snapshot::same_challenge(stable.challenges@[i], ck[i], s.challenges@[ck[i]]));
        decimal::law_text_round_trip(s.challenges@[ck[i]].merkle_root);
    }
    if s.challenges@.contains_key(id) {
        assert(ck.contains(id));
        let i = choose|i: int| 0 <= i < ck.len() && ck[i] == id;
        assert(stable.challenges@[i].id == id);
    }
    if exists|i: int| 0 <= i < stable.challenges@.len() && (#[trigger] stable.challenges@[i]).id == id {
        let i = choose|i: int|
            0 <= i < stable.challenges@.len() && (#[trigger] stable.challenges@[i]).id == id;
        assert(ck.contains(ck[i]));
    }
}

/// A snapshot lists every leaf of the tree, and of the tree's nodes nothing else than what
/// they are, in numerals; and each nullifier and caller with what is kept of them.
pub proof fn law_snapshots_hold_nodes_and_tables(
    s: &State,
    stable: StableState,
    index: u64,
    t: Seq<char>,
)
    requires
        s.wf(),
        call_ensures(snapshot::snapshot, (s,), stable),
    ensures
        s.tree@.contains_key(index as int) <==> exists|i: int|
            0 <= i < stable.nodes@.len() && (#[trigger] stable.nodes@[i]).0 == 0
                && stable.nodes@[i].1 == index,
        forall|i: int|
            0 <= i < stable.nodes@.len() && (#[trigger] stable.nodes@[i]).0 <= 25
                ==> decimal::parsed(stable.nodes@[i].2@) == Some(
                tree::subtree(s.tree@, stable.nodes@[i].0 as nat, stable.nodes@[i].1 as int),
            ) && stable.nodes@[i].2@ == decimal::numeral_of(
                tree::subtree(s.tree@, stable.nodes@[i].0 as nat, stable.nodes@[i].1 as int)@,
            ),
        s.nullifiers@.contains_key(t) <==> exists|i: int|
            0 <= i < stable.nullifiers@.len() && (#[trigger] stable.nullifiers@[i]).0@ == t,
        forall|i: int|
            0 <= i < stable.nullifiers@.len() ==> (#[trigger] stable.nullifiers@[i]).1
                == s.nullifiers@[stable.nullifiers@[i].0@],
        s.last_challenge_call_at@.contains_key(t) <==> exists|i: int|
            0 <= i < stable.last_challenge_call_at@.len() && (
            #[trigger] stable.last_challenge_call_at@[i]).0.text_of() == t,
        forall|i: int|
            0 <= i < stable.last_challenge_call_at@.len() ==> (
            #[trigger] stable.last_challenge_call_at@[i]).1
                == s.last_challenge_call_at@[stable.last_challenge_call_at@[i].0.text_of()],
        s.last_verify_call_at@.contains_key(t) <==> exists|i: int|
            0 <= i < stable.last_verify_call_at@.len() && (
            #[trigger] stable.last_verify_call_at@[i]).0.text_of() == t,
        forall|i: int|
            0 <= i < stable.last_verify_call_at@.len() ==> (
            #[trigger] stable.last_verify_call_at@[i]).1
                == s.last_verify_call_at@[stable.last_verify_call_at@[i].0.text_of()],
{
    let nodes = s.tree.nodes_by_place();
    let listing = choose|listing: Seq<(u8, u64, crate::field::BaseElement)>| #[trigger]
        tree::lists_nodes(listing, nodes) && snapshot::writes_nodes(stable.nodes@, listing)
            && forall|i: int| 0 <= i < listing.len() ==> (#[trigger] listing[i]).2.wf();
    assert forall|i: int| 0 <= i < stable.nodes@.len() && (#[trigger] stable.nodes@[i]).0 <= 25 implies decimal::parsed(
        stable.nodes@[i].2@,
    ) == Some(tree::subtree(s.tree@, stable.nodes@[i].0 as nat, stable.nodes@[i].1 as int))
        && stable.nodes@[i].2@ == decimal::numeral_of(
        tree::subtree(s.tree@, stable.nodes@[i].0 as nat, stable.nodes@[i].1 as int)@,
    ) by {
        let node = listing[i];
        assert(nodes.contains_key((node.0, node.1)) && nodes[(node.0, node.1)] == node.2);
        tree::lemma_places(s.tree, node.0, node.1);
        decimal::law_text_round_trip(node.2);
    }
    tree::lemma_places(s.tree, 0, index);
    if s.tree@.contains_key(index as int) {
        let i = choose|i: int|
            0 <= i < listing.len() && ((#[trigger] listing[i]).0, listing[i].1) == (0u8, index);
        assert(stable.nodes@[i].0 == 0 && stable.nodes@[i].1 == index);
    }
    if exists|i: int|
        0 <= i < stable.nodes@.len() && (#[trigger] stable.nodes@[i]).0 == 0 && stable.nodes@[i].1
            == index {
        let i = choose|i: int|
            0 <= i < stable.nodes@.len() && (#[trigger] stable.nodes@[i]).0 == 0
                && stable.nodes@[i].1 == index;
        assert(nodes.contains_key((listing[i].0, listing[i].1)));
    }
    if s.nullifiers@.contains_key(t) {
        let i = choose|i: int|
            0 <= i < stable.nullifiers@.len() && (#[trigger] stable.nullifiers@[i]).0.text_of() == t;
        assert(stable.nullifiers@[i].0@ == t);
    }
}

proof fn lemma_last_record(rs: Seq<StableRecord>, i: int)
    requires
        0 <= i < rs.len(),
        forall|j: int| i < j < rs.len() ==> (#[trigger] rs[j]).property_id != rs[i].property_id,
    ensures
        snapshot::written_records(rs).contains_key(rs[i].property_id),
        snapshot::written_records(rs)[rs[i].property_id] == snapshot::record_of(rs[i]),
    decreases rs.len(),
{
    if i < rs.len() - 1 {
        let rest = rs.drop_last();
        assert forall|j: int| i < j < rest.len() implies (#[trigger] rest[j]).property_id
            != rest[i].property_id by {
            assert(rs[j] == rest[j]);
        }
        lemma_last_record(rest, i);
        assert(rs[rs.len() - 1].property_id != rs[i].property_id);
    }
}

proof fn lemma_record_listed(rs: Seq<StableRecord>, pid: u64)
    requires
        snapshot::written_records(rs).contains_key(pid),
    ensures
        exists|i: int| 0 <= i < rs.len() && (#[trigger] rs[i]).property_id == pid,
    decreases rs.len(),
{
    if rs.len() > 0 {
        if rs.last().property_id == pid {
            assert(rs[rs.len() - 1].property_id == pid);
        } else {
            lemma_record_listed(rs.drop_last(), pid);
            let i = choose|i: int|
                0 <= i < rs.drop_last().len() && (#[trigger] rs.drop_last()[i]).property_id == pid;
            assert(rs[i].property_id == pid);
        }
    }
}

proof fn lemma_last_challenge(cs: Seq<StableChallenge>, i: int)
    requires
        0 <= i < cs.len(),
        forall|j: int| i < j < cs.len() ==> (#[trigger] cs[j]).id != cs[i].id,
    ensures
        snapshot::written_challenges(cs).contains_key(cs[i].id),
        snapshot::written_challenges(cs)[cs[i].id] == snapshot::challenge_of(cs[i]),
    decreases cs.len(),
{
    if i < cs.len() - 1 {
        let rest = cs.drop_last();
        assert forall|j: int| i < j < rest.len() implies (#[trigger] rest[j]).id != rest[i].id by {
            assert(cs[j] == rest[j]);
        }
        lemma_last_challenge(rest, i);
        assert(cs[cs.len() - 1].id != cs[i].id);
    }
}

proof fn lemma_challenge_listed(cs: Seq<StableChallenge>, id: u64)
    requires
        snapshot::written_challenges(cs).contains_key(id),
    ensures
        exists|i: int| 0 <= i < cs.len() && (#[trigger] cs[i]).id == id,
    decreases cs.len(),
{
    if cs.len() > 0 {
        if cs.last().id == id {
            assert(cs[cs.len() - 1].id == id);
        } else {
            lemma_challenge_listed(cs.drop_last(), id);
            let i = choose|i: int|
                0 <= i < cs.drop_last().len() && (#[trigger] cs.drop_last()[i]).id == id;
            assert(cs[i].id == id);
        }
    }
}

proof fn lemma_last_pair(ps: Seq<(u64, u64)>, i: int)
    requires
        0 <= i < ps.len(),
        forall|j: int| i < j < ps.len() ==> (#[trigger] ps[j]).0 != ps[i].0,
    ensures
        snapshot::written_pairs(ps).contains_key(ps[i].0),
        snapshot::written_pairs(ps)[ps[i].0] == ps[i].1,
    decreases ps.len(),
{
    if i < ps.len() - 1 {
        let rest = ps.drop_last();
        assert forall|j: int| i < j < rest.len() implies (#[trigger] rest[j]).0 != rest[i].0 by {
            assert(ps[j] == rest[j]);
        }
        lemma_last_pair(rest, i);
        assert(ps[ps.len() - 1].0 != ps[i].0);
    }
}

proof fn lemma_last_entry<K: TextKey, V>(es: Seq<(K, V)>, i: int)
    requires
        0 <= i < es.len(),
        forall|j: int| i < j < es.len() ==> (#[trigger] es[j]).0.text_of() != es[i].0.text_of(),
    ensures
        table::written(es).contains_key(es[i].0.text_of()),
        table::written(es)[es[i].0.text_of()] == es[i].1,
    decreases es.len(),
{
    if i < es.len() - 1 {
        let rest = es.drop_last();
        assert forall|j: int| i < j < rest.len() implies (#[trigger] rest[j]).0.text_of()
            != rest[i].0.text_of() by {
            assert(es[j] == rest[j]);
        }
        lemma_last_entry(rest, i);
        assert(es[es.len() - 1].0.text_of() != es[i].0.text_of());
    }
}

/// Whether an entry is the last one of its text.
pub open spec fn last_of_its_text<K: TextKey, V>(es: Seq<(K, V)>, i: int) -> bool {
    &&& 0 <= i < es.len()
    &&& forall|j: int| i < j < es.len() ==> (#[trigger] es[j]).0.text_of() != es[i].0.text_of()
}

/// What is given back of any snapshot: its administrators and counters; of each number
/// the title and the challenge that are listed last, and no other titles and challenges;
/// and of each caller the time that is listed last.
pub proof fn law_snapshots_are_given_back(
    stable: &StableState,
    t: State,
    r: int,
    c: int,
    p: int,
    a: int,
    v: int,
    property_id: u64,
    id: u64,
)
    requires
        snapshot::readable(*stable),
        call_ensures(restore, (stable,), t),
    ensures
        t.admins@ == stable.admins@,
        t.next_leaf_index == stable.next_leaf_index,
        t.next_challenge_id == stable.next_challenge_id,
        t.next_nonce == stable.next_nonce,
        t.oldest_unpruned_challenge_id == stable.oldest_unpruned_challenge_id,
        0 <= r < stable.records@.len() && (forall|j: int|
            r < j < stable.records@.len() ==> (#[trigger] stable.records@[j]).property_id
                != stable.records@[r].property_id) ==> t.records@.contains_key(
            stable.records@[r].property_id,
        ) && same_title(stable.records@[r], t.records@[stable.records@[r].property_id]),
        t.records@.contains_key(property_id) ==> exists|i: int|
            0 <= i < stable.records@.len() && (#[trigger] stable.records@[i]).property_id
                == property_id,
        0 <= c < stable.challenges@.len() && (forall|j: int|
            c < j < stable.challenges@.len() ==> (#[trigger] stable.challenges@[j]).id
                != stable.challenges@[c].id) ==> t.challenges@.contains_key(
            stable.challenges@[c].id,
        ) && same_question(stable.challenges@[c], t.challenges@[stable.challenges@[c].id]),
        t.challenges@.contains_key(id) ==> exists|i: int|
            0 <= i < stable.challenges@.len() && (#[trigger] stable.challenges@[i]).id == id,
        0 <= p < stable.leaf_index_by_property@.len() && (forall|j: int|
            p < j < stable.leaf_index_by_property@.len() ==> (
            #[trigger] stable.leaf_index_by_property@[j]).0 != stable.leaf_index_by_property@[p].0)
            ==> t.leaf_index_by_property@.contains_key(stable.leaf_index_by_property@[p].0)
            && t.leaf_index_by_property@[stable.leaf_index_by_property@[p].0]
            == stable.leaf_index_by_property@[p].1,
        last_of_its_text(stable.last_challenge_call_at@, a) ==> t.last_challenge_call_at@.contains_key(
            stable.last_challenge_call_at@[a].0.text_of(),
        ) && t.last_challenge_call_at@[stable.last_challenge_call_at@[a].0.text_of()]
            == stable.last_challenge_call_at@[a].1,
        last_of_its_text(stable.last_verify_call_at@, v) ==> t.last_verify_call_at@.contains_key(
            stable.last_verify_call_at@[v].0.text_of(),
        ) && t.last_verify_call_at@[stable.last_verify_call_at@[v].0.text_of()]
            == stable.last_verify_call_at@[v].1,
{
    if 0 <= r < stable.records@.len() && (forall|j: int|
        r < j < stable.records@.len() ==> (#[trigger] stable.records@[j]).property_id
            != stable.records@[r].property_id) {
        lemma_last_record(stable.records@, r);
    }
    if t.records@.contains_key(property_id) {
        lemma_record_listed(stable.records@, property_id);
    }
    if 0 <= c < stable.challenges@.len() && (forall|j: int|
        c < j < stable.challenges@.len() ==> (#[trigger] stable.challenges@[j]).id
            != stable.challenges@[c].id) {
        lemma_last_challenge(stable.challenges@, c);
    }
    if t.challenges@.contains_key(id) {
        lemma_challenge_listed(stable.challenges@, id);
    }
    if 0 <= p < stable.leaf_index_by_property@.len() && (forall|j: int|
        p < j < stable.leaf_index_by_property@.len() ==> (
        #[trigger] stable.leaf_index_by_property@[j]).0 != stable.leaf_index_by_property@[p].0) {
        lemma_last_pair(stable.leaf_index_by_property@, p);
    }
    if last_of_its_text(stable.last_challenge_call_at@, a) {
        lemma_last_entry(stable.last_challenge_call_at@, a);
    }
    if last_of_its_text(stable.last_verify_call_at@, v) {
        lemma_last_entry(stable.last_verify_call_at@, v);
    }
}

/// What is given back of any snapshot has a nullifier spent exactly if one of its texts is
/// listed last as spent.
pub proof fn law_spent_nullifiers_are_given_back(
    stable: &StableState,
    t: State,
    nullifier: Seq<char>,
)
    requires
        snapshot::readable(*stable),
        call_ensures(restore, (stable,), t),
    ensures
        challenge_laws::marked_spent(t, nullifier) <==> exists|i: int| #[trigger]
            last_of_its_text(stable.nullifiers@, i) && stable.nullifiers@[i].1
                && challenge_laws::same_nullifier(stable.nullifiers@[i].0@, nullifier),
{
    let es = stable.nullifiers@;
    let texts = table::written(es);
    if exists|i: int| #[trigger]
        last_of_its_text(es, i) && es[i].1 && challenge_laws::same_nullifier(es[i].0@, nullifier) {
        let i = choose|i: int| #[trigger]
            last_of_its_text(es, i) && es[i].1 && challenge_laws::same_nullifier(
                es[i].0@,
                nullifier,
            );
        lemma_last_entry(es, i);
        let text = es[i].0@;
        let key = registry::nullifier_key(text);
        assert(texts.contains_key(text) && registry::nullifier_key(text) == key && texts[text]);
        assert(snapshot::spelled(texts, key));
        assert(snapshot::spelled_spent(texts, key));
        assert(t.nullifiers@.contains_key(key) && t.nullifiers@[key]);
        challenge_laws::law_keys_tell_nullifiers_apart(text, nullifier);
        challenge_laws::law_keys_tell_nullifiers_apart(nullifier, nullifier);
        assert(challenge_laws::same_nullifier(key, nullifier));
    }
    if challenge_laws::marked_spent(t, nullifier) {
        let key = choose|k: Seq<char>| #[trigger]
            t.nullifiers@.contains_key(k) && t.nullifiers@[k] && challenge_laws::same_nullifier(
                k,
                nullifier,
            );
        assert(snapshot::spelled_spent(texts, key));
        let text = choose|u: Seq<char>| #[trigger]
            texts.contains_key(u) && registry::nullifier_key(u) == key && texts[u];
        let i = lemma_last_index(es, text);
        lemma_last_entry(es, i);
        registry::lemma_key_of_key(text);
        challenge_laws::law_keys_tell_nullifiers_apart(key, nullifier);
        challenge_laws::law_keys_tell_nullifiers_apart(text, nullifier);
        assert(last_of_its_text(es, i));
    }
}

/// A text that was written has a last entry.
proof fn lemma_last_index<K: TextKey, V>(es: Seq<(K, V)>, t: Seq<char>) -> (i: int)
    requires
        table::written(es).contains_key(t),
    ensures
        last_of_its_text(es, i),
        es[i].0.text_of() == t,
    decreases es.len(),
{
    if es.last().0.text_of() == t {
        es.len() - 1
    } else {
        let rest = es.drop_last();
        let i = lemma_last_index(rest, t);
        assert forall|j: int| i < j < es.len() implies (#[trigger] es[j]).0.text_of()
            != es[i].0.text_of() by {
            if j < rest.len() {
                assert(rest[j] == es[j]);
            }
        }
        i
    }
}

proof fn lemma_last_node(ns: Seq<(u8, u64, crate::field::BaseElement)>, i: int)
    requires
        0 <= i < ns.len(),
        forall|j: int|
            i < j < ns.len() ==> (#[trigger] ns[j]).0 != ns[i].0 || ns[j].1 != ns[i].1,
    ensures
        tree::written_nodes(ns).contains_key((ns[i].0, ns[i].1)),
        tree::written_nodes(ns)[(ns[i].0, ns[i].1)] == ns[i].2,
    decreases ns.len(),
{
    if i < ns.len() - 1 {
        let rest = ns.drop_last();
        assert forall|j: int| i < j < rest.len() implies (#[trigger] rest[j]).0 != rest[i].0
            || rest[j].1 != rest[i].1 by {
            assert(ns[j] == rest[j]);
        }
        lemma_last_node(rest, i);
        let last = ns[ns.len() - 1];
        assert(last.0 != ns[i].0 || last.1 != ns[i].1);
    }
}

proof fn lemma_node_listed(ns: Seq<(u8, u64, crate::field::BaseElement)>, place: (u8, u64))
    requires
        tree::written_nodes(ns).contains_key(place),
    ensures
        exists|i: int| 0 <= i < ns.len() && ((#[trigger] ns[i]).0, ns[i].1) == place,
    decreases ns.len(),
{
    if ns.len() > 0 {
        let last = ns[ns.len() - 1];
        if (last.0, last.1) != place {
            lemma_node_listed(ns.drop_last(), place);
            let i = choose|i: int|
                0 <= i < ns.drop_last().len() && ((#[trigger] ns.drop_last()[i]).0, ns.drop_last()[i].1)
                    == place;
            assert((ns[i].0, ns[i].1) == place);
        }
    }
}

/// What is given back of any snapshot has at each place the node that is listed last for
/// it, and none at other places; its current root is the node at level 25 and index 0, or
/// the root of the empty tree where none is listed there.
pub proof fn law_nodes_are_given_back(stable: &StableState, t: State, n: int, place: (u8, u64))
    requires
        snapshot::readable(*stable),
        call_ensures(restore, (stable,), t),
    ensures
        0 <= n < stable.nodes@.len() && (forall|j: int|
            n < j < stable.nodes@.len() ==> (#[trigger] stable.nodes@[j]).0 != stable.nodes@[n].0
                || stable.nodes@[j].1 != stable.nodes@[n].1) ==> {
            let at = (stable.nodes@[n].0, stable.nodes@[n].1);
            let node = decimal::parsed(stable.nodes@[n].2@);
            &&& t.tree.nodes_by_place().contains_key(at)
            &&& Some(t.tree.nodes_by_place()[at]) == node
            &&& at == (25u8, 0u64) ==> Some(t.current_root) == node
        },
        t.tree.nodes_by_place().contains_key(place) ==> exists|i: int|
            0 <= i < stable.nodes@.len() && (#[trigger] stable.nodes@[i]).0 == place.0
                && stable.nodes@[i].1 == place.1,
        (forall|i: int|
            0 <= i < stable.nodes@.len() ==> (#[trigger] stable.nodes@[i]).0 != 25
                || stable.nodes@[i].1 != 0) ==> t.current_root == tree::subtree(Map::empty(), 25, 0),
{
    let read = snapshot::read_nodes(stable.nodes@);
    tree::lemma_empty_subtree(Map::empty(), 25, 0);
    if 0 <= n < stable.nodes@.len() && (forall|j: int|
        n < j < stable.nodes@.len() ==> (#[trigger] stable.nodes@[j]).0 != stable.nodes@[n].0
            || stable.nodes@[j].1 != stable.nodes@[n].1) {
        assert forall|j: int| n < j < read.len() implies (#[trigger] read[j]).0 != read[n].0
            || read[j].1 != read[n].1 by {
            assert(stable.nodes@[j].0 != stable.nodes@[n].0 || stable.nodes@[j].1
                != stable.nodes@[n].1);
        }
        lemma_last_node(read, n);
        assert(decimal::parsed(stable.nodes@[n].2@) is Some);
    }
    if t.tree.nodes_by_place().contains_key(place) {
        lemma_node_listed(read, place);
        let i = choose|i: int| 0 <= i < read.len() && ((#[trigger] read[i]).0, read[i].1) == place;
        assert(stable.nodes@[i].0 == place.0 && stable.nodes@[i].1 == place.1);
    }
    if forall|i: int|
        0 <= i < stable.nodes@.len() ==> (#[trigger] stable.nodes@[i]).0 != 25
            || stable.nodes@[i].1 != 0 {
        if t.tree.nodes_by_place().contains_key((25u8, 0u64)) {
            lemma_node_listed(read, (25u8, 0u64));
            let i = choose|i: int|
                0 <= i < read.len() && ((#[trigger] read[i]).0, read[i].1) == (25u8, 0u64);
            assert(stable.nodes@[i].0 == 25 && stable.nodes@[i].1 == 0);
        }
    }
}

} // verus!
