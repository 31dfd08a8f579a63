//! Snapshots of the registry, in plain values: what is kept over an upgrade.

use std::collections::HashMap;

use vstd::prelude::*;
use vstd::string::*;

use crate::decimal;
use crate::decimal::{fe_to_string, parse_fe};
use crate::field::BaseElement;
use crate::layout::TREE_DEPTH;
use crate::principal::Principal;
use crate::registry;
use crate::registry::{key_of, Challenge, Record, State, LEAF_CAPACITY};
use crate::table;
use crate::table::{Table, TextKey};
use crate::tree;
use crate::tree::{keys_of, NodeStore};

verus! {

/// A title in a snapshot.
#[derive(Debug)]
pub struct StableRecord {
    pub property_id: u64,
    pub owner_commitment: String,
    pub encumbrance_flag: u64,
    pub license_status: u64,
    pub license_expiry: u64,
}

/// A challenge in a snapshot, with its root as a decimal numeral.
#[derive(Debug)]
pub struct StableChallenge {
    pub id: u64,
    pub registry_id: u64,
    pub merkle_root: String,
    pub purpose: u64,
    pub request_nonce: u64,
    pub current_timestamp: u64,
    pub expires_at: i64,
    pub consumed: bool,
    pub requester: Principal,
}

/// The registry in a snapshot.
#[derive(Debug)]
pub struct StableState {
    pub admins: Vec<Principal>,
    pub records: Vec<StableRecord>,
    pub leaf_index_by_property: Vec<(u64, u64)>,
    pub nodes: Vec<(u8, u64, String)>,
    pub next_leaf_index: u64,
    pub challenges: Vec<StableChallenge>,
    pub next_challenge_id: u64,
    pub next_nonce: u64,
    pub oldest_unpruned_challenge_id: u64,
    pub nullifiers: Vec<(String, bool)>,
    pub last_challenge_call_at: Vec<(Principal, i64)>,
    pub last_verify_call_at: Vec<(Principal, i64)>,
}

/// The record that a title in a snapshot stands for.
pub open spec fn record_of(r: StableRecord) -> Record {
    Record {
        property_id: r.property_id,
        owner_commitment: r.owner_commitment,
        encumbrance_flag: r.encumbrance_flag,
        license_status: r.license_status,
        license_expiry: r.license_expiry,
    }
}

/// The challenge that one in a snapshot stands for.
pub open spec fn challenge_of(c: StableChallenge) -> Challenge {
    Challenge {
        registry_id: c.registry_id,
        merkle_root: decimal::parsed(c.merkle_root@)->0,
        purpose: c.purpose,
        request_nonce: c.request_nonce,
        current_timestamp: c.current_timestamp,
        expires_at: c.expires_at,
        consumed: c.consumed,
        requester: c.requester,
    }
}

/// Whether a text is the numeral of an element.
pub open spec fn writes(text: Seq<char>, e: BaseElement) -> bool {
    text == decimal::numeral_of(e@)
}

/// Whether titles in a snapshot are those of the registry, in some order.
pub open spec fn lists_records(out: Seq<StableRecord>, m: Map<u64, Record>) -> bool {
    exists|keys: Seq<u64>| #[trigger]
        tree::walks(keys, m) && keys.len() == out.len() && forall|i: int|
            0 <= i < out.len() ==> record_of(#[trigger] out[i]) == m[keys[i]]
}

/// Whether pairs are those of a map, in some order.
pub open spec fn lists_pairs(out: Seq<(u64, u64)>, m: Map<u64, u64>) -> bool {
    exists|keys: Seq<u64>| #[trigger]
        tree::walks(keys, m) && keys.len() == out.len() && forall|i: int|
            0 <= i < out.len() ==> #[trigger] out[i] == (keys[i], m[keys[i]])
}

/// Whether a challenge in a snapshot is the one with the given number.
pub open spec fn same_challenge(out: StableChallenge, id: u64, c: Challenge) -> bool {
    &&& out.id == id
    &&& writes(out.merkle_root@, c.merkle_root)
    &&& c == (Challenge { merkle_root: c.merkle_root, ..challenge_of(out) })
}

/// Whether challenges in a snapshot are those of the registry, in some order.
pub open spec fn lists_challenges(out: Seq<StableChallenge>, m: Map<u64, Challenge>) -> bool {
    exists|keys: Seq<u64>| #[trigger]
        tree::walks(keys, m) && keys.len() == out.len() && forall|i: int|
            0 <= i < out.len() ==> same_challenge(#[trigger] out[i], keys[i], m[keys[i]])
}

/// Whether nodes in a snapshot are those of a listing, as numerals.
pub open spec fn writes_nodes(
    out: Seq<(u8, u64, String)>,
    listing: Seq<(u8, u64, BaseElement)>,
) -> bool {
    &&& out.len() == listing.len()
    &&& forall|i: int|
        0 <= i < out.len() ==> (#[trigger] out[i]).0 == listing[i].0 && out[i].1 == listing[i].1
            && writes(out[i].2@, listing[i].2)
}

/// Whether nodes in a snapshot are those of a store, in some order.
pub open spec fn lists_nodes(out: Seq<(u8, u64, String)>, nodes: Map<(u8, u64), BaseElement>) -> bool {
    exists|listing: Seq<(u8, u64, BaseElement)>| #[trigger]
        tree::lists_nodes(listing, nodes) && writes_nodes(out, listing) && forall|i: int|
            0 <= i < listing.len() ==> (#[trigger] listing[i]).2.wf()
}

/// Whether a snapshot shows a state.
pub open spec fn shows(out: StableState, s: State) -> bool {
    &&& out.admins@ == s.admins@
    &&& lists_records(out.records@, s.records@)
    &&& lists_pairs(out.leaf_index_by_property@, s.leaf_index_by_property@)
    &&& lists_nodes(out.nodes@, s.tree.nodes_by_place())
    &&& out.next_leaf_index == s.next_leaf_index
    &&& lists_challenges(out.challenges@, s.challenges@)
    &&& out.next_challenge_id == s.next_challenge_id
    &&& out.next_nonce == s.next_nonce
    &&& out.oldest_unpruned_challenge_id == s.oldest_unpruned_challenge_id
    &&& table::lists(out.nullifiers@, s.nullifiers@)
    &&& table::lists(out.last_challenge_call_at@, s.last_challenge_call_at@)
    &&& table::lists(out.last_verify_call_at@, s.last_verify_call_at@)
}

fn snapshot_records(m: &HashMap<u64, Record>) -> (out: Vec<StableRecord>)
    ensures
        lists_records(out@, m@),
{
    broadcast use vstd::std_specs::hash::group_hash_axioms;

    let keys = keys_of(m);
    let mut out: Vec<StableRecord> = Vec::new();
    let mut i: usize = 0;
    while i < keys.len()
        invariant
            tree::walks(keys@, m@),
            i <= keys@.len(),
            out@.len() == i,
            forall|j: int| 0 <= j < i ==> record_of(#[trigger] out@[j]) == m@[keys@[j]],
        decreases keys@.len() - i,
    {
        broadcast use vstd::std_specs::hash::group_hash_axioms;

        assert(keys@.contains(keys@[i as int]));
        match m.get(&keys[i]) {
            Some(r) => {
                out.push(
                    StableRecord {
                        property_id: r.property_id,
                        owner_commitment: r.owner_commitment.clone(),
                        encumbrance_flag: r.encumbrance_flag,
                        license_status: r.license_status,
                        license_expiry: r.license_expiry,
                    },
                );
            },
            None => {},
        }
        i = i + 1;
    }
    out
}

fn snapshot_pairs(m: &HashMap<u64, u64>) -> (out: Vec<(u64, u64)>)
    ensures
        lists_pairs(out@, m@),
{
    broadcast use vstd::std_specs::hash::group_hash_axioms;

    let keys = keys_of(m);
    let mut out: Vec<(u64, u64)> = Vec::new();
    let mut i: usize = 0;
    while i < keys.len()
        invariant
            tree::walks(keys@, m@),
            i <= keys@.len(),
            out@.len() == i,
            forall|j: int| 0 <= j < i ==> #[trigger] out@[j] == (keys@[j], m@[keys@[j]]),
        decreases keys@.len() - i,
    {
        broadcast use vstd::std_specs::hash::group_hash_axioms;

        assert(keys@.contains(keys@[i as int]));
        match m.get(&keys[i]) {
            Some(v) => {
                out.push((keys[i], *v));
            },
            None => {},
        }
        i = i + 1;
    }
    out
}

fn snapshot_challenges(m: &HashMap<u64, Challenge>) -> (out: Vec<StableChallenge>)
    ensures
        lists_challenges(out@, m@),
{
    broadcast use vstd::std_specs::hash::group_hash_axioms;

    let keys = keys_of(m);
    let mut out: Vec<StableChallenge> = Vec::new();
    let mut i: usize = 0;
    while i < keys.len()
        invariant
            tree::walks(keys@, m@),
            i <= keys@.len(),
            out@.len() == i,
            forall|j: int|
                0 <= j < i ==> same_challenge(#[trigger] out@[j], keys@[j], m@[keys@[j]]),
        decreases keys@.len() - i,
    {
        broadcast use vstd::std_specs::hash::group_hash_axioms;

        assert(keys@.contains(keys@[i as int]));
        match m.get(&keys[i]) {
            Some(c) => {
                out.push(
                    StableChallenge {
                        id: keys[i],
                        registry_id: c.registry_id,
                        merkle_root: fe_to_string(c.merkle_root),
                        purpose: c.purpose,
                        request_nonce: c.request_nonce,
                        current_timestamp: c.current_timestamp,
                        expires_at: c.expires_at,
                        consumed: c.consumed,
                        requester: c.requester,
                    },
                );
            },
            None => {},
        }
        i = i + 1;
    }
    out
}

fn snapshot_nodes(store: &NodeStore) -> (out: Vec<(u8, u64, String)>)
    requires
        store.complete(),
    ensures
        lists_nodes(out@, store.nodes_by_place()),
{
    let listing = store.listing();
    let mut out: Vec<(u8, u64, String)> = Vec::new();
    let mut i: usize = 0;
    while i < listing.len()
        invariant
            i <= listing@.len(),
            out@.len() == i,
            forall|j: int|
                0 <= j < i ==> (#[trigger] out@[j]).0 == listing@[j].0 && out@[j].1 == listing@[j].1
                    && writes(out@[j].2@, listing@[j].2),
            forall|j: int| 0 <= j < i ==> (#[trigger] listing@[j]).2.wf(),
        decreases listing@.len() - i,
    {
        let (level, index, node) = listing[i];
        proof {
            use_type_invariant(&node);
        }
        out.push((level, index, fe_to_string(node)));
        i = i + 1;
    }
    assert(tree::lists_nodes(listing@, store.nodes_by_place()) && writes_nodes(out@, listing@));
    out
}

fn snapshot_nullifiers(t: &Table<String, bool>) -> (out: Vec<(String, bool)>)
    requires
        t.wf(),
    ensures
        table::lists(out@, t@),
{
    let entries = t.entries();
    let mut out: Vec<(String, bool)> = Vec::new();
    let mut i: usize = 0;
    while i < entries.len()
        invariant
            i <= entries@.len(),
            out@ == entries@.take(i as int),
        decreases entries@.len() - i,
    {
        out.push((entries[i].0.clone(), entries[i].1));
        i = i + 1;
        assert(out@ =~= entries@.take(i as int));
    }
    assert(out@ =~= entries@);
    out
}

fn snapshot_calls(t: &Table<Principal, i64>) -> (out: Vec<(Principal, i64)>)
    requires
        t.wf(),
    ensures
        table::lists(out@, t@),
{
    let entries = t.entries();
    let mut out: Vec<(Principal, i64)> = Vec::new();
    let mut i: usize = 0;
    while i < entries.len()
        invariant
            i <= entries@.len(),
            out@ == entries@.take(i as int),
        decreases entries@.len() - i,
    {
        out.push((entries[i].0, entries[i].1));
        i = i + 1;
        assert(out@ =~= entries@.take(i as int));
    }
    assert(out@ =~= entries@);
    out
}

/// Takes a snapshot of the registry.
pub fn snapshot(s: &State) -> (out: StableState)
    requires
        s.connected(),
    ensures
        shows(out, *s),
{
    proof {
        tree::lemma_wf_is_complete(s.tree);
    }
    let mut admins: Vec<Principal> = Vec::new();
    let mut i: usize = 0;
    while i < s.admins.len()
        invariant
            i <= s.admins@.len(),
            admins@ == s.admins@.take(i as int),
        decreases s.admins@.len() - i,
    {
        admins.push(s.admins[i]);
        i = i + 1;
        assert(admins@ =~= s.admins@.take(i as int));
    }
    assert(admins@ =~= s.admins@);
    StableState {
        admins,
        records: snapshot_records(&s.records),
        leaf_index_by_property: snapshot_pairs(&s.leaf_index_by_property),
        nodes: snapshot_nodes(&s.tree),
        next_leaf_index: s.next_leaf_index,
        challenges: snapshot_challenges(&s.challenges),
        next_challenge_id: s.next_challenge_id,
        next_nonce: s.next_nonce,
        oldest_unpruned_challenge_id: s.oldest_unpruned_challenge_id,
        nullifiers: snapshot_nullifiers(&s.nullifiers),
        last_challenge_call_at: snapshot_calls(&s.last_challenge_call_at),
        last_verify_call_at: snapshot_calls(&s.last_verify_call_at),
    }
}

/// The records of a snapshot, written one after the other.
pub open spec fn written_records(rs: Seq<StableRecord>) -> Map<u64, Record>
    decreases rs.len(),
{
    if rs.len() == 0 {
        Map::empty()
    } else {
        written_records(rs.drop_last()).insert(rs.last().property_id, record_of(rs.last()))
    }
}

/// The pairs of a snapshot, written one after the other.
pub open spec fn written_pairs(ps: Seq<(u64, u64)>) -> Map<u64, u64>
    decreases ps.len(),
{
    if ps.len() == 0 {
        Map::empty()
    } else {
        written_pairs(ps.drop_last()).insert(ps.last().0, ps.last().1)
    }
}

/// The challenges of a snapshot, written one after the other.
pub open spec fn written_challenges(cs: Seq<StableChallenge>) -> Map<u64, Challenge>
    decreases cs.len(),
{
    if cs.len() == 0 {
        Map::empty()
    } else {
        written_challenges(cs.drop_last()).insert(cs.last().id, challenge_of(cs.last()))
    }
}

/// The nodes of a snapshot, read.
pub open spec fn read_nodes(nodes: Seq<(u8, u64, String)>) -> Seq<(u8, u64, BaseElement)> {
    Seq::new(
        nodes.len(),
        |i: int| (nodes[i].0, nodes[i].1, decimal::parsed(nodes[i].2@)->0),
    )
}

/// Whether all numerals of a snapshot can be read.
pub open spec fn readable(snapshot: StableState) -> bool {
    &&& forall|i: int|
        0 <= i < snapshot.nodes@.len() ==> decimal::parsed((#[trigger] snapshot.nodes@[i]).2@) is Some
    &&& forall|i: int|
        0 <= i < snapshot.challenges@.len() ==> decimal::parsed(
            (#[trigger] snapshot.challenges@[i]).merkle_root@,
        ) is Some
}

/// Whether a nullifier is among texts, in whichever way it is written.
pub open spec fn spelled(texts: Map<Seq<char>, bool>, key: Seq<char>) -> bool {
    exists|t: Seq<char>| #[trigger] texts.contains_key(t) && registry::nullifier_key(t) == key
}

/// Whether a nullifier is spent among texts, in whichever way it is written.
pub open spec fn spelled_spent(texts: Map<Seq<char>, bool>, key: Seq<char>) -> bool {
    exists|t: Seq<char>| #[trigger]
        texts.contains_key(t) && registry::nullifier_key(t) == key && texts[t]
}

/// The nullifiers that texts give: a number that is spent in one spelling is spent.
pub open spec fn by_key(texts: Map<Seq<char>, bool>) -> Map<Seq<char>, bool> {
    Map::new(|key: Seq<char>| spelled(texts, key), |key: Seq<char>| spelled_spent(texts, key))
}

/// Whether a state is what a snapshot gives back.
pub open spec fn restores(snapshot: StableState, s: State) -> bool {
    &&& s.admins@ == snapshot.admins@
    &&& s.records@ == written_records(snapshot.records@)
    &&& s.leaf_index_by_property@ == written_pairs(snapshot.leaf_index_by_property@)
    &&& s.tree.complete()
    &&& s.tree.nodes_by_place() == tree::written_nodes(read_nodes(snapshot.nodes@))
    &&& s.current_root == s.tree.node_or_zero(TREE_DEPTH as u8, 0)
    &&& s.next_leaf_index == snapshot.next_leaf_index
    &&& s.challenges@ == written_challenges(snapshot.challenges@)
    &&& s.next_challenge_id == snapshot.next_challenge_id
    &&& s.next_nonce == snapshot.next_nonce
    &&& s.oldest_unpruned_challenge_id == snapshot.oldest_unpruned_challenge_id
    &&& s.nullifiers.wf()
    &&& s.nullifiers@ == by_key(table::written(snapshot.nullifiers@))
    &&& s.last_challenge_call_at.wf()
    &&& s.last_challenge_call_at@ == table::written(snapshot.last_challenge_call_at@)
    &&& s.last_verify_call_at.wf()
    &&& s.last_verify_call_at@ == table::written(snapshot.last_verify_call_at@)
}

fn restore_records(rs: &Vec<StableRecord>) -> (m: HashMap<u64, Record>)
    ensures
        m@ == written_records(rs@),
{
    broadcast use vstd::std_specs::hash::group_hash_axioms;

    let mut m: HashMap<u64, Record> = HashMap::new();
    let mut i: usize = 0;
    while i < rs.len()
        invariant
            i <= rs@.len(),
            m@ == written_records(rs@.take(i as int)),
        decreases rs@.len() - i,
    {
        broadcast use vstd::std_specs::hash::group_hash_axioms;

        let r = &rs[i];
        assert(rs@.take(i + 1).drop_last() =~= rs@.take(i as int));
        m.insert(
            r.property_id,
            Record {
                property_id: r.property_id,
                owner_commitment: r.owner_commitment.clone(),
                encumbrance_flag: r.encumbrance_flag,
                license_status: r.license_status,
                license_expiry: r.license_expiry,
            },
        );
        i = i + 1;
    }
    assert(rs@.take(i as int) =~= rs@);
    m
}

fn restore_pairs(ps: &Vec<(u64, u64)>) -> (m: HashMap<u64, u64>)
    ensures
        m@ == written_pairs(ps@),
{
    broadcast use vstd::std_specs::hash::group_hash_axioms;

    let mut m: HashMap<u64, u64> = HashMap::new();
    let mut i: usize = 0;
    while i < ps.len()
        invariant
            i <= ps@.len(),
            m@ == written_pairs(ps@.take(i as int)),
        decreases ps@.len() - i,
    {
        broadcast use vstd::std_specs::hash::group_hash_axioms;

        assert(ps@.take(i + 1).drop_last() =~= ps@.take(i as int));
        m.insert(ps[i].0, ps[i].1);
        i = i + 1;
    }
    assert(ps@.take(i as int) =~= ps@);
    m
}

fn restore_challenges(cs: &Vec<StableChallenge>) -> (m: HashMap<u64, Challenge>)
    requires
        forall|i: int|
            0 <= i < cs@.len() ==> decimal::parsed((#[trigger] cs@[i]).merkle_root@) is Some,
    ensures
        m@ == written_challenges(cs@),
{
    broadcast use vstd::std_specs::hash::group_hash_axioms;

    let mut m: HashMap<u64, Challenge> = HashMap::new();
    let mut i: usize = 0;
    while i < cs.len()
        invariant
            forall|k: int|
                0 <= k < cs@.len() ==> decimal::parsed((#[trigger] cs@[k]).merkle_root@) is Some,
            i <= cs@.len(),
            m@ == written_challenges(cs@.take(i as int)),
        decreases cs@.len() - i,
    {
        broadcast use vstd::std_specs::hash::group_hash_axioms;

        let c = &cs[i];
        assert(cs@.take(i + 1).drop_last() =~= cs@.take(i as int));
        assert(decimal::parsed(cs@[i as int].merkle_root@) is Some);
        match parse_fe(c.merkle_root.as_str()) {
            Ok(merkle_root) => {
                m.insert(
                    c.id,
                    Challenge {
                        registry_id: c.registry_id,
                        merkle_root,
                        purpose: c.purpose,
                        request_nonce: c.request_nonce,
                        current_timestamp: c.current_timestamp,
                        expires_at: c.expires_at,
                        consumed: c.consumed,
                        requester: c.requester,
                    },
                );
            },
            Err(_) => {},
        }
        i = i + 1;
    }
    assert(cs@.take(i as int) =~= cs@);
    m
}

fn restore_nodes(nodes: &Vec<(u8, u64, String)>) -> (store: NodeStore)
    requires
        forall|i: int| 0 <= i < nodes@.len() ==> decimal::parsed((#[trigger] nodes@[i]).2@) is Some,
    ensures
        store.complete(),
        store.nodes_by_place() == tree::written_nodes(read_nodes(nodes@)),
{
    let mut listing: Vec<(u8, u64, BaseElement)> = Vec::new();
    let mut i: usize = 0;
    while i < nodes.len()
        invariant
            forall|k: int|
                0 <= k < nodes@.len() ==> decimal::parsed((#[trigger] nodes@[k]).2@) is Some,
            i <= nodes@.len(),
            listing@ == read_nodes(nodes@).take(i as int),
        decreases nodes@.len() - i,
    {
        assert(decimal::parsed(nodes@[i as int].2@) is Some);
        match parse_fe(nodes[i].2.as_str()) {
            Ok(node) => {
                listing.push((nodes[i].0, nodes[i].1, node));
            },
            Err(_) => {},
        }
        i = i + 1;
        assert(listing@ =~= read_nodes(nodes@).take(i as int));
    }
    assert(listing@ =~= read_nodes(nodes@));
    NodeStore::from_listing(&listing)
}

fn restore_texts(entries: &Vec<(String, bool)>) -> (t: Table<String, bool>)
    ensures
        t.wf(),
        t@ == table::written(entries@),
{
    let mut t: Table<String, bool> = Table::new();
    let mut i: usize = 0;
    while i < entries.len()
        invariant
            i <= entries@.len(),
            t.wf(),
            t@ == table::written(entries@.take(i as int)),
        decreases entries@.len() - i,
    {
        assert(entries@.take(i + 1).drop_last() =~= entries@.take(i as int));
        t.insert(entries[i].0.clone(), entries[i].1);
        i = i + 1;
    }
    assert(entries@.take(i as int) =~= entries@);
    t
}

/// One more text adds its nullifier, or spends it.
proof fn lemma_one_more_text(texts: Map<Seq<char>, bool>, t: Seq<char>, spent: bool)
    requires
        !texts.contains_key(t),
    ensures
        by_key(texts.insert(t, spent)) == by_key(texts).insert(
            registry::nullifier_key(t),
            spent || (by_key(texts).contains_key(registry::nullifier_key(t)) && by_key(
                texts,
            )[registry::nullifier_key(t)]),
        ),
{
    let more = texts.insert(t, spent);
    let key = registry::nullifier_key(t);
    assert forall|k: Seq<char>| #[trigger] spelled(more, k) <==> k == key || spelled(texts, k) by {
        if spelled(texts, k) {
            let u = choose|u: Seq<char>| #[trigger]
                texts.contains_key(u) && registry::nullifier_key(u) == k;
            assert(more.contains_key(u));
        }
        if spelled(more, k) {
            let u = choose|u: Seq<char>| #[trigger]
                more.contains_key(u) && registry::nullifier_key(u) == k;
            assert(u == t || texts.contains_key(u));
        }
        assert(more.contains_key(t));
    }
    assert forall|k: Seq<char>| #[trigger] spelled_spent(more, k) <==> (k == key && spent)
        || spelled_spent(texts, k) by {
        if spelled_spent(texts, k) {
            let u = choose|u: Seq<char>| #[trigger]
                texts.contains_key(u) && registry::nullifier_key(u) == k && texts[u];
            assert(more.contains_key(u));
        }
        if spelled_spent(more, k) {
            let u = choose|u: Seq<char>| #[trigger]
                more.contains_key(u) && registry::nullifier_key(u) == k && more[u];
            assert(u == t || texts.contains_key(u));
        }
        assert(more.contains_key(t));
    }
    if spelled_spent(texts, key) {
        let u = choose|u: Seq<char>| #[trigger]
            texts.contains_key(u) && registry::nullifier_key(u) == key && texts[u];
        assert(spelled(texts, key));
    }
    assert(by_key(more) =~= by_key(texts).insert(
        key,
        spent || (by_key(texts).contains_key(key) && by_key(texts)[key]),
    ));
}

fn restore_nullifiers(entries: &Vec<(String, bool)>) -> (t: Table<String, bool>)
    ensures
        t.wf(),
        t@ == by_key(table::written(entries@)),
{
    let texts = restore_texts(entries);
    let listed = texts.entries();
    let mut t: Table<String, bool> = Table::new();
    let mut i: usize = 0;
    assert(t@ =~= by_key(table::written(listed@.take(0))));
    while i < listed.len()
        invariant
            i <= listed@.len(),
            table::lists(listed@, texts@),
            t.wf(),
            t@ == by_key(table::written(listed@.take(i as int))),
        decreases listed@.len() - i,
    {
        let ghost before = listed@.take(i as int);
        let key = key_of(listed[i].0.as_str());
        let known = match t.find(key.as_str()) {
            Some(b) => b,
            None => false,
        };
        proof {
            let text = listed@[i as int].0.text_of();
            assert(listed@.take(i + 1).drop_last() =~= before);
            if table::written(before).contains_key(text) {
                table::lemma_written_texts(before, text);
                let k = choose|k: int| 0 <= k < before.len() && (#[trigger] before[k]).0.text_of()
                    == text;
                assert(listed@[k] == before[k]);
            }
            lemma_one_more_text(table::written(before), text, listed@[i as int].1);
        }
        t.insert(key, listed[i].1 || known);
        i = i + 1;
    }
    proof {
        assert(listed@.take(i as int) =~= listed@);
        table::lemma_written_lists(listed@, texts@);
    }
    t
}

fn restore_calls(entries: &Vec<(Principal, i64)>) -> (t: Table<Principal, i64>)
    ensures
        t.wf(),
        t@ == table::written(entries@),
{
    let mut t: Table<Principal, i64> = Table::new();
    let mut i: usize = 0;
    while i < entries.len()
        invariant
            i <= entries@.len(),
            t.wf(),
            t@ == table::written(entries@.take(i as int)),
        decreases entries@.len() - i,
    {
        assert(entries@.take(i + 1).drop_last() =~= entries@.take(i as int));
        t.insert(entries[i].0, entries[i].1);
        i = i + 1;
    }
    assert(entries@.take(i as int) =~= entries@);
    t
}

/// Gives back the registry of a snapshot.
pub fn restore(snapshot: &StableState) -> (s: State)
    requires
        readable(*snapshot),
    ensures
        restores(*snapshot, s),
{
    let tree = restore_nodes(&snapshot.nodes);
    let current_root = tree.stored_root();
    let mut admins: Vec<Principal> = Vec::new();
    let mut i: usize = 0;
    while i < snapshot.admins.len()
        invariant
            i <= snapshot.admins@.len(),
            admins@ == snapshot.admins@.take(i as int),
        decreases snapshot.admins@.len() - i,
    {
        admins.push(snapshot.admins[i]);
        i = i + 1;
        assert(admins@ =~= snapshot.admins@.take(i as int));
    }
    assert(admins@ =~= snapshot.admins@);
    State {
        admins,
        records: restore_records(&snapshot.records),
        leaf_index_by_property: restore_pairs(&snapshot.leaf_index_by_property),
        tree,
        current_root,
        next_leaf_index: snapshot.next_leaf_index,
        challenges: restore_challenges(&snapshot.challenges),
        next_challenge_id: snapshot.next_challenge_id,
        next_nonce: snapshot.next_nonce,
        oldest_unpruned_challenge_id: snapshot.oldest_unpruned_challenge_id,
        nullifiers: restore_nullifiers(&snapshot.nullifiers),
        last_challenge_call_at: restore_calls(&snapshot.last_challenge_call_at),
        last_verify_call_at: restore_calls(&snapshot.last_verify_call_at),
    }
}

/// What was written of keys is there, and nothing else.
proof fn lemma_pairs_back(out: Seq<(u64, u64)>, m: Map<u64, u64>, keys: Seq<u64>)
    requires
        tree::walks(keys, m),
        keys.len() == out.len(),
        forall|i: int| 0 <= i < out.len() ==> #[trigger] out[i] == (keys[i], m[keys[i]]),
    ensures
        written_pairs(out) == m,
    decreases out.len(),
{
    if out.len() == 0 {
        assert forall|k: u64| !m.contains_key(k) by {
            assert(!keys.contains(k));
        }
        assert(m =~= Map::empty());
    } else {
        let k = keys.last();
        let fewer = m.remove(k);
        lemma_walks_shorter(keys, m);
        assert(out[out.len() - 1] == (k, m[k]));
        assert forall|i: int| 0 <= i < out.drop_last().len() implies #[trigger] out.drop_last()[i]
            == (keys.drop_last()[i], fewer[keys.drop_last()[i]]) by {
            assert(out[i] == (keys[i], m[keys[i]]));
            assert(keys[i] != keys[keys.len() - 1]);
        }
        lemma_pairs_back(out.drop_last(), fewer, keys.drop_last());
        assert(keys.contains(k));
        assert(fewer.insert(k, m[k]) =~= m);
    }
}

/// Without the last key the others walk through the map without it.
proof fn lemma_walks_shorter<V>(keys: Seq<u64>, m: Map<u64, V>)
    requires
        tree::walks(keys, m),
        keys.len() > 0,
    ensures
        tree::walks(keys.drop_last(), m.remove(keys.last())),
{
    let rest = keys.drop_last();
    let fewer = m.remove(keys.last());
    assert forall|k: u64| #[trigger] rest.contains(k) <==> fewer.contains_key(k) by {
        if rest.contains(k) {
            let i = choose|i: int| 0 <= i < rest.len() && rest[i] == k;
            assert(keys[i] == k);
            assert(keys.contains(k));
            assert(keys[i] != keys[keys.len() - 1]);
        }
        if fewer.contains_key(k) {
            assert(m.contains_key(k));
            assert(keys.contains(k));
            let i = choose|i: int| 0 <= i < keys.len() && keys[i] == k;
            assert(rest[i] == k);
        }
    }
}

proof fn lemma_records_back(out: Seq<StableRecord>, m: Map<u64, Record>, keys: Seq<u64>)
    requires
        tree::walks(keys, m),
        keys.len() == out.len(),
        forall|i: int| 0 <= i < out.len() ==> record_of(#[trigger] out[i]) == m[keys[i]],
        forall|k: u64| #[trigger] m.contains_key(k) ==> m[k].property_id == k,
    ensures
        written_records(out) == m,
    decreases out.len(),
{
    if out.len() == 0 {
        assert forall|k: u64| !m.contains_key(k) by {
            assert(!keys.contains(k));
        }
        assert(m =~= Map::empty());
    } else {
        let k = keys.last();
        let fewer = m.remove(k);
        lemma_walks_shorter(keys, m);
        assert(keys.contains(k));
        assert(record_of(out[out.len() - 1]) == m[k]);
        assert forall|i: int| 0 <= i < out.drop_last().len() implies record_of(
            #[trigger] out.drop_last()[i],
        ) == fewer[keys.drop_last()[i]] by {
            assert(record_of(out[i]) == m[keys[i]]);
            assert(keys[i] != keys[keys.len() - 1]);
        }
        lemma_records_back(out.drop_last(), fewer, keys.drop_last());
        assert(fewer.insert(k, m[k]) =~= m);
    }
}

proof fn lemma_challenges_back(out: Seq<StableChallenge>, m: Map<u64, Challenge>, keys: Seq<u64>)
    requires
        tree::walks(keys, m),
        keys.len() == out.len(),
        forall|i: int|
            0 <= i < out.len() ==> same_challenge(#[trigger] out[i], keys[i], m[keys[i]]),
        forall|k: u64| #[trigger] m.contains_key(k) ==> m[k].merkle_root.wf(),
    ensures
        written_challenges(out) == m,
        forall|i: int|
            0 <= i < out.len() ==> decimal::parsed((#[trigger] out[i]).merkle_root@) is Some,
    decreases out.len(),
{
    if out.len() == 0 {
        assert forall|k: u64| !m.contains_key(k) by {
            assert(!keys.contains(k));
        }
        assert(m =~= Map::empty());
    } else {
        let k = keys.last();
        let fewer = m.remove(k);
        lemma_walks_shorter(keys, m);
        assert(keys.contains(k));
        assert(same_challenge(out[out.len() - 1], k, m[k]));
        decimal::law_text_round_trip(m[k].merkle_root);
        assert forall|i: int| 0 <= i < out.drop_last().len() implies same_challenge(
            #[trigger] out.drop_last()[i],
            keys.drop_last()[i],
            fewer[keys.drop_last()[i]],
        ) by {
            assert(same_challenge(out[i], keys[i], m[keys[i]]));
            assert(keys[i] != keys[keys.len() - 1]);
        }
        lemma_challenges_back(out.drop_last(), fewer, keys.drop_last());
        assert forall|i: int| 0 <= i < out.len() implies decimal::parsed(
            (#[trigger] out[i]).merkle_root@,
        ) is Some by {
            if i < out.len() - 1 {
                assert(out.drop_last()[i] == out[i]);
            }
        }
        assert(fewer.insert(k, m[k]) =~= m);
    }
}

proof fn lemma_nodes_back(out: Seq<(u8, u64, String)>, nodes: Map<(u8, u64), BaseElement>)
    requires
        lists_nodes(out, nodes),
    ensures
        tree::written_nodes(read_nodes(out)) == nodes,
        forall|i: int| 0 <= i < out.len() ==> decimal::parsed((#[trigger] out[i]).2@) is Some,
{
    let listing = choose|listing: Seq<(u8, u64, BaseElement)>| #[trigger]
        tree::lists_nodes(listing, nodes) && writes_nodes(out, listing) && forall|i: int|
            0 <= i < listing.len() ==> (#[trigger] listing[i]).2.wf();
    assert forall|i: int| 0 <= i < out.len() implies decimal::parsed((#[trigger] out[i]).2@)
        == Some(listing[i].2) by {
        assert(listing[i].2.wf());
        decimal::law_text_round_trip(listing[i].2);
    }
    assert(read_nodes(out) =~= listing);
    tree::lemma_written_nodes(listing, nodes);
}

/// Nullifiers that are kept under themselves come back as they were.
proof fn lemma_nullifiers_back(texts: Map<Seq<char>, bool>)
    requires
        forall|t: Seq<char>| #[trigger] texts.contains_key(t) ==> registry::nullifier_key(t) == t,
    ensures
        by_key(texts) == texts,
{
    assert(by_key(texts) =~= texts);
}

/// A snapshot can always be read back.
pub proof fn law_snapshots_are_readable(s: State, snapshot: StableState)
    requires
        s.wf(),
        shows(snapshot, s),
    ensures
        readable(snapshot),
{
    lemma_nodes_back(snapshot.nodes@, s.tree.nodes_by_place());
    let keys = choose|keys: Seq<u64>| #[trigger]
        tree::walks(keys, s.challenges@) && keys.len() == snapshot.challenges@.len() && forall|i: int|
            0 <= i < snapshot.challenges@.len() ==> same_challenge(
                #[trigger] snapshot.challenges@[i],
                keys[i],
                s.challenges@[keys[i]],
            );
    lemma_challenges_back(snapshot.challenges@, s.challenges@, keys);
}

/// Upgrades keep the registry: what a snapshot of it gives back is the registry.
/// The current root is kept as long as there are no more titles than the tree has
/// leaves; beyond that it is read from the tree's root.
pub proof fn law_upgrades_keep_the_registry(s: State, snapshot: StableState, t: State)
    requires
        s.wf(),
        shows(snapshot, s),
        restores(snapshot, t),
    ensures
        t.wf(),
        t.admins@ == s.admins@,
        t.records@ == s.records@,
        t.leaf_index_by_property@ == s.leaf_index_by_property@,
        t.tree@ == s.tree@,
        s.next_leaf_index <= LEAF_CAPACITY ==> t.current_root == s.current_root,
        t.current_root == tree::root_of(t.tree@),
        t.next_leaf_index == s.next_leaf_index,
        t.challenges@ == s.challenges@,
        t.next_challenge_id == s.next_challenge_id,
        t.next_nonce == s.next_nonce,
        t.oldest_unpruned_challenge_id == s.oldest_unpruned_challenge_id,
        t.nullifiers@ == s.nullifiers@,
        t.last_challenge_call_at@ == s.last_challenge_call_at@,
        t.last_verify_call_at@ == s.last_verify_call_at@,
{
    let record_keys = choose|keys: Seq<u64>| #[trigger]
        tree::walks(keys, s.records@) && keys.len() == snapshot.records@.len() && forall|i: int|
            0 <= i < snapshot.records@.len() ==> record_of(#[trigger] snapshot.records@[i])
                == s.records@[keys[i]];
    lemma_records_back(snapshot.records@, s.records@, record_keys);
    let pair_keys = choose|keys: Seq<u64>| #[trigger]
        tree::walks(keys, s.leaf_index_by_property@) && keys.len()
            == snapshot.leaf_index_by_property@.len() && forall|i: int|
            0 <= i < snapshot.leaf_index_by_property@.len()
                ==> #[trigger] snapshot.leaf_index_by_property@[i] == (
                keys[i],
                s.leaf_index_by_property@[keys[i]],
            );
    lemma_pairs_back(
        snapshot.leaf_index_by_property@,
        s.leaf_index_by_property@,
        pair_keys,
    );
    let challenge_keys = choose|keys: Seq<u64>| #[trigger]
        tree::walks(keys, s.challenges@) && keys.len() == snapshot.challenges@.len() && forall|i: int|
            0 <= i < snapshot.challenges@.len() ==> same_challenge(
                #[trigger] snapshot.challenges@[i],
                keys[i],
                s.challenges@[keys[i]],
            );
    lemma_challenges_back(snapshot.challenges@, s.challenges@, challenge_keys);
    lemma_nodes_back(snapshot.nodes@, s.tree.nodes_by_place());
    tree::lemma_same_nodes(s.tree, t.tree);
    tree::lemma_stored_root(t.tree);
    tree::lemma_root_wf(t.tree@);
    table::lemma_written_lists(snapshot.nullifiers@, s.nullifiers@);
    lemma_nullifiers_back(s.nullifiers@);
    table::lemma_written_lists(snapshot.last_challenge_call_at@, s.last_challenge_call_at@);
    table::lemma_written_lists(snapshot.last_verify_call_at@, s.last_verify_call_at@);
}

} // verus!
