//! The registry: who may write titles, which titles there are, which challenges
//! are open and which proofs were accepted.

use std::collections::HashMap;

use vstd::arithmetic::power2::*;
use vstd::prelude::*;
use vstd::string::*;

use crate::decimal;
use crate::decimal::{fe_to_string, parse_fe};
use crate::field;
use crate::field::BaseElement;
use crate::layout::{DOMAIN_LEAF, TREE_DEPTH};
use crate::permutation::hash;
use crate::principal::Principal;
use crate::statement;
use crate::table::Table;
use crate::tree;
use crate::tree::NodeStore;

verus! {

/// How long a challenge is open, in nanoseconds.
pub const CHALLENGE_TTL_NS: i64 = 300_000_000_000;

/// How long a caller waits between two calls, in nanoseconds.
pub const MIN_CALL_INTERVAL_NS: i64 = 2_000_000_000;

/// How many challenges one heartbeat looks at.
pub const MAX_PRUNE_PER_HEARTBEAT: u64 = 50;

/// The number of this registry.
pub const REGISTRY_ID: u64 = 1;

/// How many leaves the tree has.
pub const LEAF_CAPACITY: u64 = 0x200_0000;

/// A registered title.
#[derive(Debug)]
pub struct Record {
    pub property_id: u64,
    /// The owner's commitment, as a decimal numeral; the secret behind it stays
    /// with the owner.
    pub owner_commitment: String,
    pub encumbrance_flag: u64,
    pub license_status: u64,
    pub license_expiry: u64,
}

impl Clone for Record {
    fn clone(&self) -> (r: Record)
        ensures
            r == *self,
    {
        Record {
            property_id: self.property_id,
            owner_commitment: self.owner_commitment.clone(),
            encumbrance_flag: self.encumbrance_flag,
            license_status: self.license_status,
            license_expiry: self.license_expiry,
        }
    }
}

/// The path of a title's leaf, with elements as decimal numerals.
#[derive(Clone, Debug)]
pub struct MerkleProof {
    pub leaf_index: u64,
    pub siblings: Vec<String>,
    pub path_bits: Vec<bool>,
    pub root: String,
}

/// A challenge, as it is handed to whoever asked for it.
#[derive(Clone, Debug)]
pub struct ChallengeView {
    pub challenge_id: u64,
    pub registry_id: u64,
    pub merkle_root: String,
    pub purpose: u64,
    pub request_nonce: u64,
    pub current_timestamp: u64,
    pub expires_at: i64,
}

/// A challenge, as the registry keeps it.
#[derive(Clone, Copy, Debug)]
pub struct Challenge {
    pub registry_id: u64,
    pub merkle_root: BaseElement,
    pub purpose: u64,
    pub request_nonce: u64,
    pub current_timestamp: u64,
    pub expires_at: i64,
    pub consumed: bool,
    /// Who asked for the challenge; nobody else may answer it.
    pub requester: Principal,
}

/// The public inputs that come with a proof.
#[derive(Clone, Debug)]
pub struct VerifyPublicInputs {
    pub registry_id: u64,
    pub merkle_root: String,
    pub purpose: u64,
    pub request_nonce: u64,
    pub current_timestamp: u64,
    pub nullifier: String,
}

/// What an accepted proof is answered with.
#[derive(Clone, Debug)]
pub struct VerifyOk {
    pub nullifier: String,
}

/// The state of the registry.
pub struct State {
    pub admins: Vec<Principal>,
    pub records: HashMap<u64, Record>,
    pub leaf_index_by_property: HashMap<u64, u64>,
    pub tree: NodeStore,
    pub current_root: BaseElement,
    pub next_leaf_index: u64,
    pub challenges: HashMap<u64, Challenge>,
    pub next_challenge_id: u64,
    pub next_nonce: u64,
    pub oldest_unpruned_challenge_id: u64,
    pub nullifiers: Table<String, bool>,
    pub last_challenge_call_at: Table<Principal, i64>,
    pub last_verify_call_at: Table<Principal, i64>,
}

/// A refusal with the given message.
pub(crate) fn refuse<T>(message: &str) -> (r: Result<T, String>)
    ensures
        refused(r, message@),
{
    Err(message.to_owned())
}

/// Whether a result is a refusal with the given message.
pub open spec fn refused<T>(r: Result<T, String>, message: Seq<char>) -> bool {
    r is Err && r->Err_0@ == message
}

/// A 64-bit number as a field element.
pub fn fe(n: u64) -> (r: BaseElement)
    ensures
        r == field::elem(n as int),
{
    BaseElement::new(n as u128)
}

/// The leaf of a record, if its commitment can be read.
pub open spec fn leaf_of(r: Record) -> Option<BaseElement> {
    match decimal::parsed(r.owner_commitment@) {
        Some(commitment) => Some(
            statement::leaf(
                field::elem(REGISTRY_ID as int),
                commitment,
                field::elem(r.encumbrance_flag as int),
                field::elem(r.license_status as int),
                field::elem(r.license_expiry as int),
            ),
        ),
        None => None,
    }
}

/// Which leaf each title has: the titles are those with a record, each has a
/// leaf of its own, which is the leaf of its record, and the tree has no other.
pub open spec fn titles_agree(
    records: Map<u64, Record>,
    indices: Map<u64, u64>,
    leaves: tree::Leaves,
    next: u64,
) -> bool {
    &&& forall|pid: u64| #[trigger] records.contains_key(pid) <==> indices.contains_key(pid)
    &&& forall|pid: u64| #[trigger]
        records.contains_key(pid) ==> {
            &&& records[pid].property_id == pid
            &&& indices[pid] < next
            &&& leaves.contains_key(indices[pid] as int)
            &&& leaf_of(records[pid]) == Some(leaves[indices[pid] as int])
        }
    &&& forall|a: u64, b: u64|
        a != b && #[trigger] indices.contains_key(a) && #[trigger] indices.contains_key(b)
            ==> indices[a] != indices[b]
    &&& forall|i: int| #[trigger]
        leaves.contains_key(i) ==> exists|pid: u64| #[trigger]
            indices.contains_key(pid) && indices[pid] == i
}

/// The text under which a nullifier is kept: a number is kept as its numeral, so
/// that it is one nullifier however it is written.
pub open spec fn nullifier_key(nullifier: Seq<char>) -> Seq<char> {
    match decimal::parsed(nullifier) {
        Some(e) => decimal::numeral_of(e@),
        None => nullifier,
    }
}

/// The text under which a nullifier is kept.
pub(crate) fn key_of(nullifier: &str) -> (r: String)
    ensures
        r@ == nullifier_key(nullifier@),
{
    match parse_fe(nullifier) {
        Ok(e) => fe_to_string(e),
        Err(_) => nullifier.to_owned(),
    }
}

/// The text under which a nullifier is kept is kept under itself.
pub proof fn lemma_key_of_key(nullifier: Seq<char>)
    ensures
        nullifier_key(nullifier_key(nullifier)) == nullifier_key(nullifier),
{
    match decimal::parsed(nullifier) {
        Some(e) => {
            field::lemma_elem_view(decimal::numeral(decimal::trimmed(nullifier))->0);
            decimal::law_text_round_trip(e);
        },
        None => {},
    }
}

impl State {
    /// The parts that look things up work.
    pub open spec fn connected(self) -> bool {
        &&& self.tree.wf()
        &&& self.nullifiers.wf()
        &&& self.last_challenge_call_at.wf()
        &&& self.last_verify_call_at.wf()
    }

    /// What every operation keeps.
    pub open spec fn wf(self) -> bool {
        &&& self.connected()
        &&& self.admins@.no_duplicates()
        &&& titles_agree(
            self.records@,
            self.leaf_index_by_property@,
            self.tree@,
            self.next_leaf_index,
        )
        &&& self.current_root.wf()
        &&& self.next_leaf_index <= LEAF_CAPACITY ==> self.current_root == tree::root_of(self.tree@)
        &&& self.oldest_unpruned_challenge_id <= self.next_challenge_id
        &&& forall|t: Seq<char>| #[trigger]
            self.nullifiers@.contains_key(t) ==> nullifier_key(t) == t
        &&& forall|id: u64| #[trigger]
            self.challenges@.contains_key(id) ==> {
                &&& self.oldest_unpruned_challenge_id <= id < self.next_challenge_id
                &&& self.challenges@[id].merkle_root.wf()
                &&& self.challenges@[id].requester.wf()
                &&& self.challenges@[id].request_nonce < self.next_nonce
            }
    }
}

/// A registry with no administrator, no title and no challenge.
pub fn fresh_state() -> (s: State)
    ensures
        s.wf(),
        s.admins@ == Seq::<Principal>::empty(),
        s.records@ == Map::<u64, Record>::empty(),
        s.leaf_index_by_property@ == Map::<u64, u64>::empty(),
        s.tree@ == Map::<int, BaseElement>::empty(),
        s.current_root == tree::zero_hash(TREE_DEPTH as nat),
        s.next_leaf_index == 0,
        s.challenges@ == Map::<u64, Challenge>::empty(),
        s.next_challenge_id == 0,
        s.next_nonce == 0,
        s.oldest_unpruned_challenge_id == 0,
        s.nullifiers@ == Map::<Seq<char>, bool>::empty(),
        s.last_challenge_call_at@ == Map::<Seq<char>, i64>::empty(),
        s.last_verify_call_at@ == Map::<Seq<char>, i64>::empty(),
{
    broadcast use vstd::std_specs::hash::group_hash_axioms;

    let tree = NodeStore::new();
    let current_root = tree.zero_hashes()[TREE_DEPTH];
    proof {
        tree::lemma_empty_subtree(tree@, TREE_DEPTH as nat, 0);
        use_type_invariant(&current_root);
    }
    State {
        admins: Vec::new(),
        records: HashMap::new(),
        leaf_index_by_property: HashMap::new(),
        tree,
        current_root,
        next_leaf_index: 0,
        challenges: HashMap::new(),
        next_challenge_id: 0,
        next_nonce: 0,
        oldest_unpruned_challenge_id: 0,
        nullifiers: Table::new(),
        last_challenge_call_at: Table::new(),
        last_verify_call_at: Table::new(),
    }
}

/// Whether a principal is among the administrators.
pub fn is_admin(s: &State, p: &Principal) -> (r: bool)
    ensures
        r == s.admins@.contains(*p),
{
    let mut i: usize = 0;
    while i < s.admins.len()
        invariant
            i <= s.admins@.len(),
            forall|k: int| 0 <= k < i ==> #[trigger] s.admins@[k] != *p,
        decreases s.admins@.len() - i,
    {
        if s.admins[i] == *p {
            return true;
        }
        i = i + 1;
    }
    false
}

/// Makes the first administrator, as long as there is none.
pub fn bootstrap_admin_impl(s: &mut State, real_admin: Principal) -> (r: Result<(), String>)
    ensures
        if old(s).admins@.len() == 0 {
            &&& r is Ok
            &&& final(s).admins@ == seq![real_admin]
            &&& *final(s) == (State { admins: final(s).admins, ..*old(s) })
        } else {
            &&& refused(r, "admins already bootstrapped -- use add_admin instead"@)
            &&& *final(s) == *old(s)
        },
        old(s).wf() ==> final(s).wf(),
{
    if s.admins.len() > 0 {
        return refuse("admins already bootstrapped -- use add_admin instead");
    }
    s.admins.push(real_admin);
    assert(s.admins@ =~= seq![real_admin]);
    Ok(())
}

/// Adds an administrator, on behalf of one.
pub fn add_admin_impl(s: &mut State, caller: Principal, new_admin: Principal) -> (r: Result<
    (),
    String,
>)
    ensures
        if old(s).admins@.contains(caller) {
            &&& r is Ok
            &&& final(s).admins@ == (if old(s).admins@.contains(new_admin) {
                old(s).admins@
            } else {
                old(s).admins@.push(new_admin)
            })
            &&& *final(s) == (State { admins: final(s).admins, ..*old(s) })
        } else {
            &&& refused(r, "unauthorized"@)
            &&& *final(s) == *old(s)
        },
        old(s).wf() ==> final(s).wf(),
{
    if !is_admin(s, &caller) {
        return refuse("unauthorized");
    }
    if !is_admin(s, &new_admin) {
        s.admins.push(new_admin);
    }
    Ok(())
}

/// Removes an administrator, on behalf of one; the last one stays.
pub fn remove_admin_impl(s: &mut State, caller: Principal, old_admin: Principal) -> (r: Result<
    (),
    String,
>)
    ensures
        if !old(s).admins@.contains(caller) {
            &&& refused(r, "unauthorized"@)
            &&& *final(s) == *old(s)
        } else if old(s).admins@.len() <= 1 {
            &&& refused(r, "cannot remove the last remaining admin"@)
            &&& *final(s) == *old(s)
        } else {
            &&& r is Ok
            &&& final(s).admins@ == old(s).admins@.filter(|a: Principal| a != old_admin)
            &&& *final(s) == (State { admins: final(s).admins, ..*old(s) })
        },
        old(s).wf() ==> final(s).wf(),
{
    if !is_admin(s, &caller) {
        return refuse("unauthorized");
    }
    if s.admins.len() <= 1 {
        return refuse("cannot remove the last remaining admin");
    }
    let ghost others = |a: Principal| a != old_admin;
    let ghost admins0 = s.admins@;
    let mut kept: Vec<Principal> = Vec::new();
    let mut i: usize = 0;
    proof {
        reveal(Seq::filter);
    }
    while i < s.admins.len()
        invariant
            i <= s.admins@.len(),
            others == (|a: Principal| a != old_admin),
            kept@ == s.admins@.take(i as int).filter(others),
        decreases s.admins@.len() - i,
    {
        let a = s.admins[i];
        proof {
            reveal(Seq::filter);
            assert(s.admins@.take(i + 1).drop_last() =~= s.admins@.take(i as int));
        }
        if a != old_admin {
            kept.push(a);
        }
        i = i + 1;
    }
    proof {
        assert(s.admins@.take(i as int) =~= s.admins@);
        if s.admins@.no_duplicates() {
            lemma_filter_keeps_distinct(s.admins@, others);
        }
    }
    s.admins = kept;
    Ok(())
}

/// Picking out of distinct principals leaves distinct ones.
pub proof fn lemma_filter_keeps_distinct(s: Seq<Principal>, pick: spec_fn(Principal) -> bool)
    requires
        s.no_duplicates(),
    ensures
        s.filter(pick).no_duplicates(),
        forall|a: Principal| #[trigger] s.filter(pick).contains(a) <==> s.contains(a) && pick(a),
    decreases s.len(),
{
    reveal(Seq::filter);
    if s.len() > 0 {
        let rest = s.drop_last();
        lemma_filter_keeps_distinct(rest, pick);
        let picked = rest.filter(pick);
        assert(!rest.contains(s.last()));
        assert(!picked.contains(s.last()));
        assert forall|i: int, j: int|
            0 <= i < j < s.filter(pick).len() implies s.filter(pick)[i] != s.filter(pick)[j] by {
            if j == picked.len() {
                assert(picked.contains(picked[i]));
            }
        }
        assert forall|a: Principal| #[trigger] s.filter(pick).contains(a) <==> s.contains(a) && pick(
            a,
        ) by {
            if s.contains(a) {
                let i = choose|i: int| 0 <= i < s.len() && s[i] == a;
                if i < rest.len() {
                    assert(rest[i] == a);
                    assert(rest.contains(a));
                } else {
                    assert(a == s.last());
                }
            }
            if rest.contains(a) {
                let i = choose|i: int| 0 <= i < rest.len() && rest[i] == a;
                assert(s[i] == a);
            }
            if picked.contains(a) {
                assert(rest.contains(a));
                let i = choose|i: int| 0 <= i < picked.len() && picked[i] == a;
                assert(picked.push(s.last())[i] == a);
            }
            assert(s[s.len() - 1] == s.last());
            assert(picked.push(s.last())[picked.len() as int] == s.last());
            if s.filter(pick).contains(a) {
                let i = choose|i: int| 0 <= i < s.filter(pick).len() && s.filter(pick)[i] == a;
                if i < picked.len() {
                    assert(picked[i] == a);
                    assert(picked.contains(a));
                }
            }
        }
    }
}

/// The node at the given level and index of the registry's tree.
pub fn node_at(s: &State, level: u8, index: u64) -> (r: BaseElement)
    requires
        s.connected(),
        level <= TREE_DEPTH,
    ensures
        r == tree::subtree(s.tree@, level as nat, index as int),
{
    s.tree.node_at(level, index)
}

/// The leaf of a record.
pub fn leaf_hash(r: &Record) -> (out: Result<BaseElement, String>)
    ensures
        match leaf_of(*r) {
            Some(leaf) => out is Ok && out->Ok_0 == leaf,
            None => refused(out, decimal::parse_error(r.owner_commitment@)),
        },
{
    match parse_fe(r.owner_commitment.as_str()) {
        Ok(owner_commitment) => {
            let inputs: [BaseElement; 6] = [
                fe(DOMAIN_LEAF),
                fe(REGISTRY_ID),
                owner_commitment,
                fe(r.encumbrance_flag),
                fe(r.license_status),
                fe(r.license_expiry),
            ];
            assert(inputs@ =~= seq![
                field::elem(DOMAIN_LEAF as int),
                field::elem(REGISTRY_ID as int),
                owner_commitment,
                field::elem(r.encumbrance_flag as int),
                field::elem(r.license_status as int),
                field::elem(r.license_expiry as int),
            ]);
            Ok(hash(&inputs))
        },
        Err(e) => Err(e),
    }
}

/// Writes a leaf, and makes the node that its path ends in the current root.
pub fn insert_leaf(s: &mut State, index: u64, leaf: BaseElement)
    requires
        old(s).connected(),
    ensures
        final(s).connected(),
        final(s).tree@ == old(s).tree@.insert(index as int, leaf),
        final(s).current_root == tree::subtree(
            final(s).tree@,
            TREE_DEPTH as nat,
            tree::ancestor(index as int, TREE_DEPTH as nat),
        ),
        final(s).current_root.wf(),
        *final(s) == (State {
            tree: final(s).tree,
            current_root: final(s).current_root,
            ..*old(s)
        }),
{
    let root = s.tree.insert_leaf(index, leaf);
    proof {
        use_type_invariant(&root);
    }
    s.current_root = root;
}

/// The index of the leaf that a title has or is given.
pub open spec fn leaf_index(s: State, property_id: u64) -> u64 {
    if s.leaf_index_by_property@.contains_key(property_id) {
        s.leaf_index_by_property@[property_id]
    } else {
        s.next_leaf_index
    }
}

/// What the state is once a title was registered or replaced.
pub open spec fn registered(before: State, after: State, record: Record) -> bool {
    let property_id = record.property_id;
    let known = before.leaf_index_by_property@.contains_key(property_id);
    let index = leaf_index(before, property_id);
    &&& leaf_of(record) is Some
    &&& after.records@ == before.records@.insert(property_id, record)
    &&& after.leaf_index_by_property@ == before.leaf_index_by_property@.insert(property_id, index)
    &&& after.next_leaf_index == before.next_leaf_index + (if known {
        0int
    } else {
        1int
    })
    &&& after.tree@ == before.tree@.insert(index as int, leaf_of(record)->0)
    &&& after.current_root == tree::subtree(
        after.tree@,
        TREE_DEPTH as nat,
        tree::ancestor(index as int, TREE_DEPTH as nat),
    )
    &&& after == (State {
        records: after.records,
        leaf_index_by_property: after.leaf_index_by_property,
        next_leaf_index: after.next_leaf_index,
        tree: after.tree,
        current_root: after.current_root,
        ..before
    })
}

/// Registers a title or replaces it, on behalf of an administrator, and returns
/// the new root as a decimal numeral.
pub fn submit_record_impl(
    s: &mut State,
    caller: Principal,
    property_id: u64,
    owner_commitment: String,
    encumbrance_flag: u64,
    license_status: u64,
    license_expiry: u64,
) -> (r: Result<String, String>)
    requires
        old(s).connected(),
        old(s).admins@.contains(caller) && decimal::parsed(owner_commitment@) is Some ==> (
        old(s).leaf_index_by_property@.contains_key(property_id) || old(s).next_leaf_index
            < u64::MAX),
    ensures
        final(s).connected(),
        ({
            let record = Record {
                property_id,
                owner_commitment,
                encumbrance_flag,
                license_status,
                license_expiry,
            };
            if !old(s).admins@.contains(caller) {
                &&& refused(r, "unauthorized -- gate this behind real admin auth"@)
                &&& *final(s) == *old(s)
            } else if leaf_of(record) is None {
                &&& refused(r, decimal::parse_error(owner_commitment@))
                &&& *final(s) == *old(s)
            } else {
                &&& r is Ok
                &&& r->Ok_0@ == decimal::numeral_of(final(s).current_root@)
                &&& registered(*old(s), *final(s), record)
            }
        }),
        old(s).wf() ==> final(s).wf(),
{
    broadcast use vstd::std_specs::hash::group_hash_axioms;

    if !is_admin(s, &caller) {
        return refuse("unauthorized -- gate this behind real admin auth");
    }
    let record = Record {
        property_id,
        owner_commitment,
        encumbrance_flag,
        license_status,
        license_expiry,
    };
    let leaf = match leaf_hash(&record) {
        Ok(leaf) => leaf,
        Err(e) => {
            return Err(e);
        },
    };
    let known = match s.leaf_index_by_property.get(&property_id) {
        Some(i) => Some(*i),
        None => None,
    };
    let index: u64 = match known {
        Some(i) => i,
        None => {
            let i: u64 = s.next_leaf_index;
            s.next_leaf_index = i + 1;
            s.leaf_index_by_property.insert(property_id, i);
            i
        },
    };
    proof {
        if known is Some {
            assert(old(s).leaf_index_by_property@ =~= old(s).leaf_index_by_property@.insert(
                property_id,
                index,
            ));
        }
    }
    let ghost ghost_record = record;
    s.records.insert(property_id, record);
    insert_leaf(s, index, leaf);
    proof {
        if old(s).wf() {
            lemma_titles_agree_after_submit(*old(s), property_id, ghost_record, leaf);
            if s.next_leaf_index <= LEAF_CAPACITY {
                assert(index < LEAF_CAPACITY) by {
                    if known is Some {
                        assert(old(s).records@.contains_key(property_id));
                    }
                }
                lemma_within_capacity(index);
            }
        }
    }
    Ok(fe_to_string(s.current_root))
}

/// The paths of all leaves within the capacity end in the root.
pub proof fn lemma_within_capacity(index: u64)
    requires
        index < LEAF_CAPACITY,
    ensures
        tree::ancestor(index as int, TREE_DEPTH as nat) == 0,
{
    lemma2_to64();
    assert(pow2(25) == 0x200_0000);
    vstd::arithmetic::div_mod::lemma_basic_div(index as int, 0x200_0000);
}

/// Titles and leaves still agree once a title was registered or replaced.
proof fn lemma_titles_agree_after_submit(
    s: State,
    property_id: u64,
    record: Record,
    leaf: BaseElement,
)
    requires
        s.wf(),
        record.property_id == property_id,
        leaf_of(record) == Some(leaf),
        s.leaf_index_by_property@.contains_key(property_id) || s.next_leaf_index < u64::MAX,
    ensures
        ({
            let known = s.leaf_index_by_property@.contains_key(property_id);
            let index = leaf_index(s, property_id);
            titles_agree(
                s.records@.insert(property_id, record),
                s.leaf_index_by_property@.insert(property_id, index),
                s.tree@.insert(index as int, leaf),
                if known {
                    s.next_leaf_index
                } else {
                    (s.next_leaf_index + 1) as u64
                },
            )
        }),
{
    let index = leaf_index(s, property_id);
    let records = s.records@.insert(property_id, record);
    let indices = s.leaf_index_by_property@.insert(property_id, index);
    let leaves = s.tree@.insert(index as int, leaf);
    assert forall|pid: u64| pid != property_id && #[trigger] s.records@.contains_key(
        pid,
    ) implies s.leaf_index_by_property@[pid] != index by {
        assert(s.leaf_index_by_property@.contains_key(pid));
        if s.leaf_index_by_property@.contains_key(property_id) {
            assert(s.leaf_index_by_property@[pid] != s.leaf_index_by_property@[property_id]);
        }
    }
    assert forall|pid: u64| #[trigger] records.contains_key(pid) <==> indices.contains_key(pid) by {
        assert(s.records@.contains_key(pid) <==> s.leaf_index_by_property@.contains_key(pid));
    }
    let next = if s.leaf_index_by_property@.contains_key(property_id) {
        s.next_leaf_index
    } else {
        (s.next_leaf_index + 1) as u64
    };
    assert forall|pid: u64| #[trigger] records.contains_key(pid) implies {
        &&& records[pid].property_id == pid
        &&& indices[pid] < next
        &&& leaves.contains_key(indices[pid] as int)
        &&& leaf_of(records[pid]) == Some(leaves[indices[pid] as int])
    } by {
        if pid != property_id {
            assert(s.records@.contains_key(pid));
        } else {
            if s.leaf_index_by_property@.contains_key(property_id) {
                assert(s.records@.contains_key(property_id));
            }
        }
    }
    assert forall|a: u64, b: u64|
        a != b && #[trigger] indices.contains_key(a) && #[trigger] indices.contains_key(
            b,
        ) implies indices[a] != indices[b] by {
        assert(s.records@.contains_key(a) <==> s.leaf_index_by_property@.contains_key(a));
        assert(s.records@.contains_key(b) <==> s.leaf_index_by_property@.contains_key(b));
    }
    assert forall|i: int| #[trigger] leaves.contains_key(i) implies exists|pid: u64| #[trigger]
        indices.contains_key(pid) && indices[pid] == i by {
        if i == index {
            assert(indices.contains_key(property_id));
        } else {
            assert(s.tree@.contains_key(i));
            let pid = choose|pid: u64| #[trigger]
                s.leaf_index_by_property@.contains_key(pid) && s.leaf_index_by_property@[pid] == i;
            assert(indices.contains_key(pid));
        }
    }
}

/// The record of a title.
pub fn get_record_impl(s: &State, property_id: u64) -> (r: Option<Record>)
    ensures
        match r {
            Some(record) => s.records@.contains_key(property_id) && record
                == s.records@[property_id],
            None => !s.records@.contains_key(property_id),
        },
{
    broadcast use vstd::std_specs::hash::group_hash_axioms;

    match s.records.get(&property_id) {
        Some(record) => Some(record.clone()),
        None => None,
    }
}

/// The path of a title's leaf.
pub fn get_merkle_proof_impl(s: &State, property_id: u64) -> (r: Option<MerkleProof>)
    requires
        s.connected(),
    ensures
        match r {
            Some(path) => {
                let index = s.leaf_index_by_property@[property_id];
                &&& s.leaf_index_by_property@.contains_key(property_id)
                &&& path.leaf_index == index
                &&& path.path_bits@ == tree::path_bits(index as int)
                &&& path.siblings@.len() == TREE_DEPTH
                &&& forall|l: int|
                    0 <= l < TREE_DEPTH ==> (#[trigger] path.siblings@[l])@ == decimal::numeral_of(
                        tree::path_siblings(s.tree@, index as int)[l]@,
                    )
                &&& path.root@ == decimal::numeral_of(s.current_root@)
            },
            None => !s.leaf_index_by_property@.contains_key(property_id),
        },
{
    broadcast use vstd::std_specs::hash::group_hash_axioms;

    let index: u64 = match s.leaf_index_by_property.get(&property_id) {
        Some(i) => *i,
        None => {
            return None;
        },
    };
    let (nodes, path_bits) = s.tree.merkle_proof(index);
    let mut siblings: Vec<String> = Vec::new();
    let mut level: usize = 0;
    while level < TREE_DEPTH
        invariant
            level <= TREE_DEPTH,
            nodes@.len() == TREE_DEPTH,
            siblings@.len() == level,
            forall|l: int|
                0 <= l < level ==> (#[trigger] siblings@[l])@ == decimal::numeral_of(nodes@[l]@),
        decreases TREE_DEPTH - level,
    {
        siblings.push(fe_to_string(nodes[level]));
        level = level + 1;
    }
    Some(
        MerkleProof { leaf_index: index, siblings, path_bits, root: fe_to_string(s.current_root) },
    )
}

/// A sign of life.
pub fn health() -> (r: String)
    ensures
        r@ == "title_verifier canister is running"@,
{
    "title_verifier canister is running".to_owned()
}

} // verus!
