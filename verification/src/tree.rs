//! The registry's sparse Merkle tree.
//!
//! Only nodes above a leaf that was written are stored; every other node has the
//! hash that its level has in an empty tree.

use std::collections::HashMap;

use vstd::arithmetic::div_mod::*;
use vstd::arithmetic::power2::*;
use vstd::prelude::*;

use crate::field;
use crate::field::BaseElement;
use crate::layout::{DOMAIN_NODE, TREE_DEPTH};
use crate::permutation;
use crate::permutation::hash;
use crate::statement;

verus! {

/// The leaves of a tree, by index; a leaf that is missing is zero.
pub type Leaves = Map<int, BaseElement>;

/// The node at the given level and index of the tree over given leaves.
pub open spec fn subtree(leaves: Leaves, level: nat, index: int) -> BaseElement
    decreases level,
{
    if level == 0 {
        if leaves.contains_key(index) {
            leaves[index]
        } else {
            field::elem(0)
        }
    } else {
        statement::node(
            subtree(leaves, (level - 1) as nat, 2 * index),
            subtree(leaves, (level - 1) as nat, 2 * index + 1),
        )
    }
}

/// The root of the tree over given leaves.
pub open spec fn root_of(leaves: Leaves) -> BaseElement {
    subtree(leaves, TREE_DEPTH as nat, 0)
}

/// The node at a level of the empty tree.
pub open spec fn zero_hash(level: nat) -> BaseElement
    decreases level,
{
    if level == 0 {
        field::elem(0)
    } else {
        statement::node(zero_hash((level - 1) as nat), zero_hash((level - 1) as nat))
    }
}

/// The index of the node that an index's path goes through at a level.
pub open spec fn ancestor(index: int, level: nat) -> int {
    index / pow2(level) as int
}

/// The index beside an index.
pub open spec fn beside(index: int) -> int {
    if index % 2 == 0 {
        index + 1
    } else {
        index - 1
    }
}

/// The siblings along an index's path, from the leaf upwards.
pub open spec fn path_siblings(leaves: Leaves, index: int) -> Seq<BaseElement> {
    Seq::new(
        TREE_DEPTH as nat,
        |level: int| subtree(leaves, level as nat, beside(ancestor(index, level as nat))),
    )
}

/// The directions along an index's path: a bit is set where the path comes from
/// a right child.
pub open spec fn path_bits(index: int) -> Seq<bool> {
    Seq::new(TREE_DEPTH as nat, |level: int| ancestor(index, level as nat) % 2 == 1)
}

/// Going up one level halves the index.
pub proof fn lemma_ancestor_step(index: int, level: nat)
    requires
        index >= 0,
    ensures
        ancestor(index, 0) == index,
        ancestor(index, level + 1) == ancestor(index, level) / 2,
        ancestor(index, level) >= 0,
{
    lemma2_to64();
    lemma_pow2_unfold(level + 1);
    lemma_pow2_pos(level);
    lemma_div_denominator(index, pow2(level) as int, 2);
    lemma_div_pos_is_pos(index, pow2(level) as int);
    assert(pow2(level + 1) == pow2(level) * 2);
}

/// In an empty stretch of leaves the nodes are those of the empty tree.
pub proof fn lemma_empty_subtree(leaves: Leaves, level: nat, index: int)
    requires
        forall|i: int| #[trigger] leaves.contains_key(i) ==> i >= 0 && ancestor(i, level) != index,
    ensures
        subtree(leaves, level, index) == zero_hash(level),
    decreases level,
{
    if level == 0 {
        if leaves.contains_key(index) {
            lemma_ancestor_step(index, 0);
        }
    } else {
        let m = (level - 1) as nat;
        assert forall|i: int| #[trigger] leaves.contains_key(i) implies i >= 0 && ancestor(i, m)
            != 2 * index && ancestor(i, m) != 2 * index + 1 by {
            lemma_ancestor_step(i, m);
        }
        lemma_empty_subtree(leaves, m, 2 * index);
        lemma_empty_subtree(leaves, m, 2 * index + 1);
    }
}

/// Writing a leaf leaves every node as it is that does not lie above the leaf.
pub proof fn lemma_beside_the_path(leaves: Leaves, at: int, leaf: BaseElement, level: nat, index: int)
    requires
        at >= 0,
        ancestor(at, level) != index,
    ensures
        subtree(leaves.insert(at, leaf), level, index) == subtree(leaves, level, index),
    decreases level,
{
    if level == 0 {
        lemma_ancestor_step(at, 0);
    } else {
        let m = (level - 1) as nat;
        lemma_ancestor_step(at, m);
        lemma_beside_the_path(leaves, at, leaf, m, 2 * index);
        lemma_beside_the_path(leaves, at, leaf, m, 2 * index + 1);
    }
}

/// Climbing an index's path from its leaf reaches the node above it.
pub proof fn law_path_reaches_the_ancestor(leaves: Leaves, index: int, level: nat)
    requires
        index >= 0,
        level <= TREE_DEPTH,
    ensures
        statement::climbed(
            subtree(leaves, 0, index),
            path_siblings(leaves, index),
            path_bits(index),
            level,
        ) == subtree(leaves, level, ancestor(index, level)),
    decreases level,
{
    lemma_ancestor_step(index, 0);
    if level > 0 {
        let m = (level - 1) as nat;
        law_path_reaches_the_ancestor(leaves, index, m);
        lemma_ancestor_step(index, m);
    }
}

/// Climbing the path of any index of the tree reaches the root.
pub proof fn law_path_reaches_the_root(leaves: Leaves, index: int)
    requires
        0 <= index < 0x200_0000,
    ensures
        statement::climbed(
            subtree(leaves, 0, index),
            path_siblings(leaves, index),
            path_bits(index),
            TREE_DEPTH as nat,
        ) == root_of(leaves),
{
    law_path_reaches_the_ancestor(leaves, index, TREE_DEPTH as nat);
    lemma2_to64();
    assert(ancestor(index, TREE_DEPTH as nat) == 0) by {
        assert(pow2(25) == 0x200_0000);
        lemma_basic_div(index, 0x200_0000);
    }
}

/// The order in which two leaves are written does not matter.
pub proof fn law_writes_commute(leaves: Leaves, i: int, a: BaseElement, j: int, b: BaseElement)
    requires
        i != j,
    ensures
        root_of(leaves.insert(i, a).insert(j, b)) == root_of(leaves.insert(j, b).insert(i, a)),
{
    assert(leaves.insert(i, a).insert(j, b) =~= leaves.insert(j, b).insert(i, a));
}

/// Whether keys are those of a map, each once.
pub open spec fn walks<K, V>(keys: Seq<K>, m: Map<K, V>) -> bool {
    &&& keys.no_duplicates()
    &&& forall|k: K| #[trigger] keys.contains(k) <==> m.contains_key(k)
}

/// The keys of a map, in no particular order.
pub fn keys_of<K: Copy + Eq + core::hash::Hash, V>(m: &HashMap<K, V>) -> (r: Vec<K>)
    requires
        vstd::std_specs::hash::obeys_key_model::<K>(),
    ensures
        walks(r@, m@),
{
    broadcast use vstd::std_specs::hash::group_hash_axioms;

    let ghost all: Seq<K> = vstd::std_specs::iter::IteratorSpec::remaining(
        &vstd::std_specs::hash::spec_keys_iter(m),
    ).unref();
    let mut r: Vec<K> = Vec::new();
    for k in it: m.keys()
        invariant
            it.seq().unref() == all,
            r@ == all.take(it.index()),
    {
        r.push(*k);
    }
    assert(all.take(all.len() as int) =~= all);
    assert forall|k: K| #[trigger] r@.contains(k) <==> m@.contains_key(k) by {
        assert(all.to_set().contains(k) <==> m@.dom().contains(k));
    }
    r
}

/// Under which number a node is stored.
pub open spec fn key(level: int, index: int) -> u128 {
    (level * 0x1_0000_0000_0000_0000 + index) as u128
}

/// Stored nodes, and what stands for those that are not.
#[derive(Clone, Debug)]
pub struct NodeStore {
    zero_hashes: Vec<BaseElement>,
    nodes: HashMap<u128, BaseElement>,
}

impl View for NodeStore {
    type V = Leaves;

    /// The leaves that were written.
    closed spec fn view(&self) -> Leaves {
        Map::new(
            |i: int| 0 <= i <= u64::MAX && self.nodes@.contains_key(key(0, i)),
            |i: int| self.nodes@[key(0, i)],
        )
    }
}

impl NodeStore {
    /// The node at the given level and index, as stored.
    closed spec fn stored(self, level: int, index: int) -> BaseElement {
        if self.nodes@.contains_key(key(level, index)) {
            self.nodes@[key(level, index)]
        } else {
            zero_hash(level as nat)
        }
    }

    /// The empty tree is known at each level, and nothing is stored beside it.
    pub closed spec fn complete(self) -> bool {
        &&& self.zero_hashes@ == Seq::new((TREE_DEPTH + 1) as nat, |l: int| zero_hash(l as nat))
        &&& forall|k: u128| #[trigger]
            self.nodes@.contains_key(k) ==> k < key(256, 0) && self.nodes@[k].wf()
    }

    /// Every stored node is the one that the leaves give.
    pub closed spec fn wf(self) -> bool {
        &&& self.complete()
        &&& forall|l: int, i: int|
            0 <= l <= TREE_DEPTH && 0 <= i <= u64::MAX ==> #[trigger] self.stored(l, i) == subtree(
                self@,
                l as nat,
                i,
            )
    }

    /// A store with no leaf.
    pub fn new() -> (r: NodeStore)
        ensures
            r.wf(),
            r@ == Map::<int, BaseElement>::empty(),
    {
        broadcast use vstd::std_specs::hash::group_hash_axioms;

        let r = NodeStore { zero_hashes: init_zero_hashes(), nodes: HashMap::new() };
        proof {
            assert(r@ =~= Map::<int, BaseElement>::empty());
            assert forall|l: int, i: int|
                0 <= l <= TREE_DEPTH && 0 <= i <= u64::MAX implies #[trigger] r.stored(l, i)
                == subtree(r@, l as nat, i) by {
                lemma_empty_subtree(r@, l as nat, i);
            }
        }
        r
    }

    /// The nodes of the empty tree, from the leaves to the root.
    pub fn zero_hashes(&self) -> (r: &Vec<BaseElement>)
        requires
            self.wf(),
        ensures
            r@ == Seq::new((TREE_DEPTH + 1) as nat, |l: int| zero_hash(l as nat)),
    {
        &self.zero_hashes
    }

    /// The node at the given level and index.
    pub fn node_at(&self, level: u8, index: u64) -> (r: BaseElement)
        requires
            self.wf(),
            level <= TREE_DEPTH,
        ensures
            r == subtree(self@, level as nat, index as int),
    {
        broadcast use vstd::std_specs::hash::group_hash_axioms;

        let k: u128 = (level as u128) * 0x1_0000_0000_0000_0000 + (index as u128);
        assert(k == key(level as int, index as int));
        assert(self.stored(level as int, index as int) == subtree(
            self@,
            level as nat,
            index as int,
        ));
        match self.nodes.get(&k) {
            Some(node) => *node,
            None => self.zero_hashes[level as usize],
        }
    }

    /// Stores one node.
    fn put(&mut self, level: u8, index: u64, node: BaseElement)
        requires
            level <= TREE_DEPTH,
            old(self).complete(),
        ensures
            final(self).complete(),
            forall|l: int, i: int|
                0 <= l <= TREE_DEPTH && 0 <= i <= u64::MAX ==> #[trigger] final(self).stored(l, i)
                    == (if l == level && i == index {
                    node
                } else {
                    old(self).stored(l, i)
                }),
            final(self)@ == (if level == 0 {
                old(self)@.insert(index as int, node)
            } else {
                old(self)@
            }),
    {
        broadcast use vstd::std_specs::hash::group_hash_axioms;

        let k: u128 = (level as u128) * 0x1_0000_0000_0000_0000 + (index as u128);
        assert forall|l: int, i: int|
            0 <= l <= TREE_DEPTH && 0 <= i <= u64::MAX && #[trigger] key(l, i) == k implies l
            == level && i == index by {}
        let ghost before = *self;
        proof {
            use_type_invariant(&node);
        }
        self.nodes.insert(k, node);
        assert(key(level as int, index as int) == k);
        assert(self@ =~= (if level == 0 {
            before@.insert(index as int, node)
        } else {
            before@
        }));
    }

    /// Writes a leaf and the nodes above it, and returns the node that its path
    /// ends in.
    pub fn insert_leaf(&mut self, index: u64, leaf: BaseElement) -> (r: BaseElement)
        requires
            old(self).wf(),
        ensures
            final(self).wf(),
            final(self)@ == old(self)@.insert(index as int, leaf),
            r == subtree(final(self)@, TREE_DEPTH as nat, ancestor(index as int, TREE_DEPTH as nat)),
    {
        let ghost leaves0 = self@;
        let ghost leaves = self@.insert(index as int, leaf);
        self.put(0, index, leaf);
        let mut idx: u64 = index;
        let mut level: u8 = 0;
        let mut cur: BaseElement = leaf;
        proof {
            lemma_ancestor_step(index as int, 0);
            assert forall|l: int, i: int|
                0 <= l <= TREE_DEPTH && 0 <= i <= u64::MAX implies #[trigger] self.stored(l, i) == (
            if l <= 0 {
                subtree(leaves, l as nat, i)
            } else {
                subtree(leaves0, l as nat, i)
            }) by {}
        }
        while (level as usize) < TREE_DEPTH
            invariant
                level <= TREE_DEPTH,
                self.complete(),
                self@ == leaves,
                leaves == leaves0.insert(index as int, leaf),
                idx == ancestor(index as int, level as nat),
                cur == subtree(leaves, level as nat, idx as int),
                forall|l: int, i: int|
                    0 <= l <= TREE_DEPTH && 0 <= i <= u64::MAX ==> #[trigger] self.stored(l, i) == (
                    if l <= level {
                        subtree(leaves, l as nat, i)
                    } else {
                        subtree(leaves0, l as nat, i)
                    }),
            decreases TREE_DEPTH - level,
        {
            broadcast use vstd::std_specs::hash::group_hash_axioms;

            let pair_base: u64 = (idx / 2) * 2;
            let sibling_index: u64 = if idx == pair_base {
                pair_base + 1
            } else {
                pair_base
            };
            let k: u128 = (level as u128) * 0x1_0000_0000_0000_0000 + (sibling_index as u128);
            assert(k == key(level as int, sibling_index as int));
            let sibling = match self.nodes.get(&k) {
                Some(node) => *node,
                None => self.zero_hashes[level as usize],
            };
            assert(sibling == self.stored(level as int, sibling_index as int));
            cur = if idx % 2 == 0 {
                hash_node(cur, sibling)
            } else {
                hash_node(sibling, cur)
            };
            proof {
                lemma_ancestor_step(index as int, level as nat);
            }
            idx = idx / 2;
            level = level + 1;
            let ghost before = *self;
            self.put(level, idx, cur);
            proof {
                assert forall|l: int, i: int|
                    0 <= l <= TREE_DEPTH && 0 <= i <= u64::MAX implies #[trigger] self.stored(l, i)
                    == (if l <= level {
                    subtree(leaves, l as nat, i)
                } else {
                    subtree(leaves0, l as nat, i)
                }) by {
                    assert(before.stored(l, i) == (if l <= level - 1 {
                        subtree(leaves, l as nat, i)
                    } else {
                        subtree(leaves0, l as nat, i)
                    }));
                    if l == level && i != idx {
                        lemma_beside_the_path(leaves0, index as int, leaf, level as nat, i);
                    }
                }
            }
        }
        cur
    }

    /// The stored nodes, by level and index.
    pub closed spec fn nodes_by_place(self) -> Map<(u8, u64), BaseElement> {
        Map::new(
            |k: (u8, u64)| self.nodes@.contains_key(key(k.0 as int, k.1 as int)),
            |k: (u8, u64)| self.nodes@[key(k.0 as int, k.1 as int)],
        )
    }

    /// The stored nodes, in no particular order.
    pub fn listing(&self) -> (r: Vec<(u8, u64, BaseElement)>)
        requires
            self.complete(),
        ensures
            lists_nodes(r@, self.nodes_by_place()),
    {
        broadcast use vstd::std_specs::hash::group_hash_axioms;

        let keys = keys_of(&self.nodes);
        let mut r: Vec<(u8, u64, BaseElement)> = Vec::new();
        let mut i: usize = 0;
        while i < keys.len()
            invariant
                self.complete(),
                walks(keys@, self.nodes@),
                i <= keys@.len(),
                r@.len() == i,
                forall|j: int|
                    0 <= j < i ==> key((#[trigger] r@[j]).0 as int, r@[j].1 as int) == keys@[j]
                        && r@[j].2 == self.nodes@[keys@[j]],
            decreases keys@.len() - i,
        {
            broadcast use vstd::std_specs::hash::group_hash_axioms;

            let k: u128 = keys[i];
            assert(keys@.contains(k));
            assert(self.nodes@.contains_key(k));
            assert(key(256, 0) == 0x100_0000_0000_0000_0000);
            let level: u8 = (k / 0x1_0000_0000_0000_0000) as u8;
            let index: u64 = (k % 0x1_0000_0000_0000_0000) as u64;
            match self.nodes.get(&k) {
                Some(node) => {
                    r.push((level, index, *node));
                },
                None => {},
            }
            assert(key(level as int, index as int) == k);
            i = i + 1;
        }
        proof {
            let nodes = self.nodes_by_place();
            assert forall|j: int| 0 <= j < r@.len() implies {
                let (level, index, node) = #[trigger] r@[j];
                nodes.contains_key((level, index)) && nodes[(level, index)] == node
            } by {
                assert(keys@.contains(keys@[j]));
            }
            assert forall|q: (u8, u64)| #[trigger] nodes.contains_key(q) implies exists|j: int|
                0 <= j < r@.len() && ((#[trigger] r@[j]).0, r@[j].1) == q by {
                let k = key(q.0 as int, q.1 as int);
                assert(keys@.contains(k));
                let j = choose|j: int| 0 <= j < keys@.len() && keys@[j] == k;
                assert(key(r@[j].0 as int, r@[j].1 as int) == keys@[j]);
            }
        }
        r
    }

    /// A store with the nodes of a listing.
    pub fn from_listing(listing: &Vec<(u8, u64, BaseElement)>) -> (r: NodeStore)
        ensures
            r.complete(),
            r.nodes_by_place() == written_nodes(listing@),
    {
        broadcast use vstd::std_specs::hash::group_hash_axioms;

        let mut r = NodeStore { zero_hashes: init_zero_hashes(), nodes: HashMap::new() };
        let mut i: usize = 0;
        assert(r.nodes_by_place() =~= written_nodes(listing@.take(0)));
        while i < listing.len()
            invariant
                i <= listing@.len(),
                r.complete(),
                r.nodes_by_place() == written_nodes(listing@.take(i as int)),
            decreases listing@.len() - i,
        {
            broadcast use vstd::std_specs::hash::group_hash_axioms;

            let (level, index, node) = listing[i];
            proof {
                use_type_invariant(&node);
                assert(listing@.take(i + 1).drop_last() =~= listing@.take(i as int));
                assert forall|l: u8, x: u64|
                    #[trigger] key(l as int, x as int) == key(level as int, index as int) implies l
                    == level && x == index by {}
            }
            let ghost before = r;
            let k: u128 = (level as u128) * 0x1_0000_0000_0000_0000 + (index as u128);
            assert(k == key(level as int, index as int));
            r.nodes.insert(k, node);
            i = i + 1;
            assert(r.nodes_by_place() =~= before.nodes_by_place().insert((level, index), node));
        }
        assert(listing@.take(i as int) =~= listing@);
        r
    }

    /// The node that is stored at a level and index, or the empty tree's.
    pub open spec fn node_or_zero(self, level: u8, index: u64) -> BaseElement {
        if self.nodes_by_place().contains_key((level, index)) {
            self.nodes_by_place()[(level, index)]
        } else {
            zero_hash(level as nat)
        }
    }

    /// The stored root, or the empty tree's.
    pub fn stored_root(&self) -> (r: BaseElement)
        requires
            self.complete(),
        ensures
            r == self.node_or_zero(TREE_DEPTH as u8, 0),
    {
        broadcast use vstd::std_specs::hash::group_hash_axioms;

        let k: u128 = (TREE_DEPTH as u128) * 0x1_0000_0000_0000_0000;
        assert(k == key(TREE_DEPTH as u8 as int, 0));
        match self.nodes.get(&k) {
            Some(node) => *node,
            None => self.zero_hashes[TREE_DEPTH],
        }
    }

    /// The siblings and directions along an index's path.
    pub fn merkle_proof(&self, index: u64) -> (r: (Vec<BaseElement>, Vec<bool>))
        requires
            self.wf(),
        ensures
            r.0@ == path_siblings(self@, index as int),
            r.1@ == path_bits(index as int),
    {
        let mut siblings: Vec<BaseElement> = Vec::new();
        let mut bits: Vec<bool> = Vec::new();
        let mut idx: u64 = index;
        let mut level: u8 = 0;
        proof {
            lemma_ancestor_step(index as int, 0);
        }
        while (level as usize) < TREE_DEPTH
            invariant
                self.wf(),
                level <= TREE_DEPTH,
                idx == ancestor(index as int, level as nat),
                siblings@ == path_siblings(self@, index as int).take(level as int),
                bits@ == path_bits(index as int).take(level as int),
            decreases TREE_DEPTH - level,
        {
            let pair_base: u64 = (idx / 2) * 2;
            let sibling_index: u64 = if idx == pair_base {
                pair_base + 1
            } else {
                pair_base
            };
            siblings.push(self.node_at(level, sibling_index));
            bits.push(idx % 2 == 1);
            proof {
                lemma_ancestor_step(index as int, level as nat);
                assert(siblings@ =~= path_siblings(self@, index as int).take(level + 1));
                assert(bits@ =~= path_bits(index as int).take(level + 1));
            }
            idx = idx / 2;
            level = level + 1;
        }
        assert(siblings@ =~= path_siblings(self@, index as int));
        assert(bits@ =~= path_bits(index as int));
        (siblings, bits)
    }
}

/// The nodes of a listing, written one after the other.
pub open spec fn written_nodes(listing: Seq<(u8, u64, BaseElement)>) -> Map<(u8, u64), BaseElement>
    decreases listing.len(),
{
    if listing.len() == 0 {
        Map::empty()
    } else {
        let (level, index, node) = listing.last();
        written_nodes(listing.drop_last()).insert((level, index), node)
    }
}

/// Whether a listing has each node of a map once.
pub open spec fn lists_nodes(
    listing: Seq<(u8, u64, BaseElement)>,
    nodes: Map<(u8, u64), BaseElement>,
) -> bool {
    &&& forall|i: int|
        0 <= i < listing.len() ==> {
            let (level, index, node) = #[trigger] listing[i];
            nodes.contains_key((level, index)) && nodes[(level, index)] == node
        }
    &&& forall|i: int, j: int|
        0 <= i < j < listing.len() ==> ((#[trigger] listing[i]).0, listing[i].1) != ((
        #[trigger] listing[j]).0, listing[j].1)
    &&& forall|k: (u8, u64)| #[trigger]
        nodes.contains_key(k) ==> exists|i: int|
            0 <= i < listing.len() && ((#[trigger] listing[i]).0, listing[i].1) == k
}

/// Writing the nodes of a listing gives what it lists.
pub proof fn lemma_written_nodes(
    listing: Seq<(u8, u64, BaseElement)>,
    nodes: Map<(u8, u64), BaseElement>,
)
    requires
        lists_nodes(listing, nodes),
    ensures
        written_nodes(listing) == nodes,
    decreases listing.len(),
{
    if listing.len() == 0 {
        assert(nodes =~= Map::empty());
    } else {
        let rest = listing.drop_last();
        let (level, index, node) = listing.last();
        let k = (level, index);
        let fewer = nodes.remove(k);
        assert(listing[listing.len() - 1] == listing.last());
        assert forall|i: int| 0 <= i < rest.len() implies {
            let (l, x, n) = #[trigger] rest[i];
            fewer.contains_key((l, x)) && fewer[(l, x)] == n
        } by {
            assert(listing[i] == rest[i]);
        }
        assert forall|i: int, j: int| 0 <= i < j < rest.len() implies ((#[trigger] rest[i]).0, rest[
            i
        ].1) != ((#[trigger] rest[j]).0, rest[j].1) by {
            assert(listing[i] == rest[i]);
            assert(listing[j] == rest[j]);
        }
        assert forall|q: (u8, u64)| #[trigger] fewer.contains_key(q) implies exists|i: int|
            0 <= i < rest.len() && ((#[trigger] rest[i]).0, rest[i].1) == q by {
            assert(nodes.contains_key(q));
            let i = choose|i: int|
                0 <= i < listing.len() && ((#[trigger] listing[i]).0, listing[i].1) == q;
            assert(rest[i] == listing[i]);
        }
        lemma_written_nodes(rest, fewer);
        assert(fewer.insert(k, node) =~= nodes);
    }
}

/// A store with the nodes of one that is in order is in order, with its leaves.
pub proof fn lemma_same_nodes(a: NodeStore, b: NodeStore)
    requires
        a.wf(),
        b.complete(),
        a.nodes_by_place() == b.nodes_by_place(),
    ensures
        b.wf(),
        a@ == b@,
{
    assert forall|l: int, i: int| 0 <= l <= TREE_DEPTH && 0 <= i <= u64::MAX implies b.stored(l, i)
        == a.stored(l, i) && (b.nodes@.contains_key(key(l, i)) <==> a.nodes@.contains_key(
        key(l, i),
    )) by {
        let place = (l as u8, i as u64);
        assert(place.0 as int == l && place.1 as int == i);
        assert(a.nodes_by_place().contains_key(place) <==> b.nodes_by_place().contains_key(place));
        assert(a.nodes_by_place().contains_key(place) == a.nodes@.contains_key(key(l, i)));
        assert(b.nodes_by_place().contains_key(place) == b.nodes@.contains_key(key(l, i)));
        if a.nodes@.contains_key(key(l, i)) {
            assert(a.nodes_by_place()[place] == a.nodes@[key(l, i)]);
            assert(b.nodes_by_place()[place] == b.nodes@[key(l, i)]);
        }
    }
    assert(a@ =~= b@) by {
        assert forall|i: int| 0 <= i <= u64::MAX implies (b.nodes@.contains_key(key(0, i))
            <==> a.nodes@.contains_key(key(0, i))) && (a.nodes@.contains_key(key(0, i))
            ==> a.nodes@[key(0, i)] == b.nodes@[key(0, i)]) by {
            assert(b.stored(0, i) == a.stored(0, i));
        }
    }
    assert forall|l: int, i: int| 0 <= l <= TREE_DEPTH && 0 <= i <= u64::MAX implies #[trigger]
        b.stored(l, i) == subtree(b@, l as nat, i) by {
        assert(a.stored(l, i) == subtree(a@, l as nat, i));
    }
}

/// In a store that is in order, every stored node is the one that the leaves give, and
/// exactly the leaves are stored at the lowest level.
pub proof fn lemma_places(a: NodeStore, level: u8, index: u64)
    requires
        a.wf(),
        level <= TREE_DEPTH,
    ensures
        a.nodes_by_place().contains_key((level, index)) ==> a.nodes_by_place()[(level, index)]
            == subtree(a@, level as nat, index as int),
        a.nodes_by_place().contains_key((0u8, index)) <==> a@.contains_key(index as int),
{
    let place = (level, index);
    assert(a.stored(level as int, index as int) == subtree(a@, level as nat, index as int));
    assert(a.nodes_by_place().contains_key(place) == a.nodes@.contains_key(
        key(level as int, index as int),
    ));
    assert(a.nodes_by_place().contains_key((0u8, index)) == a.nodes@.contains_key(
        key(0, index as int),
    ));
}

/// A store that is in order is complete.
pub proof fn lemma_wf_is_complete(a: NodeStore)
    requires
        a.wf(),
    ensures
        a.complete(),
{
}

/// The root that is stored is the root of the leaves.
pub proof fn lemma_stored_root(a: NodeStore)
    requires
        a.wf(),
    ensures
        a.node_or_zero(TREE_DEPTH as u8, 0) == root_of(a@),
{
    assert(a.stored(TREE_DEPTH as int, 0) == subtree(a@, TREE_DEPTH as nat, 0));
    let place = (TREE_DEPTH as u8, 0u64);
    assert(a.nodes_by_place().contains_key(place) == a.nodes@.contains_key(
        key(TREE_DEPTH as int, 0),
    ));
}

/// The root is an element.
pub proof fn lemma_root_wf(leaves: Leaves)
    ensures
        root_of(leaves).wf(),
{
    let children = seq![
        field::elem(DOMAIN_NODE as int),
        subtree(leaves, (TREE_DEPTH - 1) as nat, 0),
        subtree(leaves, (TREE_DEPTH - 1) as nat, 1),
    ];
    permutation::lemma_hash_wf(children);
}

/// The parent of two nodes.
pub fn hash_node(left: BaseElement, right: BaseElement) -> (r: BaseElement)
    ensures
        r == statement::node(left, right),
        r.wf(),
{
    let inputs: [BaseElement; 3] = [BaseElement::new(DOMAIN_NODE as u128), left, right];
    assert(inputs@ =~= seq![field::elem(DOMAIN_NODE as int), left, right]);
    hash(&inputs)
}

/// The nodes of the empty tree, from the leaves to the root.
pub fn init_zero_hashes() -> (z: Vec<BaseElement>)
    ensures
        z@ == Seq::new((TREE_DEPTH + 1) as nat, |l: int| zero_hash(l as nat)),
{
    let mut z: Vec<BaseElement> = Vec::new();
    z.push(BaseElement::new(0));
    let mut level: usize = 1;
    while level <= TREE_DEPTH
        invariant
            1 <= level <= TREE_DEPTH + 1,
            z@ == Seq::new(level as nat, |l: int| zero_hash(l as nat)),
        decreases TREE_DEPTH + 1 - level,
    {
        let prev = z[level - 1];
        z.push(hash_node(prev, prev));
        level = level + 1;
    }
    z
}

/// A sparse Merkle tree that stands by itself; its leaves are numbered below
/// `2^25`.
#[derive(Clone, Debug)]
pub struct SparseTree {
    store: NodeStore,
}

impl View for SparseTree {
    type V = Leaves;

    /// The leaves that were written.
    closed spec fn view(&self) -> Leaves {
        self.store@
    }
}

impl SparseTree {
    /// The nodes are those that the leaves give.
    pub closed spec fn wf(self) -> bool {
        self.store.wf()
    }

    /// An empty tree.
    pub fn new() -> (r: SparseTree)
        ensures
            r.wf(),
            r@ == Map::<int, BaseElement>::empty(),
    {
        SparseTree { store: NodeStore::new() }
    }

    /// The node at the given level and index.
    pub fn node_at(&self, level: usize, index: usize) -> (r: BaseElement)
        requires
            self.wf(),
            level <= TREE_DEPTH,
        ensures
            r == subtree(self@, level as nat, index as int),
    {
        self.store.node_at(level as u8, index as u64)
    }

    /// Writes a leaf.
    pub fn insert_leaf(&mut self, index: usize, leaf: BaseElement)
        requires
            old(self).wf(),
            index < 0x200_0000,
        ensures
            final(self).wf(),
            final(self)@ == old(self)@.insert(index as int, leaf),
    {
        let _ = self.store.insert_leaf(index as u64, leaf);
    }

    /// The root.
    pub fn root(&self) -> (r: BaseElement)
        requires
            self.wf(),
        ensures
            r == root_of(self@),
    {
        self.node_at(TREE_DEPTH, 0)
    }

    /// The siblings and directions along an index's path.
    pub fn merkle_proof(&self, index: usize) -> (r: (Vec<BaseElement>, Vec<bool>))
        requires
            self.wf(),
            index < 0x200_0000,
        ensures
            r.0@ == path_siblings(self@, index as int),
            r.1@ == path_bits(index as int),
    {
        self.store.merkle_proof(index as u64)
    }

    /// The root that a path leads to from a leaf.
    pub fn recompute_root(leaf: BaseElement, siblings: &[BaseElement], bits: &[bool]) -> (r:
        BaseElement)
        requires
            siblings@.len() == TREE_DEPTH,
            bits@.len() == TREE_DEPTH,
        ensures
            r == statement::climbed(leaf, siblings@, bits@, TREE_DEPTH as nat),
    {
        let mut cur = leaf;
        let mut level: usize = 0;
        while level < TREE_DEPTH
            invariant
                level <= TREE_DEPTH,
                siblings@.len() == TREE_DEPTH,
                bits@.len() == TREE_DEPTH,
                cur == statement::climbed(leaf, siblings@, bits@, level as nat),
            decreases TREE_DEPTH - level,
        {
            cur = if bits[level] {
                hash_node(siblings[level], cur)
            } else {
                hash_node(cur, siblings[level])
            };
            level = level + 1;
        }
        cur
    }
}

impl Default for SparseTree {
    fn default() -> (r: SparseTree)
        ensures
            r.wf(),
            r@ == Map::<int, BaseElement>::empty(),
    {
        SparseTree::new()
    }
}

} // verus!
