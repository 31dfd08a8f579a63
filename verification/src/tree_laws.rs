//! The registry's tree: what its nodes are, what writing a leaf does to them, and
//! where paths lead.

use vstd::arithmetic::div_mod::*;
use vstd::arithmetic::power2::*;
use vstd::prelude::*;

use crate::field;
use crate::field::BaseElement;
use crate::permutation;
use crate::statement;
use crate::tree;
use crate::tree::{hash_node, init_zero_hashes, NodeStore, SparseTree};

verus! {

/// Two nodes are hashed into their parent, the left one first, with tag 4.
pub proof fn law_parents(left: BaseElement, right: BaseElement, r: BaseElement)
    requires
        call_ensures(hash_node, (left, right), r),
    ensures
        r == permutation::hash_of(seq![field::elem(4), left, right]),
{
}

/// Every node above the leaves is the hash of its two children, with tag 4.
pub proof fn law_nodes_are_hashes_of_their_children(
    store: &NodeStore,
    level: u8,
    index: u64,
    node: BaseElement,
    left: BaseElement,
    right: BaseElement,
)
    requires
        store.wf(),
        1 <= level <= 25,
        2 * index + 1 <= u64::MAX,
        call_ensures(NodeStore::node_at, (store, level, index), node),
        call_ensures(NodeStore::node_at, (store, (level - 1) as u8, (2 * index) as u64), left),
        call_ensures(NodeStore::node_at, (store, (level - 1) as u8, (2 * index + 1) as u64), right),
    ensures
        node == permutation::hash_of(seq![field::elem(4), left, right]),
{
}

/// The nodes at level 0 are the leaves, and zero where none was written.
pub proof fn law_leaves_are_the_lowest_nodes(store: &NodeStore, index: u64, node: BaseElement)
    requires
        store.wf(),
        call_ensures(NodeStore::node_at, (store, 0u8, index), node),
    ensures
        node == (if store@.contains_key(index as int) {
            store@[index as int]
        } else {
            field::elem(0)
        }),
{
}

/// A new store has no leaf.
pub proof fn law_new_stores_are_empty(store: NodeStore, index: u64, node: BaseElement)
    requires
        call_ensures(NodeStore::new, (), store),
        call_ensures(NodeStore::node_at, (&store, 0u8, index), node),
    ensures
        store.wf(),
        node == field::elem(0),
        store@ == Map::<int, BaseElement>::empty(),
{
}

/// Writing a leaf writes this leaf and no other, and gives the node that its path ends
/// in, 25 levels up.
pub proof fn law_writing_a_leaf(
    before: NodeStore,
    index: u64,
    leaf: BaseElement,
    r: BaseElement,
    after: NodeStore,
    other: u64,
    was: BaseElement,
    is: BaseElement,
    top: BaseElement,
)
    requires
        before.wf(),
        exists|t: &mut NodeStore|
            *t == before && *final(t) == after && #[trigger] call_ensures(
                NodeStore::insert_leaf,
                (t, index, leaf),
                r,
            ),
        call_ensures(NodeStore::node_at, (&before, 0u8, other), was),
        call_ensures(NodeStore::node_at, (&after, 0u8, other), is),
        call_ensures(NodeStore::node_at, (&after, 25u8, (index / 0x200_0000) as u64), top),
    ensures
        after.wf(),
        is == (if other == index {
            leaf
        } else {
            was
        }),
        r == top,
        after@ == before@.insert(index as int, leaf),
{
    lemma2_to64();
    assert(pow2(25) == 0x200_0000);
}

/// The path of an index names, from the leaf upwards, the node beside the one that the
/// path goes through, and whether the path comes from the right.
pub open spec fn names_the_path(
    leaves: tree::Leaves,
    index: int,
    siblings: Seq<BaseElement>,
    bits: Seq<bool>,
) -> bool {
    &&& siblings.len() == 25
    &&& bits.len() == 25
    &&& forall|l: int|
        0 <= l < 25 ==> (#[trigger] bits[l] <==> (index / (pow2(l as nat) as int)) % 2 == 1)
    &&& forall|l: int|
        0 <= l < 25 ==> #[trigger] siblings[l] == tree::subtree(
            leaves,
            l as nat,
            if (index / (pow2(l as nat) as int)) % 2 == 1 {
                index / (pow2(l as nat) as int) - 1
            } else {
                index / (pow2(l as nat) as int) + 1
            },
        )
}

/// Paths name the nodes beside them.
pub proof fn law_paths(store: &NodeStore, index: u64, path: (Vec<BaseElement>, Vec<bool>))
    requires
        store.wf(),
        call_ensures(NodeStore::merkle_proof, (store, index), path),
    ensures
        names_the_path(store@, index as int, path.0@, path.1@),
{
}

/// The nodes of the tree over given leaves: the leaves, or zero, at the bottom, and the
/// hash of the two nodes below with tag 4 above.
pub proof fn law_nodes(leaves: tree::Leaves, level: nat, index: int)
    ensures
        tree::subtree(leaves, 0, index) == (if leaves.contains_key(index) {
            leaves[index]
        } else {
            field::elem(0)
        }),
        tree::subtree(leaves, level + 1, index) == permutation::hash_of(
            seq![
                field::elem(4),
                tree::subtree(leaves, level, 2 * index),
                tree::subtree(leaves, level, 2 * index + 1),
            ],
        ),
        tree::root_of(leaves) == tree::subtree(leaves, 25, 0),
{
}

/// Whether nodes are those that a path goes through: the leaf first, and each next one
/// the hash of the one before and its sibling with tag 4, the sibling first where the
/// bit is set.
pub open spec fn climbs(
    nodes: Seq<BaseElement>,
    leaf: BaseElement,
    siblings: Seq<BaseElement>,
    bits: Seq<bool>,
) -> bool {
    &&& nodes.len() == 26
    &&& nodes[0] == leaf
    &&& forall|l: int|
        0 <= l < 25 ==> #[trigger] step_up(nodes[l], siblings[l], bits[l], nodes[l + 1])
}

/// Whether a node is the one above another and its sibling.
pub open spec fn step_up(
    node: BaseElement,
    sibling: BaseElement,
    right: bool,
    above: BaseElement,
) -> bool {
    above == permutation::hash_of(
        if right {
            seq![field::elem(4), sibling, node]
        } else {
            seq![field::elem(4), node, sibling]
        },
    )
}

/// Climbing a path step by step leads to the node that the path reaches.
pub proof fn law_climbing(
    nodes: Seq<BaseElement>,
    leaf: BaseElement,
    siblings: Seq<BaseElement>,
    bits: Seq<bool>,
    n: nat,
)
    requires
        climbs(nodes, leaf, siblings, bits),
        n <= 25,
    ensures
        statement::climbed(leaf, siblings, bits, n) == nodes[n as int],
    decreases n,
{
    if n > 0 {
        law_climbing(nodes, leaf, siblings, bits, (n - 1) as nat);
        assert(step_up(nodes[n - 1], siblings[n - 1], bits[n - 1], nodes[n - 1 + 1]));
    }
}

/// Recomputing a root climbs the path.
pub proof fn law_recomputed_roots(
    leaf: BaseElement,
    siblings: &[BaseElement],
    bits: &[bool],
    r: BaseElement,
    nodes: Seq<BaseElement>,
)
    requires
        siblings@.len() == 25,
        bits@.len() == 25,
        call_ensures(SparseTree::recompute_root, (leaf, siblings, bits), r),
        climbs(nodes, leaf, siblings@, bits@),
    ensures
        r == nodes[25],
{
    law_climbing(nodes, leaf, siblings@, bits@, 25);
}

/// The path of any leaf leads from the leaf to the root.
pub proof fn law_paths_lead_to_the_root(
    t: &SparseTree,
    index: usize,
    leaf: BaseElement,
    path: (Vec<BaseElement>, Vec<bool>),
    siblings: &[BaseElement],
    bits: &[bool],
    r: BaseElement,
    root: BaseElement,
)
    requires
        t.wf(),
        index < 0x200_0000,
        call_ensures(SparseTree::node_at, (t, 0usize, index), leaf),
        call_ensures(SparseTree::merkle_proof, (t, index), path),
        siblings@ == path.0@,
        bits@ == path.1@,
        call_ensures(SparseTree::recompute_root, (leaf, siblings, bits), r),
        call_ensures(SparseTree::root, (t,), root),
    ensures
        r == root,
        names_the_path(t@, index as int, path.0@, path.1@),
{
    tree::law_path_reaches_the_root(t@, index as int);
}

/// A tree that stands by itself has the nodes of its leaves; its root is the one at
/// level 25.
pub proof fn law_trees(
    t: &SparseTree,
    level: usize,
    index: usize,
    node: BaseElement,
    root: BaseElement,
)
    requires
        t.wf(),
        level <= 25,
        call_ensures(SparseTree::node_at, (t, level, index), node),
        call_ensures(SparseTree::root, (t,), root),
    ensures
        node == tree::subtree(t@, level as nat, index as int),
        root == tree::subtree(t@, 25, 0),
{
}

/// A new tree has no leaf, and writing a leaf to a tree writes this one and no other.
pub proof fn law_trees_keep_their_leaves(
    new: SparseTree,
    before: SparseTree,
    index: usize,
    leaf: BaseElement,
    after: SparseTree,
)
    requires
        call_ensures(SparseTree::new, (), new),
        before.wf(),
        index < 0x200_0000,
        exists|t: &mut SparseTree|
            *t == before && *final(t) == after && #[trigger] call_ensures(
                SparseTree::insert_leaf,
                (t, index, leaf),
                (),
            ),
    ensures
        new.wf(),
        new@ == Map::<int, BaseElement>::empty(),
        after.wf(),
        after@ == before@.insert(index as int, leaf),
{
}

/// The nodes of the empty tree: zero at the bottom, and above that the hash of twice
/// the one below, with tag 4.
pub proof fn law_empty_nodes(z: Vec<BaseElement>, l: int)
    requires
        call_ensures(init_zero_hashes, (), z),
        0 <= l < 25,
    ensures
        z@.len() == 26,
        z@[0] == field::elem(0),
        z@[l + 1] == permutation::hash_of(seq![field::elem(4), z@[l], z@[l]]),
        z@[l] == tree::subtree(Map::empty(), l as nat, 0),
{
    tree::lemma_empty_subtree(Map::empty(), l as nat, 0);
}

/// A leaf that is written leaves every node alone that does not lie above it.
pub proof fn law_nodes_beside_the_path_stay(
    leaves: tree::Leaves,
    at: int,
    leaf: BaseElement,
    level: nat,
    index: int,
)
    requires
        at >= 0,
        at / (pow2(level) as int) != index,
    ensures
        tree::subtree(leaves.insert(at, leaf), level, index) == tree::subtree(leaves, level, index),
{
    tree::lemma_beside_the_path(leaves, at, leaf, level, index);
}

/// A store that is made of the listing of another one has its leaves and nodes, and its
/// root is the node at level 25.
pub proof fn law_listings(
    store: &NodeStore,
    listing: Vec<(u8, u64, BaseElement)>,
    copy: NodeStore,
    root: BaseElement,
    empty: &Vec<BaseElement>,
)
    requires
        store.wf(),
        call_ensures(NodeStore::listing, (store,), listing),
        call_ensures(NodeStore::from_listing, (&listing,), copy),
        call_ensures(NodeStore::stored_root, (&copy,), root),
        call_ensures(NodeStore::zero_hashes, (store,), empty),
    ensures
        copy.wf(),
        copy@ == store@,
        root == tree::subtree(store@, 25, 0),
        empty@.len() == 26,
        forall|l: int|
            0 <= l < 26 ==> #[trigger] empty@[l] == tree::subtree(Map::empty(), l as nat, 0),
{
    tree::lemma_wf_is_complete(*store);
    tree::lemma_written_nodes(listing@, store.nodes_by_place());
    tree::lemma_same_nodes(*store, copy);
    tree::lemma_stored_root(copy);
    assert forall|l: int| 0 <= l < 26 implies #[trigger] empty@[l] == tree::subtree(
        Map::empty(),
        l as nat,
        0,
    ) by {
        tree::lemma_empty_subtree(Map::empty(), l as nat, 0);
    }
}

} // verus!
