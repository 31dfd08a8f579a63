//! The statement in words of hashes: what is committed to, what a leaf and a
//! node of the registry's tree are, and what a nullifier is.

use vstd::arithmetic::div_mod::*;
use vstd::prelude::*;

use crate::air::PublicInputs;
use crate::field;
use crate::field::BaseElement;
use crate::layout::{
    DOMAIN_LEAF, DOMAIN_NODE, DOMAIN_NULLIFIER, DOMAIN_OWNER_COMMITMENT, TREE_DEPTH,
};
use crate::permutation;

verus! {

/// What an owner commits to: their secret, for one property.
pub open spec fn owner_commitment(secret: BaseElement, property: BaseElement) -> BaseElement {
    permutation::hash_of(seq![field::elem(DOMAIN_OWNER_COMMITMENT as int), secret, property])
}

/// The leaf of a registered title.
pub open spec fn leaf(
    registry: BaseElement,
    commitment: BaseElement,
    encumbrance: BaseElement,
    status: BaseElement,
    expiry: BaseElement,
) -> BaseElement {
    permutation::hash_of(
        seq![field::elem(DOMAIN_LEAF as int), registry, commitment, encumbrance, status, expiry],
    )
}

/// The parent of two nodes.
pub open spec fn node(left: BaseElement, right: BaseElement) -> BaseElement {
    permutation::hash_of(seq![field::elem(DOMAIN_NODE as int), left, right])
}

/// The node that a path reaches after `n` steps up from a leaf: where the bit is
/// set, the node so far is the right child and the sibling the left one.
pub open spec fn climbed(
    leaf: BaseElement,
    siblings: Seq<BaseElement>,
    bits: Seq<bool>,
    n: nat,
) -> BaseElement
    decreases n,
{
    if n == 0 {
        leaf
    } else {
        let below = climbed(leaf, siblings, bits, (n - 1) as nat);
        if bits[n - 1] {
            node(siblings[n - 1], below)
        } else {
            node(below, siblings[n - 1])
        }
    }
}

/// What is spent when a title is proved once, for one purpose and one request.
pub open spec fn nullifier(
    secret: BaseElement,
    property: BaseElement,
    purpose: BaseElement,
    nonce: BaseElement,
) -> BaseElement {
    permutation::hash_of(
        seq![field::elem(DOMAIN_NULLIFIER as int), secret, property, purpose, nonce],
    )
}

/// What only the owner knows: the secret, the property, the license's expiry
/// and the path of the leaf.
pub struct Knowledge {
    pub secret: BaseElement,
    pub property: BaseElement,
    pub expiry: BaseElement,
    pub siblings: Seq<BaseElement>,
    pub bits: Seq<bool>,
}

/// The statement: the unencumbered, validly licensed leaf of the owner lies in
/// the tree, the license outlasts the current time by a number of seconds from
/// `1` to `2^32`, and the nullifier is the one of this request.
pub open spec fn holds(pi: PublicInputs, k: Knowledge) -> bool {
    let title = leaf(
        pi.registry_id,
        owner_commitment(k.secret, k.property),
        field::elem(0),
        field::elem(1),
        k.expiry,
    );
    &&& k.siblings.len() == TREE_DEPTH
    &&& k.bits.len() == TREE_DEPTH
    &&& pi.merkle_root == climbed(title, k.siblings, k.bits, TREE_DEPTH as nat)
    &&& pi.nullifier == nullifier(k.secret, k.property, pi.purpose, pi.request_nonce)
    &&& lasts(k.expiry, pi.current_timestamp)
}

/// Whether a license that expires at `expiry` is valid at `now`, by a number of
/// seconds from `1` to `2^32`.
pub open spec fn lasts(expiry: BaseElement, now: BaseElement) -> bool {
    exists|left: int|
        1 <= left <= 0x1_0000_0000 && expiry == #[trigger] field::elem(now@ + left)
}

/// A license that lasts expires later than now, wherever the time is not within
/// `2^32` seconds of the modulus; no 64-bit time is.
pub proof fn law_lasting_licenses_expire_later(expiry: BaseElement, now: BaseElement)
    requires
        lasts(expiry, now),
        0 <= now@ < field::p() - 0x1_0000_0000,
    ensures
        now@ < expiry@ <= now@ + 0x1_0000_0000,
{
    let left = choose|left: int|
        1 <= left <= 0x1_0000_0000 && expiry == #[trigger] field::elem(now@ + left);
    field::lemma_elem_view(now@ + left);
    lemma_small_mod((now@ + left) as nat, field::p() as nat);
}

} // verus!
