//! A small registry with one title, to try things on.

use vstd::prelude::*;

use crate::field;
use crate::field::BaseElement;
use crate::layout::{DOMAIN_LEAF, DOMAIN_OWNER_COMMITMENT};
use crate::permutation::hash;
use crate::trace::Witness;
use crate::tree;
use crate::tree::SparseTree;

verus! {

/// The leaves of a tree whose only leaf, the first one, is that of a witness.
pub open spec fn only_leaf_of(w: Witness) -> tree::Leaves {
    Map::<int, BaseElement>::empty().insert(0, w.leaf())
}

/// The owner's witness in a registry whose only title is that of property 42, for
/// a request at the given time and with the given nonce, and the root of that
/// registry's tree.
pub fn witness_for(current_timestamp: u64, request_nonce: u128, license_expiry: u64) -> (r: (
    Witness,
    BaseElement,
))
    ensures
        r.0.registry_id == field::elem(1),
        r.0.purpose == field::elem(1),
        r.0.request_nonce == field::elem(request_nonce as int),
        r.0.current_timestamp == current_timestamp,
        r.0.owner_secret == field::elem(0xA11CE),
        r.0.property_id == field::elem(42),
        r.0.license_expiry == license_expiry,
        r.0.merkle_siblings@ == tree::path_siblings(only_leaf_of(r.0), 0),
        r.0.merkle_bits@ == tree::path_bits(0),
        r.1 == tree::root_of(only_leaf_of(r.0)),
        r.1 == r.0.public_inputs().merkle_root,
{
    let registry_id = BaseElement::new(1);
    let owner_secret = BaseElement::new(0xA11CE);
    let property_id = BaseElement::new(42);
    let commitment_inputs: [BaseElement; 3] = [
        BaseElement::new(DOMAIN_OWNER_COMMITMENT as u128),
        owner_secret,
        property_id,
    ];
    assert(commitment_inputs@ =~= seq![
        field::elem(DOMAIN_OWNER_COMMITMENT as int),
        owner_secret,
        property_id,
    ]);
    let owner_commitment = hash(&commitment_inputs);
    let license_status = BaseElement::new(1);
    let encumbrance_flag = BaseElement::new(0);
    let leaf_inputs: [BaseElement; 6] = [
        BaseElement::new(DOMAIN_LEAF as u128),
        registry_id,
        owner_commitment,
        encumbrance_flag,
        license_status,
        BaseElement::new(license_expiry as u128),
    ];
    assert(leaf_inputs@ =~= seq![
        field::elem(DOMAIN_LEAF as int),
        registry_id,
        owner_commitment,
        encumbrance_flag,
        license_status,
        field::elem(license_expiry as int),
    ]);
    let leaf = hash(&leaf_inputs);
    let mut tree = SparseTree::new();
    tree.insert_leaf(0, leaf);
    let (siblings, bits) = tree.merkle_proof(0);
    let root = tree.root();
    let witness = Witness {
        registry_id,
        purpose: BaseElement::new(1),
        request_nonce: BaseElement::new(request_nonce),
        current_timestamp,
        owner_secret,
        property_id,
        license_expiry,
        merkle_siblings: siblings,
        merkle_bits: bits,
    };
    proof {
        assert(leaf == witness.leaf());
        tree::law_path_reaches_the_root(only_leaf_of(witness), 0);
        assert(tree::subtree(only_leaf_of(witness), 0, 0) == leaf);
    }
    (witness, root)
}

/// The owner's witness for a request with nonce 7, whose license lasts another
/// year, and the root of the registry's tree.
pub fn demo_witness() -> (r: (Witness, BaseElement))
    ensures
        r.0.registry_id == field::elem(1),
        r.0.purpose == field::elem(1),
        r.0.request_nonce == field::elem(7),
        r.0.current_timestamp == 1_754_000_000,
        r.0.owner_secret == field::elem(0xA11CE),
        r.0.property_id == field::elem(42),
        r.0.license_expiry == 1_785_536_000,
        r.0.merkle_siblings@ == tree::path_siblings(only_leaf_of(r.0), 0),
        r.0.merkle_bits@ == tree::path_bits(0),
        r.0.complete(),
        r.1 == tree::root_of(only_leaf_of(r.0)),
        r.1 == r.0.public_inputs().merkle_root,
{
    let current_timestamp: u64 = 1_754_000_000;
    witness_for(current_timestamp, 7, current_timestamp + 365 * 24 * 3600)
}

} // verus!
