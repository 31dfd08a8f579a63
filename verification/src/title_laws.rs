//! Titles and who may write them.

use vstd::prelude::*;

use crate::decimal;
use crate::field;
use crate::field::BaseElement;
use crate::tree_laws;
use crate::permutation;
use crate::principal::Principal;
use crate::registry;
use crate::registry::{
    add_admin_impl, bootstrap_admin_impl, fe, fresh_state, get_merkle_proof_impl, get_record_impl,
    health, insert_leaf, is_admin, leaf_hash, node_at, remove_admin_impl, submit_record_impl,
    MerkleProof, Record, State,
};
use crate::tree;

verus! {

/// A 64-bit number as an element is this number.
pub proof fn law_numbers_as_elements(n: u64, e: BaseElement)
    requires
        call_ensures(fe, (n,), e),
    ensures
        e@ == n,
        e.wf(),
{
    field::lemma_elem_view(n as int);
    vstd::arithmetic::div_mod::lemma_small_mod(n as nat, field::p() as nat);
}

/// The leaf of a record whose commitment reads as `c`: the hash of tag 1, registry 1,
/// `c`, and the record's own flag, status and expiry.
pub open spec fn leaf_from(r: Record, c: BaseElement) -> BaseElement {
    permutation::hash_of(
        seq![
            field::elem(1),
            field::elem(1),
            c,
            field::elem(r.encumbrance_flag as int),
            field::elem(r.license_status as int),
            field::elem(r.license_expiry as int),
        ],
    )
}

/// A record has a leaf exactly if its commitment reads as a number, and the leaf is
/// the hash of exactly these six: tag 1, registry 1, the commitment, and the record's
/// own encumbrance flag, license status and license expiry.
pub proof fn law_leaves_commit_to_the_record(r: &Record, out: Result<BaseElement, String>)
    requires
        call_ensures(leaf_hash, (r,), out),
    ensures
        out is Ok <==> decimal::parsed(r.owner_commitment@) is Some,
        out is Ok ==> out->Ok_0 == leaf_from(*r, decimal::parsed(r.owner_commitment@)->0),
        out is Err ==> out->Err_0@ == "could not parse '"@ + r.owner_commitment@
            + "' as a u128 decimal integer"@,
{
}

/// Records whose commitments read as different numbers, or that differ in flag, status
/// or expiry, start their leaves from different states, which no round makes one.
pub proof fn law_leaves_of_different_records_never_meet(
    a: Record,
    ca: BaseElement,
    b: Record,
    cb: BaseElement,
    n: nat,
)
    requires
        decimal::parsed(a.owner_commitment@) == Some(ca),
        decimal::parsed(b.owner_commitment@) == Some(cb),
        ca.wf(),
        cb.wf(),
        ca != cb || a.encumbrance_flag != b.encumbrance_flag || a.license_status
            != b.license_status || a.license_expiry != b.license_expiry,
    ensures
        ({
            let x = seq![
                field::elem(1),
                field::elem(1),
                ca,
                field::elem(a.encumbrance_flag as int),
                field::elem(a.license_status as int),
                field::elem(a.license_expiry as int),
            ];
            let y = seq![
                field::elem(1),
                field::elem(1),
                cb,
                field::elem(b.encumbrance_flag as int),
                field::elem(b.license_status as int),
                field::elem(b.license_expiry as int),
            ];
            &&& registry::leaf_of(a) == Some(permutation::hash_of(x))
            &&& registry::leaf_of(b) == Some(permutation::hash_of(y))
            &&& permutation::permuted(permutation::padded(x), n) != permutation::permuted(
                permutation::padded(y),
                n,
            )
        }),
{
    let x = seq![
        field::elem(1),
        field::elem(1),
        ca,
        field::elem(a.encumbrance_flag as int),
        field::elem(a.license_status as int),
        field::elem(a.license_expiry as int),
    ];
    let y = seq![
        field::elem(1),
        field::elem(1),
        cb,
        field::elem(b.encumbrance_flag as int),
        field::elem(b.license_status as int),
        field::elem(b.license_expiry as int),
    ];
    broadcast use field::group_elem;

    if a.encumbrance_flag != b.encumbrance_flag {
        crate::algebra::lemma_small_distinct(a.encumbrance_flag as int, b.encumbrance_flag as int);
    }
    if a.license_status != b.license_status {
        crate::algebra::lemma_small_distinct(a.license_status as int, b.license_status as int);
    }
    if a.license_expiry != b.license_expiry {
        crate::algebra::lemma_small_distinct(a.license_expiry as int, b.license_expiry as int);
    }
    assert(x[2] == ca && y[2] == cb);
    assert(x[3] == field::elem(a.encumbrance_flag as int));
    assert(y[3] == field::elem(b.encumbrance_flag as int));
    assert(x[4] == field::elem(a.license_status as int));
    assert(y[4] == field::elem(b.license_status as int));
    assert(x[5] == field::elem(a.license_expiry as int));
    assert(y[5] == field::elem(b.license_expiry as int));
    crate::hash_laws::law_inputs_never_meet(x, y, n);
}

/// A title is registered exactly on behalf of an administrator and with a commitment
/// that reads as a number. Its record is then the one that was submitted, its leaf in
/// the tree is that of its record, at the next free index for a new title and at its
/// own for a known one, and the root that is returned is that of the new tree. No
/// other title's record or leaf changes, and nothing else; nothing at all where the
/// submission is refused.
pub proof fn law_submissions(
    before: State,
    caller: Principal,
    property_id: u64,
    owner_commitment: String,
    encumbrance_flag: u64,
    license_status: u64,
    license_expiry: u64,
    r: Result<String, String>,
    after: State,
)
    requires
        before.wf(),
        before.admins@.contains(caller) && decimal::parsed(owner_commitment@) is Some ==> (
        before.leaf_index_by_property@.contains_key(property_id) || before.next_leaf_index
            < u64::MAX),
        exists|s: &mut State|
            *s == before && *final(s) == after && #[trigger] call_ensures(
                submit_record_impl,
                (
                    s,
                    caller,
                    property_id,
                    owner_commitment,
                    encumbrance_flag,
                    license_status,
                    license_expiry,
                ),
                r,
            ),
    ensures
        r is Ok <==> before.admins@.contains(caller) && decimal::parsed(owner_commitment@) is Some,
        r is Err ==> after == before,
        !before.admins@.contains(caller) ==> r is Err && r->Err_0@
            == "unauthorized -- gate this behind real admin auth"@,
        before.admins@.contains(caller) && r is Err ==> r->Err_0@ == "could not parse '"@
            + owner_commitment@ + "' as a u128 decimal integer"@,
        r is Ok ==> {
            let record = Record {
                property_id,
                owner_commitment,
                encumbrance_flag,
                license_status,
                license_expiry,
            };
            let index = after.leaf_index_by_property@[property_id];
            &&& after.records@.contains_key(property_id)
            &&& after.records@[property_id] == record
            &&& after.leaf_index_by_property@.contains_key(property_id)
            &&& index == (if before.records@.contains_key(property_id) {
                before.leaf_index_by_property@[property_id]
            } else {
                before.next_leaf_index
            })
            &&& after.next_leaf_index == before.next_leaf_index + (if before.records@.contains_key(
                property_id,
            ) {
                0int
            } else {
                1int
            })
            &&& after.tree@ == before.tree@.insert(
                index as int,
                leaf_from(record, decimal::parsed(owner_commitment@)->0),
            )
            &&& decimal::parsed(r->Ok_0@) == Some(after.current_root)
            &&& r->Ok_0@ == decimal::numeral_of(after.current_root@)
            &&& after.current_root == tree::subtree(after.tree@, 25, index as int / 0x200_0000)
            &&& after.next_leaf_index <= 0x200_0000 ==> after.current_root == tree::subtree(
                after.tree@,
                25,
                0,
            )
        },
        r is Ok ==> {
            &&& forall|pid: u64|
                pid != property_id ==> (#[trigger] after.records@.contains_key(pid)
                    <==> before.records@.contains_key(pid)) && (before.records@.contains_key(pid)
                    ==> after.records@[pid] == before.records@[pid]
                    && after.leaf_index_by_property@[pid] == before.leaf_index_by_property@[pid]
                    && after.leaf_index_by_property@[pid]
                    != after.leaf_index_by_property@[property_id])
            &&& after == (State {
                records: after.records,
                leaf_index_by_property: after.leaf_index_by_property,
                next_leaf_index: after.next_leaf_index,
                tree: after.tree,
                current_root: after.current_root,
                ..before
            })
        },
        after.wf(),
{
    assert(before.records@.contains_key(property_id)
        <==> before.leaf_index_by_property@.contains_key(property_id));
    if r is Ok {
        decimal::law_text_round_trip(after.current_root);
        vstd::arithmetic::power2::lemma2_to64();
        assert(vstd::arithmetic::power2::pow2(25) == 0x200_0000);
        assert forall|pid: u64| pid != property_id && #[trigger] before.records@.contains_key(
            pid,
        ) implies after.leaf_index_by_property@[pid] == before.leaf_index_by_property@[pid]
            && after.leaf_index_by_property@[pid] != after.leaf_index_by_property@[property_id] by {
            assert(after.records@.contains_key(pid));
            assert(after.leaf_index_by_property@.contains_key(pid));
            assert(after.leaf_index_by_property@.contains_key(property_id));
        }
    }
}

/// What the registry is asked of a title is the record that it keeps.
pub proof fn law_records_are_read_back(s: &State, property_id: u64, r: Option<Record>)
    requires
        call_ensures(get_record_impl, (s, property_id), r),
    ensures
        r is Some <==> s.records@.contains_key(property_id),
        r is Some ==> r->0 == s.records@[property_id],
{
}

/// The path that the registry gives out for a title is that of its leaf, in numerals:
/// climbing it from the leaf of the title's record leads to the root that is given
/// out, which is the current one, as long as there are no more titles than leaves.
pub proof fn law_given_paths_lead_to_the_current_root(
    s: &State,
    property_id: u64,
    r: Option<MerkleProof>,
    siblings: Seq<BaseElement>,
    nodes: Seq<BaseElement>,
)
    requires
        s.wf(),
        call_ensures(get_merkle_proof_impl, (s, property_id), r),
    ensures
        r is Some <==> s.records@.contains_key(property_id),
        r is Some ==> {
            let path = r->0;
            let record = s.records@[property_id];
            &&& path.leaf_index == s.leaf_index_by_property@[property_id]
            &&& decimal::parsed(path.root@) == Some(s.current_root)
            &&& path.root@ == decimal::numeral_of(s.current_root@)
            &&& forall|l: int|
                0 <= l < 25 && #[trigger] path.path_bits@[l] ==> path.siblings@[l]@
                    == decimal::numeral_of(
                    tree::subtree(
                        s.tree@,
                        l as nat,
                        path.leaf_index as int / (vstd::arithmetic::power2::pow2(l as nat) as int)
                            - 1,
                    )@,
                )
            &&& forall|l: int|
                0 <= l < 25 && !(#[trigger] path.path_bits@[l]) ==> path.siblings@[l]@
                    == decimal::numeral_of(
                    tree::subtree(
                        s.tree@,
                        l as nat,
                        path.leaf_index as int / (vstd::arithmetic::power2::pow2(l as nat) as int)
                            + 1,
                    )@,
                )
            &&& path.siblings@.len() == 25
            &&& path.path_bits@.len() == 25
            &&& siblings.len() == 25 && (forall|l: int|
                0 <= l < 25 ==> Some(#[trigger] siblings[l]) == decimal::parsed(
                    path.siblings@[l]@,
                )) ==> tree_laws::names_the_path(
                s.tree@,
                path.leaf_index as int,
                siblings,
                path.path_bits@,
            )
            &&& s.next_leaf_index <= 0x200_0000 && siblings.len() == 25 && (forall|l: int|
                0 <= l < 25 ==> Some(#[trigger] siblings[l]) == decimal::parsed(
                    path.siblings@[l]@,
                )) && tree_laws::climbs(
                nodes,
                leaf_from(record, decimal::parsed(record.owner_commitment@)->0),
                siblings,
                path.path_bits@,
            ) ==> nodes[25] == s.current_root
        },
{
    assert(s.records@.contains_key(property_id) <==> s.leaf_index_by_property@.contains_key(
        property_id,
    ));
    if r is Some {
        let path = r->0;
        let record = s.records@[property_id];
        let index = path.leaf_index as int;
        decimal::law_text_round_trip(s.current_root);
        assert(s.leaf_index_by_property@.contains_key(property_id));
        if siblings.len() == 25 && (forall|l: int|
            0 <= l < 25 ==> Some(#[trigger] siblings[l]) == decimal::parsed(path.siblings@[l]@)) {
            assert forall|l: int| 0 <= l < 25 implies #[trigger] siblings[l] == tree::path_siblings(
                s.tree@,
                index,
            )[l] by {
                let node = tree::path_siblings(s.tree@, index)[l];
                lemma_nodes_wf(*s, l as nat, tree::beside(tree::ancestor(index, l as nat)));
                decimal::law_text_round_trip(node);
                assert(path.siblings@[l]@ == decimal::numeral_of(node@));
            }
            assert(siblings =~= tree::path_siblings(s.tree@, index));
            if s.next_leaf_index <= 0x200_0000 {
                crate::promises::law_paths_lead_to_the_current_root(*s, property_id);
                let leaf = leaf_from(record, decimal::parsed(record.owner_commitment@)->0);
                assert(registry::leaf_of(record) == Some(leaf));
                if tree_laws::climbs(nodes, leaf, siblings, path.path_bits@) {
                    tree_laws::law_climbing(nodes, leaf, siblings, path.path_bits@, 25);
                }
            }
        }
    }
}

/// The nodes of a registry's tree are elements.
proof fn lemma_nodes_wf(s: State, level: nat, index: int)
    requires
        s.wf(),
    ensures
        tree::subtree(s.tree@, level, index).wf(),
{
    if level == 0 {
        field::lemma_elem_view(0);
        if s.tree@.contains_key(index) {
            let pid = choose|pid: u64| #[trigger]
                s.leaf_index_by_property@.contains_key(pid) && s.leaf_index_by_property@[pid]
                    == index;
            assert(s.records@.contains_key(pid));
            let record = s.records@[pid];
            assert(registry::leaf_of(record) == Some(s.tree@[index]));
            permutation::lemma_hash_wf(
                seq![
                    field::elem(1),
                    field::elem(1),
                    decimal::parsed(record.owner_commitment@)->0,
                    field::elem(record.encumbrance_flag as int),
                    field::elem(record.license_status as int),
                    field::elem(record.license_expiry as int),
                ],
            );
        }
    } else {
        let m = (level - 1) as nat;
        permutation::lemma_hash_wf(
            seq![
                field::elem(4),
                tree::subtree(s.tree@, m, 2 * index),
                tree::subtree(s.tree@, m, 2 * index + 1),
            ],
        );
    }
}

/// The registry's nodes are those of its tree.
pub proof fn law_registry_nodes(s: &State, level: u8, index: u64, r: BaseElement)
    requires
        s.connected(),
        level <= 25,
        call_ensures(node_at, (s, level, index), r),
    ensures
        r == tree::subtree(s.tree@, level as nat, index as int),
{
}

/// Writing a leaf to the registry's tree writes this leaf and no other; the current root
/// is then the node 25 levels above it.
pub proof fn law_leaves_are_written(before: State, index: u64, leaf: BaseElement, after: State)
    requires
        before.connected(),
        exists|s: &mut State|
            *s == before && *final(s) == after && #[trigger] call_ensures(
                insert_leaf,
                (s, index, leaf),
                (),
            ),
    ensures
        after.connected(),
        after.tree@ == before.tree@.insert(index as int, leaf),
        after.current_root == tree::subtree(after.tree@, 25, index as int / 0x200_0000),
        after == (State { tree: after.tree, current_root: after.current_root, ..before }),
{
    vstd::arithmetic::power2::lemma2_to64();
    assert(vstd::arithmetic::power2::pow2(25) == 0x200_0000);
}

/// A fresh registry has no administrator, no title, no challenge and no spent
/// nullifier, and counts from zero.
pub proof fn law_fresh_registries_are_empty(s: State)
    requires
        call_ensures(fresh_state, (), s),
    ensures
        s.wf(),
        s.admins@.len() == 0,
        forall|pid: u64| !(#[trigger] s.records@.contains_key(pid)),
        forall|id: u64| !(#[trigger] s.challenges@.contains_key(id)),
        forall|t: Seq<char>| !(#[trigger] s.nullifiers@.contains_key(t)),
        forall|t: Seq<char>| !(#[trigger] s.last_challenge_call_at@.contains_key(t)),
        forall|t: Seq<char>| !(#[trigger] s.last_verify_call_at@.contains_key(t)),
        forall|i: int| !(#[trigger] s.tree@.contains_key(i)),
        s.current_root == tree::subtree(Map::empty(), 25, 0),
        s.next_leaf_index == 0,
        s.next_challenge_id == 0,
        s.next_nonce == 0,
        s.oldest_unpruned_challenge_id == 0,
{
    tree::lemma_empty_subtree(Map::empty(), 25, 0);
}

/// An administrator is whoever is among the administrators.
pub proof fn law_administrators_are_known(s: &State, p: &Principal, r: bool)
    requires
        call_ensures(is_admin, (s, p), r),
    ensures
        r <==> exists|i: int| 0 <= i < s.admins@.len() && #[trigger] s.admins@[i] == *p,
{
}

/// The first administrator is made exactly while there is none, and is then the only
/// one.
pub proof fn law_first_administrator(
    before: State,
    admin: Principal,
    r: Result<(), String>,
    after: State,
)
    requires
        exists|s: &mut State|
            *s == before && *final(s) == after && #[trigger] call_ensures(
                bootstrap_admin_impl,
                (s, admin),
                r,
            ),
    ensures
        r is Ok <==> before.admins@.len() == 0,
        r is Ok ==> after.admins@ == seq![admin],
        r is Err ==> after == before && r->Err_0@
            == "admins already bootstrapped -- use add_admin instead"@,
        after == (State { admins: after.admins, ..before }),
        before.wf() ==> after.wf(),
{
}

/// Administrators, and they alone, add administrators: who was one stays one, who is
/// added is one, and nobody else becomes one.
pub proof fn law_adding_administrators(
    before: State,
    caller: Principal,
    new: Principal,
    r: Result<(), String>,
    after: State,
)
    requires
        exists|s: &mut State|
            *s == before && *final(s) == after && #[trigger] call_ensures(
                add_admin_impl,
                (s, caller, new),
                r,
            ),
    ensures
        r is Ok <==> before.admins@.contains(caller),
        r is Ok ==> forall|a: Principal| #[trigger]
            after.admins@.contains(a) <==> before.admins@.contains(a) || a == new,
        r is Ok ==> after.admins@.len() <= before.admins@.len() + 1,
        r is Err ==> after == before && r->Err_0@ == "unauthorized"@,
        after == (State { admins: after.admins, ..before }),
        before.wf() ==> after.wf(),
{
    if r is Ok {
        let (old_admins, new_admins) = (before.admins@, after.admins@);
        assert forall|a: Principal| #[trigger] new_admins.contains(a) <==> old_admins.contains(a) || a
            == new by {
            if !old_admins.contains(new) {
                assert(new_admins == old_admins.push(new));
                assert(new_admins[old_admins.len() as int] == new);
                if old_admins.contains(a) {
                    let i = choose|i: int| 0 <= i < old_admins.len() && old_admins[i] == a;
                    assert(new_admins[i] == a);
                }
                if new_admins.contains(a) {
                    let i = choose|i: int| 0 <= i < new_admins.len() && new_admins[i] == a;
                    if i < old_admins.len() {
                        assert(old_admins[i] == a);
                    }
                }
            }
        }
    }
}

/// Administrators, and they alone, remove administrators, but never the last one: who
/// is removed is none any more, everybody else stays one, and somebody is left.
pub proof fn law_removing_administrators(
    before: State,
    caller: Principal,
    gone: Principal,
    r: Result<(), String>,
    after: State,
)
    requires
        before.wf(),
        exists|s: &mut State|
            *s == before && *final(s) == after && #[trigger] call_ensures(
                remove_admin_impl,
                (s, caller, gone),
                r,
            ),
    ensures
        r is Ok <==> before.admins@.contains(caller) && before.admins@.len() > 1,
        r is Ok ==> forall|a: Principal| #[trigger]
            after.admins@.contains(a) <==> before.admins@.contains(a) && a != gone,
        r is Ok ==> after.admins@.len() > 0,
        r is Err ==> after == before,
        !before.admins@.contains(caller) ==> r is Err && r->Err_0@ == "unauthorized"@,
        before.admins@.contains(caller) && r is Err ==> r->Err_0@
            == "cannot remove the last remaining admin"@,
        after == (State { admins: after.admins, ..before }),
        after.wf(),
{
    if r is Ok {
        registry::lemma_filter_keeps_distinct(before.admins@, |a: Principal| a != gone);
        crate::promises::law_an_administrator_remains(before.admins@, gone);
    }
}

/// The sign of life is always the same.
pub proof fn law_sign_of_life(r: String)
    requires
        call_ensures(health, (), r),
    ensures
        r@ == "title_verifier canister is running"@,
{
}

/// Every operation on titles and administrators may be called on every registry that is in
/// order, as long as there is a number left for the leaf of a new title.
pub proof fn law_title_operations_may_be_called(
    before: State,
    caller: Principal,
    other: Principal,
    property_id: u64,
    owner_commitment: String,
    encumbrance_flag: u64,
    license_status: u64,
    license_expiry: u64,
    record: &Record,
)
    requires
        before.wf(),
        before.admins@.contains(caller) && decimal::parsed(owner_commitment@) is Some ==> (
        before.records@.contains_key(property_id) || before.next_leaf_index < u64::MAX),
    ensures
        forall|s: &mut State|
            *s == before ==> #[trigger] call_requires(
                submit_record_impl,
                (
                    s,
                    caller,
                    property_id,
                    owner_commitment,
                    encumbrance_flag,
                    license_status,
                    license_expiry,
                ),
            ),
        forall|s: &mut State| #[trigger] call_requires(bootstrap_admin_impl, (s, other)),
        forall|s: &mut State| #[trigger] call_requires(add_admin_impl, (s, caller, other)),
        forall|s: &mut State| #[trigger] call_requires(remove_admin_impl, (s, caller, other)),
        call_requires(leaf_hash, (record,)),
        call_requires(get_record_impl, (&before, property_id)),
        call_requires(get_merkle_proof_impl, (&before, property_id)),
        call_requires(fresh_state, ()),
{
    assert(before.records@.contains_key(property_id)
        <==> before.leaf_index_by_property@.contains_key(property_id));
}

} // verus!
