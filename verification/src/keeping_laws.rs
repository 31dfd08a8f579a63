//! Who calls, and the tables that are kept of callers and nullifiers.

use vstd::prelude::*;
use vstd::std_specs::cmp::PartialEqSpec;

use crate::principal;
use crate::principal::Principal;
use crate::table::{Table, TextKey};

verus! {

/// An identity is its bytes.
pub proof fn law_identities_are_their_bytes(slice: &[u8], p: Principal, bytes: Vec<u8>)
    requires
        slice@.len() <= 29,
        call_ensures(Principal::from_slice, (slice,), p),
        call_ensures(Principal::to_bytes, (&p,), bytes),
    ensures
        bytes@ == slice@,
        p@ == slice@,
        p.wf(),
{
}

/// Identities are equal exactly if their bytes are, and only then have one text.
pub proof fn law_identities_are_told_apart(a: Principal, b: Principal, s: String, t: String)
    requires
        a.wf(),
        b.wf(),
        call_ensures(<Principal as TextKey>::text, (&a,), s),
        call_ensures(<Principal as TextKey>::text, (&b,), t),
    ensures
        a.eq_spec(&b) <==> a@ == b@,
        a == b <==> a@ == b@,
        s@ == t@ <==> a@ == b@,
        s@ == a.text_of(),
{
    if a@ == b@ {
        principal::lemma_principal_bytes(a, b);
    }
    if s@ == t@ {
        principal::lemma_text_tells_apart(a, b);
    }
}

/// Whoever does not say who they are has the one byte 4.
pub proof fn law_nobody(p: Principal)
    requires
        call_ensures(Principal::anonymous, (), p),
    ensures
        p@ == seq![4u8],
        p.wf(),
{
}

/// A new table has no entry.
pub proof fn law_new_tables_are_empty<K: TextKey, V: Copy>(t: Table<K, V>, k: &K, r: Option<V>)
    requires
        call_ensures(Table::<K, V>::new, (), t),
        call_ensures(Table::<K, V>::get, (&t, k), r),
    ensures
        r is None,
        t.wf(),
{
}

/// Setting the value of a key sets this value and no other.
pub proof fn law_tables_keep_what_is_set<K: TextKey, V: Copy>(
    before: Table<K, V>,
    k: K,
    v: V,
    after: Table<K, V>,
    other: &K,
    was: Option<V>,
    is: Option<V>,
)
    requires
        before.wf(),
        exists|t: &mut Table<K, V>|
            *t == before && *final(t) == after && #[trigger] call_ensures(
                Table::<K, V>::insert,
                (t, k, v),
                (),
            ),
        call_ensures(Table::<K, V>::get, (&before, other), was),
        call_ensures(Table::<K, V>::get, (&after, other), is),
    ensures
        after.wf(),
        is == (if other.text_of() == k.text_of() {
            Some(v)
        } else {
            was
        }),
{
}

/// A table is found in by the text of a key.
pub proof fn law_tables_find_by_text<K: TextKey, V: Copy>(
    t: &Table<K, V>,
    k: &K,
    text: &str,
    found: Option<V>,
    got: Option<V>,
)
    requires
        t.wf(),
        k.text_of() == text@,
        call_ensures(Table::<K, V>::find, (t, text), found),
        call_ensures(Table::<K, V>::get, (t, k), got),
    ensures
        found == got,
        found is Some <==> t@.contains_key(text@),
        found is Some ==> found->0 == t@[text@],
{
}

/// The entries of a table are all that it holds, each once.
pub proof fn law_entries<K: TextKey, V: Copy>(t: &Table<K, V>, entries: &Vec<(K, V)>, k: &K, got: Option<V>)
    requires
        t.wf(),
        call_ensures(Table::<K, V>::entries, (t,), entries),
        call_ensures(Table::<K, V>::get, (t, k), got),
    ensures
        got is Some <==> exists|i: int|
            0 <= i < entries@.len() && (#[trigger] entries@[i]).0.text_of() == k.text_of()
                && Some(entries@[i].1) == got,
        forall|i: int, j: int|
            0 <= i < j < entries@.len() ==> (#[trigger] entries@[i]).0.text_of() != (
            #[trigger] entries@[j]).0.text_of(),
{
}

/// Every byte string of at most 29 bytes is an identity.
pub proof fn law_short_byte_strings_are_identities(slice: &[u8])
    requires
        slice@.len() <= 29,
    ensures
        call_requires(Principal::from_slice, (slice,)),
{
}

/// A text is its own text.
pub proof fn law_texts_are_their_own(s: String, t: String)
    requires
        call_ensures(<String as TextKey>::text, (&s,), t),
    ensures
        t@ == s@,
        s.text_of() == s@,
{
}

} // verus!
