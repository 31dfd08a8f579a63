//! Arithmetic of the base field, as far as proofs about constraints need it.

use vstd::arithmetic::div_mod::*;
use vstd::arithmetic::mul::*;
use vstd::prelude::*;

use crate::field;
use crate::field::{BaseElement, FieldElement};

verus! {

/// Zero is neutral for sums and differences, one for products, and zero absorbs.
pub proof fn lemma_neutral(a: BaseElement)
    requires
        a.wf(),
    ensures
        a.spec_plus(field::elem(0)) == a,
        field::elem(0).spec_plus(a) == a,
        a.spec_minus(field::elem(0)) == a,
        a.spec_minus(a) == field::elem(0),
        a.spec_times(field::elem(1)) == a,
        field::elem(1).spec_times(a) == a,
        a.spec_times(field::elem(0)) == field::elem(0),
        field::elem(0).spec_times(a) == field::elem(0),
{
    broadcast use field::group_elem;

    lemma_mul_basics(a@);
    assert(field::elem(0)@ == 0);
    assert(field::elem(1)@ == 1);
    assert(a@ + 0 == a@);
}

/// A difference is zero exactly where its terms are equal.
pub proof fn lemma_difference_vanishes(a: BaseElement, b: BaseElement)
    requires
        a.wf(),
        b.wf(),
    ensures
        a.spec_minus(b) == field::elem(0) <==> a == b,
{
    lemma_neutral(b);
    if a.spec_minus(b) == field::elem(0) {
        field::lemma_elem_view(a@ - b@);
        field::lemma_elem_view(0);
        lemma_small_mod(0, field::p() as nat);
        if a@ >= b@ {
            lemma_small_mod((a@ - b@) as nat, field::p() as nat);
        } else {
            lemma_small_mod((b@ - a@) as nat, field::p() as nat);
            lemma_mod_add_multiples_vanish(a@ - b@, field::p());
            lemma_small_mod((a@ - b@ + field::p()) as nat, field::p() as nat);
        }
        field::lemma_view_injective(a, b);
    }
}

/// Sums, differences and products of reduced integers are reduced sums,
/// differences and products.
pub proof fn lemma_reduction(m: int, n: int)
    ensures
        field::elem(m).spec_plus(field::elem(n)) == field::elem(m + n),
        field::elem(m).spec_minus(field::elem(n)) == field::elem(m - n),
        field::elem(m).spec_times(field::elem(n)) == field::elem(m * n),
{
    field::lemma_elem_view(m);
    field::lemma_elem_view(n);
    lemma_add_mod_noop(m, n, field::p());
    lemma_sub_mod_noop(m, n, field::p());
    lemma_mul_mod_noop(m, n, field::p());
    field::lemma_elem_eq(field::elem(m)@ + field::elem(n)@, m + n);
    field::lemma_elem_eq(field::elem(m)@ - field::elem(n)@, m - n);
    field::lemma_elem_eq(field::elem(m)@ * field::elem(n)@, m * n);
}

/// Distinct integers below the modulus are distinct elements.
pub proof fn lemma_small_distinct(m: int, n: int)
    requires
        0 <= m < field::p(),
        0 <= n < field::p(),
        m != n,
    ensures
        field::elem(m) != field::elem(n),
{
    field::lemma_elem_view(m);
    field::lemma_elem_view(n);
    lemma_small_mod(m as nat, field::p() as nat);
    lemma_small_mod(n as nat, field::p() as nat);
}

} // verus!
