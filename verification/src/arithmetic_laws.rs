//! Arithmetic of the field, in numbers modulo `2^128 - 45 * 2^40 + 1`.

use vstd::arithmetic::div_mod::*;
use vstd::arithmetic::power::*;
use vstd::arithmetic::power2::*;
use vstd::prelude::*;
use vstd::std_specs::convert::FromSpec;
use vstd::std_specs::ops::{AddSpec, DivSpec, MulSpec, NegSpec, SubSpec};

use crate::fermat;
use crate::field;
use crate::field::{BaseElement, FieldElement};

verus! {

/// The modulus is `2^128 - 45 * 2^40 + 1`.
pub proof fn law_modulus()
    ensures
        field::p() == 340282366920938463463374557953744961537,
        field::p() == pow2(128) - 45 * pow2(40) + 1,
{
    lemma2_to64();
    lemma2_to64_rest();
    lemma_pow2_adds(64, 64);
    assert(0x1_0000_0000_0000_0000 * 0x1_0000_0000_0000_0000
        == 0x1_0000_0000_0000_0000_0000_0000_0000_0000) by (nonlinear_arith);
}

/// An element that is made of a number gives back the number's remainder.
pub proof fn law_numbers_are_reduced(v: u128, e: BaseElement, n: u128)
    requires
        call_ensures(BaseElement::new, (v,), e),
        call_ensures(BaseElement::as_int, (&e,), n),
    ensures
        n == v % 340282366920938463463374557953744961537,
        e@ == n,
        e.wf(),
{
    field::lemma_elem_view(v as int);
}

/// Whether an element stands for an integer.
pub open spec fn stands_for(e: BaseElement, n: int) -> bool {
    e@ == n % 340282366920938463463374557953744961537
}

/// The element of an integer stands for it.
pub proof fn law_elements_stand_for_integers(n: int)
    ensures
        stands_for(field::elem(n), n),
{
    field::lemma_elem_view(n);
}

/// Sums, differences, products and powers stand for those of the numbers.
pub proof fn law_operations(
    a: BaseElement,
    b: BaseElement,
    power: u32,
    zero: BaseElement,
    one: BaseElement,
    based: BaseElement,
    sum: BaseElement,
    difference: BaseElement,
    product: BaseElement,
    raised: BaseElement,
)
    requires
        call_ensures(<BaseElement as FieldElement>::zero, (), zero),
        call_ensures(<BaseElement as FieldElement>::one, (), one),
        call_ensures(<BaseElement as FieldElement>::from_base, (a,), based),
        call_ensures(<BaseElement as FieldElement>::plus, (a, b), sum),
        call_ensures(<BaseElement as FieldElement>::minus, (a, b), difference),
        call_ensures(<BaseElement as FieldElement>::times, (a, b), product),
        call_ensures(<BaseElement as FieldElement>::exp, (a, power), raised),
    ensures
        zero@ == 0,
        one@ == 1,
        based == a,
        stands_for(sum, a@ + b@),
        stands_for(difference, a@ - b@),
        stands_for(product, a@ * b@),
        stands_for(raised, pow(a@, power as nat)),
{
    broadcast use field::lemma_elem_view;

    lemma_small_mod(0, field::p() as nat);
    lemma_small_mod(1, field::p() as nat);
}

/// The operators compute what the operations do; a quotient times its divisor is the
/// dividend, and a quotient by zero is zero.
pub proof fn law_operators(a: BaseElement, b: BaseElement, n: u32, raised: BaseElement)
    requires
        a.wf(),
        b.wf(),
        call_ensures(BaseElement::exp, (a, n), raised),
    ensures
        stands_for(a.add_spec(b), a@ + b@),
        stands_for(a.sub_spec(b), a@ - b@),
        stands_for(a.mul_spec(b), a@ * b@),
        stands_for(a.neg_spec(), -a@),
        b@ != 0 ==> stands_for(a, a.div_spec(b)@ * b@),
        b@ == 0 ==> a.div_spec(b)@ == 0,
        stands_for(raised, pow(a@, n as nat)),
        <BaseElement as FromSpec<u32>>::from_spec(n)@ == n,
{
    broadcast use field::group_elem;

    let p = field::p();
    lemma_small_mod(n as nat, p as nat);
    lemma_small_mod(0, p as nat);
    lemma_small_mod(a@ as nat, p as nat);
    if b@ == 0 {
        field::lemma_view_injective(b, field::elem(0));
        fermat::law_division_by_zero_gives_zero(a);
    } else {
        fermat::law_division_undoes_multiplication(a, b);
    }
}

} // verus!
