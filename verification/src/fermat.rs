//! Fermat's little theorem, and what it means for division in the field.

use vstd::arithmetic::div_mod::*;
use vstd::arithmetic::mul::*;
use vstd::arithmetic::power::*;
use vstd::prelude::*;
use vstd::set_lib::*;

use crate::algebra;
use crate::certificate;
use crate::field;
use crate::field::{BaseElement, FieldElement};
use crate::primality;

verus! {

/// The product of the integers from 1 to `n` without those that a set lacks,
/// modulo `p`.
pub open spec fn product(s: Set<int>, n: nat, p: int) -> int
    decreases n,
{
    if n == 0 {
        1int % p
    } else {
        let below = product(s, (n - 1) as nat, p);
        if s.contains(n as int) {
            (below * n) % p
        } else {
            below
        }
    }
}

/// The factorial of `m` modulo `p`.
pub open spec fn factorial(m: nat, p: int) -> int
    decreases m,
{
    if m == 0 {
        1int % p
    } else {
        (factorial((m - 1) as nat, p) * m) % p
    }
}

/// The first `m` multiples of `a` modulo `p`.
pub open spec fn multiples(a: int, m: nat, p: int) -> Set<int>
    decreases m,
{
    if m == 0 {
        Set::empty()
    } else {
        multiples(a, (m - 1) as nat, p).insert((a * m) % p)
    }
}

/// A number that joins a set joins its product.
proof fn lemma_product_insert(s: Set<int>, x: int, n: nat, p: int)
    requires
        p > 1,
        0 < x,
        !s.contains(x),
    ensures
        product(s.insert(x), n, p) == (if x <= n {
            (product(s, n, p) * x) % p
        } else {
            product(s, n, p)
        }),
    decreases n,
{
    if n > 0 {
        let m = (n - 1) as nat;
        lemma_product_insert(s, x, m, p);
        let below = product(s, m, p);
        if x < n && s.contains(n as int) {
            lemma_mul_mod_noop_left(below * x, n as int, p);
            lemma_mul_mod_noop_left(below * n, x, p);
            assert((below * x) * n == (below * n) * x) by (nonlinear_arith);
        }
    }
}

/// Multiples of a number that the prime does not divide are distinct and not zero.
proof fn lemma_multiples_distinct(a: int, m: nat, p: int, x: int)
    requires
        primality::is_prime(p),
        a % p != 0,
        m < p,
        m < x < p,
    ensures
        0 < (a * x) % p < p,
        !multiples(a, m, p).contains((a * x) % p),
    decreases m,
{
    lemma_mod_bound(a * x, p);
    if (a * x) % p == 0 {
        primality::lemma_euclid(p, a, x);
        lemma_small_mod(x as nat, p as nat);
        assert(false);
    }
    if m > 0 {
        lemma_multiples_distinct(a, (m - 1) as nat, p, x);
        if (a * x) % p == (a * m) % p {
            lemma_sub_mod_noop(a * x, a * m, p);
            assert(((a * x) % p - (a * m) % p) == 0);
            lemma_small_mod(0, p as nat);
            assert(a * x - a * m == a * (x - m)) by (nonlinear_arith);
            primality::lemma_euclid(p, a, x - m);
            lemma_small_mod((x - m) as nat, p as nat);
            assert(false);
        }
    }
}

/// The product of the first `m` multiples of `a` is the `m`-th power of `a` times
/// the factorial of `m`; there are `m` of them, all between zero and the prime.
proof fn lemma_multiples(a: int, m: nat, p: int)
    requires
        primality::is_prime(p),
        a % p != 0,
        m < p,
    ensures
        product(multiples(a, m, p), (p - 1) as nat, p) == (pow(a, m) * factorial(m, p)) % p,
        multiples(a, m, p).finite(),
        multiples(a, m, p).len() == m,
        multiples(a, m, p).subset_of(set_int_range(1, p)),
    decreases m,
{
    let top = (p - 1) as nat;
    if m == 0 {
        lemma_pow0(a);
        lemma_empty_product(top, p);
        lemma_small_mod(1, p as nat);
        assert(pow(a, 0) * factorial(0, p) == 1);
    } else {
        let k = (m - 1) as nat;
        let x = (a * m) % p;
        lemma_multiples(a, k, p);
        lemma_multiples_distinct(a, k, p, m as int);
        let before = multiples(a, k, p);
        lemma_product_insert(before, x, top, p);
        let (q, f) = (pow(a, k), factorial(k, p));
        lemma_mul_mod_noop(q * f, a * m, p);
        lemma_mul_mod_noop(product(before, top, p), a * m, p);
        lemma_mod_twice(q * f, p);
        assert(product(before.insert(x), top, p) == ((q * f) * (a * m)) % p) by {
            lemma_mul_mod_noop_right(product(before, top, p), a * m, p);
        }
        lemma_pow_adds(a, k, 1);
        lemma_pow1(a);
        assert((q * f) * (a * m) == (q * a) * (f * m)) by (nonlinear_arith);
        lemma_mul_mod_noop_right(q * a, f * m, p);
    }
}

proof fn lemma_empty_product(n: nat, p: int)
    ensures
        product(Set::empty(), n, p) == 1int % p,
    decreases n,
{
    if n > 0 {
        lemma_empty_product((n - 1) as nat, p);
    }
}

/// The product of all numbers up to `n` is the factorial of `n`.
proof fn lemma_full_product(s: Set<int>, n: nat, p: int)
    requires
        forall|i: int| 1 <= i <= n ==> #[trigger] s.contains(i),
    ensures
        product(s, n, p) == factorial(n, p),
    decreases n,
{
    if n > 0 {
        lemma_full_product(s, (n - 1) as nat, p);
        assert(s.contains(n as int));
    }
}

/// A prime does not divide the factorial of a smaller number.
proof fn lemma_factorial_not_zero(m: nat, p: int)
    requires
        primality::is_prime(p),
        m < p,
    ensures
        factorial(m, p) % p != 0,
        0 <= factorial(m, p) < p,
    decreases m,
{
    if m == 0 {
        lemma_small_mod(1, p as nat);
    } else {
        let f = factorial((m - 1) as nat, p);
        lemma_factorial_not_zero((m - 1) as nat, p);
        lemma_mod_bound(f * m, p);
        lemma_mod_twice(f * m, p);
        if (f * m) % p == 0 {
            primality::lemma_euclid(p, f, m as int);
            lemma_small_mod(m, p as nat);
        }
    }
}

/// Fermat's little theorem: to the power of a prime less one, a number that the
/// prime does not divide is one modulo the prime.
pub proof fn lemma_fermat(a: int, p: int)
    requires
        primality::is_prime(p),
        a % p != 0,
    ensures
        pow(a, (p - 1) as nat) % p == 1,
{
    let top = (p - 1) as nat;
    let all = multiples(a, top, p);
    let f = factorial(top, p);
    let q = pow(a, top);
    lemma_multiples(a, top, p);
    lemma_int_range(1, p);
    lemma_subset_equality(all, set_int_range(1, p));
    assert forall|i: int| 1 <= i <= top implies #[trigger] all.contains(i) by {
        assert(set_int_range(1, p).contains(i));
    }
    lemma_full_product(all, top, p);
    lemma_factorial_not_zero(top, p);
    assert((q * f) % p == f);
    lemma_small_mod(f as nat, p as nat);
    lemma_sub_mod_noop(q * f, f, p);
    lemma_small_mod(0, p as nat);
    assert((q - 1) * f == q * f - f) by (nonlinear_arith);
    primality::lemma_euclid(p, q - 1, f);
    lemma_add_mod_noop(q - 1, 1, p);
    lemma_small_mod(1, p as nat);
}

/// Every element but zero has an inverse, which gives one with it; the inverse of
/// zero is zero.
pub proof fn law_inverses(b: BaseElement)
    requires
        b.wf(),
    ensures
        b != field::elem(0) ==> b.spec_times(field::inverse(b)) == field::elem(1),
        b == field::elem(0) ==> field::inverse(b) == field::elem(0),
{
    broadcast use field::group_elem;

    let p = field::p();
    if b == field::elem(0) {
        assert(b@ == 0);
        lemma0_pow((p - 2) as nat);
    } else {
        let power = pow(b@, (p - 2) as nat);
        lemma_power_inverts(b);
        algebra::lemma_reduction(b@, power);
        assert(b@ * power == power * b@) by (nonlinear_arith);
        lemma_small_mod(1, p as nat);
        field::lemma_elem_eq(power * b@, 1);
    }
}

/// A quotient by zero is zero.
pub proof fn law_division_by_zero_gives_zero(a: BaseElement)
    requires
        a.wf(),
    ensures
        field::quotient(a, field::elem(0)) == field::elem(0),
{
    broadcast use field::group_elem;

    law_inverses(field::elem(0));
    assert(field::elem(0)@ == 0);
    assert(a@ * 0 == 0);
}

/// The power `p - 2` of an element that is not zero inverts it.
proof fn lemma_power_inverts(b: BaseElement)
    requires
        b.wf(),
        b != field::elem(0),
    ensures
        (pow(b@, (field::p() - 2) as nat) * b@) % field::p() == 1,
{
    broadcast use field::group_elem;

    let p = field::p();
    certificate::law_modulus_is_prime();
    lemma_small_mod(b@ as nat, p as nat);
    if b@ % p == 0 {
        assert(field::elem(0)@ == 0);
        field::lemma_view_injective(b, field::elem(0));
    }
    lemma_fermat(b@, p);
    lemma_pow_adds(b@, (p - 2) as nat, 1);
    lemma_pow1(b@);
    assert(((p - 2) as nat + 1) as nat == (p - 1) as nat);
}

/// Division undoes multiplication, and multiplication division.
pub proof fn law_division_undoes_multiplication(a: BaseElement, b: BaseElement)
    requires
        a.wf(),
        b.wf(),
        b != field::elem(0),
    ensures
        field::quotient(a, b).spec_times(b) == a,
        field::quotient(a.spec_times(b), b) == a,
{
    broadcast use field::group_elem;

    let p = field::p();
    let inverse = pow(b@, (p - 2) as nat);
    lemma_power_inverts(b);
    // a * (inverse * b) and (a * b) * inverse are both a.
    algebra::lemma_reduction(a@, inverse);
    algebra::lemma_reduction(a@ * inverse, b@);
    algebra::lemma_reduction(a@, b@);
    algebra::lemma_reduction(a@ * b@, inverse);
    assert((a@ * inverse) * b@ == a@ * (inverse * b@)) by (nonlinear_arith);
    assert((a@ * b@) * inverse == a@ * (inverse * b@)) by (nonlinear_arith);
    lemma_mul_mod_noop_right(a@, inverse * b@, p);
    assert(a@ * 1 == a@);
    field::lemma_elem_eq(a@ * (inverse * b@), a@);
}

} // verus!
