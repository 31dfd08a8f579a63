//! The prime field of the statement: integers modulo
//! `p = 2^128 - 45 * 2^40 + 1`.
//!
//! [`BaseElement`] holds the canonical representative of a residue class, and
//! its view is that representative as an integer. [`FieldElement`] is
//! what the transition constraints need of a field, so that one constraint
//! formula serves the base field and any field that extends it.

use vstd::arithmetic::div_mod::*;
use vstd::arithmetic::mul::*;
use vstd::arithmetic::power::*;
use vstd::prelude::*;

verus! {

/// The field's modulus, `2^128 - 45 * 2^40 + 1`.
pub const MODULUS: u128 = 340282366920938463463374557953744961537;

/// The modulus as an integer.
pub open spec fn p() -> int {
    MODULUS as int
}

/// An element of the field, held by its canonical representative.
#[derive(Clone, Copy, Debug, PartialEq, Eq, Structural)]
pub struct BaseElement {
    value: u128,
}

impl View for BaseElement {
    type V = int;

    closed spec fn view(&self) -> int {
        self.value as int
    }
}

/// The field element that the integer `n` reduces to.
pub closed spec fn elem(n: int) -> BaseElement {
    BaseElement { value: (n % p()) as u128 }
}

/// Reducing an integer gives its remainder, which is canonical.
pub broadcast proof fn lemma_elem_view(n: int)
    ensures
        #[trigger] elem(n)@ == n % p(),
        elem(n).wf(),
{
    lemma_mod_bound(n, p());
}

/// An element is the reduction of its own representative.
pub broadcast proof fn lemma_elem_of_view(e: BaseElement)
    requires
        e.wf(),
    ensures
        #[trigger] elem(e@) == e,
{
    lemma_small_mod(e@ as nat, p() as nat);
}

/// Elements with one representative are one element.
pub proof fn lemma_view_injective(a: BaseElement, b: BaseElement)
    requires
        a@ == b@,
    ensures
        a == b,
{
}

/// Integers that agree modulo `p` reduce to one element.
pub proof fn lemma_elem_eq(m: int, n: int)
    requires
        m % p() == n % p(),
    ensures
        elem(m) == elem(n),
{
}

pub broadcast group group_elem {
    lemma_elem_view,
    lemma_elem_of_view,
}

/// The sum of two residues, as one residue.
fn add_mod(a: u128, b: u128) -> (r: u128)
    requires
        a < MODULUS,
        b < MODULUS,
    ensures
        r == (a + b) % p(),
{
    let room: u128 = MODULUS - b;
    if a >= room {
        proof {
            lemma_small_mod((a - room) as nat, p() as nat);
            lemma_mod_sub_multiples_vanish(a + b, p());
        }
        a - room
    } else {
        proof {
            lemma_small_mod((a + b) as nat, p() as nat);
        }
        a + b
    }
}

/// One step of doubling and adding: moving the lowest bit of `bb` into the
/// accumulator keeps `acc + aa * bb` in its residue class.
proof fn lemma_double_and_add(acc: int, aa: int, bb: int, acc2: int, aa2: int)
    requires
        acc2 == (if bb % 2 == 1 {
            (acc + aa) % p()
        } else {
            acc
        }),
        aa2 == (aa + aa) % p(),
    ensures
        (acc2 + aa2 * (bb / 2)) % p() == (acc + aa * bb) % p(),
{
    let h = bb / 2;
    let bit = bb % 2;
    let acc1 = if bit == 1 {
        acc + aa
    } else {
        acc
    };
    assert(acc1 + (aa + aa) * h == acc + aa * bb) by (nonlinear_arith)
        requires
            acc1 == (if bit == 1 {
                acc + aa
            } else {
                acc
            }),
            bb == 2 * h + bit,
            bit == 0 || bit == 1,
    ;
    lemma_mul_mod_noop_left(aa + aa, h, p());
    lemma_add_mod_noop(acc2, aa2 * h, p());
    lemma_add_mod_noop(acc1, (aa + aa) * h, p());
    lemma_mod_twice(acc1, p());
}

/// The product of two residues, as one residue: doubles and adds.
fn mul_mod(a: u128, b: u128) -> (r: u128)
    requires
        a < MODULUS,
    ensures
        r == (a * b) % p(),
{
    let mut acc: u128 = 0;
    let mut aa: u128 = a;
    let mut bb: u128 = b;
    while bb > 0
        invariant
            acc < MODULUS,
            aa < MODULUS,
            (acc + aa * bb) % p() == (a * b) % p(),
        decreases bb,
    {
        let ghost (acc0, aa0, bb0) = (acc, aa, bb);
        if bb % 2 == 1 {
            acc = add_mod(acc, aa);
        }
        aa = add_mod(aa, aa);
        bb = bb / 2;
        proof {
            lemma_double_and_add(acc0 as int, aa0 as int, bb0 as int, acc as int, aa as int);
        }
    }
    proof {
        lemma_small_mod(acc as nat, p() as nat);
    }
    acc
}

/// One step of squaring and multiplying: moving the lowest bit of the exponent
/// into the accumulator keeps `acc * base^e` in its residue class.
proof fn lemma_square_and_multiply(acc: int, base: int, e: nat, acc2: int, base2: int)
    requires
        acc2 == (if e % 2 == 1 {
            (acc * base) % p()
        } else {
            acc
        }),
        base2 == (base * base) % p(),
    ensures
        (acc2 * pow(base2, e / 2)) % p() == (acc * pow(base, e)) % p(),
{
    let h = e / 2;
    let q = pow(base * base, h);
    lemma_pow_mod_noop(base * base, h, p());
    lemma_mul_mod_noop_right(acc2, pow(base2, h), p());
    lemma_mul_mod_noop_right(acc2, q, p());
    assert((acc2 * pow(base2, h)) % p() == (acc2 * q) % p());
    lemma_pow_distributes(base, base, h);
    lemma_pow_adds(base, h, h);
    assert(q == pow(base, h + h));
    if e % 2 == 1 {
        lemma_pow_adds(base, h + h, 1);
        lemma_pow1(base);
        assert(h + h + 1 == e);
        assert((acc * base) * q == acc * (q * base)) by (nonlinear_arith);
        lemma_mul_mod_noop_left(acc * base, q, p());
    } else {
        assert(h + h == e);
    }
}

impl BaseElement {
    /// The representative is below the modulus; every element at run time is so.
    #[verifier::type_invariant]
    pub open spec fn wf(self) -> bool {
        0 <= self@ < p()
    }

    /// Reduces an integer to the field.
    pub fn new(v: u128) -> (r: BaseElement)
        ensures
            r == elem(v as int),
            r.wf(),
    {
        proof {
            lemma_elem_view(v as int);
        }
        BaseElement { value: v % MODULUS }
    }

    /// The canonical representative.
    pub fn as_int(&self) -> (r: u128)
        ensures
            r == self@,
            self.wf(),
    {
        proof {
            use_type_invariant(self);
        }
        self.value
    }

    fn pow(self, e: u128) -> (r: BaseElement)
        ensures
            r == elem(pow(self@, e as nat)),
    {
        proof {
            use_type_invariant(&self);
        }
        let mut acc: u128 = 1;
        let mut base: u128 = self.value;
        let mut rest: u128 = e;
        while rest > 0
            invariant
                acc < MODULUS,
                base < MODULUS,
                (acc * pow(base as int, rest as nat)) % p() == pow(self@, e as nat) % p(),
            decreases rest,
        {
            let ghost (acc0, base0, rest0) = (acc, base, rest);
            if rest % 2 == 1 {
                acc = mul_mod(acc, base);
            }
            base = mul_mod(base, base);
            rest = rest / 2;
            proof {
                lemma_square_and_multiply(
                    acc0 as int,
                    base0 as int,
                    rest0 as nat,
                    acc as int,
                    base as int,
                );
            }
        }
        proof {
            lemma_pow0(base as int);
            lemma_small_mod(acc as nat, p() as nat);
        }
        BaseElement { value: acc }
    }

    /// Raises the element to a power.
    pub fn exp(self, power: u32) -> (r: BaseElement)
        ensures
            r == elem(pow(self@, power as nat)),
    {
        self.pow(power as u128)
    }

    /// The power `p - 2`, which inverts every element but zero and leaves zero alone.
    fn inv(self) -> (r: BaseElement)
        ensures
            r == inverse(self),
            self != elem(0) ==> elem(self@ * r@) == elem(1),
            self == elem(0) ==> r == elem(0),
    {
        proof {
            use_type_invariant(&self);
            crate::fermat::law_inverses(self);
        }
        self.pow(MODULUS - 2)
    }
}

impl core::ops::Add for BaseElement {
    type Output = BaseElement;

    fn add(self, rhs: BaseElement) -> (r: BaseElement) {
        proof {
            use_type_invariant(&self);
            use_type_invariant(&rhs);
        }
        BaseElement { value: add_mod(self.value, rhs.value) }
    }
}

impl vstd::std_specs::ops::AddSpecImpl for BaseElement {
    open spec fn obeys_add_spec() -> bool {
        true
    }

    open spec fn add_req(self, rhs: BaseElement) -> bool {
        true
    }

    open spec fn add_spec(self, rhs: BaseElement) -> BaseElement {
        elem(self@ + rhs@)
    }
}

impl core::ops::Sub for BaseElement {
    type Output = BaseElement;

    fn sub(self, rhs: BaseElement) -> (r: BaseElement) {
        proof {
            use_type_invariant(&self);
            use_type_invariant(&rhs);
        }
        if self.value >= rhs.value {
            proof {
                lemma_small_mod((self.value - rhs.value) as nat, p() as nat);
            }
            BaseElement { value: self.value - rhs.value }
        } else {
            proof {
                lemma_small_mod((self.value - rhs.value + p()) as nat, p() as nat);
                lemma_mod_add_multiples_vanish(self.value - rhs.value, p());
            }
            BaseElement { value: MODULUS - (rhs.value - self.value) }
        }
    }
}

impl vstd::std_specs::ops::SubSpecImpl for BaseElement {
    open spec fn obeys_sub_spec() -> bool {
        true
    }

    open spec fn sub_req(self, rhs: BaseElement) -> bool {
        true
    }

    open spec fn sub_spec(self, rhs: BaseElement) -> BaseElement {
        elem(self@ - rhs@)
    }
}

impl core::ops::Mul for BaseElement {
    type Output = BaseElement;

    fn mul(self, rhs: BaseElement) -> (r: BaseElement) {
        proof {
            use_type_invariant(&self);
            lemma_mod_bound(self.value * rhs.value, p());
        }
        BaseElement { value: mul_mod(self.value, rhs.value) }
    }
}

impl vstd::std_specs::ops::MulSpecImpl for BaseElement {
    open spec fn obeys_mul_spec() -> bool {
        true
    }

    open spec fn mul_req(self, rhs: BaseElement) -> bool {
        true
    }

    open spec fn mul_spec(self, rhs: BaseElement) -> BaseElement {
        elem(self@ * rhs@)
    }
}

/// What inversion computes: the power `p - 2`. It is the inverse of every element
/// but zero, for which it is zero.
pub open spec fn inverse(b: BaseElement) -> BaseElement {
    elem(pow(b@, (p() - 2) as nat))
}

/// What division computes: the product with the inverse of the divisor. A quotient
/// by zero is zero.
pub open spec fn quotient(a: BaseElement, b: BaseElement) -> BaseElement {
    elem(a@ * inverse(b)@)
}

impl core::ops::Div for BaseElement {
    type Output = BaseElement;

    fn div(self, rhs: BaseElement) -> (r: BaseElement) {
        self * rhs.inv()
    }
}

impl vstd::std_specs::ops::DivSpecImpl for BaseElement {
    open spec fn obeys_div_spec() -> bool {
        true
    }

    open spec fn div_req(self, rhs: BaseElement) -> bool {
        true
    }

    open spec fn div_spec(self, rhs: BaseElement) -> BaseElement {
        quotient(self, rhs)
    }
}

impl core::ops::Neg for BaseElement {
    type Output = BaseElement;

    fn neg(self) -> (r: BaseElement) {
        BaseElement::new(0) - self
    }
}

impl vstd::std_specs::ops::NegSpecImpl for BaseElement {
    open spec fn obeys_neg_spec() -> bool {
        true
    }

    open spec fn neg_req(self) -> bool {
        true
    }

    open spec fn neg_spec(self) -> BaseElement {
        elem(-self@)
    }
}

impl core::ops::AddAssign for BaseElement {
    fn add_assign(&mut self, rhs: BaseElement)
        ensures
            *final(self) == elem(old(self)@ + rhs@),
    {
        *self = *self + rhs;
    }
}

impl core::ops::SubAssign for BaseElement {
    fn sub_assign(&mut self, rhs: BaseElement)
        ensures
            *final(self) == elem(old(self)@ - rhs@),
    {
        *self = *self - rhs;
    }
}

impl core::ops::MulAssign for BaseElement {
    fn mul_assign(&mut self, rhs: BaseElement)
        ensures
            *final(self) == elem(old(self)@ * rhs@),
    {
        *self = *self * rhs;
    }
}

impl core::ops::DivAssign for BaseElement {
    fn div_assign(&mut self, rhs: BaseElement)
        ensures
            *final(self) == quotient(*old(self), rhs),
    {
        *self = *self / rhs;
    }
}

impl From<u32> for BaseElement {
    fn from(v: u32) -> (r: BaseElement) {
        BaseElement::new(v as u128)
    }
}

impl vstd::std_specs::convert::FromSpecImpl<u32> for BaseElement {
    open spec fn obeys_from_spec() -> bool {
        true
    }

    open spec fn from_spec(v: u32) -> BaseElement {
        elem(v as int)
    }
}

/// What the permutation and the transition constraints need of a field: its
/// constants, sums, differences, products and powers, and the embedding of the
/// base field.
///
/// Each operation is described by a function of the field that implements this,
/// so a constraint over any such field is described by one formula.
pub trait FieldElement: Copy {
    /// Zero.
    spec fn spec_zero() -> Self;

    /// One.
    spec fn spec_one() -> Self;

    /// The image of a base field element.
    spec fn spec_from_base(b: BaseElement) -> Self;

    /// The sum.
    spec fn spec_plus(self, rhs: Self) -> Self;

    /// The difference.
    spec fn spec_minus(self, rhs: Self) -> Self;

    /// The product.
    spec fn spec_times(self, rhs: Self) -> Self;

    /// The power.
    spec fn spec_exp(self, power: u32) -> Self;

    /// Zero.
    fn zero() -> (r: Self)
        ensures
            r == Self::spec_zero(),
    ;

    /// One.
    fn one() -> (r: Self)
        ensures
            r == Self::spec_one(),
    ;

    /// Embeds a base field element.
    fn from_base(b: BaseElement) -> (r: Self)
        ensures
            r == Self::spec_from_base(b),
    ;

    /// Adds.
    fn plus(self, rhs: Self) -> (r: Self)
        ensures
            r == self.spec_plus(rhs),
    ;

    /// Subtracts.
    fn minus(self, rhs: Self) -> (r: Self)
        ensures
            r == self.spec_minus(rhs),
    ;

    /// Multiplies.
    fn times(self, rhs: Self) -> (r: Self)
        ensures
            r == self.spec_times(rhs),
    ;

    /// Raises to a power.
    fn exp(self, power: u32) -> (r: Self)
        ensures
            r == self.spec_exp(power),
    ;
}

impl FieldElement for BaseElement {
    open spec fn spec_zero() -> BaseElement {
        elem(0)
    }

    open spec fn spec_one() -> BaseElement {
        elem(1)
    }

    open spec fn spec_from_base(b: BaseElement) -> BaseElement {
        b
    }

    open spec fn spec_plus(self, rhs: BaseElement) -> BaseElement {
        elem(self@ + rhs@)
    }

    open spec fn spec_minus(self, rhs: BaseElement) -> BaseElement {
        elem(self@ - rhs@)
    }

    open spec fn spec_times(self, rhs: BaseElement) -> BaseElement {
        elem(self@ * rhs@)
    }

    open spec fn spec_exp(self, power: u32) -> BaseElement {
        elem(pow(self@, power as nat))
    }

    fn zero() -> (r: BaseElement) {
        BaseElement::new(0)
    }

    fn one() -> (r: BaseElement) {
        BaseElement::new(1)
    }

    fn from_base(b: BaseElement) -> (r: BaseElement) {
        b
    }

    fn plus(self, rhs: BaseElement) -> (r: BaseElement) {
        self + rhs
    }

    fn minus(self, rhs: BaseElement) -> (r: BaseElement) {
        self - rhs
    }

    fn times(self, rhs: BaseElement) -> (r: BaseElement) {
        self * rhs
    }

    fn exp(self, power: u32) -> (r: BaseElement) {
        BaseElement::exp(self, power)
    }
}

} // verus!
