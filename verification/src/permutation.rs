//! The permutation of the statement's hash and the hash itself.
//!
//! The state is 8 field elements. A round adds the round's constants, cubes
//! each lane and mixes the lanes with a circulant matrix. The hash pads its
//! inputs with zeros, applies 7 rounds and returns lane 0.

use vstd::arithmetic::div_mod::*;
use vstd::arithmetic::power::*;
use vstd::prelude::*;

use crate::algebra;
use crate::certificate;
use crate::fermat;
use crate::field;
use crate::field::{BaseElement, FieldElement};
use crate::layout::{ROUNDS, STATE_WIDTH};
use crate::primality;

verus! {

/// Seed of the generator behind the round constants.
pub const SEED: u64 = 0x5441_5145_454e_2d31;

/// One step of the 64-bit xorshift generator.
pub open spec fn xorshift(x: u64) -> u64 {
    let a = x ^ (x << 13u64);
    let b = a ^ (a >> 7u64);
    b ^ (b << 17u64)
}

/// One step of the 64-bit xorshift generator.
pub fn xorshift_step(x: u64) -> (r: u64)
    ensures
        r == xorshift(x),
{
    let a: u64 = x ^ (x << 13u64);
    let b: u64 = a ^ (a >> 7u64);
    b ^ (b << 17u64)
}

/// The generator's state after `n` steps.
pub open spec fn seed_after(n: nat) -> u64
    decreases n,
{
    if n == 0 {
        SEED
    } else {
        xorshift(seed_after((n - 1) as nat))
    }
}

/// The constant that a round adds to a lane: two steps of the generator, the
/// first one as the high half.
pub open spec fn round_constant(round: int, lane: int) -> BaseElement {
    let k = (2 * (STATE_WIDTH * round + lane)) as nat;
    field::elem(seed_after(k + 1) * 0x1_0000_0000_0000_0000 + seed_after(k + 2))
}

/// The constants of a round.
pub open spec fn constants_of(round: int) -> Seq<BaseElement> {
    Seq::new(STATE_WIDTH as nat, |lane: int| round_constant(round, lane))
}

/// The round constants, one row for each round.
pub fn round_constants() -> (out: [[BaseElement; STATE_WIDTH]; ROUNDS])
    ensures
        forall|r: int| 0 <= r < ROUNDS ==> (#[trigger] out@[r])@ == constants_of(r),
{
    let zero = BaseElement::new(0);
    let mut out: [[BaseElement; STATE_WIDTH]; ROUNDS] = [[zero; STATE_WIDTH]; ROUNDS];
    let mut seed: u64 = SEED;
    let mut r: usize = 0;
    while r < ROUNDS
        invariant
            r <= ROUNDS,
            seed == seed_after((2 * (STATE_WIDTH * r)) as nat),
            forall|i: int| 0 <= i < r ==> (#[trigger] out@[i])@ == constants_of(i),
        decreases ROUNDS - r,
    {
        let mut row: [BaseElement; STATE_WIDTH] = [zero; STATE_WIDTH];
        let mut lane: usize = 0;
        while lane < STATE_WIDTH
            invariant
                r < ROUNDS,
                lane <= STATE_WIDTH,
                seed == seed_after((2 * (STATE_WIDTH * r + lane)) as nat),
                forall|i: int| 0 <= i < lane ==> #[trigger] row@[i] == round_constant(r as int, i),
            decreases STATE_WIDTH - lane,
        {
            let hi: u64 = xorshift_step(seed);
            let lo: u64 = xorshift_step(hi);
            seed = lo;
            let wide: u128 = ((hi as u128) << 64u32) | (lo as u128);
            proof {
                assert(wide == (hi as u128) * 0x1_0000_0000_0000_0000u128 + lo as u128)
                    by (bit_vector)
                    requires
                        wide == ((hi as u128) << 64u32) | (lo as u128),
                ;
                reveal_with_fuel(seed_after, 3);
            }
            row[lane] = BaseElement::new(wide);
            lane = lane + 1;
        }
        assert(row@ =~= constants_of(r as int));
        out[r] = row;
        r = r + 1;
    }
    out
}

/// First row of the mixing layer's circulant matrix.
const MIX: [u64; 8] = [2, 3, 1, 1, 1, 1, 1, 1];

/// The coefficient with which the mixing layer takes the lane `j` places on.
pub open spec fn mix_coefficient(j: int) -> int {
    if j == 0 {
        2
    } else if j == 1 {
        3
    } else {
        1
    }
}

/// Lane `i` of the mixing layer, summed up over its first `n` terms.
pub open spec fn mix_sum<E: FieldElement>(state: Seq<E>, i: int, n: nat) -> E
    decreases n,
{
    if n == 0 {
        E::spec_zero()
    } else {
        mix_sum(state, i, (n - 1) as nat).spec_plus(
            state[(i + n - 1) % (STATE_WIDTH as int)].spec_times(
                E::spec_from_base(field::elem(mix_coefficient(n - 1))),
            ),
        )
    }
}

/// The mixing layer: lane `i` is twice lane `i`, three times the next one and
/// the other six, all added up.
pub open spec fn mixed<E: FieldElement>(state: Seq<E>) -> Seq<E> {
    Seq::new(STATE_WIDTH as nat, |i: int| mix_sum(state, i, STATE_WIDTH as nat))
}

fn mix<E: FieldElement>(state: &[E; STATE_WIDTH]) -> (out: [E; STATE_WIDTH])
    ensures
        out@ == mixed(state@),
{
    let mut out: [E; STATE_WIDTH] = [E::zero(); STATE_WIDTH];
    let mut i: usize = 0;
    while i < STATE_WIDTH
        invariant
            i <= STATE_WIDTH,
            forall|k: int| 0 <= k < i ==> #[trigger] out@[k] == mix_sum(state@, k, STATE_WIDTH as nat),
        decreases STATE_WIDTH - i,
    {
        let mut acc: E = E::zero();
        let mut j: usize = 0;
        while j < STATE_WIDTH
            invariant
                i < STATE_WIDTH,
                j <= STATE_WIDTH,
                acc == mix_sum(state@, i as int, j as nat),
            decreases STATE_WIDTH - j,
        {
            let coefficient = E::from_base(BaseElement::new(MIX[j] as u128));
            acc = acc.plus(state[(i + j) % STATE_WIDTH].times(coefficient));
            j = j + 1;
        }
        out[i] = acc;
        i = i + 1;
    }
    assert(out@ =~= mixed(state@));
    out
}

/// The S-box: each lane is cubed.
pub open spec fn cubed<E: FieldElement>(state: Seq<E>) -> Seq<E> {
    Seq::new(STATE_WIDTH as nat, |i: int| state[i].spec_exp(3))
}

fn sbox<E: FieldElement>(state: &[E; STATE_WIDTH]) -> (out: [E; STATE_WIDTH])
    ensures
        out@ == cubed(state@),
{
    let mut out: [E; STATE_WIDTH] = [E::zero(); STATE_WIDTH];
    let mut i: usize = 0;
    while i < STATE_WIDTH
        invariant
            i <= STATE_WIDTH,
            forall|k: int| 0 <= k < i ==> #[trigger] out@[k] == state@[k].spec_exp(3),
        decreases STATE_WIDTH - i,
    {
        out[i] = state[i].exp(3);
        i = i + 1;
    }
    assert(out@ =~= cubed(state@));
    out
}

/// The lane-wise sum of a state and a round's constants.
pub open spec fn lanes_added<E: FieldElement>(state: Seq<E>, constants: Seq<E>) -> Seq<E> {
    Seq::new(STATE_WIDTH as nat, |i: int| state[i].spec_plus(constants[i]))
}

/// The state after one round: add the constants, cube, mix.
pub open spec fn after_round<E: FieldElement>(state: Seq<E>, constants: Seq<E>) -> Seq<E> {
    mixed(cubed(lanes_added(state, constants)))
}

/// Applies one round to a state.
pub fn apply_round<E: FieldElement>(
    state: &[E; STATE_WIDTH],
    round_constants: &[E; STATE_WIDTH],
) -> (out: [E; STATE_WIDTH])
    ensures
        out@ == after_round(state@, round_constants@),
{
    let mut added: [E; STATE_WIDTH] = [E::zero(); STATE_WIDTH];
    let mut i: usize = 0;
    while i < STATE_WIDTH
        invariant
            i <= STATE_WIDTH,
            forall|k: int| 0 <= k < i ==> #[trigger] added@[k] == state@[k].spec_plus(round_constants@[k]),
        decreases STATE_WIDTH - i,
    {
        added[i] = state[i].plus(round_constants[i]);
        i = i + 1;
    }
    assert(added@ =~= lanes_added(state@, round_constants@));
    let boxed = sbox(&added);
    mix(&boxed)
}

/// The state after the first `n` rounds.
pub open spec fn permuted(state: Seq<BaseElement>, n: nat) -> Seq<BaseElement>
    decreases n,
{
    if n == 0 {
        state
    } else {
        after_round(permuted(state, (n - 1) as nat), constants_of(n - 1))
    }
}

/// The digest that a job computes from its initial state.
pub open spec fn digest(state: Seq<BaseElement>) -> BaseElement {
    permuted(state, (ROUNDS - 1) as nat)[0]
}

/// Inputs filled up with zeros to the width of the state.
pub open spec fn padded(inputs: Seq<BaseElement>) -> Seq<BaseElement> {
    Seq::new(
        STATE_WIDTH as nat,
        |i: int| if i < inputs.len() {
            inputs[i]
        } else {
            field::elem(0)
        },
    )
}

/// The hash of at most 8 field elements.
pub open spec fn hash_of(inputs: Seq<BaseElement>) -> BaseElement {
    digest(padded(inputs))
}

/// Hashes at most 8 field elements.
pub fn hash(inputs: &[BaseElement]) -> (r: BaseElement)
    requires
        inputs@.len() <= STATE_WIDTH,
    ensures
        r == hash_of(inputs@),
        r.wf(),
{
    let mut state: [BaseElement; STATE_WIDTH] = [BaseElement::new(0); STATE_WIDTH];
    let mut i: usize = 0;
    while i < inputs.len()
        invariant
            inputs@.len() <= STATE_WIDTH,
            i <= inputs@.len(),
            forall|k: int| 0 <= k < i ==> #[trigger] state@[k] == inputs@[k],
            forall|k: int| i <= k < STATE_WIDTH ==> #[trigger] state@[k] == field::elem(0),
        decreases inputs@.len() - i,
    {
        state[i] = inputs[i];
        i = i + 1;
    }
    assert(state@ =~= padded(inputs@));
    let constants = round_constants();
    let mut r: usize = 0;
    while r < ROUNDS - 1
        invariant
            r <= ROUNDS - 1,
            forall|k: int| 0 <= k < ROUNDS ==> (#[trigger] constants@[k])@ == constants_of(k),
            state@ == permuted(padded(inputs@), r as nat),
        decreases ROUNDS - r,
    {
        state = apply_round(&state, &constants[r]);
        r = r + 1;
    }
    let out = state[0];
    proof {
        use_type_invariant(&out);
    }
    out
}

/// Trailing zeros do not change a hash: inputs are filled up with zeros, so the
/// hash separates lengths only where the caller fixes the number of inputs.
pub proof fn law_hash_ignores_trailing_zeros(inputs: Seq<BaseElement>)
    requires
        inputs.len() < STATE_WIDTH,
    ensures
        hash_of(inputs.push(field::elem(0))) == hash_of(inputs),
{
    assert(padded(inputs.push(field::elem(0))) =~= padded(inputs));
}

/// A hash is an element.
pub proof fn lemma_hash_wf(inputs: Seq<BaseElement>)
    ensures
        hash_of(inputs).wf(),
{
    let n = (ROUNDS - 1) as nat;
    let before = permuted(padded(inputs), (n - 1) as nat);
    lemma_round_wf(before, constants_of(n - 1), 0);
}

/// A lane after a round is an element.
pub proof fn lemma_round_wf(state: Seq<BaseElement>, constants: Seq<BaseElement>, lane: int)
    requires
        0 <= lane < STATE_WIDTH,
    ensures
        after_round(state, constants)[lane].wf(),
{
    broadcast use field::group_elem;

}

/// The mixing layer is the circulant matrix with first row 2, 3, 1, 1, 1, 1, 1, 1:
/// the sum of all lanes, once more the lane itself and twice more the next one.
pub proof fn law_mixing_is_circulant(state: Seq<BaseElement>, i: int)
    requires
        state.len() == STATE_WIDTH,
        forall|k: int| 0 <= k < STATE_WIDTH ==> (#[trigger] state[k]).wf(),
        0 <= i < STATE_WIDTH,
    ensures
        mixed(state)[i] == field::elem(
            lane_sum(state, STATE_WIDTH as nat) + state[i]@ + 2 * state[(i + 1) % 8]@,
        ),
{
    lemma_mix_sum(state, i, 8);
    reveal_with_fuel(turned_sum, 9);
    reveal_with_fuel(lane_sum, 9);
}

/// The sum of the first `n` lanes as integers.
pub open spec fn lane_sum(state: Seq<BaseElement>, n: nat) -> int
    decreases n,
{
    if n == 0 {
        0
    } else {
        lane_sum(state, (n - 1) as nat) + state[n - 1]@
    }
}

/// The first `n` terms of lane `i` of the mixing layer as integers.
spec fn turned_sum(state: Seq<BaseElement>, i: int, n: nat) -> int
    decreases n,
{
    if n == 0 {
        0
    } else {
        turned_sum(state, i, (n - 1) as nat) + state[(i + n - 1) % 8]@ * mix_coefficient(n - 1)
    }
}

proof fn lemma_mix_sum(state: Seq<BaseElement>, i: int, n: nat)
    requires
        state.len() == STATE_WIDTH,
        forall|k: int| 0 <= k < STATE_WIDTH ==> (#[trigger] state[k]).wf(),
        0 <= i < STATE_WIDTH,
    ensures
        mix_sum(state, i, n) == field::elem(turned_sum(state, i, n)),
    decreases n,
{
    if n > 0 {
        lemma_mix_sum(state, i, (n - 1) as nat);
        let x = state[(i + n - 1) % 8];
        let c = mix_coefficient(n - 1);
        lemma_mod_bound(i + n - 1, 8);
        field::lemma_elem_of_view(x);
        algebra::lemma_reduction(x@, c);
        algebra::lemma_reduction(turned_sum(state, i, (n - 1) as nat), x@ * c);
    }
}

/// To the power `2p - 1` every number is itself modulo `p`.
proof fn lemma_power_returns(x: int)
    ensures
        pow(x, (2 * field::p() - 1) as nat) % field::p() == x % field::p(),
{
    let p = field::p();
    certificate::law_modulus_is_prime();
    let top = (p - 1) as nat;
    let q = pow(x, top);
    lemma_pow_adds(x, top, top);
    lemma_pow_adds(x, (top + top) as nat, 1);
    lemma_pow1(x);
    assert((top + top + 1) as nat == (2 * p - 1) as nat);
    assert(pow(x, (2 * p - 1) as nat) == (q * q) * x);
    if x % p == 0 {
        lemma_mul_mod_noop_right(q * q, x, p);
        assert((q * q) * 0 == 0);
        lemma_small_mod(0, p as nat);
    } else {
        fermat::lemma_fermat(x, p);
        lemma_mul_mod_noop(q, q, p);
        lemma_small_mod(1, p as nat);
        lemma_mul_mod_noop_left(q * q, x, p);
        assert(1 * x == x);
    }
}

/// Cubing tells elements apart.
proof fn lemma_cubes_tell_apart(x: BaseElement, y: BaseElement)
    requires
        x.wf(),
        y.wf(),
        x.spec_exp(3) == y.spec_exp(3),
    ensures
        x == y,
{
    broadcast use field::group_elem;

    let p = field::p();
    // Three times the root is 2p - 1, so that a cube to its power is its base.
    let root = ((2 * p - 1) / 3) as nat;
    assert(3 * root == 2 * p - 1);
    let (a, b) = (pow(x@, 3), pow(y@, 3));
    assert(a % p == field::elem(a)@);
    assert(b % p == field::elem(b)@);
    lemma_pow_mod_noop(a, root, p);
    lemma_pow_mod_noop(b, root, p);
    lemma_pow_multiplies(x@, 3, root);
    lemma_pow_multiplies(y@, 3, root);
    lemma_power_returns(x@);
    lemma_power_returns(y@);
    assert(x@ % p == y@ % p);
    lemma_small_mod(x@ as nat, p as nat);
    lemma_small_mod(y@ as nat, p as nat);
    field::lemma_view_injective(x, y);
}

/// Whether the modulus divides an integer.
#[verifier::opaque]
spec fn vanishes(n: int) -> bool {
    n % field::p() == 0
}

/// What a factor below the modulus leaves divisible.
proof fn lemma_cancel(c: int, d: int)
    requires
        0 < c < field::p(),
        vanishes(c * d),
    ensures
        vanishes(d),
{
    reveal(vanishes);
    certificate::law_modulus_is_prime();
    primality::lemma_euclid(field::p(), c, d);
    lemma_small_mod(c as nat, field::p() as nat);
}

/// Adding a multiple of a multiple of the modulus keeps a multiple of it.
proof fn lemma_combine(a: int, c: int, b: int)
    requires
        vanishes(a),
        vanishes(b),
    ensures
        vanishes(a + c * b),
{
    reveal(vanishes);
    let p = field::p();
    lemma_mul_mod_noop_right(c, b, p);
    assert(c * 0 == 0);
    lemma_small_mod(0, p as nat);
    lemma_add_mod_noop(a, c * b, p);
}

/// Where each difference is minus twice the next one, and the last one minus twice
/// the first, the first one is 256 times itself, and so is zero.
proof fn lemma_going_round(d: Seq<int>)
    requires
        d.len() == 9,
        d[8] == d[0],
        forall|i: int| 0 <= i < 8 ==> vanishes(#[trigger] doubled(d, i)),
    ensures
        vanishes(d[0]),
{
    lemma_combine(doubled(d, 0), -2, doubled(d, 1));
    lemma_combine(d[0] - 4 * d[2], 4, doubled(d, 2));
    lemma_combine(d[0] + 8 * d[3], -8, doubled(d, 3));
    lemma_combine(d[0] - 16 * d[4], 16, doubled(d, 4));
    lemma_combine(d[0] + 32 * d[5], -32, doubled(d, 5));
    lemma_combine(d[0] - 64 * d[6], 64, doubled(d, 6));
    lemma_combine(d[0] + 128 * d[7], -128, doubled(d, 7));
    lemma_combine(doubled(d, 0), -1, doubled(d, 0));
    lemma_combine(0, -1, d[0] - 256 * d[8]);
    lemma_cancel(255, d[0]);
}

/// A difference and twice the next one.
spec fn doubled(d: Seq<int>, i: int) -> int {
    d[i] + 2 * d[i + 1]
}

/// The sum of eight differences.
spec fn summed(d: Seq<int>) -> int {
    d[0] + d[1] + d[2] + d[3] + d[4] + d[5] + d[6] + d[7]
}

/// What mixing makes of differences in a lane.
spec fn mixed_difference(d: Seq<int>, i: int) -> int {
    summed(d) + d[i] + 2 * d[(i + 1) % 8]
}

/// All mixed lanes together are 11 times the sum of the differences; so where they
/// are zero, the sum is.
proof fn lemma_sum_vanishes(d: Seq<int>)
    requires
        d.len() == 8,
        forall|i: int| 0 <= i < 8 ==> vanishes(#[trigger] mixed_difference(d, i)),
    ensures
        vanishes(summed(d)),
{
    let sum = summed(d);
    lemma_combine(mixed_difference(d, 0), 1, mixed_difference(d, 1));
    let two = 2 * sum + d[0] + 3 * d[1] + 2 * d[2];
    lemma_combine(two, 1, mixed_difference(d, 2));
    let three = 3 * sum + d[0] + 3 * d[1] + 3 * d[2] + 2 * d[3];
    lemma_combine(three, 1, mixed_difference(d, 3));
    let four = 4 * sum + d[0] + 3 * (d[1] + d[2] + d[3]) + 2 * d[4];
    lemma_combine(four, 1, mixed_difference(d, 4));
    let five = 5 * sum + d[0] + 3 * (d[1] + d[2] + d[3] + d[4]) + 2 * d[5];
    lemma_combine(five, 1, mixed_difference(d, 5));
    let six = 6 * sum + d[0] + 3 * (d[1] + d[2] + d[3] + d[4] + d[5]) + 2 * d[6];
    lemma_combine(six, 1, mixed_difference(d, 6));
    let seven = 7 * sum + d[0] + 3 * (d[1] + d[2] + d[3] + d[4] + d[5] + d[6]) + 2 * d[7];
    lemma_combine(seven, 1, mixed_difference(d, 7));
    lemma_cancel(11, sum);
}

/// Mixing is invertible: differences that it maps to zero are zero.
proof fn lemma_mixed_differences(d: Seq<int>, i: int)
    requires
        d.len() == 8,
        forall|k: int| 0 <= k < 8 ==> vanishes(#[trigger] mixed_difference(d, k)),
        0 <= i < 8,
    ensures
        vanishes(d[i]),
{
    lemma_sum_vanishes(d);
    let e = Seq::new(9, |j: int| d[(i + j) % 8]);
    assert forall|j: int| 0 <= j < 8 implies vanishes(#[trigger] doubled(e, j)) by {
        let at = (i + j) % 8;
        assert((at + 1) % 8 == (i + (j + 1)) % 8);
        lemma_combine(mixed_difference(d, at), -1, summed(d));
        assert(doubled(e, j) == mixed_difference(d, at) + -1 * summed(d));
    }
    assert((i + 8) % 8 == i);
    assert(e[0] == d[i]);
    lemma_going_round(e);
}

/// Mixing tells states apart.
proof fn lemma_mixing_tells_apart(x: Seq<BaseElement>, y: Seq<BaseElement>)
    requires
        x.len() == STATE_WIDTH,
        y.len() == STATE_WIDTH,
        forall|k: int| 0 <= k < STATE_WIDTH ==> (#[trigger] x[k]).wf(),
        forall|k: int| 0 <= k < STATE_WIDTH ==> (#[trigger] y[k]).wf(),
        mixed(x) == mixed(y),
    ensures
        x == y,
{
    let p = field::p();
    let d = Seq::new(8, |i: int| x[i]@ - y[i]@);
    reveal_with_fuel(lane_sum, 9);
    assert forall|i: int| 0 <= i < 8 implies vanishes(#[trigger] mixed_difference(d, i)) by {
        law_mixing_is_circulant(x, i);
        law_mixing_is_circulant(y, i);
        assert(mixed(x)[i] == mixed(y)[i]);
        let a = lane_sum(x, 8) + x[i]@ + 2 * x[(i + 1) % 8]@;
        let b = lane_sum(y, 8) + y[i]@ + 2 * y[(i + 1) % 8]@;
        field::lemma_elem_view(a);
        field::lemma_elem_view(b);
        lemma_mod_equivalence(a, b, p);
        reveal(vanishes);
        assert(d[(i + 1) % 8] == x[(i + 1) % 8]@ - y[(i + 1) % 8]@);
    }
    assert forall|i: int| 0 <= i < 8 implies x[i] == y[i] by {
        lemma_mixed_differences(d, i);
        reveal(vanishes);
        lemma_mod_equivalence(x[i]@, y[i]@, p);
        lemma_small_mod(x[i]@ as nat, p as nat);
        lemma_small_mod(y[i]@ as nat, p as nat);
        field::lemma_view_injective(x[i], y[i]);
    }
    assert(x =~= y);
}

/// A round loses nothing: two rounds agree exactly where the states with their
/// constants added agree. So with the same constants no two states collide, and
/// other constants take a state to another one.
pub proof fn law_rounds_tell_states_apart(
    s: Seq<BaseElement>,
    a: Seq<BaseElement>,
    t: Seq<BaseElement>,
    b: Seq<BaseElement>,
)
    ensures
        after_round(s, a) == after_round(t, b) <==> forall|i: int|
            0 <= i < STATE_WIDTH ==> #[trigger] s[i].spec_plus(a[i]) == t[i].spec_plus(b[i]),
{
    broadcast use field::group_elem;

    let (u, v) = (lanes_added(s, a), lanes_added(t, b));
    if after_round(s, a) == after_round(t, b) {
        lemma_mixing_tells_apart(cubed(u), cubed(v));
        assert forall|i: int| 0 <= i < STATE_WIDTH implies #[trigger] s[i].spec_plus(a[i])
            == t[i].spec_plus(b[i]) by {
            assert(cubed(u)[i] == cubed(v)[i]);
            lemma_cubes_tell_apart(u[i], v[i]);
        }
    }
    if forall|i: int|
        0 <= i < STATE_WIDTH ==> #[trigger] s[i].spec_plus(a[i]) == t[i].spec_plus(b[i]) {
        assert(u =~= v);
    }
}

} // verus!
