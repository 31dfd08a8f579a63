//! The hash, its permutation and its round constants, in numbers.

use vstd::arithmetic::div_mod::*;
use vstd::prelude::*;

use crate::field;
use crate::field::{BaseElement, FieldElement};
use crate::fuzz::Rng;
use crate::layout::{ROUNDS, STATE_WIDTH};
use crate::permutation;
use crate::permutation::{apply_round, hash, round_constants, xorshift_step};

verus! {

/// A number cubed, modulo the modulus.
pub open spec fn cube(x: int) -> int {
    (x * x * x) % 340282366920938463463374557953744961537
}

/// A lane with its constant added, cubed.
pub open spec fn boxed(state: Seq<int>, constants: Seq<int>, i: int) -> int {
    cube((state[i] + constants[i]) % 340282366920938463463374557953744961537)
}

/// Whether one round takes a state of eight numbers to another: to each lane its
/// constant is added, each sum is cubed, and each new lane is the sum of all cubes,
/// once more its own and twice more the next one.
pub open spec fn one_round(state: Seq<int>, constants: Seq<int>, next: Seq<int>) -> bool {
    forall|i: int|
        0 <= i < 8 ==> #[trigger] next[i] == (boxed(state, constants, 0) + boxed(state, constants, 1)
            + boxed(state, constants, 2) + boxed(state, constants, 3) + boxed(state, constants, 4)
            + boxed(state, constants, 5) + boxed(state, constants, 6) + boxed(state, constants, 7)
            + boxed(state, constants, i) + 2 * boxed(state, constants, (i + 1) % 8))
            % 340282366920938463463374557953744961537
}

/// The numbers of eight elements.
pub open spec fn numbers(state: Seq<BaseElement>) -> Seq<int> {
    Seq::new(8, |i: int| state[i]@)
}

proof fn lemma_cube(e: BaseElement)
    requires
        e.wf(),
    ensures
        field::elem(vstd::arithmetic::power::pow(e@, 3))@ == cube(e@),
{
    let x = e@;
    vstd::arithmetic::power::lemma_pow1(x);
    vstd::arithmetic::power::lemma_pow_adds(x, 1, 1);
    vstd::arithmetic::power::lemma_pow_adds(x, 2, 1);
    field::lemma_elem_view(vstd::arithmetic::power::pow(x, 3));
}

/// A lane of the S-box is the cube of a sum.
proof fn lemma_boxed(s: Seq<BaseElement>, c: Seq<BaseElement>, i: int)
    requires
        0 <= i < 8,
    ensures
        permutation::cubed(permutation::lanes_added(s, c))[i]@ == boxed(numbers(s), numbers(c), i),
        permutation::cubed(permutation::lanes_added(s, c))[i].wf(),
{
    let e = field::elem(s[i]@ + c[i]@);
    field::lemma_elem_view(s[i]@ + c[i]@);
    lemma_cube(e);
    field::lemma_elem_view(vstd::arithmetic::power::pow(e@, 3));
}

/// A round does to the elements what one round does to their numbers.
pub proof fn lemma_round(s: Seq<BaseElement>, c: Seq<BaseElement>)
    ensures
        one_round(numbers(s), numbers(c), numbers(permutation::after_round(s, c))),
{
    let boxes = permutation::cubed(permutation::lanes_added(s, c));
    assert forall|k: int| 0 <= k < 8 implies (#[trigger] boxes[k]).wf() && boxes[k]@ == boxed(
        numbers(s),
        numbers(c),
        k,
    ) by {
        lemma_boxed(s, c, k);
    }
    reveal_with_fuel(permutation::lane_sum, 9);
    assert forall|i: int| 0 <= i < 8 implies #[trigger] numbers(permutation::after_round(s, c))[i]
        == (boxes[0]@ + boxes[1]@ + boxes[2]@ + boxes[3]@ + boxes[4]@ + boxes[5]@ + boxes[6]@
        + boxes[7]@ + boxes[i]@ + 2 * boxes[(i + 1) % 8]@) % field::p() by {
        permutation::law_mixing_is_circulant(boxes, i);
        field::lemma_elem_view(
            permutation::lane_sum(boxes, 8) + boxes[i]@ + 2 * boxes[(i + 1) % 8]@,
        );
    }
}

/// Applying a round does to eight elements what one round does to their numbers.
pub proof fn law_rounds(
    state: &[BaseElement; STATE_WIDTH],
    constants: &[BaseElement; STATE_WIDTH],
    out: [BaseElement; STATE_WIDTH],
)
    requires
        call_ensures(apply_round::<BaseElement>, (state, constants), out),
    ensures
        one_round(numbers(state@), numbers(constants@), numbers(out@)),
{
    lemma_round(state@, constants@);
}

/// Whether numbers are the states of the generator, one after the other, from its
/// seed on.
pub open spec fn generated(seeds: Seq<u64>) -> bool {
    &&& seeds.len() == 129
    &&& seeds[0] == 0x5441_5145_454e_2d31
    &&& forall|n: int| 0 <= n < 128 ==> stepped(#[trigger] seeds[n], seeds[n + 1])
}

/// Whether one step of the generator leads from a state to another: the bits are
/// folded in, moved up by 13, then down by 7, then up by 17.
pub open spec fn stepped(x: u64, y: u64) -> bool {
    let a = x ^ (x << 13u64);
    let b = a ^ (a >> 7u64);
    y == b ^ (b << 17u64)
}

/// A step of the generator is one step.
pub proof fn law_generator_steps(x: u64, y: u64)
    requires
        call_ensures(xorshift_step, (x,), y),
    ensures
        stepped(x, y),
{
}

/// The trial generator steps, and hands out the state that it steps to.
pub proof fn law_trials_step(before: Rng, y: u64, after: Rng)
    requires
        exists|g: &mut Rng|
            *g == before && *final(g) == after && #[trigger] call_ensures(Rng::next_u64, (g,), y),
    ensures
        stepped(before.0, y),
        after.0 == y,
{
}

/// The trial generator's elements are its numbers.
pub proof fn law_trial_elements(before: Rng, e: BaseElement, after: Rng)
    requires
        exists|g: &mut Rng|
            *g == before && *final(g) == after && #[trigger] call_ensures(Rng::field_elem, (g,), e),
    ensures
        stepped(before.0, after.0),
        e@ == after.0,
{
    field::lemma_elem_view(after.0 as int);
    lemma_small_mod(after.0 as nat, field::p() as nat);
}

proof fn lemma_seeds(seeds: Seq<u64>, n: nat)
    requires
        generated(seeds),
        n <= 128,
    ensures
        seeds[n as int] == permutation::seed_after(n),
    decreases n,
{
    if n > 0 {
        lemma_seeds(seeds, (n - 1) as nat);
        let x = seeds[n - 1];
        assert(stepped(seeds[n - 1], seeds[n - 1 + 1]));
    }
}

/// The constant of a round and lane: two states of the generator, of which the first
/// one is the upper half.
pub open spec fn constant_of(seeds: Seq<u64>, round: int, lane: int) -> int {
    let at = 2 * (8 * round + lane);
    (seeds[at + 1] * 0x1_0000_0000_0000_0000 + seeds[at + 2])
        % 340282366920938463463374557953744961537
}

/// The round constants are the generator's states, two for each lane, lane by lane and
/// round by round.
pub proof fn law_round_constants(seeds: Seq<u64>, out: [[BaseElement; STATE_WIDTH]; ROUNDS])
    requires
        generated(seeds),
        call_ensures(round_constants, (), out),
    ensures
        forall|round: int, lane: int|
            0 <= round < 8 && 0 <= lane < 8 ==> (#[trigger] out@[round]@[lane])@ == constant_of(
                seeds,
                round,
                lane,
            ),
{
    assert forall|round: int, lane: int| 0 <= round < 8 && 0 <= lane < 8 implies (
    #[trigger] out@[round]@[lane])@ == constant_of(seeds, round, lane) by {
        lemma_constant(seeds, round, lane);
        assert(out@[round]@ == permutation::constants_of(round));
    }
}

/// The constants of the rounds are those of the generator.
pub proof fn lemma_constant(seeds: Seq<u64>, round: int, lane: int)
    requires
        generated(seeds),
        0 <= round < 8,
        0 <= lane < 8,
    ensures
        permutation::round_constant(round, lane)@ == constant_of(seeds, round, lane),
{
    let k = (2 * (STATE_WIDTH * round + lane)) as nat;
    lemma_seeds(seeds, k + 1);
    lemma_seeds(seeds, k + 2);
    field::lemma_elem_view(
        permutation::seed_after(k + 1) * 0x1_0000_0000_0000_0000 + permutation::seed_after(k + 2),
    );
}

/// The constants of a round as numbers.
pub open spec fn constants_in(seeds: Seq<u64>, round: int) -> Seq<int> {
    Seq::new(8, |lane: int| constant_of(seeds, round, lane))
}

/// Whether states lead from inputs to a digest: the first state holds each input in
/// its lane and zero in the lanes beyond, and seven rounds lead from state to state.
pub open spec fn absorbed(inputs: Seq<BaseElement>, states: Seq<Seq<int>>, seeds: Seq<u64>) -> bool {
    &&& states.len() == 8
    &&& forall|k: int| 0 <= k < 8 ==> (#[trigger] states[k]).len() == 8
    &&& forall|i: int| 0 <= i < inputs.len() ==> #[trigger] states[0][i] == inputs[i]@
    &&& forall|i: int| inputs.len() <= i < 8 ==> #[trigger] states[0][i] == 0
    &&& forall|k: int|
        0 <= k < 7 ==> #[trigger] one_round(states[k], constants_in(seeds, k), states[k + 1])
}

/// The hash of up to eight elements is lane 0 of the state that seven rounds lead to
/// from the state that holds the elements, each in its lane.
pub proof fn law_hash_absorbs_every_input(
    inputs: Seq<BaseElement>,
    states: Seq<Seq<int>>,
    seeds: Seq<u64>,
)
    requires
        inputs.len() <= 8,
        generated(seeds),
        absorbed(inputs, states, seeds),
    ensures
        permutation::hash_of(inputs)@ == states[7][0],
{
    lemma_absorbed(inputs, states, seeds, 7);
}

proof fn lemma_absorbed(inputs: Seq<BaseElement>, states: Seq<Seq<int>>, seeds: Seq<u64>, k: nat)
    requires
        inputs.len() <= 8,
        generated(seeds),
        absorbed(inputs, states, seeds),
        k <= 7,
    ensures
        states[k as int] == numbers(permutation::permuted(permutation::padded(inputs), k)),
    decreases k,
{
    let start = permutation::padded(inputs);
    if k == 0 {
        field::lemma_elem_view(0);
        lemma_small_mod(0, field::p() as nat);
        assert(states[0] =~= numbers(start));
    } else {
        let m = k - 1;
        lemma_absorbed(inputs, states, seeds, m as nat);
        let s = permutation::permuted(start, m as nat);
        let c = permutation::constants_of(m as int);
        lemma_round(s, c);
        assert forall|lane: int| 0 <= lane < 8 implies #[trigger] numbers(c)[lane] == constants_in(
            seeds,
            m as int,
        )[lane] by {
            lemma_constant(seeds, m as int, lane);
        }
        assert(numbers(c) =~= constants_in(seeds, m as int));
        assert(one_round(states[m as int], constants_in(seeds, m as int), states[m + 1]));
        assert(states[k as int] =~= numbers(permutation::permuted(start, k)));
    }
}

/// Hashing gives that hash.
pub proof fn law_hashing(inputs: &[BaseElement], r: BaseElement)
    requires
        inputs@.len() <= 8,
        call_ensures(hash, (inputs,), r),
    ensures
        r == permutation::hash_of(inputs@),
        r.wf(),
{
}

/// Up to eight elements may be hashed.
pub proof fn law_up_to_eight_may_be_hashed(inputs: &[BaseElement])
    requires
        inputs@.len() <= 8,
    ensures
        call_requires(hash, (inputs,)),
{
}

/// Inputs that differ never meet in one state, however many rounds follow.
pub proof fn law_inputs_never_meet(a: Seq<BaseElement>, b: Seq<BaseElement>, n: nat)
    requires
        a.len() == b.len() <= 8,
        forall|i: int| 0 <= i < a.len() ==> (#[trigger] a[i]).wf(),
        forall|i: int| 0 <= i < b.len() ==> (#[trigger] b[i]).wf(),
        a != b,
    ensures
        permutation::permuted(permutation::padded(a), n) != permutation::permuted(
            permutation::padded(b),
            n,
        ),
    decreases n,
{
    let (s, t) = (permutation::padded(a), permutation::padded(b));
    if n == 0 {
        if s == t {
            assert forall|i: int| 0 <= i < a.len() implies a[i] == b[i] by {
                assert(s[i] == t[i]);
            }
            assert(a =~= b);
        }
    } else {
        let m = (n - 1) as nat;
        law_inputs_never_meet(a, b, m);
        let (u, v) = (permutation::permuted(s, m), permutation::permuted(t, m));
        let c = permutation::constants_of(n - 1);
        if permutation::after_round(u, c) == permutation::after_round(v, c) {
            permutation::law_rounds_tell_states_apart(u, c, v, c);
            lemma_states_wf(a, m);
            lemma_states_wf(b, m);
            assert forall|i: int| 0 <= i < 8 implies u[i] == v[i] by {
                assert(u[i].spec_plus(c[i]) == v[i].spec_plus(c[i]));
                lemma_same_sum(u[i], v[i], c[i]);
            }
            assert(u =~= v);
        }
    }
}

proof fn lemma_same_sum(x: BaseElement, y: BaseElement, c: BaseElement)
    requires
        x.wf(),
        y.wf(),
        field::elem(x@ + c@) == field::elem(y@ + c@),
    ensures
        x == y,
{
    let p = field::p();
    field::lemma_elem_view(x@ + c@);
    field::lemma_elem_view(y@ + c@);
    lemma_mod_equivalence(x@ + c@, y@ + c@, p);
    lemma_mod_equivalence(x@, y@, p);
    lemma_small_mod(x@ as nat, p as nat);
    lemma_small_mod(y@ as nat, p as nat);
    field::lemma_view_injective(x, y);
}

proof fn lemma_states_wf(a: Seq<BaseElement>, n: nat)
    requires
        a.len() <= 8,
        forall|i: int| 0 <= i < a.len() ==> (#[trigger] a[i]).wf(),
    ensures
        permutation::permuted(permutation::padded(a), n).len() == 8,
        forall|i: int|
            0 <= i < 8 ==> (#[trigger] permutation::permuted(permutation::padded(a), n)[i]).wf(),
{
    if n == 0 {
        field::lemma_elem_view(0);
    } else {
        let before = permutation::permuted(permutation::padded(a), (n - 1) as nat);
        assert forall|i: int| 0 <= i < 8 implies (#[trigger] permutation::permuted(
            permutation::padded(a),
            n,
        )[i]).wf() by {
            permutation::lemma_round_wf(before, permutation::constants_of(n - 1), i);
        }
    }
}

} // verus!
