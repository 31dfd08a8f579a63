//! Random trials of the constraints.

use vstd::prelude::*;

use crate::air;
use crate::air::{PublicInputs, TitleAir};
use crate::algebra;
use crate::context::{
    demo_proof_options, zeros, BatchingMethod, EvaluationFrame, FieldExtension, ProofOptions, TraceInfo,
};
use crate::field;
use crate::field::BaseElement;
use crate::honest;
use crate::layout::{
    AUX_B, NUM_ASSERTIONS, NUM_TRANSITION_CONSTRAINTS, STATE_WIDTH, TRACE_LENGTH, TRACE_WIDTH, T_MERKLE,
};
use crate::permutation;
use crate::permutation::xorshift_step;
use crate::soundness;

verus! {

/// A small generator of pseudo-random numbers; zero stays zero.
pub struct Rng(pub u64);

impl Rng {
    /// The next number.
    pub fn next_u64(&mut self) -> (r: u64)
        ensures
            r == permutation::xorshift(old(self).0),
            final(self).0 == r,
    {
        self.0 = xorshift_step(self.0);
        self.0
    }

    /// The next number as a field element.
    pub fn field_elem(&mut self) -> (r: BaseElement)
        ensures
            r == field::elem(permutation::xorshift(old(self).0) as int),
            final(self).0 == permutation::xorshift(old(self).0),
    {
        BaseElement::new(self.next_u64() as u128)
    }
}

/// A generator that starts at zero never leaves it.
pub proof fn law_zero_seed_stays_zero()
    ensures
        permutation::xorshift(0) == 0,
{
    assert((0u64 ^ (0u64 << 13u64)) == 0) by (bit_vector);
    assert((0u64 ^ (0u64 >> 7u64)) == 0) by (bit_vector);
    assert((0u64 ^ (0u64 << 17u64)) == 0) by (bit_vector);
}

/// The constraint system for public inputs that are all zero.
pub fn dummy_air() -> (air: TitleAir)
    ensures
        air.inputs().elements() == seq![
            field::elem(0),
            field::elem(0),
            field::elem(0),
            field::elem(0),
            field::elem(0),
            field::elem(0),
        ],
        air.declared().trace_info.columns() == TRACE_WIDTH,
        air.declared().trace_info.rows() == TRACE_LENGTH,
        air.declared().options == (ProofOptions {
            num_queries: 28,
            blowup_factor: 8,
            grinding_factor: 0,
            field_extension: FieldExtension::Base,
            fri_folding_factor: 4,
            fri_remainder_max_degree: 7,
            batching_constraints: BatchingMethod::Linear,
            batching_deep: BatchingMethod::Linear,
        }),
        air.declared().num_assertions == NUM_ASSERTIONS,
        air.declared().transition_constraint_degrees@.len() == NUM_TRANSITION_CONSTRAINTS,
        forall|i: int|
            0 <= i < NUM_TRANSITION_CONSTRAINTS ==> air::declares(
                #[trigger] air.declared().transition_constraint_degrees@[i],
                air::degree_of(i),
            ),
{
    let z = BaseElement::new(0);
    let dummy_pub = PublicInputs {
        registry_id: z,
        merkle_root: z,
        purpose: z,
        request_nonce: z,
        current_timestamp: z,
        nullifier: z,
    };
    proof {
        vstd::arithmetic::power2::lemma2_to64();
        vstd::arithmetic::power2::lemma_pow2(8);
        vstd::arithmetic::power2::is_pow2_equiv(256);
    }
    let trace_info = TraceInfo::new(TRACE_WIDTH, TRACE_LENGTH);
    TitleAir::new(trace_info, dummy_pub, demo_proof_options())
}

/// In a first row that is marked as a Merkle step, the constraint on the direction
/// shows any value that is not a bit.
proof fn lemma_bad_direction_shows(
    ts: BaseElement,
    cur: Seq<BaseElement>,
    nxt: Seq<BaseElement>,
    bad: BaseElement,
)
    requires
        bad.wf(),
        bad != field::elem(0),
        bad != field::elem(1),
        cur[T_MERKLE as int] == field::elem(1),
        cur[AUX_B as int] == bad,
    ensures
        air::constraint(ts, cur, nxt, air::periodic_row(0), 15) != field::elem(0),
{
    broadcast use field::group_elem;

    honest::lemma_gates(0);
    algebra::lemma_neutral(field::elem(1));
    algebra::lemma_neutral(air::boolean_gap(bad));
    soundness::law_boolean_violations_are_caught(bad);
}

/// Tries directions that are not bits, and counts those that the constraint does
/// not show: there is none.
pub fn fuzz_boolean_violations_are_caught(seed: u64, iterations: usize) -> (missed: usize)
    ensures
        missed == 0,
{
    let air = dummy_air();
    let periodic = air.get_periodic_column_values();
    let mut rng = Rng(seed);
    let mut missed: usize = 0;
    let mut n: usize = 0;
    while n < iterations
        invariant
            n <= iterations,
            missed == 0,
            periodic@.len() == STATE_WIDTH + 2,
            forall|col: int|
                0 <= col < STATE_WIDTH + 2 ==> (#[trigger] periodic@[col])@ == Seq::new(
                    crate::layout::ROUNDS as nat,
                    |row: int| air::periodic_value(col, row),
                ),
        decreases iterations - n,
    {
        n = n + 1;
        let bad_bit = rng.field_elem();
        proof {
            use_type_invariant(&bad_bit);
        }
        if bad_bit != BaseElement::new(0) && bad_bit != BaseElement::new(1) {
            let mut cur: Vec<BaseElement> = zeros(TRACE_WIDTH);
            cur.set(T_MERKLE, BaseElement::new(1));
            cur.set(AUX_B, bad_bit);
            let nxt: Vec<BaseElement> = zeros(TRACE_WIDTH);
            proof {
                lemma_bad_direction_shows(air.inputs().current_timestamp, cur@, nxt@, bad_bit);
            }
            let frame = EvaluationFrame::from_rows(cur, nxt);
            let mut pv: Vec<BaseElement> = Vec::new();
            let mut col: usize = 0;
            while col < STATE_WIDTH + 2
                invariant
                    col <= STATE_WIDTH + 2,
                    periodic@.len() == STATE_WIDTH + 2,
                    forall|c: int|
                        0 <= c < STATE_WIDTH + 2 ==> (#[trigger] periodic@[c])@ == Seq::new(
                            crate::layout::ROUNDS as nat,
                            |row: int| air::periodic_value(c, row),
                        ),
                    pv@ == Seq::new(col as nat, |c: int| air::periodic_value(c, 0)),
                decreases STATE_WIDTH + 2 - col,
            {
                pv.push(periodic[col][0]);
                col = col + 1;
            }
            assert(pv@ =~= air::periodic_row(0));
            let mut result: Vec<BaseElement> = zeros(NUM_TRANSITION_CONSTRAINTS);
            air.evaluate_transition(&frame, pv.as_slice(), result.as_mut_slice());
            if result[15] == BaseElement::new(0) {
                missed = missed + 1;
            }
        }
    }
    missed
}

} // verus!
