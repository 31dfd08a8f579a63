//! The constraint system of the title statement.
//!
//! A trace proves that its prover knows an owner's secret such that
//!
//! 1. the owner commitment is the hash of the secret and the property;
//! 2. the leaf is the hash of the registry, the owner commitment, a clear
//!    encumbrance flag, a valid license status and the license's expiry, and it
//!    lies in the registry's tree;
//! 3. the license expires after the current time;
//! 4. the nullifier is the hash of the secret, the property, the purpose and
//!    the request's nonce.

use vstd::arithmetic::power2::*;
use vstd::prelude::*;

use crate::context::{AirContext, Assertion, EvaluationFrame, ProofOptions, TraceInfo, TransitionConstraintDegree};
use crate::field;
use crate::field::{BaseElement, FieldElement};
use crate::layout;
use crate::layout::{
    job_start_row, job_type_column, AUX_A, AUX_B, AUX_C, AUX_D, DOMAIN_LEAF, DOMAIN_NODE,
    DOMAIN_NULLIFIER, DOMAIN_OWNER_COMMITMENT, HELD_PID, HELD_SECRET, JOB_COUNT, NUM_ASSERTIONS,
    NUM_TRANSITION_CONSTRAINTS, RANGE_BITS, RC_BIT_0, ROUNDS, ROW_LEAF_FIRST,
    ROW_MERKLE_LAST_OUTPUT, ROW_NULLIFIER_FIRST, ROW_NULLIFIER_OUTPUT, S0, STATE_WIDTH, TRACE_LENGTH,
    TRACE_WIDTH, T_LEAF, T_MERKLE, T_NULLIFIER, T_OWNER,
};
use crate::permutation;
use crate::permutation::{apply_round, round_constants};

verus! {

/// The values that a statement is about and that everyone knows.
#[derive(Clone, Copy, Debug, PartialEq, Eq, Structural)]
pub struct PublicInputs {
    pub registry_id: BaseElement,
    pub merkle_root: BaseElement,
    pub purpose: BaseElement,
    pub request_nonce: BaseElement,
    pub current_timestamp: BaseElement,
    pub nullifier: BaseElement,
}

impl PublicInputs {
    /// The public inputs in the order in which a proof commits to them.
    pub open spec fn elements(self) -> Seq<BaseElement> {
        seq![
            self.registry_id,
            self.merkle_root,
            self.purpose,
            self.request_nonce,
            self.current_timestamp,
            self.nullifier,
        ]
    }

    /// The public inputs in the order in which a proof commits to them.
    pub fn to_elements(&self) -> (r: Vec<BaseElement>)
        ensures
            r@ == self.elements(),
    {
        let r = vec![
            self.registry_id,
            self.merkle_root,
            self.purpose,
            self.request_nonce,
            self.current_timestamp,
            self.nullifier,
        ];
        assert(r@ =~= self.elements());
        r
    }
}

/// A small integer as an element of any field.
pub open spec fn constant<E: FieldElement>(n: int) -> E {
    E::spec_from_base(field::elem(n))
}

/// A selector that is on where it is one, applied to a value.
pub open spec fn picked<E: FieldElement>(bit: E, on: E, off: E) -> E {
    bit.spec_times(on).spec_plus(E::spec_one().spec_minus(bit).spec_times(off))
}

/// The state in which the next job starts, as its kind demands it: `cur` is the
/// last row of a job and `nxt` the first row of the next one.
///
/// An owner commitment and a nullifier take the secret and the property, a leaf
/// the previous digest, and a Merkle step the previous digest and its sibling in
/// the order that the direction bit picks.
pub open spec fn boundary<E: FieldElement>(cur: Seq<E>, nxt: Seq<E>) -> Seq<E> {
    let owner = nxt[T_OWNER as int];
    let leaf = nxt[T_LEAF as int];
    let merkle = nxt[T_MERKLE as int];
    let nullifier = nxt[T_NULLIFIER as int];
    let a = nxt[AUX_A as int];
    let b = nxt[AUX_B as int];
    let c = nxt[AUX_C as int];
    let d = nxt[AUX_D as int];
    let secret = cur[HELD_SECRET as int];
    let pid = cur[HELD_PID as int];
    let prev = cur[S0 as int];
    let left = picked(b, a, prev);
    let right = picked(b, prev, a);
    seq![
        owner.spec_times(constant(DOMAIN_OWNER_COMMITMENT as int)).spec_plus(
            leaf.spec_times(constant(DOMAIN_LEAF as int)),
        ).spec_plus(merkle.spec_times(constant(DOMAIN_NODE as int))).spec_plus(
            nullifier.spec_times(constant(DOMAIN_NULLIFIER as int)),
        ),
        owner.spec_times(secret).spec_plus(leaf.spec_times(a)).spec_plus(
            merkle.spec_times(left),
        ).spec_plus(nullifier.spec_times(secret)),
        owner.spec_times(pid).spec_plus(leaf.spec_times(prev)).spec_plus(
            merkle.spec_times(right),
        ).spec_plus(nullifier.spec_times(pid)),
        leaf.spec_times(b).spec_plus(nullifier.spec_times(a)),
        leaf.spec_times(c).spec_plus(nullifier.spec_times(b)),
        leaf.spec_times(d),
        E::spec_zero(),
        E::spec_zero(),
    ]
}

/// What vanishes exactly where a value is zero or one.
pub open spec fn boolean_gap<E: FieldElement>(x: E) -> E {
    x.spec_times(x).spec_minus(x)
}

/// The first `n` range bits of a row, weighted by powers of two.
pub open spec fn weighted_bits<E: FieldElement>(row: Seq<E>, n: nat) -> E
    decreases n,
{
    if n == 0 {
        E::spec_zero()
    } else {
        weighted_bits(row, (n - 1) as nat).spec_plus(
            row[RC_BIT_0 + n - 1].spec_times(constant(pow2((n - 1) as nat) as int)),
        )
    }
}

/// The lanes of the permutation state in a row, or the round constants among
/// the periodic values.
pub open spec fn lanes<E>(row: Seq<E>) -> Seq<E> {
    row.subrange(0, STATE_WIDTH as int)
}

/// The constraint with the given number, for two consecutive rows: `periodic`
/// holds the round constants, then whether `cur` is the first row of its job,
/// then whether it is the last one.
pub open spec fn constraint<E: FieldElement>(
    timestamp: BaseElement,
    cur: Seq<E>,
    nxt: Seq<E>,
    periodic: Seq<E>,
    i: int,
) -> E {
    let is_first = periodic[STATE_WIDTH as int];
    let is_last = periodic[STATE_WIDTH + 1];
    if i < 8 {
        // The state follows the permutation inside a job and the boundary rule
        // between jobs.
        nxt[i].spec_minus(
            E::spec_one().spec_minus(is_last).spec_times(
                permutation::after_round(lanes(cur), lanes(periodic))[i],
            ).spec_plus(is_last.spec_times(boundary(cur, nxt)[i])),
        )
    } else if i == 8 {
        // The secret is held.
        nxt[HELD_SECRET as int].spec_minus(cur[HELD_SECRET as int])
    } else if i == 9 {
        // The property is held.
        nxt[HELD_PID as int].spec_minus(cur[HELD_PID as int])
    } else if i < 14 {
        // A job is of a kind or it is not.
        is_first.spec_times(boolean_gap(cur[T_OWNER + (i - 10)]))
    } else if i == 14 {
        // A job is of one kind.
        is_first.spec_times(
            cur[T_OWNER as int].spec_plus(cur[T_LEAF as int]).spec_plus(
                cur[T_MERKLE as int],
            ).spec_plus(cur[T_NULLIFIER as int]).spec_minus(E::spec_one()),
        )
    } else if i == 15 {
        // The direction of a Merkle step is a bit.
        is_first.spec_times(cur[T_MERKLE as int]).spec_times(boolean_gap(cur[AUX_B as int]))
    } else if i < 16 + RANGE_BITS {
        // The range bits are bits.
        boolean_gap(cur[RC_BIT_0 + (i - 16)])
    } else {
        // In the leaf job the range bits spell out how long the license lasts
        // beyond the next second.
        is_first.spec_times(cur[T_LEAF as int]).spec_times(
            weighted_bits(cur, RANGE_BITS as nat).spec_minus(
                cur[AUX_D as int].spec_minus(E::spec_from_base(timestamp)).spec_minus(
                    E::spec_one(),
                ),
            ),
        )
    }
}

/// The declared degree of the constraint with the given number: its power of
/// the trace, and whether it is gated by the position in a job.
pub open spec fn degree_of(i: int) -> (int, bool) {
    if i < 8 {
        (3, true)
    } else if i < 10 {
        (1, false)
    } else if i < 14 {
        (2, true)
    } else if i == 14 {
        (1, true)
    } else if i == 15 {
        (3, true)
    } else if i < 16 + RANGE_BITS {
        (2, false)
    } else {
        (2, true)
    }
}

/// Whether a declared degree is the given one.
pub open spec fn declares(degree: TransitionConstraintDegree, what: (int, bool)) -> bool {
    &&& degree.base == what.0
    &&& degree.cycles@ == (if what.1 {
        seq![ROUNDS]
    } else {
        Seq::<usize>::empty()
    })
}

/// The assertion with the given number: the statement's values first, then one
/// for the kind of each job.
pub open spec fn assertion(pi: PublicInputs, i: int) -> Assertion<BaseElement> {
    if i == 0 {
        Assertion { column: AUX_A, first_step: ROW_LEAF_FIRST, value: pi.registry_id }
    } else if i == 1 {
        Assertion { column: AUX_B, first_step: ROW_LEAF_FIRST, value: field::elem(0) }
    } else if i == 2 {
        Assertion { column: AUX_C, first_step: ROW_LEAF_FIRST, value: field::elem(1) }
    } else if i == 3 {
        Assertion { column: S0, first_step: ROW_MERKLE_LAST_OUTPUT, value: pi.merkle_root }
    } else if i == 4 {
        Assertion { column: AUX_A, first_step: ROW_NULLIFIER_FIRST, value: pi.purpose }
    } else if i == 5 {
        Assertion { column: AUX_B, first_step: ROW_NULLIFIER_FIRST, value: pi.request_nonce }
    } else if i == 6 {
        Assertion { column: S0, first_step: ROW_NULLIFIER_OUTPUT, value: pi.nullifier }
    } else {
        Assertion {
            column: layout::type_column(i - 7) as usize,
            first_step: ((i - 7) * ROUNDS) as usize,
            value: field::elem(1),
        }
    }
}

/// The value of a periodic column in a row: the round constants first, then
/// whether the row is the first of its job, then whether it is the last.
pub open spec fn periodic_value(col: int, row: int) -> BaseElement {
    let step = row % (ROUNDS as int);
    if col < STATE_WIDTH {
        permutation::round_constant(step, col)
    } else if col == STATE_WIDTH {
        field::elem(
            if step == 0 {
                1
            } else {
                0
            },
        )
    } else {
        field::elem(
            if step == ROUNDS - 1 {
                1
            } else {
                0
            },
        )
    }
}

/// The periodic values of a row.
pub open spec fn periodic_row(row: int) -> Seq<BaseElement> {
    Seq::new((STATE_WIDTH + 2) as nat, |col: int| periodic_value(col, row))
}

/// The constraint system for given public inputs.
#[derive(Clone, Debug)]
pub struct TitleAir {
    context: AirContext,
    pub_inputs: PublicInputs,
}

impl TitleAir {
    /// What the system declares of itself.
    pub closed spec fn declared(self) -> AirContext {
        self.context
    }

    /// The public inputs of the statement.
    pub closed spec fn inputs(self) -> PublicInputs {
        self.pub_inputs
    }

    /// The system for a trace of the fixed shape.
    pub fn new(trace_info: TraceInfo, pub_inputs: PublicInputs, options: ProofOptions) -> (r: TitleAir)
        requires
            trace_info.columns() == TRACE_WIDTH,
            trace_info.rows() == TRACE_LENGTH,
        ensures
            r.inputs() == pub_inputs,
            r.declared().trace_info == trace_info,
            r.declared().options == options,
            r.declared().num_assertions == NUM_ASSERTIONS,
            r.declared().transition_constraint_degrees@.len() == NUM_TRANSITION_CONSTRAINTS,
            forall|i: int|
                0 <= i < NUM_TRANSITION_CONSTRAINTS ==> declares(
                    #[trigger] r.declared().transition_constraint_degrees@[i],
                    degree_of(i),
                ),
    {
        let mut degrees: Vec<TransitionConstraintDegree> = Vec::new();
        let mut i: usize = 0;
        while i < NUM_TRANSITION_CONSTRAINTS
            invariant
                i <= NUM_TRANSITION_CONSTRAINTS,
                degrees@.len() == i,
                forall|k: int| 0 <= k < i ==> declares(#[trigger] degrees@[k], degree_of(k)),
            decreases NUM_TRANSITION_CONSTRAINTS - i,
        {
            let degree = if i < STATE_WIDTH || i == 15 {
                TransitionConstraintDegree::with_cycles(3, vec![ROUNDS])
            } else if i < 10 {
                TransitionConstraintDegree::new(1)
            } else if i < 14 || i == 16 + RANGE_BITS {
                TransitionConstraintDegree::with_cycles(2, vec![ROUNDS])
            } else if i == 14 {
                TransitionConstraintDegree::with_cycles(1, vec![ROUNDS])
            } else {
                TransitionConstraintDegree::new(2)
            };
            assert(degree.cycles@ =~= (if degree_of(i as int).1 {
                seq![ROUNDS]
            } else {
                Seq::<usize>::empty()
            }));
            assert(declares(degree, degree_of(i as int)));
            degrees.push(degree);
            i = i + 1;
        }
        TitleAir { context: AirContext::new(trace_info, degrees, NUM_ASSERTIONS, options), pub_inputs }
    }

    /// What the system declares of itself.
    pub fn context(&self) -> (r: &AirContext)
        ensures
            *r == self.declared(),
    {
        &self.context
    }

    /// The public inputs of the statement.
    pub fn pub_inputs(&self) -> (r: &PublicInputs)
        ensures
            *r == self.inputs(),
    {
        &self.pub_inputs
    }

    /// The state in which the next job starts, as its kind demands it.
    fn boundary_state<E: FieldElement>(cur: &[E], nxt: &[E]) -> (r: [E; STATE_WIDTH])
        requires
            cur@.len() >= TRACE_WIDTH,
            nxt@.len() >= TRACE_WIDTH,
        ensures
            r@ == boundary(cur@, nxt@),
    {
        let t_owner = nxt[T_OWNER];
        let t_leaf = nxt[T_LEAF];
        let t_merkle = nxt[T_MERKLE];
        let t_nullifier = nxt[T_NULLIFIER];
        let aux_a = nxt[AUX_A];
        let aux_b = nxt[AUX_B];
        let held_secret = cur[HELD_SECRET];
        let held_pid = cur[HELD_PID];
        let prev_out = cur[S0];

        let domain_owner = E::from_base(BaseElement::new(DOMAIN_OWNER_COMMITMENT as u128));
        let domain_leaf = E::from_base(BaseElement::new(DOMAIN_LEAF as u128));
        let domain_node = E::from_base(BaseElement::new(DOMAIN_NODE as u128));
        let domain_nullifier = E::from_base(BaseElement::new(DOMAIN_NULLIFIER as u128));

        let not_b = E::one().minus(aux_b);
        let left = aux_b.times(aux_a).plus(not_b.times(prev_out));
        let right = aux_b.times(prev_out).plus(not_b.times(aux_a));

        let s0 = t_owner.times(domain_owner).plus(t_leaf.times(domain_leaf)).plus(
            t_merkle.times(domain_node),
        ).plus(t_nullifier.times(domain_nullifier));
        let s1 = t_owner.times(held_secret).plus(t_leaf.times(aux_a)).plus(
            t_merkle.times(left),
        ).plus(t_nullifier.times(held_secret));
        let s2 = t_owner.times(held_pid).plus(t_leaf.times(prev_out)).plus(
            t_merkle.times(right),
        ).plus(t_nullifier.times(held_pid));
        let s3 = t_leaf.times(aux_b).plus(t_nullifier.times(aux_a));
        let s4 = t_leaf.times(nxt[AUX_C]).plus(t_nullifier.times(aux_b));
        let s5 = t_leaf.times(nxt[AUX_D]);
        let r: [E; STATE_WIDTH] = [s0, s1, s2, s3, s4, s5, E::zero(), E::zero()];
        assert(r@ =~= boundary(cur@, nxt@));
        r
    }

    /// The range bits of a row, weighted by powers of two.
    fn weighted_range_bits<E: FieldElement>(row: &[E]) -> (r: E)
        requires
            row@.len() >= TRACE_WIDTH,
        ensures
            r == weighted_bits(row@, RANGE_BITS as nat),
    {
        let mut weighted = E::zero();
        let mut weight: u128 = 1;
        let mut i: usize = 0;
        proof {
            lemma2_to64();
        }
        while i < RANGE_BITS
            invariant
                i <= RANGE_BITS,
                row@.len() >= TRACE_WIDTH,
                weight == pow2(i as nat),
                weighted == weighted_bits(row@, i as nat),
            decreases RANGE_BITS - i,
        {
            weighted = weighted.plus(row[RC_BIT_0 + i].times(E::from_base(BaseElement::new(weight))));
            proof {
                lemma_pow2_unfold((i + 1) as nat);
                lemma_pow2_strictly_increases(i as nat, 64);
                lemma2_to64();
            }
            weight = 2 * weight;
            i = i + 1;
        }
        weighted
    }

    /// Evaluates the transition constraints on two consecutive rows; entries of
    /// `result` beyond the constraints stay as they are.
    pub fn evaluate_transition<E: FieldElement>(
        &self,
        frame: &EvaluationFrame<E>,
        periodic_values: &[E],
        result: &mut [E],
    )
        requires
            frame.cur().len() >= TRACE_WIDTH,
            frame.nxt().len() >= TRACE_WIDTH,
            periodic_values@.len() >= STATE_WIDTH + 2,
            old(result)@.len() >= NUM_TRANSITION_CONSTRAINTS,
        ensures
            final(result)@.len() == old(result)@.len(),
            forall|i: int|
                0 <= i < NUM_TRANSITION_CONSTRAINTS ==> #[trigger] final(result)@[i] == constraint(
                    self.inputs().current_timestamp,
                    frame.cur(),
                    frame.nxt(),
                    periodic_values@,
                    i,
                ),
            forall|i: int|
                NUM_TRANSITION_CONSTRAINTS <= i < old(result)@.len() ==> #[trigger] final(result)@[i]
                    == old(result)@[i],
    {
        let cur = frame.current();
        let nxt = frame.next();
        let is_first = periodic_values[STATE_WIDTH];
        let is_last = periodic_values[STATE_WIDTH + 1];
        let not_last = E::one().minus(is_last);
        let ghost ts = self.inputs().current_timestamp;
        let ghost n = result@.len();
        let ghost result0 = result@;

        // Inside a job the state follows the permutation, between jobs the
        // boundary rule.
        let mut state: [E; STATE_WIDTH] = [E::zero(); STATE_WIDTH];
        let mut constants: [E; STATE_WIDTH] = [E::zero(); STATE_WIDTH];
        let mut i: usize = 0;
        while i < STATE_WIDTH
            invariant
                i <= STATE_WIDTH,
                cur@.len() >= TRACE_WIDTH,
                periodic_values@.len() >= STATE_WIDTH + 2,
                forall|k: int| 0 <= k < i ==> #[trigger] state@[k] == cur@[k],
                forall|k: int| 0 <= k < i ==> #[trigger] constants@[k] == periodic_values@[k],
            decreases STATE_WIDTH - i,
        {
            state[i] = cur[i];
            constants[i] = periodic_values[i];
            i = i + 1;
        }
        assert(state@ =~= lanes(cur@));
        assert(constants@ =~= lanes(periodic_values@));
        let round_next = apply_round(&state, &constants);
        let boundary_next = Self::boundary_state(cur, nxt);
        i = 0;
        while i < STATE_WIDTH
            invariant
                i <= STATE_WIDTH,
                nxt@.len() >= TRACE_WIDTH,
                periodic_values@.len() >= STATE_WIDTH + 2,
                is_last == periodic_values@[STATE_WIDTH + 1],
                not_last == E::spec_one().spec_minus(is_last),
                round_next@ == permutation::after_round(lanes(cur@), lanes(periodic_values@)),
                boundary_next@ == boundary(cur@, nxt@),
                n >= NUM_TRANSITION_CONSTRAINTS,
                result@.len() == n,
                forall|k: int|
                    0 <= k < i ==> #[trigger] result@[k] == constraint(
                        ts,
                        cur@,
                        nxt@,
                        periodic_values@,
                        k,
                    ),
                forall|k: int| i <= k < n ==> #[trigger] result@[k] == result0[k],
            decreases STATE_WIDTH - i,
        {
            result[i] = nxt[i].minus(
                not_last.times(round_next[i]).plus(is_last.times(boundary_next[i])),
            );
            i = i + 1;
        }

        // The secret and the property are held over the whole trace.
        result[8] = nxt[HELD_SECRET].minus(cur[HELD_SECRET]);
        result[9] = nxt[HELD_PID].minus(cur[HELD_PID]);

        // In its first row a job is of exactly one kind.
        result[10] = is_first.times(cur[T_OWNER].times(cur[T_OWNER]).minus(cur[T_OWNER]));
        result[11] = is_first.times(cur[T_LEAF].times(cur[T_LEAF]).minus(cur[T_LEAF]));
        result[12] = is_first.times(cur[T_MERKLE].times(cur[T_MERKLE]).minus(cur[T_MERKLE]));
        result[13] = is_first.times(cur[T_NULLIFIER].times(cur[T_NULLIFIER]).minus(cur[T_NULLIFIER]));
        result[14] = is_first.times(
            cur[T_OWNER].plus(cur[T_LEAF]).plus(cur[T_MERKLE]).plus(cur[T_NULLIFIER]).minus(E::one()),
        );

        // The direction of a Merkle step is a bit.
        result[15] = is_first.times(cur[T_MERKLE]).times(
            cur[AUX_B].times(cur[AUX_B]).minus(cur[AUX_B]),
        );

        assert forall|k: int| 0 <= k < 16 implies #[trigger] result@[k] == constraint(
            ts,
            cur@,
            nxt@,
            periodic_values@,
            k,
        ) by {
            if k >= 10 && k < 14 {
                assert(T_OWNER + (k - 10) == 14 + (k - 10));
            }
        }

        // The range bits are bits everywhere.
        i = 0;
        while i < RANGE_BITS
            invariant
                i <= RANGE_BITS,
                cur@.len() >= TRACE_WIDTH,
                n >= NUM_TRANSITION_CONSTRAINTS,
                result@.len() == n,
                forall|k: int|
                    0 <= k < 16 + i ==> #[trigger] result@[k] == constraint(
                        ts,
                        cur@,
                        nxt@,
                        periodic_values@,
                        k,
                    ),
                forall|k: int| 16 + i <= k < n ==> #[trigger] result@[k] == result0[k],
            decreases RANGE_BITS - i,
        {
            let b = cur[RC_BIT_0 + i];
            result[16 + i] = b.times(b).minus(b);
            i = i + 1;
        }

        // In the leaf job they spell out how long the license lasts.
        let weighted = Self::weighted_range_bits(cur);
        let timestamp = E::from_base(self.pub_inputs.current_timestamp);
        let remaining = cur[AUX_D].minus(timestamp).minus(E::one());
        result[16 + RANGE_BITS] = is_first.times(cur[T_LEAF]).times(weighted.minus(remaining));
    }

    /// The cells that a trace of the statement has to hold.
    pub fn get_assertions(&self) -> (r: Vec<Assertion<BaseElement>>)
        ensures
            r@ == Seq::new(NUM_ASSERTIONS as nat, |i: int| assertion(self.inputs(), i)),
    {
        let pi = &self.pub_inputs;
        let mut a: Vec<Assertion<BaseElement>> = vec![
            Assertion::single(AUX_A, ROW_LEAF_FIRST, pi.registry_id),
            Assertion::single(AUX_B, ROW_LEAF_FIRST, BaseElement::new(0)),
            Assertion::single(AUX_C, ROW_LEAF_FIRST, BaseElement::new(1)),
            Assertion::single(S0, ROW_MERKLE_LAST_OUTPUT, pi.merkle_root),
            Assertion::single(AUX_A, ROW_NULLIFIER_FIRST, pi.purpose),
            Assertion::single(AUX_B, ROW_NULLIFIER_FIRST, pi.request_nonce),
            Assertion::single(S0, ROW_NULLIFIER_OUTPUT, pi.nullifier),
        ];
        let mut job: usize = 0;
        while job < JOB_COUNT
            invariant
                job <= JOB_COUNT,
                a@.len() == 7 + job,
                forall|i: int| 0 <= i < 7 + job ==> #[trigger] a@[i] == assertion(self.inputs(), i),
            decreases JOB_COUNT - job,
        {
            a.push(Assertion::single(job_type_column(job), job_start_row(job), BaseElement::new(1)));
            job = job + 1;
        }
        a
    }

    /// The periodic columns, one period of each.
    pub fn get_periodic_column_values(&self) -> (r: Vec<Vec<BaseElement>>)
        ensures
            r@.len() == STATE_WIDTH + 2,
            forall|col: int|
                0 <= col < STATE_WIDTH + 2 ==> (#[trigger] r@[col])@ == Seq::new(
                    ROUNDS as nat,
                    |row: int| periodic_value(col, row),
                ),
    {
        let constants = round_constants();
        let mut cols: Vec<Vec<BaseElement>> = Vec::new();
        let mut col: usize = 0;
        while col < STATE_WIDTH + 2
            invariant
                col <= STATE_WIDTH + 2,
                cols@.len() == col,
                forall|k: int|
                    0 <= k < ROUNDS ==> (#[trigger] constants@[k])@ == permutation::constants_of(k),
                forall|c: int|
                    0 <= c < col ==> (#[trigger] cols@[c])@ == Seq::new(
                        ROUNDS as nat,
                        |row: int| periodic_value(c, row),
                    ),
            decreases STATE_WIDTH + 2 - col,
        {
            let mut values: Vec<BaseElement> = Vec::new();
            let mut row: usize = 0;
            while row < ROUNDS
                invariant
                    col < STATE_WIDTH + 2,
                    row <= ROUNDS,
                    forall|k: int|
                        0 <= k < ROUNDS ==> (#[trigger] constants@[k])@ == permutation::constants_of(k),
                    values@ == Seq::new(row as nat, |r: int| periodic_value(col as int, r)),
                decreases ROUNDS - row,
            {
                let value = if col < STATE_WIDTH {
                    constants[row][col]
                } else if (col == STATE_WIDTH && row == 0) || (col == STATE_WIDTH + 1 && row == ROUNDS
                    - 1) {
                    BaseElement::new(1)
                } else {
                    BaseElement::new(0)
                };
                assert(value == periodic_value(col as int, row as int));
                values.push(value);
                row = row + 1;
            }
            cols.push(values);
            col = col + 1;
        }
        cols
    }
}

} // verus!
