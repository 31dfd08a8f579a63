//! What a constraint system says of itself: the shape of its trace, the degrees
//! of its constraints, its assertions, and the rows that a constraint reads.

use vstd::arithmetic::power2::*;
use vstd::prelude::*;

use crate::field::FieldElement;

verus! {

/// The degree of the field extension that a proof draws its challenges from.
#[derive(Clone, Copy, Debug, PartialEq, Eq, Structural)]
pub enum FieldExtension {
    Base,
    Quadratic,
    Cubic,
}

/// How a proof combines its constraints or its openings.
#[derive(Clone, Copy, Debug, PartialEq, Eq, Structural)]
pub enum BatchingMethod {
    Linear,
    Algebraic,
    Horner,
}

/// The parameters of a proof.
#[derive(Clone, Copy, Debug, PartialEq, Eq, Structural)]
pub struct ProofOptions {
    pub num_queries: usize,
    pub blowup_factor: usize,
    pub grinding_factor: u32,
    pub field_extension: FieldExtension,
    pub fri_folding_factor: usize,
    pub fri_remainder_max_degree: usize,
    pub batching_constraints: BatchingMethod,
    pub batching_deep: BatchingMethod,
}

/// Options that suit a demonstration.
pub fn demo_proof_options() -> (r: ProofOptions)
    ensures
        r == (ProofOptions {
            num_queries: 28,
            blowup_factor: 8,
            grinding_factor: 0,
            field_extension: FieldExtension::Base,
            fri_folding_factor: 4,
            fri_remainder_max_degree: 7,
            batching_constraints: BatchingMethod::Linear,
            batching_deep: BatchingMethod::Linear,
        }),
{
    ProofOptions {
        num_queries: 28,
        blowup_factor: 8,
        grinding_factor: 0,
        field_extension: FieldExtension::Base,
        fri_folding_factor: 4,
        fri_remainder_max_degree: 7,
        batching_constraints: BatchingMethod::Linear,
        batching_deep: BatchingMethod::Linear,
    }
}

/// The least number of rows that a trace has.
pub const MIN_TRACE_LENGTH: usize = 8;

/// The shape of a trace.
#[derive(Clone, Copy, Debug, PartialEq, Eq, Structural)]
pub struct TraceInfo {
    width: usize,
    length: usize,
}

impl TraceInfo {
    /// The number of columns.
    pub closed spec fn columns(self) -> usize {
        self.width
    }

    /// The number of rows.
    pub closed spec fn rows(self) -> usize {
        self.length
    }

    /// Describes a trace of `width` columns and `length` rows.
    pub fn new(width: usize, length: usize) -> (r: TraceInfo)
        requires
            width > 0,
            length >= MIN_TRACE_LENGTH,
            is_pow2(length as int),
        ensures
            r.columns() == width,
            r.rows() == length,
    {
        TraceInfo { width, length }
    }

    /// The number of columns.
    pub fn width(&self) -> (r: usize)
        ensures
            r == self.columns(),
    {
        self.width
    }

    /// The number of rows.
    pub fn length(&self) -> (r: usize)
        ensures
            r == self.rows(),
    {
        self.length
    }
}

/// The degree of a transition constraint: a power of the trace polynomials,
/// times a periodic polynomial for each cycle.
#[derive(Clone, Debug)]
pub struct TransitionConstraintDegree {
    pub base: usize,
    pub cycles: Vec<usize>,
}

impl TransitionConstraintDegree {
    /// A degree over the trace alone.
    pub fn new(degree: usize) -> (r: TransitionConstraintDegree)
        requires
            degree > 0,
        ensures
            r.base == degree,
            r.cycles@ == Seq::<usize>::empty(),
    {
        TransitionConstraintDegree { base: degree, cycles: Vec::new() }
    }

    /// A degree over the trace and periodic columns of the given cycles.
    pub fn with_cycles(base_degree: usize, cycles: Vec<usize>) -> (r: TransitionConstraintDegree)
        requires
            base_degree > 0,
        ensures
            r.base == base_degree,
            r.cycles == cycles,
    {
        TransitionConstraintDegree { base: base_degree, cycles }
    }
}

/// A value that one cell of the trace has to hold.
#[derive(Clone, Copy, Debug)]
pub struct Assertion<B> {
    pub column: usize,
    pub first_step: usize,
    pub value: B,
}

impl<B> Assertion<B> {
    /// Asserts one cell.
    pub fn single(column: usize, step: usize, value: B) -> (r: Assertion<B>)
        ensures
            r == (Assertion { column, first_step: step, value }),
    {
        Assertion { column, first_step: step, value }
    }
}

/// What a constraint system declares of itself.
#[derive(Clone, Debug)]
pub struct AirContext {
    pub trace_info: TraceInfo,
    pub transition_constraint_degrees: Vec<TransitionConstraintDegree>,
    pub num_assertions: usize,
    pub options: ProofOptions,
}

impl AirContext {
    /// Declares a constraint system.
    pub fn new(
        trace_info: TraceInfo,
        transition_constraint_degrees: Vec<TransitionConstraintDegree>,
        num_assertions: usize,
        options: ProofOptions,
    ) -> (r: AirContext)
        requires
            num_assertions > 0,
        ensures
            r.trace_info == trace_info,
            r.transition_constraint_degrees == transition_constraint_degrees,
            r.num_assertions == num_assertions,
            r.options == options,
    {
        AirContext { trace_info, transition_constraint_degrees, num_assertions, options }
    }
}

/// Two consecutive rows of a trace.
#[derive(Clone, Debug)]
pub struct EvaluationFrame<E> {
    current: Vec<E>,
    next: Vec<E>,
}

impl<E: FieldElement> EvaluationFrame<E> {
    /// The earlier row.
    pub closed spec fn cur(self) -> Seq<E> {
        self.current@
    }

    /// The later row.
    pub closed spec fn nxt(self) -> Seq<E> {
        self.next@
    }

    /// Two rows of zeros.
    pub fn new(num_columns: usize) -> (r: EvaluationFrame<E>)
        ensures
            r.cur() == Seq::new(num_columns as nat, |i: int| E::spec_zero()),
            r.nxt() == Seq::new(num_columns as nat, |i: int| E::spec_zero()),
    {
        EvaluationFrame { current: zeros(num_columns), next: zeros(num_columns) }
    }

    /// The given rows.
    pub fn from_rows(current: Vec<E>, next: Vec<E>) -> (r: EvaluationFrame<E>)
        requires
            current@.len() == next@.len(),
        ensures
            r.cur() == current@,
            r.nxt() == next@,
    {
        EvaluationFrame { current, next }
    }

    /// The earlier row.
    pub fn current(&self) -> (r: &[E])
        ensures
            r@ == self.cur(),
    {
        self.current.as_slice()
    }

    /// The later row.
    pub fn next(&self) -> (r: &[E])
        ensures
            r@ == self.nxt(),
    {
        self.next.as_slice()
    }

    /// The earlier row, to write to.
    pub fn current_mut(&mut self) -> (r: &mut [E])
        ensures
            r@ == old(self).cur(),
            final(self).cur() == final(r)@,
            final(self).nxt() == old(self).nxt(),
    {
        self.current.as_mut_slice()
    }

    /// The later row, to write to.
    pub fn next_mut(&mut self) -> (r: &mut [E])
        ensures
            r@ == old(self).nxt(),
            final(self).nxt() == final(r)@,
            final(self).cur() == old(self).cur(),
    {
        self.next.as_mut_slice()
    }
}

/// A vector of `n` zeros.
pub fn zeros<E: FieldElement>(n: usize) -> (r: Vec<E>)
    ensures
        r@ == Seq::new(n as nat, |i: int| E::spec_zero()),
{
    let mut r: Vec<E> = Vec::new();
    let mut i: usize = 0;
    while i < n
        invariant
            i <= n,
            r@ == Seq::new(i as nat, |k: int| E::spec_zero()),
        decreases n - i,
    {
        r.push(E::zero());
        i = i + 1;
    }
    r
}

} // verus!
