//! Soundness: where all constraints vanish, in every row and from the last row to
//! the first, and all assertions hold, the statement holds.

use vstd::arithmetic::div_mod::*;
use vstd::arithmetic::mul::*;
use vstd::arithmetic::power2::*;
use vstd::prelude::*;

use crate::air;
use crate::air::PublicInputs;
use crate::algebra;
use crate::certificate;
use crate::field;
use crate::field::{BaseElement, FieldElement};
use crate::honest;
use crate::layout;
use crate::layout::{
    AUX_A, AUX_B, AUX_C, AUX_D, HELD_PID, HELD_SECRET,
    JOB_COUNT, JOB_LEAF, JOB_MERKLE_FIRST, JOB_MERKLE_LAST, JOB_NULLIFIER, JOB_OWNER,
    NUM_ASSERTIONS, NUM_TRANSITION_CONSTRAINTS, RANGE_BITS, RC_BIT_0, ROUNDS, ROW_LEAF_FIRST, S0,
    STATE_WIDTH, TRACE_LENGTH, TRACE_WIDTH, TREE_DEPTH, T_LEAF, T_MERKLE, T_NULLIFIER, T_OWNER,
};
use crate::permutation;
use crate::primality;
use crate::statement;
use crate::statement::Knowledge;
use crate::trace;

verus! {

/// Only zero and one are their own squares.
pub proof fn lemma_gap_closed(x: BaseElement)
    requires
        x.wf(),
        air::boolean_gap(x) == field::elem(0),
    ensures
        x == field::elem(0) || x == field::elem(1),
{
    let p = field::p();
    field::lemma_elem_of_view(x);
    algebra::lemma_reduction(x@, x@);
    algebra::lemma_reduction(x@ * x@, x@);
    assert(air::boolean_gap(x) == field::elem(x@ * x@ - x@));
    field::lemma_elem_view(x@ * x@ - x@);
    field::lemma_elem_view(0);
    lemma_small_mod(0, p as nat);
    assert(x@ * (x@ - 1) == x@ * x@ - x@) by (nonlinear_arith);
    certificate::law_modulus_is_prime();
    primality::lemma_euclid(p, x@, x@ - 1);
    lemma_small_mod(x@ as nat, p as nat);
    if x@ > 0 {
        lemma_small_mod((x@ - 1) as nat, p as nat);
    }
}

/// Values other than zero and one always leave a gap.
pub proof fn law_boolean_violations_are_caught(x: BaseElement)
    requires
        x.wf(),
        x != field::elem(0),
        x != field::elem(1),
    ensures
        air::boolean_gap(x) != field::elem(0),
{
    if air::boolean_gap(x) == field::elem(0) {
        lemma_gap_closed(x);
    }
}

/// Whether columns hold elements only.
pub open spec fn cells_wf(cols: Seq<Vec<BaseElement>>) -> bool {
    forall|c: int, r: int|
        0 <= c < TRACE_WIDTH && 0 <= r < TRACE_LENGTH ==> (#[trigger] cols[c]@[r]).wf()
}

/// Whether all constraints vanish in all rows, the first row being next to the
/// last.
pub open spec fn constraints_vanish(ts: BaseElement, cols: Seq<Vec<BaseElement>>) -> bool {
    forall|step: int, i: int|
        0 <= step < TRACE_LENGTH && 0 <= i < NUM_TRANSITION_CONSTRAINTS
            ==> #[trigger] air::constraint(
            ts,
            trace::row_of(cols, step),
            trace::row_of(cols, (step + 1) % (TRACE_LENGTH as int)),
            air::periodic_row(step),
            i,
        ) == field::elem(0)
}

/// Whether all assertions hold.
pub open spec fn assertions_hold(pi: PublicInputs, cols: Seq<Vec<BaseElement>>) -> bool {
    forall|i: int|
        0 <= i < NUM_ASSERTIONS ==> {
            let a = #[trigger] air::assertion(pi, i);
            cols[a.column as int]@[a.first_step as int] == a.value
        }
}

/// Whether a trace satisfies the system.
pub open spec fn satisfies(pi: PublicInputs, cols: Seq<Vec<BaseElement>>) -> bool {
    &&& trace::shaped(cols)
    &&& cells_wf(cols)
    &&& constraints_vanish(pi.current_timestamp, cols)
    &&& assertions_hold(pi, cols)
}

proof fn lemma_row_wf(cols: Seq<Vec<BaseElement>>, row: int)
    requires
        trace::shaped(cols),
        cells_wf(cols),
        0 <= row < TRACE_LENGTH,
    ensures
        honest::row_wf(trace::row_of(cols, row)),
{
    assert forall|c: int| 0 <= c < TRACE_WIDTH implies (#[trigger] trace::row_of(cols, row)[c]).wf() by {
        assert(cols[c]@[row].wf());
    }
}

/// A constraint in a row, spelled out.
proof fn lemma_vanishes(ts: BaseElement, cols: Seq<Vec<BaseElement>>, step: int, next: int, i: int)
    requires
        constraints_vanish(ts, cols),
        0 <= step < TRACE_LENGTH,
        0 <= i < NUM_TRANSITION_CONSTRAINTS,
        next == if step == TRACE_LENGTH - 1 {
            0
        } else {
            step + 1
        },
    ensures
        air::constraint(
            ts,
            trace::row_of(cols, step),
            trace::row_of(cols, next),
            air::periodic_row(step),
            i,
        ) == field::elem(0),
{
    honest::lemma_next(step);
}

/// Inside a job the state follows the permutation.
proof fn lemma_job_rounds(pi: PublicInputs, cols: Seq<Vec<BaseElement>>, job: int, s: nat)
    requires
        satisfies(pi, cols),
        0 <= job < JOB_COUNT,
        s < ROUNDS,
    ensures
        air::lanes(trace::row_of(cols, job * ROUNDS + s)) == permutation::permuted(
            air::lanes(trace::row_of(cols, job * ROUNDS)),
            s,
        ),
    decreases s,
{
    let start = air::lanes(trace::row_of(cols, job * ROUNDS));
    if s > 0 {
        let m = (s - 1) as nat;
        lemma_job_rounds(pi, cols, job, m);
        let step = job * ROUNDS + m;
        let cur = trace::row_of(cols, step);
        let nxt = trace::row_of(cols, step + 1);
        lemma_row_wf(cols, step + 1);
        assert(step % (ROUNDS as int) == m);
        assert forall|i: int| 0 <= i < STATE_WIDTH implies air::lanes(nxt)[i]
            == permutation::permuted(start, s)[i] by {
            lemma_vanishes(pi.current_timestamp, cols, step, step + 1, i);
            honest::lemma_state_constraint(pi.current_timestamp, cur, nxt, step, i);
        }
        assert(air::lanes(nxt) =~= permutation::permuted(start, s));
    }
}

/// A job ends with the digest of its first state.
proof fn lemma_job_digest(pi: PublicInputs, cols: Seq<Vec<BaseElement>>, job: int)
    requires
        satisfies(pi, cols),
        0 <= job < JOB_COUNT,
    ensures
        trace::row_of(cols, job * ROUNDS + ROUNDS - 1)[S0 as int] == permutation::digest(
            air::lanes(trace::row_of(cols, job * ROUNDS)),
        ),
{
    lemma_job_rounds(pi, cols, job, (ROUNDS - 1) as nat);
    let last = trace::row_of(cols, job * ROUNDS + ROUNDS - 1);
    assert(air::lanes(last)[0] == last[0]);
}

/// A job starts as the boundary demands.
proof fn lemma_job_boundary(pi: PublicInputs, cols: Seq<Vec<BaseElement>>, job: int, next_job: int)
    requires
        satisfies(pi, cols),
        0 <= job < JOB_COUNT,
        next_job == if job == JOB_COUNT - 1 {
            0
        } else {
            job + 1
        },
    ensures
        air::lanes(trace::row_of(cols, next_job * ROUNDS)) == air::boundary(
            trace::row_of(cols, job * ROUNDS + ROUNDS - 1),
            trace::row_of(cols, next_job * ROUNDS),
        ),
{
    let step = job * ROUNDS + ROUNDS - 1;
    let next = next_job * ROUNDS;
    let cur = trace::row_of(cols, step);
    let nxt = trace::row_of(cols, next);
    lemma_row_wf(cols, next);
    assert(step % (ROUNDS as int) == ROUNDS - 1);
    assert forall|i: int| 0 <= i < STATE_WIDTH implies air::lanes(nxt)[i] == air::boundary(
        cur,
        nxt,
    )[i] by {
        lemma_vanishes(pi.current_timestamp, cols, step, next, i);
        honest::lemma_state_constraint(pi.current_timestamp, cur, nxt, step, i);
    }
    assert(air::lanes(nxt) =~= air::boundary(cur, nxt));
}

/// The secret and the property are the same in all rows.
proof fn lemma_held(pi: PublicInputs, cols: Seq<Vec<BaseElement>>, row: int)
    requires
        satisfies(pi, cols),
        0 <= row < TRACE_LENGTH,
    ensures
        trace::row_of(cols, row)[HELD_SECRET as int] == trace::row_of(cols, 0)[HELD_SECRET as int],
        trace::row_of(cols, row)[HELD_PID as int] == trace::row_of(cols, 0)[HELD_PID as int],
    decreases row,
{
    if row > 0 {
        lemma_held(pi, cols, row - 1);
        lemma_row_wf(cols, row);
        lemma_row_wf(cols, row - 1);
        let cur = trace::row_of(cols, row - 1);
        let nxt = trace::row_of(cols, row);
        lemma_vanishes(pi.current_timestamp, cols, row - 1, row, 8);
        lemma_vanishes(pi.current_timestamp, cols, row - 1, row, 9);
        algebra::lemma_difference_vanishes(nxt[HELD_SECRET as int], cur[HELD_SECRET as int]);
        algebra::lemma_difference_vanishes(nxt[HELD_PID as int], cur[HELD_PID as int]);
    }
}

/// Four bits that add up to one, one of which is one.
proof fn lemma_one_hot(a: BaseElement, b: BaseElement, c: BaseElement, d: BaseElement)
    requires
        a == field::elem(0) || a == field::elem(1),
        b == field::elem(0) || b == field::elem(1),
        c == field::elem(0) || c == field::elem(1),
        d == field::elem(0) || d == field::elem(1),
        a.spec_plus(b).spec_plus(c).spec_plus(d).spec_minus(field::elem(1)) == field::elem(0),
    ensures
        a@ + b@ + c@ + d@ == 1,
{
    broadcast use field::group_elem;

    assert(field::elem(0)@ == 0);
    assert(field::elem(1)@ == 1);
    algebra::lemma_reduction(a@, b@);
    algebra::lemma_reduction(a@ + b@, c@);
    algebra::lemma_reduction(a@ + b@ + c@, d@);
    let sum = a@ + b@ + c@ + d@;
    algebra::lemma_difference_vanishes(field::elem(sum), field::elem(1));
    if sum != 1 {
        algebra::lemma_small_distinct(sum, 1);
    }
}

/// The first row of a job is marked as being of the job's kind.
proof fn lemma_job_marked(pi: PublicInputs, cols: Seq<Vec<BaseElement>>, job: int)
    requires
        satisfies(pi, cols),
        0 <= job < JOB_COUNT,
    ensures
        honest::marked(trace::row_of(cols, job * ROUNDS), layout::type_column(job)),
{
    broadcast use field::group_elem;

    let step = job * ROUNDS;
    let next = step + 1;
    let cur = trace::row_of(cols, step);
    let ts = pi.current_timestamp;
    lemma_row_wf(cols, step);
    honest::lemma_gates(step);
    assert(step % (ROUNDS as int) == 0);
    assert forall|i: int| 10 <= i < 14 implies #[trigger] cur[T_OWNER + (i - 10)] == field::elem(0)
        || cur[T_OWNER + (i - 10)] == field::elem(1) by {
        lemma_vanishes(ts, cols, step, next, i);
        let gap = air::boolean_gap(cur[T_OWNER + (i - 10)]);
        algebra::lemma_neutral(gap);
        lemma_gap_closed(cur[T_OWNER + (i - 10)]);
    }
    let (a, b, c, d) = (
        cur[T_OWNER as int],
        cur[T_LEAF as int],
        cur[T_MERKLE as int],
        cur[T_NULLIFIER as int],
    );
    assert(cur[T_OWNER + (10 - 10)] == a);
    assert(cur[T_OWNER + (11 - 10)] == b);
    assert(cur[T_OWNER + (12 - 10)] == c);
    assert(cur[T_OWNER + (13 - 10)] == d);
    lemma_vanishes(ts, cols, step, next, 14);
    let sum = a.spec_plus(b).spec_plus(c).spec_plus(d).spec_minus(field::elem(1));
    algebra::lemma_neutral(sum);
    lemma_one_hot(a, b, c, d);
    let asserted = air::assertion(pi, 7 + job);
    assert(cur[layout::type_column(job)] == field::elem(1));
    assert(field::elem(0)@ == 0);
    assert(field::elem(1)@ == 1);
}

/// The direction of a Merkle step is a bit.
proof fn lemma_direction(pi: PublicInputs, cols: Seq<Vec<BaseElement>>, job: int)
    requires
        satisfies(pi, cols),
        0 <= job < JOB_COUNT,
        layout::type_column(job) == T_MERKLE,
    ensures
        ({
            let b = trace::row_of(cols, job * ROUNDS)[AUX_B as int];
            b == field::elem(0) || b == field::elem(1)
        }),
{
    broadcast use field::group_elem;

    let step = job * ROUNDS;
    let cur = trace::row_of(cols, step);
    lemma_row_wf(cols, step);
    lemma_job_marked(pi, cols, job);
    honest::lemma_gates(step);
    assert(step % (ROUNDS as int) == 0);
    lemma_vanishes(pi.current_timestamp, cols, step, step + 1, 15);
    assert(cur[T_MERKLE as int] == field::elem(1));
    let gap = air::boolean_gap(cur[AUX_B as int]);
    algebra::lemma_neutral(field::elem(1));
    algebra::lemma_neutral(gap);
    lemma_gap_closed(cur[AUX_B as int]);
}

/// Bits weighted by powers of two add up to a number below the next power, whose
/// bits they are.
proof fn lemma_weighted_range(row: Seq<BaseElement>, n: nat) -> (s: int)
    requires
        n <= RANGE_BITS,
        forall|k: int|
            0 <= k < n ==> #[trigger] row[RC_BIT_0 + k] == field::elem(0) || row[RC_BIT_0 + k]
                == field::elem(1),
    ensures
        0 <= s < pow2(n),
        air::weighted_bits(row, n) == field::elem(s),
        forall|k: int|
            0 <= k < n ==> #[trigger] row[RC_BIT_0 + k] == field::elem(trace::bit(s, k as nat)),
    decreases n,
{
    if n == 0 {
        lemma2_to64();
        0
    } else {
        let m = (n - 1) as nat;
        let below = lemma_weighted_range(row, m);
        lemma_pow2_unfold(n);
        let h = pow2(m) as int;
        assert(row[RC_BIT_0 + m] == field::elem(0) || row[RC_BIT_0 + m] == field::elem(1));
        let b: int = if row[RC_BIT_0 + m] == field::elem(0) {
            0
        } else {
            1
        };
        algebra::lemma_reduction(b, h);
        algebra::lemma_reduction(below, b * h);
        assert(b * h == 0 || b * h == h) by (nonlinear_arith)
            requires
                b == 0 || b == 1,
        ;
        lemma_top_bit(below, b, m);
        assert forall|k: int| 0 <= k < n implies #[trigger] row[RC_BIT_0 + k] == field::elem(
            trace::bit(below + b * h, k as nat),
        ) by {
            if k < m {
                lemma_lower_bit(below, b, m, k as nat);
            }
        }
        below + b * h
    }
}

/// The bit that is put on top of a number is its top bit.
proof fn lemma_top_bit(below: int, b: int, m: nat)
    requires
        0 <= below < pow2(m),
        b == 0 || b == 1,
    ensures
        trace::bit(below + b * pow2(m), m) == b,
{
    let h = pow2(m) as int;
    lemma_fundamental_div_mod_converse(below + b * h, h, b, below);
    lemma_small_mod(b as nat, 2);
}

/// A bit that is put on top of a number leaves its bits below alone.
proof fn lemma_lower_bit(below: int, b: int, m: nat, k: nat)
    requires
        0 <= below,
        k < m,
    ensures
        trace::bit(below + b * pow2(m), k) == trace::bit(below, k),
{
    let c = pow2(k) as int;
    let rest = pow2((m - k - 1) as nat) as int;
    lemma_pow2_pos(k);
    lemma_pow2_adds(k, (m - k) as nat);
    lemma_pow2_unfold((m - k) as nat);
    assert(pow2(m) == c * (2 * rest));
    assert(b * (c * (2 * rest)) == c * (b * (2 * rest))) by (nonlinear_arith);
    lemma_hoist_over_denominator(below, b * (2 * rest), c as nat);
    assert(below / c + b * (2 * rest) == 2 * (b * rest) + below / c) by (nonlinear_arith);
    lemma_mod_multiples_vanish(b * rest, below / c, 2);
}

/// The bits of the seconds that a license lasts, as far as the range check counts.
pub open spec fn range_bits(v: int) -> Seq<BaseElement> {
    Seq::new(RANGE_BITS as nat, |k: int| field::elem(trace::bit(v, k as nat)))
}

/// The range bits of a row.
pub open spec fn bits_of_row(row: Seq<BaseElement>) -> Seq<BaseElement> {
    Seq::new(RANGE_BITS as nat, |k: int| row[RC_BIT_0 + k])
}

/// A row with other range bits.
pub open spec fn with_range_bits(row: Seq<BaseElement>, bits: Seq<BaseElement>) -> Seq<BaseElement> {
    Seq::new(
        row.len(),
        |c: int|
            if RC_BIT_0 <= c < RC_BIT_0 + RANGE_BITS {
                bits[c - RC_BIT_0]
            } else {
                row[c]
            },
    )
}

/// Whether the constraints on range bits vanish in a row.
pub open spec fn range_checked(
    ts: BaseElement,
    cur: Seq<BaseElement>,
    nxt: Seq<BaseElement>,
    periodic: Seq<BaseElement>,
) -> bool {
    forall|i: int|
        16 <= i < NUM_TRANSITION_CONSTRAINTS ==> #[trigger] air::constraint(ts, cur, nxt, periodic, i)
            == field::elem(0)
}

/// Whether range bits are elements, one for each column.
pub open spec fn are_range_bits(bits: Seq<BaseElement>) -> bool {
    &&& bits.len() == RANGE_BITS
    &&& forall|k: int| 0 <= k < RANGE_BITS ==> (#[trigger] bits[k]).wf()
}

/// Whether range bits satisfy their constraints when they are put into a row.
pub open spec fn fit(
    bits: Seq<BaseElement>,
    ts: BaseElement,
    cur: Seq<BaseElement>,
    nxt: Seq<BaseElement>,
    periodic: Seq<BaseElement>,
) -> bool {
    are_range_bits(bits) && range_checked(ts, with_range_bits(cur, bits), nxt, periodic)
}

/// In the first row of a leaf job the constraint on the sum of the range bits
/// vanishes exactly where the bits weigh what is left of the license.
proof fn lemma_range_sum(
    expiry: u64,
    ts: u64,
    cur: Seq<BaseElement>,
    nxt: Seq<BaseElement>,
    periodic: Seq<BaseElement>,
    weight: int,
)
    requires
        periodic[STATE_WIDTH as int] == field::elem(1),
        cur[T_LEAF as int] == field::elem(1),
        cur[AUX_D as int] == field::elem(expiry as int),
        air::weighted_bits(cur, RANGE_BITS as nat) == field::elem(weight),
        0 <= weight < 0x1_0000_0000,
    ensures
        air::constraint(field::elem(ts as int), cur, nxt, periodic, 16 + RANGE_BITS) == field::elem(0)
            <==> weight == expiry - ts - 1,
{
    broadcast use field::group_elem;

    let one = field::elem(1);
    let remaining = field::elem(expiry as int).spec_minus(field::elem(ts as int)).spec_minus(one);
    let gap = field::elem(weight).spec_minus(remaining);
    algebra::lemma_neutral(one);
    algebra::lemma_neutral(gap);
    algebra::lemma_reduction(expiry as int, ts as int);
    algebra::lemma_reduction(expiry - ts, 1);
    assert(remaining == field::elem(expiry - ts - 1));
    algebra::lemma_difference_vanishes(field::elem(weight), remaining);
    // Both sides, moved up beyond zero, are integers below the modulus.
    let shift: int = 0x1_0000_0000_0000_0000;
    algebra::lemma_reduction(weight, shift);
    algebra::lemma_reduction(expiry - ts - 1, shift);
    if weight != expiry - ts - 1 {
        algebra::lemma_small_distinct(weight + shift, expiry - ts - 1 + shift);
    }
}

/// The range check of one row: in the first row of a leaf job, the constraints on
/// the range bits vanish exactly if the license expires after the time, by at most
/// `2^32` seconds, and the bits are those of the seconds that it lasts beyond the
/// next one.
pub proof fn law_range_check_of_a_row(
    expiry: u64,
    ts: u64,
    cur: Seq<BaseElement>,
    nxt: Seq<BaseElement>,
    periodic: Seq<BaseElement>,
)
    requires
        periodic[STATE_WIDTH as int] == field::elem(1),
        cur.len() >= TRACE_WIDTH,
        forall|k: int| 0 <= k < RANGE_BITS ==> (#[trigger] cur[RC_BIT_0 + k]).wf(),
        cur[T_LEAF as int] == field::elem(1),
        cur[AUX_D as int] == field::elem(expiry as int),
    ensures
        range_checked(field::elem(ts as int), cur, nxt, periodic) <==> {
            &&& ts < expiry <= ts + 0x1_0000_0000
            &&& bits_of_row(cur) == range_bits(expiry - ts - 1)
        },
{
    let t = field::elem(ts as int);
    let (z, one) = (field::elem(0), field::elem(1));
    lemma2_to64();
    if range_checked(t, cur, nxt, periodic) {
        assert forall|k: int| 0 <= k < RANGE_BITS implies #[trigger] cur[RC_BIT_0 + k] == z || cur[
        RC_BIT_0 + k] == one by {
            assert(air::constraint(t, cur, nxt, periodic, 16 + k) == z);
            lemma_gap_closed(cur[RC_BIT_0 + k]);
        }
        let weight = lemma_weighted_range(cur, RANGE_BITS as nat);
        lemma_range_sum(expiry, ts, cur, nxt, periodic, weight);
        assert(air::constraint(t, cur, nxt, periodic, 16 + RANGE_BITS) == z);
        assert(bits_of_row(cur) =~= range_bits(weight));
    }
    let v = expiry - ts - 1;
    if ts < expiry <= ts + 0x1_0000_0000 && bits_of_row(cur) == range_bits(v) {
        assert forall|k: int| 0 <= k < RANGE_BITS implies #[trigger] cur[RC_BIT_0 + k]
            == field::elem(trace::bit(v, k as nat)) by {
            assert(bits_of_row(cur)[k] == range_bits(v)[k]);
        }
        honest::lemma_bits_add_up(cur, v, RANGE_BITS as nat);
        lemma_small_mod(v as nat, pow2(32));
        lemma_range_sum(expiry, ts, cur, nxt, periodic, v);
        assert forall|i: int| 16 <= i < NUM_TRANSITION_CONSTRAINTS implies #[trigger] air::constraint(
            t,
            cur,
            nxt,
            periodic,
            i,
        ) == z by {
            if i < 16 + RANGE_BITS {
                let b = cur[RC_BIT_0 + (i - 16)];
                assert(trace::bit(v, (i - 16) as nat) == 0 || trace::bit(v, (i - 16) as nat) == 1);
                honest::lemma_no_gap(b);
            }
        }
    }
}

/// Range bits that fit a license and a time exist exactly if the license expires
/// after the time, by at most `2^32` seconds, and then there is one choice of them.
pub proof fn law_fitting_range_bits(
    expiry: u64,
    ts: u64,
    cur: Seq<BaseElement>,
    nxt: Seq<BaseElement>,
    periodic: Seq<BaseElement>,
)
    requires
        periodic[STATE_WIDTH as int] == field::elem(1),
        cur.len() >= TRACE_WIDTH,
        cur[T_LEAF as int] == field::elem(1),
        cur[AUX_D as int] == field::elem(expiry as int),
    ensures
        (exists|bits: Seq<BaseElement>| #[trigger]
            fit(bits, field::elem(ts as int), cur, nxt, periodic)) <==> ts < expiry <= ts
            + 0x1_0000_0000,
        forall|bits: Seq<BaseElement>| #[trigger]
            fit(bits, field::elem(ts as int), cur, nxt, periodic) ==> bits == range_bits(
                expiry - ts - 1,
            ),
{
    let t = field::elem(ts as int);
    assert forall|bits: Seq<BaseElement>| are_range_bits(bits) implies (#[trigger] fit(
        bits,
        t,
        cur,
        nxt,
        periodic,
    ) <==> ts < expiry <= ts + 0x1_0000_0000 && bits == range_bits(expiry - ts - 1)) by {
        let row = with_range_bits(cur, bits);
        assert(bits_of_row(row) =~= bits);
        assert forall|k: int| 0 <= k < RANGE_BITS implies (#[trigger] row[RC_BIT_0 + k]).wf() by {
            assert(row[RC_BIT_0 + k] == bits[k]);
        }
        law_range_check_of_a_row(expiry, ts, row, nxt, periodic);
    }
    let bits = range_bits(expiry - ts - 1);
    assert(are_range_bits(bits)) by {
        broadcast use field::group_elem;

    }
    if ts < expiry <= ts + 0x1_0000_0000 {
        assert(fit(bits, t, cur, nxt, periodic));
    }
}

/// The license outlasts the current time.
proof fn lemma_lasts(pi: PublicInputs, cols: Seq<Vec<BaseElement>>)
    requires
        satisfies(pi, cols),
        pi.current_timestamp.wf(),
    ensures
        statement::lasts(
            trace::row_of(cols, ROW_LEAF_FIRST as int)[AUX_D as int],
            pi.current_timestamp,
        ),
{
    broadcast use field::group_elem;

    let step = ROW_LEAF_FIRST as int;
    let cur = trace::row_of(cols, step);
    let ts = pi.current_timestamp;
    let one = field::elem(1);
    lemma_row_wf(cols, step);
    lemma_job_marked(pi, cols, JOB_LEAF as int);
    honest::lemma_gates(step);
    assert(step % (ROUNDS as int) == 0);
    assert(JOB_LEAF * ROUNDS == step);
    assert(cur[T_LEAF as int] == one);
    assert forall|k: int| 0 <= k < RANGE_BITS implies #[trigger] cur[RC_BIT_0 + k] == field::elem(0)
        || cur[RC_BIT_0 + k] == one by {
        lemma_vanishes(ts, cols, step, step + 1, 16 + k);
        lemma_gap_closed(cur[RC_BIT_0 + k]);
    }
    let s = lemma_weighted_range(cur, RANGE_BITS as nat);
    lemma2_to64();
    lemma_vanishes(ts, cols, step, step + 1, 16 + RANGE_BITS);
    let expiry = cur[AUX_D as int];
    let weighted = air::weighted_bits(cur, RANGE_BITS as nat);
    let remaining = expiry.spec_minus(ts).spec_minus(one);
    let gap = weighted.spec_minus(remaining);
    algebra::lemma_neutral(one);
    algebra::lemma_neutral(gap);
    assert(gap == field::elem(0));
    algebra::lemma_difference_vanishes(weighted, remaining);
    algebra::lemma_reduction(expiry@, ts@);
    algebra::lemma_reduction(expiry@ - ts@, 1);
    assert(field::elem(s) == field::elem(expiry@ - ts@ - 1));
    algebra::lemma_reduction(expiry@ - ts@ - 1, ts@ + 1);
    algebra::lemma_reduction(s, ts@ + 1);
    assert(expiry@ - ts@ - 1 + (ts@ + 1) == expiry@);
    let left = s + 1;
    assert(s + (ts@ + 1) == ts@ + left);
    assert(expiry == field::elem(ts@ + left));
}

/// What a trace shows that its prover knows.
pub open spec fn shown(cols: Seq<Vec<BaseElement>>) -> Knowledge {
    Knowledge {
        secret: cols[HELD_SECRET as int]@[0],
        property: cols[HELD_PID as int]@[0],
        expiry: cols[AUX_D as int]@[ROW_LEAF_FIRST as int],
        siblings: Seq::new(
            TREE_DEPTH as nat,
            |l: int| cols[AUX_A as int]@[(JOB_MERKLE_FIRST + l) * ROUNDS],
        ),
        bits: Seq::new(
            TREE_DEPTH as nat,
            |l: int| cols[AUX_B as int]@[(JOB_MERKLE_FIRST + l) * ROUNDS] == field::elem(1),
        ),
    }
}

/// The jobs before the path compute the owner's leaf.
proof fn lemma_leaf(pi: PublicInputs, cols: Seq<Vec<BaseElement>>)
    requires
        satisfies(pi, cols),
    ensures
        ({
            let k = shown(cols);
            trace::row_of(cols, JOB_LEAF * ROUNDS + ROUNDS - 1)[S0 as int] == statement::leaf(
                pi.registry_id,
                statement::owner_commitment(k.secret, k.property),
                field::elem(0),
                field::elem(1),
                k.expiry,
            )
        }),
{
    let last = trace::row_of(cols, (JOB_COUNT - 1) * ROUNDS + ROUNDS - 1);
    let first = trace::row_of(cols, JOB_OWNER * ROUNDS);
    assert(JOB_OWNER * ROUNDS == 0);
    lemma_row_wf(cols, (JOB_COUNT - 1) * ROUNDS + ROUNDS - 1);
    lemma_row_wf(cols, 0);
    lemma_job_marked(pi, cols, JOB_OWNER as int);
    lemma_job_boundary(pi, cols, JOB_COUNT - 1, JOB_OWNER as int);
    honest::lemma_boundary_owner(last, first);
    lemma_held(pi, cols, (JOB_COUNT - 1) * ROUNDS + ROUNDS - 1);
    lemma_job_digest(pi, cols, JOB_OWNER as int);

    let cur = trace::row_of(cols, JOB_OWNER * ROUNDS + ROUNDS - 1);
    let nxt = trace::row_of(cols, JOB_LEAF * ROUNDS);
    lemma_row_wf(cols, JOB_OWNER * ROUNDS + ROUNDS - 1);
    lemma_row_wf(cols, JOB_LEAF * ROUNDS);
    lemma_job_marked(pi, cols, JOB_LEAF as int);
    lemma_job_boundary(pi, cols, JOB_OWNER as int, JOB_LEAF as int);
    honest::lemma_boundary_leaf(cur, nxt);
    let (a0, a1, a2) = (air::assertion(pi, 0), air::assertion(pi, 1), air::assertion(pi, 2));
    assert(JOB_LEAF * ROUNDS == ROW_LEAF_FIRST);
    assert(nxt[AUX_A as int] == pi.registry_id);
    assert(nxt[AUX_B as int] == field::elem(0));
    assert(nxt[AUX_C as int] == field::elem(1));
    lemma_job_digest(pi, cols, JOB_LEAF as int);
}

/// The path climbs from the leaf.
proof fn lemma_path(pi: PublicInputs, cols: Seq<Vec<BaseElement>>, l: nat)
    requires
        satisfies(pi, cols),
        l <= TREE_DEPTH,
    ensures
        ({
            let k = shown(cols);
            trace::row_of(cols, (JOB_LEAF + l) * ROUNDS + ROUNDS - 1)[S0 as int]
                == statement::climbed(
                trace::row_of(cols, JOB_LEAF * ROUNDS + ROUNDS - 1)[S0 as int],
                k.siblings,
                k.bits,
                l,
            )
        }),
    decreases l,
{
    if l > 0 {
        let m = (l - 1) as nat;
        lemma_path(pi, cols, m);
        let k = shown(cols);
        let prev_job = JOB_LEAF + m;
        let job = JOB_LEAF + l;
        assert(job == JOB_MERKLE_FIRST + m);
        let cur = trace::row_of(cols, prev_job * ROUNDS + ROUNDS - 1);
        let nxt = trace::row_of(cols, job * ROUNDS);
        lemma_row_wf(cols, prev_job * ROUNDS + ROUNDS - 1);
        lemma_row_wf(cols, job * ROUNDS);
        lemma_job_marked(pi, cols, job);
        lemma_direction(pi, cols, job);
        lemma_job_boundary(pi, cols, prev_job, job);
        assert(k.siblings[m as int] == nxt[AUX_A as int]);
        algebra::lemma_small_distinct(0, 1);
        assert(k.bits[m as int] == (nxt[AUX_B as int] == field::elem(1)));
        honest::lemma_boundary_merkle(cur, nxt, k.bits[m as int]);
        lemma_job_digest(pi, cols, job);
    }
}

/// Soundness: the statement holds of what a satisfying trace shows.
pub proof fn law_satisfying_trace_shows_the_statement(
    pi: PublicInputs,
    cols: Seq<Vec<BaseElement>>,
)
    requires
        satisfies(pi, cols),
        pi.current_timestamp.wf(),
    ensures
        statement::holds(pi, shown(cols)),
{
    let k = shown(cols);
    lemma_leaf(pi, cols);
    lemma_path(pi, cols, TREE_DEPTH as nat);
    lemma_lasts(pi, cols);
    let a3 = air::assertion(pi, 3);
    assert((JOB_LEAF + TREE_DEPTH) * ROUNDS + ROUNDS - 1 == layout::ROW_MERKLE_LAST_OUTPUT);

    let cur = trace::row_of(cols, JOB_MERKLE_LAST * ROUNDS + ROUNDS - 1);
    let nxt = trace::row_of(cols, JOB_NULLIFIER * ROUNDS);
    lemma_row_wf(cols, JOB_MERKLE_LAST * ROUNDS + ROUNDS - 1);
    lemma_row_wf(cols, JOB_NULLIFIER * ROUNDS);
    lemma_held(pi, cols, JOB_MERKLE_LAST * ROUNDS + ROUNDS - 1);
    lemma_job_marked(pi, cols, JOB_NULLIFIER as int);
    lemma_job_boundary(pi, cols, JOB_MERKLE_LAST as int, JOB_NULLIFIER as int);
    honest::lemma_boundary_nullifier(cur, nxt);
    lemma_job_digest(pi, cols, JOB_NULLIFIER as int);
    let (a4, a5, a6) = (air::assertion(pi, 4), air::assertion(pi, 5), air::assertion(pi, 6));
    assert(JOB_NULLIFIER * ROUNDS == layout::ROW_NULLIFIER_FIRST);
    assert(nxt[AUX_A as int] == pi.purpose);
    assert(nxt[AUX_B as int] == pi.request_nonce);
    assert(trace::row_of(cols, layout::ROW_NULLIFIER_OUTPUT as int)[S0 as int] == pi.nullifier);
}

/// Completeness and soundness meet: an honest trace shows its own witness, and
/// the statement holds of it.
pub proof fn law_honest_trace_shows_its_witness(w: trace::Witness, cols: Seq<Vec<BaseElement>>)
    requires
        w.wf(),
        w.complete(),
        trace::shaped(cols),
        forall|c: int, r: int|
            0 <= c < TRACE_WIDTH && 0 <= r < TRACE_LENGTH ==> #[trigger] cols[c]@[r] == trace::cell(
                w,
                c,
                r,
            ),
    ensures
        satisfies(w.public_inputs(), cols),
        statement::holds(w.public_inputs(), shown(cols)),
        shown(cols).secret == w.owner_secret,
        shown(cols).property == w.property_id,
        shown(cols).expiry == field::elem(w.license_expiry as int),
{
    let pi = w.public_inputs();
    honest::law_honest_trace_satisfies_the_system(w);
    assert forall|r: int| 0 <= r < TRACE_LENGTH implies #[trigger] trace::row_of(cols, r)
        == trace::honest_row(w, r) by {
        assert(trace::row_of(cols, r) =~= trace::honest_row(w, r));
    }
    assert(cells_wf(cols)) by {
        assert forall|c: int, r: int| 0 <= c < TRACE_WIDTH && 0 <= r < TRACE_LENGTH implies (
        #[trigger] cols[c]@[r]).wf() by {
            honest::lemma_honest_row_wf(w, r);
            assert(trace::honest_row(w, r)[c].wf());
        }
    }
    assert(constraints_vanish(pi.current_timestamp, cols)) by {
        assert forall|step: int, i: int|
            0 <= step < TRACE_LENGTH && 0 <= i < NUM_TRANSITION_CONSTRAINTS implies #[trigger] air::constraint(
            pi.current_timestamp,
            trace::row_of(cols, step),
            trace::row_of(cols, (step + 1) % (TRACE_LENGTH as int)),
            air::periodic_row(step),
            i,
        ) == field::elem(0) by {
            honest::lemma_next(step);
            assert(trace::row_of(cols, (step + 1) % (TRACE_LENGTH as int)) == trace::honest_row(
                w,
                (step + 1) % (TRACE_LENGTH as int),
            ));
        }
    }
    assert(assertions_hold(pi, cols)) by {
        assert forall|i: int| 0 <= i < NUM_ASSERTIONS implies {
            let a = #[trigger] air::assertion(pi, i);
            cols[a.column as int]@[a.first_step as int] == a.value
        } by {
            let a = air::assertion(pi, i);
            if i >= 7 {
                assert(0 <= (i - 7) * ROUNDS < TRACE_LENGTH);
            }
            assert(cols[a.column as int]@[a.first_step as int] == trace::cell(
                w,
                a.column as int,
                a.first_step as int,
            ));
        }
    }
    field::lemma_elem_view(w.current_timestamp as int);
    law_satisfying_trace_shows_the_statement(pi, cols);
}

} // verus!
