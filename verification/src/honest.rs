//! Completeness: the trace of a complete witness satisfies every constraint and
//! every assertion.

use vstd::arithmetic::div_mod::*;
use vstd::arithmetic::power2::*;
use vstd::prelude::*;

use crate::air;
use crate::algebra;
use crate::field;
use crate::field::{BaseElement, FieldElement};
use crate::layout;
use crate::layout::{
    AUX_A, AUX_B, AUX_C, AUX_D, DOMAIN_LEAF, DOMAIN_NODE, DOMAIN_NULLIFIER,
    DOMAIN_OWNER_COMMITMENT, HELD_PID, HELD_SECRET, JOB_COUNT, JOB_LEAF, JOB_MERKLE_FIRST,
    JOB_NULLIFIER, JOB_OWNER, NUM_ASSERTIONS, NUM_TRANSITION_CONSTRAINTS,
    RANGE_BITS, RC_BIT_0, ROUNDS, ROW_LEAF_FIRST, S0, STATE_WIDTH, TRACE_LENGTH, TRACE_WIDTH,
    TREE_DEPTH, T_LEAF, T_MERKLE, T_NULLIFIER, T_OWNER,
};
use crate::permutation;
use crate::trace;
use crate::trace::Witness;

verus! {

/// Whether all cells of a row are elements.
pub open spec fn row_wf(row: Seq<BaseElement>) -> bool {
    &&& row.len() == TRACE_WIDTH
    &&& forall|c: int| 0 <= c < TRACE_WIDTH ==> (#[trigger] row[c]).wf()
}

/// Whether a row is marked as being of the kind that the given column marks, and
/// of no other.
pub open spec fn marked(row: Seq<BaseElement>, col: int) -> bool {
    forall|t: int|
        T_OWNER <= t <= T_NULLIFIER ==> #[trigger] row[t] == field::elem(
            if t == col {
                1
            } else {
                0
            },
        )
}

/// A sum with zeros beside one term is that term.
proof fn lemma_one_of_four(a: BaseElement, b: BaseElement, c: BaseElement, d: BaseElement)
    requires
        a.wf(),
        b.wf(),
        c.wf(),
        d.wf(),
    ensures
        ({
            let z = field::elem(0);
            &&& a.spec_plus(z).spec_plus(z).spec_plus(z) == a
            &&& z.spec_plus(b).spec_plus(z).spec_plus(z) == b
            &&& z.spec_plus(z).spec_plus(c).spec_plus(z) == c
            &&& z.spec_plus(z).spec_plus(z).spec_plus(d) == d
        }),
{
    broadcast use field::group_elem;

    algebra::lemma_neutral(a);
    algebra::lemma_neutral(b);
    algebra::lemma_neutral(c);
    algebra::lemma_neutral(d);
    algebra::lemma_neutral(field::elem(0));
}

/// All that a boundary reads is made of elements.
proof fn lemma_boundary_parts(cur: Seq<BaseElement>, nxt: Seq<BaseElement>)
    requires
        row_wf(cur),
        row_wf(nxt),
    ensures
        ({
            let b = nxt[AUX_B as int];
            let left = air::picked(b, nxt[AUX_A as int], cur[S0 as int]);
            let right = air::picked(b, cur[S0 as int], nxt[AUX_A as int]);
            &&& left.wf()
            &&& right.wf()
        }),
{
    broadcast use field::group_elem;

}

/// Before an owner commitment the boundary hands over the secret and the property.
pub proof fn lemma_boundary_owner(cur: Seq<BaseElement>, nxt: Seq<BaseElement>)
    requires
        row_wf(cur),
        row_wf(nxt),
        marked(nxt, T_OWNER as int),
    ensures
        air::boundary(cur, nxt) == permutation::padded(
            seq![
                field::elem(DOMAIN_OWNER_COMMITMENT as int),
                cur[HELD_SECRET as int],
                cur[HELD_PID as int],
            ],
        ),
{
    broadcast use field::group_elem;

    lemma_boundary_parts(cur, nxt);
    lemma_products();
    lemma_one_of_four(
        field::elem(DOMAIN_OWNER_COMMITMENT as int),
        cur[HELD_SECRET as int],
        cur[HELD_PID as int],
        cur[0],
    );
    lemma_one_of_four(cur[HELD_SECRET as int], cur[0], cur[0], cur[0]);
    lemma_one_of_four(cur[HELD_PID as int], cur[0], cur[0], cur[0]);
    algebra::lemma_neutral(field::elem(0));
    assert(air::boundary(cur, nxt) =~= permutation::padded(
        seq![
            field::elem(DOMAIN_OWNER_COMMITMENT as int),
            cur[HELD_SECRET as int],
            cur[HELD_PID as int],
        ],
    ));
}

/// Products with zero and with one.
proof fn lemma_products()
    ensures
        forall|x: BaseElement|
            #![trigger field::elem(0).spec_times(x)]
            x.wf() ==> field::elem(0).spec_times(x) == field::elem(0),
        forall|x: BaseElement|
            #![trigger field::elem(1).spec_times(x)]
            x.wf() ==> field::elem(1).spec_times(x) == x,
{
    assert forall|x: BaseElement|
        #![trigger field::elem(0).spec_times(x)]
        x.wf() implies field::elem(0).spec_times(x) == field::elem(0) by {
        algebra::lemma_neutral(x);
    }
    assert forall|x: BaseElement|
        #![trigger field::elem(1).spec_times(x)]
        x.wf() implies field::elem(1).spec_times(x) == x by {
        algebra::lemma_neutral(x);
    }
}

/// Before a leaf the boundary hands over the previous digest and the job's inputs.
pub proof fn lemma_boundary_leaf(cur: Seq<BaseElement>, nxt: Seq<BaseElement>)
    requires
        row_wf(cur),
        row_wf(nxt),
        marked(nxt, T_LEAF as int),
    ensures
        air::boundary(cur, nxt) == permutation::padded(
            seq![
                field::elem(DOMAIN_LEAF as int),
                nxt[AUX_A as int],
                cur[S0 as int],
                nxt[AUX_B as int],
                nxt[AUX_C as int],
                nxt[AUX_D as int],
            ],
        ),
{
    broadcast use field::group_elem;

    lemma_boundary_parts(cur, nxt);
    lemma_products();
    let x = cur[0];
    lemma_one_of_four(x, field::elem(DOMAIN_LEAF as int), x, x);
    lemma_one_of_four(x, nxt[AUX_A as int], x, x);
    lemma_one_of_four(x, cur[S0 as int], x, x);
    algebra::lemma_neutral(nxt[AUX_B as int]);
    algebra::lemma_neutral(nxt[AUX_C as int]);
    assert(air::boundary(cur, nxt) =~= permutation::padded(
        seq![
            field::elem(DOMAIN_LEAF as int),
            nxt[AUX_A as int],
            cur[S0 as int],
            nxt[AUX_B as int],
            nxt[AUX_C as int],
            nxt[AUX_D as int],
        ],
    ));
}

/// Before a Merkle step the boundary hands over the previous digest and the
/// sibling, in the order that the bit picks.
pub proof fn lemma_boundary_merkle(cur: Seq<BaseElement>, nxt: Seq<BaseElement>, set: bool)
    requires
        row_wf(cur),
        row_wf(nxt),
        marked(nxt, T_MERKLE as int),
        nxt[AUX_B as int] == field::elem(
            if set {
                1
            } else {
                0
            },
        ),
    ensures
        air::boundary(cur, nxt) == permutation::padded(
            if set {
                seq![field::elem(DOMAIN_NODE as int), nxt[AUX_A as int], cur[S0 as int]]
            } else {
                seq![field::elem(DOMAIN_NODE as int), cur[S0 as int], nxt[AUX_A as int]]
            },
        ),
{
    broadcast use field::group_elem;

    lemma_boundary_parts(cur, nxt);
    lemma_products();
    let x = cur[0];
    let a = nxt[AUX_A as int];
    let b = nxt[AUX_B as int];
    let prev = cur[S0 as int];
    algebra::lemma_neutral(a);
    algebra::lemma_neutral(prev);
    algebra::lemma_neutral(field::elem(0));
    algebra::lemma_neutral(field::elem(1));
    let left = air::picked(b, a, prev);
    let right = air::picked(b, prev, a);
    if set {
        assert(left == a);
        assert(right == prev);
    } else {
        assert(left == prev);
        assert(right == a);
    }
    lemma_one_of_four(x, x, field::elem(DOMAIN_NODE as int), x);
    lemma_one_of_four(x, x, left, x);
    lemma_one_of_four(x, x, right, x);
    assert(air::boundary(cur, nxt) =~= permutation::padded(
        seq![field::elem(DOMAIN_NODE as int), left, right],
    ));
}

/// Before a nullifier the boundary hands over the secret, the property and the
/// job's inputs.
pub proof fn lemma_boundary_nullifier(cur: Seq<BaseElement>, nxt: Seq<BaseElement>)
    requires
        row_wf(cur),
        row_wf(nxt),
        marked(nxt, T_NULLIFIER as int),
    ensures
        air::boundary(cur, nxt) == permutation::padded(
            seq![
                field::elem(DOMAIN_NULLIFIER as int),
                cur[HELD_SECRET as int],
                cur[HELD_PID as int],
                nxt[AUX_A as int],
                nxt[AUX_B as int],
            ],
        ),
{
    broadcast use field::group_elem;

    lemma_boundary_parts(cur, nxt);
    lemma_products();
    let x = cur[0];
    lemma_one_of_four(x, x, x, field::elem(DOMAIN_NULLIFIER as int));
    lemma_one_of_four(x, x, x, cur[HELD_SECRET as int]);
    lemma_one_of_four(x, x, x, cur[HELD_PID as int]);
    algebra::lemma_neutral(nxt[AUX_A as int]);
    algebra::lemma_neutral(nxt[AUX_B as int]);
    algebra::lemma_neutral(field::elem(0));
    assert(air::boundary(cur, nxt) =~= permutation::padded(
        seq![
            field::elem(DOMAIN_NULLIFIER as int),
            cur[HELD_SECRET as int],
            cur[HELD_PID as int],
            nxt[AUX_A as int],
            nxt[AUX_B as int],
        ],
    ));
}

/// States stay 8 elements wide under the permutation.
pub proof fn lemma_permuted_wf(state: Seq<BaseElement>, n: nat)
    requires
        state.len() == STATE_WIDTH,
        forall|i: int| 0 <= i < STATE_WIDTH ==> (#[trigger] state[i]).wf(),
    ensures
        permutation::permuted(state, n).len() == STATE_WIDTH,
        forall|i: int|
            0 <= i < STATE_WIDTH ==> (#[trigger] permutation::permuted(state, n)[i]).wf(),
    decreases n,
{
    broadcast use field::group_elem;

    if n > 0 {
        lemma_permuted_wf(state, (n - 1) as nat);
    }
}

/// The digests of an honest trace are elements, and so are its cells.
pub proof fn lemma_honest_row_wf(w: Witness, row: int)
    requires
        w.wf(),
        w.complete(),
        0 <= row < TRACE_LENGTH,
    ensures
        row_wf(trace::honest_row(w, row)),
{
    broadcast use field::group_elem;

    let job = row / (ROUNDS as int);
    lemma_digest_wf(w, job as nat);
    lemma_permuted_wf(trace::job_state(w, job), (row - job * ROUNDS) as nat);
}

proof fn lemma_digest_wf(w: Witness, n: nat)
    requires
        w.wf(),
        w.complete(),
        n <= JOB_COUNT,
    ensures
        trace::digest_after(w, n).wf(),
    decreases n,
{
    broadcast use field::group_elem;

    if n > 0 {
        lemma_digest_wf(w, (n - 1) as nat);
        let start = trace::job_state(w, n - 1);
        lemma_permuted_wf(start, (ROUNDS - 1) as nat);
    }
}

/// Each row of an honest trace is marked as being of its job's kind.
proof fn lemma_honest_marked(w: Witness, row: int)
    requires
        0 <= row < TRACE_LENGTH,
    ensures
        marked(trace::honest_row(w, row), layout::type_column(row / (ROUNDS as int))),
{
}

/// What the boundary constraint demands of the next job is how the honest trace
/// starts it.
proof fn lemma_honest_boundary(w: Witness, job: int)
    requires
        w.wf(),
        w.complete(),
        0 <= job < JOB_COUNT,
    ensures
        ({
            let next_job = (job + 1) % (JOB_COUNT as int);
            air::boundary(
                trace::honest_row(w, job * ROUNDS + ROUNDS - 1),
                trace::honest_row(w, next_job * ROUNDS),
            ) == trace::job_state(w, next_job)
        }),
{
    let next_job = (job + 1) % (JOB_COUNT as int);
    let cur = trace::honest_row(w, job * ROUNDS + ROUNDS - 1);
    let nxt = trace::honest_row(w, next_job * ROUNDS);
    assert(next_job == if job == JOB_COUNT - 1 {
        0
    } else {
        job + 1
    });
    lemma_honest_row_wf(w, job * ROUNDS + ROUNDS - 1);
    lemma_honest_row_wf(w, next_job * ROUNDS);
    lemma_honest_marked(w, next_job * ROUNDS);
    assert((job * ROUNDS + ROUNDS - 1) / (ROUNDS as int) == job);
    assert((next_job * ROUNDS) / (ROUNDS as int) == next_job);
    assert(cur[S0 as int] == trace::digest_after(w, (job + 1) as nat));
    if next_job == JOB_OWNER {
        lemma_boundary_owner(cur, nxt);
    } else if next_job == JOB_LEAF {
        lemma_boundary_leaf(cur, nxt);
    } else if next_job == JOB_NULLIFIER {
        lemma_boundary_nullifier(cur, nxt);
    } else if next_job > JOB_NULLIFIER {
        lemma_boundary_merkle(cur, nxt, false);
        assert(air::boundary(cur, nxt) =~= trace::job_state(w, next_job));
    } else {
        lemma_boundary_merkle(cur, nxt, w.merkle_bits@[next_job - JOB_MERKLE_FIRST]);
    }
}

/// Weighting the bits of an integer by powers of two gives it back, as far as
/// the bits reach.
pub proof fn lemma_bits_add_up(row: Seq<BaseElement>, v: int, n: nat)
    requires
        v >= 0,
        forall|k: int|
            0 <= k < n ==> #[trigger] row[RC_BIT_0 + k] == field::elem(trace::bit(v, k as nat)),
    ensures
        air::weighted_bits(row, n) == field::elem(v % (pow2(n) as int)),
    decreases n,
{
    lemma2_to64();
    if n == 0 {
    } else {
        let m = (n - 1) as nat;
        let h = pow2(m) as int;
        lemma_bits_add_up(row, v, m);
        lemma_pow2_unfold(n);
        lemma_pow2_pos(m);
        let b = trace::bit(v, m);
        assert(row[RC_BIT_0 + m] == field::elem(b));
        algebra::lemma_reduction(b, h);
        algebra::lemma_reduction(v % h, b * h);
        assert(v % (2 * h) == v % h + b * h) by {
            lemma_mod_breakdown(v, h, 2);
            assert(h * 2 == 2 * h);
            assert(b * h == h * ((v / h) % 2)) by (nonlinear_arith)
                requires
                    b == (v / h) % 2,
            ;
        }
    }
}

/// The row after a row, the first one being next to the last.
pub proof fn lemma_next(step: int)
    requires
        0 <= step < TRACE_LENGTH,
    ensures
        (step + 1) % (TRACE_LENGTH as int) == if step == TRACE_LENGTH - 1 {
            0
        } else {
            step + 1
        },
{
    if step == TRACE_LENGTH - 1 {
        lemma_mod_self_0(TRACE_LENGTH as int);
    } else {
        lemma_small_mod((step + 1) as nat, TRACE_LENGTH as nat);
    }
}

/// Where a row stands in its job.
pub proof fn lemma_gates(step: int)
    ensures
        air::periodic_row(step)[STATE_WIDTH as int] == field::elem(
            if step % (ROUNDS as int) == 0 {
                1
            } else {
                0
            },
        ),
        air::periodic_row(step)[STATE_WIDTH + 1] == field::elem(
            if step % (ROUNDS as int) == ROUNDS - 1 {
                1
            } else {
                0
            },
        ),
        air::lanes(air::periodic_row(step)) == permutation::constants_of(step % (ROUNDS as int)),
{
    assert(air::lanes(air::periodic_row(step)) =~= permutation::constants_of(
        step % (ROUNDS as int),
    ));
}

/// A state constraint vanishes exactly where the next row's lane follows the
/// permutation inside a job and the boundary between jobs.
pub proof fn lemma_state_constraint(
    ts: BaseElement,
    cur: Seq<BaseElement>,
    nxt: Seq<BaseElement>,
    step: int,
    i: int,
)
    requires
        nxt[i].wf(),
        0 <= i < STATE_WIDTH,
    ensures
        air::constraint(ts, cur, nxt, air::periodic_row(step), i) == field::elem(0) <==> nxt[i]
            == (if step % (ROUNDS as int) == ROUNDS - 1 {
            air::boundary(cur, nxt)[i]
        } else {
            permutation::after_round(
                air::lanes(cur),
                permutation::constants_of(step % (ROUNDS as int)),
            )[i]
        }),
{
    broadcast use field::group_elem;

    let pv = air::periodic_row(step);
    lemma_gates(step);
    lemma_boundary_lanes_wf(cur, nxt);
    lemma_round_lanes_wf(air::lanes(cur), air::lanes(pv));
    let round_next = permutation::after_round(air::lanes(cur), air::lanes(pv))[i];
    let bound = air::boundary(cur, nxt)[i];
    algebra::lemma_neutral(round_next);
    algebra::lemma_neutral(bound);
    algebra::lemma_neutral(field::elem(0));
    algebra::lemma_neutral(field::elem(1));
    algebra::lemma_difference_vanishes(nxt[i], round_next);
    algebra::lemma_difference_vanishes(nxt[i], bound);
}

/// Inside a job the honest trace follows the permutation.
proof fn lemma_honest_round(w: Witness, step: int, i: int)
    requires
        w.wf(),
        w.complete(),
        0 <= step < TRACE_LENGTH,
        step % (ROUNDS as int) != ROUNDS - 1,
        0 <= i < STATE_WIDTH,
    ensures
        trace::honest_row(w, step + 1)[i] == permutation::after_round(
            air::lanes(trace::honest_row(w, step)),
            permutation::constants_of(step % (ROUNDS as int)),
        )[i],
{
    broadcast use field::group_elem;

    let job = step / (ROUNDS as int);
    let pos = step % (ROUNDS as int);
    let start = trace::job_state(w, job);
    lemma_digest_wf(w, job as nat);
    lemma_permuted_wf(start, pos as nat);
    assert((step + 1) / (ROUNDS as int) == job);
    assert(step - job * ROUNDS == pos);
    assert(air::lanes(trace::honest_row(w, step)) =~= permutation::permuted(start, pos as nat));
    assert(trace::honest_row(w, step + 1)[i] == permutation::permuted(start, (pos + 1) as nat)[i]);
}

/// The state constraints vanish on an honest trace.
proof fn lemma_honest_state(w: Witness, step: int, i: int)
    requires
        w.wf(),
        w.complete(),
        0 <= step < TRACE_LENGTH,
        0 <= i < STATE_WIDTH,
    ensures
        air::constraint(
            w.public_inputs().current_timestamp,
            trace::honest_row(w, step),
            trace::honest_row(w, (step + 1) % (TRACE_LENGTH as int)),
            air::periodic_row(step),
            i,
        ) == field::elem(0),
{
    let next = (step + 1) % (TRACE_LENGTH as int);
    lemma_next(step);
    let cur = trace::honest_row(w, step);
    let nxt = trace::honest_row(w, next);
    lemma_honest_row_wf(w, next);
    lemma_state_constraint(w.public_inputs().current_timestamp, cur, nxt, step, i);
    if step % (ROUNDS as int) == ROUNDS - 1 {
        let job = step / (ROUNDS as int);
        let next_job = (job + 1) % (JOB_COUNT as int);
        assert(step == job * ROUNDS + ROUNDS - 1);
        assert(next == next_job * ROUNDS) by {
            if job == JOB_COUNT - 1 {
                lemma_mod_self_0(JOB_COUNT as int);
            } else {
                lemma_small_mod((job + 1) as nat, JOB_COUNT as nat);
            }
        }
        lemma_honest_boundary(w, job);
        lemma_honest_start(w, next_job, i);
    } else {
        lemma_honest_round(w, step, i);
    }
}

/// A job of the honest trace starts in its starting state.
proof fn lemma_honest_start(w: Witness, job: int, i: int)
    requires
        0 <= i < STATE_WIDTH,
    ensures
        trace::honest_row(w, job * ROUNDS)[i] == trace::job_state(w, job)[i],
{
    assert((job * ROUNDS) / (ROUNDS as int) == job);
}

/// Zeros and ones leave no gap.
pub proof fn lemma_no_gap(x: BaseElement)
    requires
        x == field::elem(0) || x == field::elem(1),
    ensures
        air::boolean_gap(x) == field::elem(0),
{
    algebra::lemma_reduction(0, 0);
    algebra::lemma_reduction(1, 1);
}

/// The other constraints vanish on an honest trace.
proof fn lemma_honest_rest(w: Witness, step: int, next: int, i: int)
    requires
        w.wf(),
        w.complete(),
        0 <= step < TRACE_LENGTH,
        0 <= next < TRACE_LENGTH,
        8 <= i < NUM_TRANSITION_CONSTRAINTS,
    ensures
        air::constraint(
            w.public_inputs().current_timestamp,
            trace::honest_row(w, step),
            trace::honest_row(w, next),
            air::periodic_row(step),
            i,
        ) == field::elem(0),
{
    broadcast use field::group_elem;

    let cur = trace::honest_row(w, step);
    let nxt = trace::honest_row(w, next);
    let pv = air::periodic_row(step);
    let ts = w.public_inputs().current_timestamp;
    let job = step / (ROUNDS as int);
    let pos = step % (ROUNDS as int);
    let z = field::elem(0);
    let one = field::elem(1);
    lemma_honest_row_wf(w, step);
    lemma_honest_marked(w, step);
    lemma_gates(step);
    algebra::lemma_neutral(z);
    algebra::lemma_neutral(one);
    lemma_no_gap(z);
    lemma_no_gap(one);
    let is_first = pv[STATE_WIDTH as int];
    if i < 10 {
        algebra::lemma_neutral(w.owner_secret);
        algebra::lemma_neutral(w.property_id);
    } else if i < 14 {
        let t = cur[T_OWNER + (i - 10)];
        assert(air::boolean_gap(t) == z);
    } else if i == 14 {
        lemma_one_of_four(one, one, one, one);
        let sum = cur[T_OWNER as int].spec_plus(cur[T_LEAF as int]).spec_plus(
            cur[T_MERKLE as int],
        ).spec_plus(cur[T_NULLIFIER as int]);
        assert(sum == one);
    } else if i == 15 {
        let gap = air::boolean_gap(cur[AUX_B as int]);
        algebra::lemma_neutral(gap);
        algebra::lemma_neutral(is_first.spec_times(cur[T_MERKLE as int]));
        if layout::type_column(job) == T_MERKLE && pos == 0 {
            assert(step == job * ROUNDS);
            assert(cur[AUX_B as int] == trace::start_aux(w, job)[1]);
            assert(gap == z);
        } else {
            assert(is_first.spec_times(cur[T_MERKLE as int]) == z);
        }
    } else if i < 16 + RANGE_BITS {
        let b = cur[RC_BIT_0 + (i - 16)];
        lemma_bit_range(w.remaining(), (i - 16) as nat);
        assert(b == z || b == one);
    } else {
        let weighted = air::weighted_bits(cur, RANGE_BITS as nat);
        let remaining = cur[AUX_D as int].spec_minus(ts).spec_minus(one);
        let gap = weighted.spec_minus(remaining);
        algebra::lemma_neutral(gap);
        algebra::lemma_neutral(is_first.spec_times(cur[T_LEAF as int]));
        if step == ROW_LEAF_FIRST {
            lemma_bits_add_up(cur, w.remaining(), RANGE_BITS as nat);
            lemma2_to64();
            lemma_small_mod(w.remaining() as nat, pow2(32));
            algebra::lemma_reduction(w.license_expiry as int, w.current_timestamp as int);
            algebra::lemma_reduction(w.license_expiry - w.current_timestamp, 1);
            algebra::lemma_neutral(weighted);
            assert(weighted == remaining);
        } else {
            assert(is_first.spec_times(cur[T_LEAF as int]) == z);
        }
    }
}

proof fn lemma_bit_range(v: int, i: nat)
    ensures
        trace::bit(v, i) == 0 || trace::bit(v, i) == 1,
{
}

/// The lanes that a boundary demands are elements.
pub proof fn lemma_boundary_lanes_wf(cur: Seq<BaseElement>, nxt: Seq<BaseElement>)
    ensures
        air::boundary(cur, nxt).len() == STATE_WIDTH,
        forall|i: int| 0 <= i < STATE_WIDTH ==> (#[trigger] air::boundary(cur, nxt)[i]).wf(),
{
    broadcast use field::group_elem;

}

/// The lanes after a round are elements.
pub proof fn lemma_round_lanes_wf(state: Seq<BaseElement>, constants: Seq<BaseElement>)
    ensures
        permutation::after_round(state, constants).len() == STATE_WIDTH,
        forall|i: int|
            0 <= i < STATE_WIDTH ==> (#[trigger] permutation::after_round(state, constants)[i]).wf(),
{
    broadcast use field::group_elem;

}

/// Completeness: for a complete witness every constraint of the trace vanishes in
/// every row, the first row being next to the last, and every assertion holds.
pub proof fn law_honest_trace_satisfies_the_system(w: Witness)
    requires
        w.wf(),
        w.complete(),
    ensures
        forall|step: int, i: int|
            0 <= step < TRACE_LENGTH && 0 <= i < NUM_TRANSITION_CONSTRAINTS
                ==> #[trigger] air::constraint(
                w.public_inputs().current_timestamp,
                trace::honest_row(w, step),
                trace::honest_row(w, (step + 1) % (TRACE_LENGTH as int)),
                air::periodic_row(step),
                i,
            ) == field::elem(0),
        forall|i: int|
            0 <= i < NUM_ASSERTIONS ==> {
                let a = #[trigger] air::assertion(w.public_inputs(), i);
                trace::cell(w, a.column as int, a.first_step as int) == a.value
            },
{
    assert forall|step: int, i: int|
        0 <= step < TRACE_LENGTH && 0 <= i < NUM_TRANSITION_CONSTRAINTS implies #[trigger] air::constraint(
        w.public_inputs().current_timestamp,
        trace::honest_row(w, step),
        trace::honest_row(w, (step + 1) % (TRACE_LENGTH as int)),
        air::periodic_row(step),
        i,
    ) == field::elem(0) by {
        if i < STATE_WIDTH {
            lemma_honest_state(w, step, i);
        } else {
            lemma_next(step);
            lemma_honest_rest(w, step, (step + 1) % (TRACE_LENGTH as int), i);
        }
    }
    trace::lemma_digests(w, TREE_DEPTH as nat);
    assert forall|i: int| 0 <= i < NUM_ASSERTIONS implies {
        let a = #[trigger] air::assertion(w.public_inputs(), i);
        trace::cell(w, a.column as int, a.first_step as int) == a.value
    } by {
        if i >= 7 {
            assert(((i - 7) * ROUNDS) / (ROUNDS as int) == i - 7);
        }
    }
}

} // verus!
