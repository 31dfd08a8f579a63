//! The constraint system: what its constraints say in numbers, what its assertions
//! name, and what a trace that satisfies it shows.

use vstd::arithmetic::div_mod::*;
use vstd::arithmetic::power2::*;
use vstd::prelude::*;

use crate::air;
use crate::air::{PublicInputs, TitleAir};
use crate::algebra;
use crate::arithmetic_laws;
use crate::context::{
    zeros, AirContext, Assertion, BatchingMethod, EvaluationFrame, FieldExtension, ProofOptions,
    TraceInfo, TransitionConstraintDegree,
};
use crate::demo::{demo_witness, witness_for};
use crate::field;
use crate::field::{BaseElement, FieldElement};
use crate::fuzz::dummy_air;
use crate::hash_laws;
use crate::layout::{job_last_row, job_start_row, job_type_column, ROUNDS, STATE_WIDTH};
use crate::permutation;
use crate::permutation::round_constants;
use crate::soundness;
use crate::statement;
use crate::statement::Knowledge;
use crate::trace;
use crate::trace::{build_trace, eval_all_constraints, to_bits_le, Witness};
use crate::tree;
use crate::tree_laws;

verus! {

/// Whether a row has all its columns, and elements in them.
pub open spec fn whole_row(row: Seq<BaseElement>) -> bool {
    &&& row.len() >= 50
    &&& forall|c: int| 0 <= c < row.len() ==> (#[trigger] row[c]).wf()
}

/// The state in which a job starts, in numbers: its marks pick the kind, and the previous
/// digest, the held secret and property and the job's own inputs make up its lanes.
pub open spec fn start_lane(cur: Seq<BaseElement>, nxt: Seq<BaseElement>, i: int) -> int {
    let (owner, leaf, merkle, nullifier) = (nxt[14]@, nxt[15]@, nxt[16]@, nxt[17]@);
    let (a, b, c, d) = (nxt[8]@, nxt[9]@, nxt[10]@, nxt[11]@);
    let (secret, property, digest) = (cur[12]@, cur[13]@, cur[0]@);
    if i == 0 {
        owner * 2 + leaf * 1 + merkle * 4 + nullifier * 3
    } else if i == 1 {
        owner * secret + leaf * a + merkle * (b * a + (1 - b) * digest) + nullifier * secret
    } else if i == 2 {
        owner * property + leaf * digest + merkle * (b * digest + (1 - b) * a) + nullifier
            * property
    } else if i == 3 {
        leaf * b + nullifier * a
    } else if i == 4 {
        leaf * c + nullifier * b
    } else if i == 5 {
        leaf * d
    } else {
        0
    }
}

/// A bit that picks one of two.
proof fn lemma_picked(b: BaseElement, x: BaseElement, y: BaseElement)
    requires
        b.wf(),
        x.wf(),
        y.wf(),
    ensures
        air::picked(b, x, y) == field::elem(b@ * x@ + (1 - b@) * y@),
{
    broadcast use field::group_elem;

    lemma_small_mod(1, field::p() as nat);
    algebra::lemma_reduction(1 - b@, y@);
    algebra::lemma_reduction(b@ * x@, (1 - b@) * y@);
}

/// Four products, added up.
proof fn lemma_four(
    a: BaseElement,
    ax: int,
    b: BaseElement,
    bx: int,
    c: BaseElement,
    cx: int,
    d: BaseElement,
    dx: int,
)
    requires
        a.wf(),
        b.wf(),
        c.wf(),
        d.wf(),
    ensures
        a.spec_times(field::elem(ax)).spec_plus(b.spec_times(field::elem(bx))).spec_plus(
            c.spec_times(field::elem(cx)),
        ).spec_plus(d.spec_times(field::elem(dx))) == field::elem(
            a@ * ax + b@ * bx + c@ * cx + d@ * dx,
        ),
{
    broadcast use field::lemma_elem_of_view;

    algebra::lemma_reduction(a@, ax);
    algebra::lemma_reduction(b@, bx);
    algebra::lemma_reduction(c@, cx);
    algebra::lemma_reduction(d@, dx);
    algebra::lemma_reduction(a@ * ax, b@ * bx);
    algebra::lemma_reduction(a@ * ax + b@ * bx, c@ * cx);
    algebra::lemma_reduction(a@ * ax + b@ * bx + c@ * cx, d@ * dx);
}

proof fn lemma_start_lane(cur: Seq<BaseElement>, nxt: Seq<BaseElement>, i: int)
    requires
        whole_row(cur),
        whole_row(nxt),
        0 <= i < 8,
    ensures
        air::boundary(cur, nxt)[i] == field::elem(start_lane(cur, nxt, i)),
{
    let (owner, leaf, merkle, nullifier) = (nxt[14], nxt[15], nxt[16], nxt[17]);
    let (a, b, c, d) = (nxt[8], nxt[9], nxt[10], nxt[11]);
    let (secret, property, digest) = (cur[12], cur[13], cur[0]);
    assert(a.wf() && b.wf() && c.wf() && d.wf());
    assert(owner.wf() && leaf.wf() && merkle.wf() && nullifier.wf());
    assert(secret.wf() && property.wf() && digest.wf());
    field::lemma_elem_of_view(a);
    field::lemma_elem_of_view(secret);
    field::lemma_elem_of_view(property);
    field::lemma_elem_of_view(digest);
    if i == 0 {
        lemma_four(owner, 2, leaf, 1, merkle, 4, nullifier, 3);
    } else if i == 1 {
        lemma_picked(b, a, digest);
        lemma_four(
            owner,
            secret@,
            leaf,
            a@,
            merkle,
            b@ * a@ + (1 - b@) * digest@,
            nullifier,
            secret@,
        );
    } else if i == 2 {
        lemma_picked(b, digest, a);
        lemma_four(
            owner,
            property@,
            leaf,
            digest@,
            merkle,
            b@ * digest@ + (1 - b@) * a@,
            nullifier,
            property@,
        );
    } else if i == 3 {
        algebra::lemma_reduction(leaf@ * b@, nullifier@ * a@);
    } else if i == 4 {
        algebra::lemma_reduction(leaf@ * c@, nullifier@ * b@);
    }
}

/// The first eight constraints compare the next state, lane by lane, with what one round
/// makes of the current one, or in the last row of a job with the state in which the
/// next job starts.
pub proof fn law_state_constraints(
    air: &TitleAir,
    frame: &EvaluationFrame<BaseElement>,
    periodic: &[BaseElement],
    before: Seq<BaseElement>,
    after: Seq<BaseElement>,
    round: Seq<int>,
    i: int,
)
    requires
        whole_row(frame.cur()),
        whole_row(frame.nxt()),
        periodic@.len() >= 10,
        forall|k: int| 0 <= k < periodic@.len() ==> (#[trigger] periodic@[k]).wf(),
        before.len() >= 49,
        exists|out: &mut [BaseElement]|
            out@ == before && final(out)@ == after && #[trigger] call_ensures(
                TitleAir::evaluate_transition::<BaseElement>,
                (air, frame, periodic, out),
                (),
            ),
        round.len() == 8,
        hash_laws::one_round(
            hash_laws::numbers(frame.cur()),
            hash_laws::numbers(periodic@),
            round,
        ),
        0 <= i < 8,
    ensures
        after.len() == before.len(),
        ({
            let last = periodic@[9]@;
            arithmetic_laws::stands_for(
                after[i],
                frame.nxt()[i]@ - ((1 - last) * round[i] + last * start_lane(
                    frame.cur(),
                    frame.nxt(),
                    i,
                )),
            )
        }),
{
    let (cur, nxt) = (frame.cur(), frame.nxt());
    let last = periodic@[9];
    let s = air::lanes(cur);
    let c = air::lanes(periodic@);
    hash_laws::lemma_round(s, c);
    assert(hash_laws::numbers(s) =~= hash_laws::numbers(cur));
    assert(hash_laws::numbers(c) =~= hash_laws::numbers(periodic@));
    let r = permutation::after_round(s, c)[i];
    assert(r@ == round[i]) by {
        assert(hash_laws::numbers(permutation::after_round(s, c))[i] == r@);
    }
    permutation::lemma_round_wf(s, c, i);
    field::lemma_elem_of_view(r);
    field::lemma_elem_of_view(last);
    field::lemma_elem_of_view(nxt[i]);
    lemma_start_lane(cur, nxt, i);
    let start = start_lane(cur, nxt, i);
    field::lemma_elem_view(1);
    lemma_small_mod(1, field::p() as nat);
    algebra::lemma_reduction(1 - last@, round[i]);
    algebra::lemma_reduction(last@, start);
    algebra::lemma_reduction((1 - last@) * round[i], last@ * start);
    let expected = (1 - last@) * round[i] + last@ * start;
    algebra::lemma_reduction(nxt[i]@, expected);
    field::lemma_elem_view(nxt[i]@ - expected);
    assert(after[i] == air::constraint(air.inputs().current_timestamp, cur, nxt, periodic@, i));
}

/// The sum of the range bits, each times the power of two of its place.
pub open spec fn bits_weight(row: Seq<BaseElement>, n: nat) -> int
    decreases n,
{
    if n == 0 {
        0
    } else {
        bits_weight(row, (n - 1) as nat) + row[18 + n - 1]@ * pow2((n - 1) as nat)
    }
}

proof fn lemma_bits_weight(row: Seq<BaseElement>, n: nat)
    requires
        whole_row(row),
        n <= 32,
    ensures
        air::weighted_bits(row, n) == field::elem(bits_weight(row, n)),
    decreases n,
{
    if n > 0 {
        let m = (n - 1) as nat;
        lemma_bits_weight(row, m);
        let b = row[18 + m as int];
        field::lemma_elem_of_view(b);
        algebra::lemma_reduction(b@, pow2(m) as int);
        algebra::lemma_reduction(bits_weight(row, m), b@ * pow2(m));
    }
}

/// What vanishes for bits only, in numbers.
proof fn lemma_gap(x: BaseElement)
    requires
        x.wf(),
    ensures
        air::boolean_gap(x) == field::elem(x@ * x@ - x@),
{
    field::lemma_elem_of_view(x);
    algebra::lemma_reduction(x@ * x@, x@);
}

/// The other constraints, in numbers: the secret and the property are held; in the
/// first row of a job its four marks are bits and add up to one, and the direction of a
/// Merkle step is a bit; the range bits are bits; and in the first row of the leaf job
/// they spell out the seconds by which the license outlasts the time, less one.
pub proof fn law_other_constraints(
    air: &TitleAir,
    pi: &PublicInputs,
    frame: &EvaluationFrame<BaseElement>,
    periodic: &[BaseElement],
    before: Seq<BaseElement>,
    after: Seq<BaseElement>,
    i: int,
)
    requires
        call_ensures(TitleAir::pub_inputs, (air,), pi),
        pi.current_timestamp.wf(),
        whole_row(frame.cur()),
        whole_row(frame.nxt()),
        periodic@.len() >= 10,
        forall|k: int| 0 <= k < periodic@.len() ==> (#[trigger] periodic@[k]).wf(),
        before.len() >= 49,
        exists|out: &mut [BaseElement]|
            out@ == before && final(out)@ == after && #[trigger] call_ensures(
                TitleAir::evaluate_transition::<BaseElement>,
                (air, frame, periodic, out),
                (),
            ),
        8 <= i < before.len(),
    ensures
        ({
            let (cur, nxt) = (frame.cur(), frame.nxt());
            let first = periodic@[8]@;
            if i == 8 {
                arithmetic_laws::stands_for(after[i], nxt[12]@ - cur[12]@)
            } else if i == 9 {
                arithmetic_laws::stands_for(after[i], nxt[13]@ - cur[13]@)
            } else if i < 14 {
                arithmetic_laws::stands_for(after[i], first * (cur[4 + i]@ * cur[4 + i]@ - cur[4 + i]@))
            } else if i == 14 {
                arithmetic_laws::stands_for(after[i], first * (cur[14]@ + cur[15]@ + cur[16]@ + cur[17]@ - 1))
            } else if i == 15 {
                arithmetic_laws::stands_for(after[i], first * cur[16]@ * (cur[9]@ * cur[9]@ - cur[9]@))
            } else if i < 48 {
                arithmetic_laws::stands_for(after[i], cur[2 + i]@ * cur[2 + i]@ - cur[2 + i]@)
            } else if i == 48 {
                arithmetic_laws::stands_for(
                    after[i],
                    first * cur[15]@ * (bits_weight(cur, 32) - (cur[11]@ - pi.current_timestamp@
                        - 1)),
                )
            } else {
                after[i] == before[i]
            }
        }),
{
    broadcast use field::lemma_elem_of_view;

    let (cur, nxt) = (frame.cur(), frame.nxt());
    let first = periodic@[8];
    let ts = pi.current_timestamp;
    field::lemma_elem_view(1);
    lemma_small_mod(1, field::p() as nat);
    if i < 49 {
        assert(after[i] == air::constraint(ts, cur, nxt, periodic@, i));
    }
    if i == 8 {
        field::lemma_elem_view(nxt[12]@ - cur[12]@);
    } else if i == 9 {
        field::lemma_elem_view(nxt[13]@ - cur[13]@);
    } else if i < 14 {
        let t = cur[4 + i];
        lemma_gap(t);
        algebra::lemma_reduction(first@, t@ * t@ - t@);
        field::lemma_elem_view(first@ * (t@ * t@ - t@));
    } else if i == 14 {
        algebra::lemma_reduction(cur[14]@ + cur[15]@, cur[16]@);
        algebra::lemma_reduction(cur[14]@ + cur[15]@ + cur[16]@, cur[17]@);
        let sum = cur[14]@ + cur[15]@ + cur[16]@ + cur[17]@;
        algebra::lemma_reduction(sum, 1);
        algebra::lemma_reduction(first@, sum - 1);
        field::lemma_elem_view(first@ * (sum - 1));
    } else if i == 15 {
        let b = cur[9];
        lemma_gap(b);
        algebra::lemma_reduction(first@ * cur[16]@, b@ * b@ - b@);
        field::lemma_elem_view(first@ * cur[16]@ * (b@ * b@ - b@));
    } else if i < 48 {
        let b = cur[2 + i];
        lemma_gap(b);
        field::lemma_elem_view(b@ * b@ - b@);
    } else if i == 48 {
        lemma_bits_weight(cur, 32);
        let weight = bits_weight(cur, 32);
        algebra::lemma_reduction(cur[11]@ - ts@, 1);
        let left = cur[11]@ - ts@ - 1;
        algebra::lemma_reduction(weight, left);
        algebra::lemma_reduction(first@ * cur[15]@, weight - left);
        field::lemma_elem_view(first@ * cur[15]@ * (weight - left));
    }
}

/// The rows of the evaluation over a whole trace are those of its frames: each row with
/// the next one, the first being next to the last, and the periodic values of its place
/// in its job.
pub proof fn law_whole_traces_are_evaluated_row_by_row(
    air: &TitleAir,
    cols: &[Vec<BaseElement>],
    all: Vec<Vec<BaseElement>>,
    columns: Vec<Vec<BaseElement>>,
    step: int,
    frame: &EvaluationFrame<BaseElement>,
    periodic: &[BaseElement],
    before: Seq<BaseElement>,
    after: Seq<BaseElement>,
    i: int,
)
    requires
        cols@.len() == 50,
        forall|c: int| 0 <= c < 50 ==> (#[trigger] cols@[c])@.len() == 256,
        call_ensures(eval_all_constraints, (air, cols), all),
        call_ensures(TitleAir::get_periodic_column_values, (air,), columns),
        0 <= step < 256,
        frame.cur().len() == 50,
        frame.nxt().len() == 50,
        forall|c: int| 0 <= c < 50 ==> #[trigger] frame.cur()[c] == cols@[c]@[step],
        forall|c: int| 0 <= c < 50 ==> #[trigger] frame.nxt()[c] == cols@[c]@[(step + 1) % 256],
        periodic@.len() == 10,
        forall|k: int| 0 <= k < 10 ==> #[trigger] periodic@[k] == columns@[k]@[step % 8],
        before.len() == 49,
        exists|out: &mut [BaseElement]|
            out@ == before && final(out)@ == after && #[trigger] call_ensures(
                TitleAir::evaluate_transition::<BaseElement>,
                (air, frame, periodic, out),
                (),
            ),
        0 <= i < 49,
    ensures
        all@.len() == 256,
        all@[step]@.len() == 49,
        all@[step]@[i] == after[i],
{
    assert(frame.cur() =~= trace::row_of(cols@, step));
    assert(frame.nxt() =~= trace::row_of(cols@, (step + 1) % 256));
    assert forall|k: int| 0 <= k < 10 implies #[trigger] periodic@[k] == air::periodic_row(step)[k] by {
        assert(columns@[k]@[step % 8] == air::periodic_value(k, step % 8));
        assert((step % 8) % 8 == step % 8);
    }
    assert(periodic@ =~= air::periodic_row(step));
    assert(all@[step]@[i] == air::constraint(
        air.inputs().current_timestamp,
        trace::row_of(cols@, step),
        trace::row_of(cols@, (step + 1) % 256),
        air::periodic_row(step),
        i,
    ));
}

/// The periodic columns repeat every eight rows: the eight round constants of the round,
/// then a mark of the first row of a job, then one of the last.
pub proof fn law_periodic_columns(
    air: &TitleAir,
    columns: Vec<Vec<BaseElement>>,
    constants: [[BaseElement; STATE_WIDTH]; ROUNDS],
    row: int,
    lane: int,
)
    requires
        call_ensures(TitleAir::get_periodic_column_values, (air,), columns),
        call_ensures(round_constants, (), constants),
        0 <= row < 8,
        0 <= lane < 8,
    ensures
        columns@.len() == 10,
        forall|c: int| 0 <= c < 10 ==> (#[trigger] columns@[c])@.len() == 8,
        columns@[lane]@[row] == constants@[row]@[lane],
        columns@[8]@[row]@ == (if row == 0 {
            1int
        } else {
            0int
        }),
        columns@[9]@[row]@ == (if row == 7 {
            1int
        } else {
            0int
        }),
{
    field::lemma_elem_view(0);
    field::lemma_elem_view(1);
    lemma_small_mod(0, field::p() as nat);
    lemma_small_mod(1, field::p() as nat);
    assert(constants@[row]@ == permutation::constants_of(row));
    assert(columns@[lane]@[row] == air::periodic_value(lane, row));
    assert(columns@[8]@[row] == air::periodic_value(8, row));
    assert(columns@[9]@[row] == air::periodic_value(9, row));
}

/// Whether an assertion names a cell and the number that it holds.
pub open spec fn names(a: Assertion<BaseElement>, column: int, row: int, n: int) -> bool {
    a.column == column && a.first_step == row && a.value == field::elem(n)
}

/// The assertions name these cells: in the leaf job's first row the registry, no
/// encumbrance and a valid license; the root where the path ends; the purpose and the
/// nonce in the nullifier job's first row; the nullifier where that job ends; and in the
/// first row of each job the mark of its kind.
pub proof fn law_assertions(
    air: &TitleAir,
    pi: &PublicInputs,
    a: Vec<Assertion<BaseElement>>,
    job: int,
)
    requires
        call_ensures(TitleAir::pub_inputs, (air,), pi),
        call_ensures(TitleAir::get_assertions, (air,), a),
        0 <= job < 32,
    ensures
        a@.len() == 39,
        a@[0].column == 8 && a@[0].first_step == 8 && a@[0].value == pi.registry_id,
        names(a@[1], 9, 8, 0),
        names(a@[2], 10, 8, 1),
        a@[3].column == 0 && a@[3].first_step == 215 && a@[3].value == pi.merkle_root,
        a@[4].column == 8 && a@[4].first_step == 216 && a@[4].value == pi.purpose,
        a@[5].column == 9 && a@[5].first_step == 216 && a@[5].value == pi.request_nonce,
        a@[6].column == 0 && a@[6].first_step == 223 && a@[6].value == pi.nullifier,
        names(
            a@[7 + job],
            if job == 0 {
                14
            } else if job == 1 {
                15
            } else if job == 27 {
                17
            } else {
                16
            },
            8 * job,
            1,
        ),
{
    assert(a@[7 + job] == air::assertion(*pi, 7 + job));
}

/// A system declares its trace of 50 columns and 256 rows, its 39 assertions, its
/// options, and the degree of each of its 49 constraints; it keeps its public inputs.
pub proof fn law_declarations(
    info: TraceInfo,
    pi: PublicInputs,
    options: ProofOptions,
    air: TitleAir,
    kept: &PublicInputs,
    context: &AirContext,
    i: int,
)
    requires
        info.columns() == 50,
        info.rows() == 256,
        call_ensures(TitleAir::new, (info, pi, options), air),
        call_ensures(TitleAir::pub_inputs, (&air,), kept),
        call_ensures(TitleAir::context, (&air,), context),
        0 <= i < 49,
    ensures
        *kept == pi,
        context.trace_info == info,
        context.options == options,
        context.num_assertions == 39,
        context.transition_constraint_degrees@.len() == 49,
        ({
            let d = context.transition_constraint_degrees@[i];
            let in_jobs = i < 8 || 10 <= i < 16 || i == 48;
            &&& d.base == (if i < 8 || i == 15 {
                3int
            } else if i == 8 || i == 9 || i == 14 {
                1int
            } else {
                2int
            })
            &&& d.cycles@.len() == (if in_jobs {
                1int
            } else {
                0int
            })
            &&& in_jobs ==> d.cycles@[0] == 8
        }),
{
    let d = context.transition_constraint_degrees@[i];
    assert(air::declares(d, air::degree_of(i)));
}

/// The public inputs are given to the verifier in this order.
pub proof fn law_order_of_public_inputs(pi: &PublicInputs, r: Vec<BaseElement>)
    requires
        call_ensures(PublicInputs::to_elements, (pi,), r),
    ensures
        r@.len() == 6,
        r@[0] == pi.registry_id,
        r@[1] == pi.merkle_root,
        r@[2] == pi.purpose,
        r@[3] == pi.request_nonce,
        r@[4] == pi.current_timestamp,
        r@[5] == pi.nullifier,
{
}

/// The leaf of an owner's unencumbered, validly licensed title: the hash of tag 1, the
/// registry, the hash of tag 2 with the secret and the property, no encumbrance, a valid
/// license and its expiry.
pub open spec fn title_of(
    registry: BaseElement,
    secret: BaseElement,
    property: BaseElement,
    expiry: BaseElement,
) -> BaseElement {
    permutation::hash_of(
        seq![
            field::elem(1),
            registry,
            permutation::hash_of(seq![field::elem(2), secret, property]),
            field::elem(0),
            field::elem(1),
            expiry,
        ],
    )
}

/// What is spent for a request: the hash of tag 3, the secret, the property, the purpose
/// and the nonce.
pub open spec fn spent_for(
    secret: BaseElement,
    property: BaseElement,
    purpose: BaseElement,
    nonce: BaseElement,
) -> BaseElement {
    permutation::hash_of(seq![field::elem(3), secret, property, purpose, nonce])
}

/// What an owner shows: with `nodes` the path that climbs from their title with 25
/// siblings and directions, the path ends in the root, the nullifier is that of the
/// request, and the license expires after the time, by at most `2^32` seconds.
pub open spec fn owner_shows(pi: PublicInputs, k: Knowledge, nodes: Seq<BaseElement>) -> bool {
    &&& k.siblings.len() == 25
    &&& k.bits.len() == 25
    &&& tree_laws::climbs(
        nodes,
        title_of(pi.registry_id, k.secret, k.property, k.expiry),
        k.siblings,
        k.bits,
    ) ==> nodes[25] == pi.merkle_root
    &&& pi.nullifier == spent_for(k.secret, k.property, pi.purpose, pi.request_nonce)
    &&& pi.current_timestamp@ < 0x1_0000_0000_0000_0000 ==> pi.current_timestamp@ < k.expiry@
        <= pi.current_timestamp@ + 0x1_0000_0000
}

/// The statement holds of what an owner knows only if they show all of this.
pub proof fn law_statement(pi: PublicInputs, k: Knowledge, nodes: Seq<BaseElement>)
    requires
        statement::holds(pi, k),
        pi.current_timestamp.wf(),
    ensures
        owner_shows(pi, k, nodes),
{
    let title = title_of(pi.registry_id, k.secret, k.property, k.expiry);
    if tree_laws::climbs(nodes, title, k.siblings, k.bits) {
        tree_laws::law_climbing(nodes, title, k.siblings, k.bits, 25);
    }
    if pi.current_timestamp@ < 0x1_0000_0000_0000_0000 {
        statement::law_lasting_licenses_expire_later(k.expiry, pi.current_timestamp);
    }
}

/// The converse: who shows all of this has a statement that holds.
pub proof fn law_statement_is_shown(pi: PublicInputs, k: Knowledge, nodes: Seq<BaseElement>)
    requires
        pi.current_timestamp.wf(),
        pi.current_timestamp@ < 0x1_0000_0000_0000_0000,
        k.expiry.wf(),
        tree_laws::climbs(
            nodes,
            title_of(pi.registry_id, k.secret, k.property, k.expiry),
            k.siblings,
            k.bits,
        ),
        owner_shows(pi, k, nodes),
    ensures
        statement::holds(pi, k),
{
    let title = title_of(pi.registry_id, k.secret, k.property, k.expiry);
    tree_laws::law_climbing(nodes, title, k.siblings, k.bits, 25);
    let left = k.expiry@ - pi.current_timestamp@;
    field::lemma_elem_of_view(k.expiry);
    assert(k.expiry == field::elem(pi.current_timestamp@ + left));
}

/// A trace on which every constraint evaluates to zero and every assertion holds shows
/// an owner: what is in its cells is a secret, a property, an expiry and a path that
/// show the statement with the system's public inputs.
pub proof fn law_satisfying_traces_show_an_owner(
    air: &TitleAir,
    pi: &PublicInputs,
    cols: &[Vec<BaseElement>],
    all: Vec<Vec<BaseElement>>,
    a: Vec<Assertion<BaseElement>>,
    nodes: Seq<BaseElement>,
) -> (k: Knowledge)
    requires
        call_ensures(TitleAir::pub_inputs, (air,), pi),
        pi.current_timestamp.wf(),
        cols@.len() == 50,
        forall|c: int| 0 <= c < 50 ==> (#[trigger] cols@[c])@.len() == 256,
        forall|c: int, row: int|
            0 <= c < 50 && 0 <= row < 256 ==> (#[trigger] cols@[c]@[row]).wf(),
        call_ensures(eval_all_constraints, (air, cols), all),
        call_ensures(TitleAir::get_assertions, (air,), a),
        forall|step: int, i: int|
            0 <= step < 256 && 0 <= i < 49 ==> (#[trigger] all@[step]@[i])@ == 0,
        forall|n: int|
            0 <= n < a@.len() ==> cols@[(#[trigger] a@[n]).column as int]@[a@[n].first_step as int]
                == a@[n].value,
    ensures
        owner_shows(*pi, k, nodes),
        k.secret == cols@[12]@[0],
        k.property == cols@[13]@[0],
        k.expiry == cols@[11]@[8],
        forall|l: int| 0 <= l < 25 ==> #[trigger] k.siblings[l] == cols@[8]@[8 * (2 + l)],
        forall|l: int|
            0 <= l < 25 ==> (#[trigger] k.bits[l] <==> cols@[9]@[8 * (2 + l)] == field::elem(1)),
{
    field::lemma_elem_view(0);
    lemma_small_mod(0, field::p() as nat);
    assert(soundness::constraints_vanish(pi.current_timestamp, cols@)) by {
        assert forall|step: int, i: int| 0 <= step < 256 && 0 <= i < 49 implies #[trigger] air::constraint(
            pi.current_timestamp,
            trace::row_of(cols@, step),
            trace::row_of(cols@, (step + 1) % 256),
            air::periodic_row(step),
            i,
        ) == field::elem(0) by {
            assert(all@[step]@[i]@ == 0);
            lemma_constraint_wf(
                pi.current_timestamp,
                trace::row_of(cols@, step),
                trace::row_of(cols@, (step + 1) % 256),
                air::periodic_row(step),
                i,
            );
            field::lemma_view_injective(all@[step]@[i], field::elem(0));
        }
    }
    assert(soundness::assertions_hold(*pi, cols@)) by {
        assert forall|n: int| 0 <= n < 39 implies {
            let x = #[trigger] air::assertion(*pi, n);
            cols@[x.column as int]@[x.first_step as int] == x.value
        } by {
            assert(a@[n] == air::assertion(*pi, n));
        }
    }
    soundness::law_satisfying_trace_shows_the_statement(*pi, cols@);
    let k = soundness::shown(cols@);
    law_statement(*pi, k, nodes);
    k
}

/// A constraint evaluates to an element.
proof fn lemma_constraint_wf(
    ts: BaseElement,
    cur: Seq<BaseElement>,
    nxt: Seq<BaseElement>,
    periodic: Seq<BaseElement>,
    i: int,
)
    ensures
        air::constraint(ts, cur, nxt, periodic, i).wf(),
{
    broadcast use field::lemma_elem_view;

}

/// The trace of a complete witness has 50 columns of 256 rows, every constraint
/// evaluates to zero on it and every assertion holds; its public inputs are those of the
/// request, the root that the witness's path ends in, and the nullifier of the request.
pub proof fn law_honest_traces(
    w: &Witness,
    r: (Vec<Vec<BaseElement>>, PublicInputs),
    cols: &[Vec<BaseElement>],
    air: &TitleAir,
    kept: &PublicInputs,
    all: Vec<Vec<BaseElement>>,
    a: Vec<Assertion<BaseElement>>,
    nodes: Seq<BaseElement>,
)
    requires
        w.merkle_siblings@.len() == 25,
        w.merkle_bits@.len() == 25,
        w.current_timestamp < w.license_expiry <= w.current_timestamp + 0x1_0000_0000,
        call_ensures(build_trace, (w,), r),
        cols@ == r.0@,
        call_ensures(TitleAir::pub_inputs, (air,), kept),
        *kept == r.1,
        call_ensures(eval_all_constraints, (air, cols), all),
        call_ensures(TitleAir::get_assertions, (air,), a),
    ensures
        r.0@.len() == 50,
        forall|c: int| 0 <= c < 50 ==> (#[trigger] r.0@[c])@.len() == 256,
        forall|step: int, i: int|
            0 <= step < 256 && 0 <= i < 49 ==> (#[trigger] all@[step]@[i])@ == 0,
        forall|n: int|
            0 <= n < a@.len() ==> cols@[(#[trigger] a@[n]).column as int]@[a@[n].first_step as int]
                == a@[n].value,
        r.1.registry_id == w.registry_id,
        r.1.purpose == w.purpose,
        r.1.request_nonce == w.request_nonce,
        r.1.current_timestamp@ == w.current_timestamp,
        r.1.nullifier == spent_for(w.owner_secret, w.property_id, w.purpose, w.request_nonce),
        tree_laws::climbs(
            nodes,
            title_of(
                w.registry_id,
                w.owner_secret,
                w.property_id,
                field::elem(w.license_expiry as int),
            ),
            w.merkle_siblings@,
            w.merkle_bits@,
        ) ==> r.1.merkle_root == nodes[25],
        r.0@[12]@[0] == w.owner_secret,
        r.0@[13]@[0] == w.property_id,
{
    let title = title_of(
        w.registry_id,
        w.owner_secret,
        w.property_id,
        field::elem(w.license_expiry as int),
    );
    field::lemma_elem_view(0);
    lemma_small_mod(0, field::p() as nat);
    field::lemma_elem_view(w.current_timestamp as int);
    lemma_small_mod(w.current_timestamp as nat, field::p() as nat);
    if tree_laws::climbs(nodes, title, w.merkle_siblings@, w.merkle_bits@) {
        tree_laws::law_climbing(nodes, title, w.merkle_siblings@, w.merkle_bits@, 25);
    }
    assert forall|step: int, i: int| 0 <= step < 256 && 0 <= i < 49 implies (
    #[trigger] all@[step]@[i])@ == 0 by {
        assert(all@[step]@[i] == air::constraint(
            r.1.current_timestamp,
            trace::row_of(cols@, step),
            trace::row_of(cols@, (step + 1) % 256),
            air::periodic_row(step),
            i,
        ));
    }
    assert forall|n: int| 0 <= n < a@.len() implies cols@[(
    #[trigger] a@[n]).column as int]@[a@[n].first_step as int] == a@[n].value by {
        assert(a@[n] == air::assertion(r.1, n));
    }
    assert(r.0@[12]@[0] == trace::cell(*w, 12, 0));
    assert(r.0@[13]@[0] == trace::cell(*w, 13, 0));
}

/// The sum of bits, each times the power of two of its place.
pub open spec fn weight(bits: Seq<BaseElement>) -> int
    decreases bits.len(),
{
    if bits.len() == 0 {
        0
    } else {
        weight(bits.drop_last()) + bits.last()@ * pow2((bits.len() - 1) as nat)
    }
}

/// The lowest bits of a number are zeros and ones that spell out its remainder, the
/// lowest one first.
pub proof fn law_bits(v: u64, n: usize, r: Vec<BaseElement>)
    requires
        n <= 64,
        call_ensures(to_bits_le, (v, n), r),
    ensures
        r@.len() == n,
        forall|i: int| 0 <= i < n ==> (#[trigger] r@[i])@ == 0 || r@[i]@ == 1,
        weight(r@) == v as int % (pow2(n as nat) as int),
{
    let bits = Seq::new(n as nat, |i: int| field::elem(trace::bit(v as int, i as nat)));
    assert forall|i: int| 0 <= i < n implies (#[trigger] r@[i])@ == trace::bit(v as int, i as nat) by {
        field::lemma_elem_view(trace::bit(v as int, i as nat));
        lemma_small_mod(trace::bit(v as int, i as nat) as nat, field::p() as nat);
    }
    lemma_weight(r@, v as int);
    trace::law_bits_spell_out_the_number(v as int, n as nat);
}

proof fn lemma_weight(bits: Seq<BaseElement>, v: int)
    requires
        forall|i: int| 0 <= i < bits.len() ==> (#[trigger] bits[i])@ == trace::bit(v, i as nat),
    ensures
        weight(bits) == trace::bits_sum(v, bits.len()),
    decreases bits.len(),
{
    if bits.len() > 0 {
        let rest = bits.drop_last();
        assert forall|i: int| 0 <= i < rest.len() implies (#[trigger] rest[i])@ == trace::bit(
            v,
            i as nat,
        ) by {
            assert(bits[i] == rest[i]);
        }
        lemma_weight(rest, v);
        assert(bits[bits.len() - 1] == bits.last());
    }
}

/// Jobs have eight rows each, one after the other, and are marked by their kind: the
/// owner's commitment, the leaf, the nullifier, and Merkle steps everywhere else.
pub proof fn law_jobs(job: usize, first: usize, last: usize, column: usize)
    requires
        8 * job + 8 <= usize::MAX,
        call_ensures(job_start_row, (job,), first),
        call_ensures(job_last_row, (job,), last),
        call_ensures(job_type_column, (job,), column),
    ensures
        first == 8 * job,
        last == 8 * job + 7,
        column == (if job == 0 {
            14int
        } else if job == 1 {
            15int
        } else if job == 27 {
            17int
        } else {
            16int
        }),
{
}

/// A frame holds the rows that it is made of.
pub proof fn law_frames(
    cur: Vec<BaseElement>,
    nxt: Vec<BaseElement>,
    frame: EvaluationFrame<BaseElement>,
    c: &[BaseElement],
    n: &[BaseElement],
)
    requires
        cur@.len() == nxt@.len(),
        call_ensures(EvaluationFrame::<BaseElement>::from_rows, (cur, nxt), frame),
        call_ensures(EvaluationFrame::<BaseElement>::current, (&frame,), c),
        call_ensures(EvaluationFrame::<BaseElement>::next, (&frame,), n),
    ensures
        c@ == cur@,
        n@ == nxt@,
{
}

/// The shape of a trace is the one that it is described with.
pub proof fn law_shapes(width: usize, length: usize, info: TraceInfo, w: usize, l: usize)
    requires
        width > 0,
        length >= 8,
        is_pow2(length as int),
        call_ensures(TraceInfo::new, (width, length), info),
        call_ensures(TraceInfo::width, (&info,), w),
        call_ensures(TraceInfo::length, (&info,), l),
    ensures
        w == width,
        l == length,
        info.columns() == width,
        info.rows() == length,
{
}

/// The demonstration's title is that of secret 0xA11CE and property 42 in registry 1, for
/// purpose 1; it is the only leaf of its tree, and the root is where its path ends.
pub proof fn law_demonstration(
    current_timestamp: u64,
    request_nonce: u128,
    license_expiry: u64,
    r: (Witness, BaseElement),
    nodes: Seq<BaseElement>,
    l: int,
)
    requires
        call_ensures(witness_for, (current_timestamp, request_nonce, license_expiry), r),
        0 <= l < 25,
    ensures
        r.0.registry_id@ == 1,
        r.0.purpose@ == 1,
        r.0.request_nonce == field::elem(request_nonce as int),
        r.0.current_timestamp == current_timestamp,
        r.0.owner_secret@ == 0xA11CE,
        r.0.property_id@ == 42,
        r.0.license_expiry == license_expiry,
        r.0.merkle_siblings@.len() == 25,
        r.0.merkle_bits@.len() == 25,
        !r.0.merkle_bits@[l],
        r.0.merkle_siblings@[l] == tree::subtree(Map::empty(), l as nat, 1),
        tree_laws::climbs(
            nodes,
            title_of(
                r.0.registry_id,
                r.0.owner_secret,
                r.0.property_id,
                field::elem(license_expiry as int),
            ),
            r.0.merkle_siblings@,
            r.0.merkle_bits@,
        ) ==> r.1 == nodes[25],
{
    let title = title_of(
        r.0.registry_id,
        r.0.owner_secret,
        r.0.property_id,
        field::elem(license_expiry as int),
    );
    field::lemma_elem_view(1);
    field::lemma_elem_view(42);
    field::lemma_elem_view(0xA11CE);
    lemma_small_mod(1, field::p() as nat);
    lemma_small_mod(42, field::p() as nat);
    lemma_small_mod(0xA11CE, field::p() as nat);
    lemma_pow2_pos(l as nat);
    assert(0int / (pow2(l as nat) as int) == 0) by {
        lemma_div_of0(pow2(l as nat) as int);
    }
    tree::lemma_beside_the_path(Map::empty(), 0, r.0.leaf(), l as nat, 1);
    if tree_laws::climbs(nodes, title, r.0.merkle_siblings@, r.0.merkle_bits@) {
        tree_laws::law_climbing(nodes, title, r.0.merkle_siblings@, r.0.merkle_bits@, 25);
    }
}

/// The witness to try things on asks with nonce 7, and its license lasts another year.
pub proof fn law_witness_to_try(r: (Witness, BaseElement), s: (Witness, BaseElement))
    requires
        call_ensures(demo_witness, (), r),
        call_ensures(witness_for, (1_754_000_000u64, 7u128, 1_785_536_000u64), s),
    ensures
        r.0.registry_id == s.0.registry_id,
        r.0.purpose == s.0.purpose,
        r.0.request_nonce == s.0.request_nonce,
        r.0.current_timestamp == 1_754_000_000,
        r.0.owner_secret == s.0.owner_secret,
        r.0.property_id == s.0.property_id,
        r.0.license_expiry == 1_754_000_000 + 365 * 24 * 3600,
        r.0.merkle_siblings@ == s.0.merkle_siblings@,
        r.0.merkle_bits@ == s.0.merkle_bits@,
        r.1 == s.1,
        r.0.complete(),
{
    assert(crate::demo::only_leaf_of(r.0) == crate::demo::only_leaf_of(s.0));
}

/// The empty system has zeros for public inputs.
pub proof fn law_empty_system(air: TitleAir, pi: &PublicInputs, context: &AirContext)
    requires
        call_ensures(dummy_air, (), air),
        call_ensures(TitleAir::pub_inputs, (&air,), pi),
        call_ensures(TitleAir::context, (&air,), context),
    ensures
        pi.registry_id@ == 0,
        pi.merkle_root@ == 0,
        pi.purpose@ == 0,
        pi.request_nonce@ == 0,
        pi.current_timestamp@ == 0,
        pi.nullifier@ == 0,
        context.trace_info.columns() == 50,
        context.trace_info.rows() == 256,
        context.num_assertions == 39,
        context.options.num_queries == 28,
        context.options.blowup_factor == 8,
        context.options.grinding_factor == 0,
        context.options.field_extension == FieldExtension::Base,
        context.options.fri_folding_factor == 4,
        context.options.fri_remainder_max_degree == 7,
        context.options.batching_constraints == BatchingMethod::Linear,
        context.options.batching_deep == BatchingMethod::Linear,
{
    let e = pi.elements();
    field::lemma_elem_view(0);
    lemma_small_mod(0, field::p() as nat);
    assert(e[0] == pi.registry_id && e[1] == pi.merkle_root && e[2] == pi.purpose);
    assert(e[3] == pi.request_nonce && e[4] == pi.current_timestamp && e[5] == pi.nullifier);
}

/// A trace is built of every witness with a path of 25 steps and a license that expires
/// after the time, by at most `2^32` seconds; every trace of the right shape is evaluated.
pub proof fn law_traces_may_be_built(w: &Witness, air: &TitleAir, cols: &[Vec<BaseElement>])
    requires
        w.merkle_siblings@.len() == 25,
        w.merkle_bits@.len() == 25,
        w.current_timestamp < w.license_expiry <= w.current_timestamp + 0x1_0000_0000,
        cols@.len() == 50,
        forall|c: int| 0 <= c < 50 ==> (#[trigger] cols@[c])@.len() == 256,
    ensures
        call_requires(build_trace, (w,)),
        call_requires(eval_all_constraints, (air, cols)),
        call_requires(TitleAir::get_assertions, (air,)),
{
}

/// What a system is described with is kept as it is given.
pub proof fn law_descriptions(
    degree: usize,
    plain: TransitionConstraintDegree,
    cycles: Vec<usize>,
    cyclic: TransitionConstraintDegree,
    column: usize,
    step: usize,
    value: BaseElement,
    a: Assertion<BaseElement>,
    info: TraceInfo,
    degrees: Vec<TransitionConstraintDegree>,
    count: usize,
    options: ProofOptions,
    context: AirContext,
    n: usize,
    z: Vec<BaseElement>,
    blank: EvaluationFrame<BaseElement>,
)
    requires
        degree > 0,
        count > 0,
        call_ensures(TransitionConstraintDegree::new, (degree,), plain),
        call_ensures(TransitionConstraintDegree::with_cycles, (degree, cycles), cyclic),
        call_ensures(Assertion::<BaseElement>::single, (column, step, value), a),
        call_ensures(AirContext::new, (info, degrees, count, options), context),
        call_ensures(zeros::<BaseElement>, (n,), z),
        call_ensures(EvaluationFrame::<BaseElement>::new, (n,), blank),
    ensures
        plain.base == degree && plain.cycles@.len() == 0,
        cyclic.base == degree && cyclic.cycles@ == cycles@,
        a.column == column && a.first_step == step && a.value == value,
        context.trace_info == info,
        context.transition_constraint_degrees == degrees,
        context.num_assertions == count,
        context.options == options,
        z@.len() == n,
        forall|i: int| 0 <= i < n ==> (#[trigger] z@[i])@ == 0,
        blank.cur() == z@,
        blank.nxt() == z@,
{
    field::lemma_elem_view(0);
    lemma_small_mod(0, field::p() as nat);
}

/// The rows of a frame are written one at a time: what is written to one leaves the other
/// as it is.
pub proof fn law_frames_are_written(
    before: EvaluationFrame<BaseElement>,
    after: EvaluationFrame<BaseElement>,
    later: EvaluationFrame<BaseElement>,
)
    ensures
        forall|f: &mut EvaluationFrame<BaseElement>, row: &mut [BaseElement]|
            *f == before && *final(f) == after && #[trigger] call_ensures(
                EvaluationFrame::<BaseElement>::current_mut,
                (f,),
                row,
            ) ==> row@ == before.cur() && after.cur() == final(row)@ && after.nxt()
                == before.nxt(),
        forall|f: &mut EvaluationFrame<BaseElement>, row: &mut [BaseElement]|
            *f == before && *final(f) == later && #[trigger] call_ensures(
                EvaluationFrame::<BaseElement>::next_mut,
                (f,),
                row,
            ) ==> row@ == before.nxt() && later.nxt() == final(row)@ && later.cur()
                == before.cur(),
{
}

/// The state in which a job of an owner's trace starts: tag 2 with secret and property for
/// the commitment; tag 1 with the registry, the commitment, no encumbrance, a valid
/// license and its expiry for the leaf; tag 4 with the digest so far and the sibling, in
/// the order of the direction, for a Merkle step; tag 3 with secret, property, purpose and
/// nonce for the nullifier; and tag 4 with the digest so far for padding.
pub open spec fn job_starts(w: Witness, job: int, digest: BaseElement) -> Seq<BaseElement> {
    let z = field::elem(0);
    if job == 0 {
        seq![field::elem(2), w.owner_secret, w.property_id, z, z, z, z, z]
    } else if job == 1 {
        seq![
            field::elem(1),
            w.registry_id,
            digest,
            z,
            field::elem(1),
            field::elem(w.license_expiry as int),
            z,
            z,
        ]
    } else if job == 27 {
        seq![
            field::elem(3),
            w.owner_secret,
            w.property_id,
            w.purpose,
            w.request_nonce,
            z,
            z,
            z,
        ]
    } else if job > 27 {
        seq![field::elem(4), digest, z, z, z, z, z, z]
    } else if w.merkle_bits@[job - 2] {
        seq![field::elem(4), w.merkle_siblings@[job - 2], digest, z, z, z, z, z]
    } else {
        seq![field::elem(4), digest, w.merkle_siblings@[job - 2], z, z, z, z, z]
    }
}

/// What a job of an owner's trace brings along in its first row.
pub open spec fn job_inputs(w: Witness, job: int) -> Seq<BaseElement> {
    let z = field::elem(0);
    if job == 1 {
        seq![w.registry_id, z, field::elem(1), field::elem(w.license_expiry as int)]
    } else if job == 27 {
        seq![w.purpose, w.request_nonce, z, z]
    } else if 2 <= job <= 26 {
        seq![
            w.merkle_siblings@[job - 2],
            if w.merkle_bits@[job - 2] {
                field::elem(1)
            } else {
                z
            },
            z,
            z,
        ]
    } else {
        seq![z, z, z, z]
    }
}

/// The lanes of a row.
pub open spec fn lanes_at(cols: Seq<Vec<BaseElement>>, row: int) -> Seq<BaseElement> {
    Seq::new(8, |lane: int| cols[lane]@[row])
}

/// Every cell of an owner's trace: each job starts from its starting state and goes on
/// round by round; its inputs stand in its first row, and zero below; each row is marked
/// with the kind of its job alone; the secret and the property are held in every row; and
/// the range bits stand in row 8, and zero everywhere else.
pub proof fn law_cells(
    w: &Witness,
    r: (Vec<Vec<BaseElement>>, PublicInputs),
    seeds: Seq<u64>,
    row: int,
)
    requires
        w.merkle_siblings@.len() == 25,
        w.merkle_bits@.len() == 25,
        w.current_timestamp < w.license_expiry <= w.current_timestamp + 0x1_0000_0000,
        call_ensures(build_trace, (w,), r),
        hash_laws::generated(seeds),
        0 <= row < 256,
    ensures
        ({
            let cols = r.0@;
            let job = row / 8;
            let kind = if job == 0 {
                14int
            } else if job == 1 {
                15int
            } else if job == 27 {
                17int
            } else {
                16int
            };
            &&& row % 8 == 0 && job == 0 ==> lanes_at(cols, row) == job_starts(
                *w,
                0,
                field::elem(0),
            )
            &&& row % 8 == 0 && job > 0 ==> lanes_at(cols, row) == job_starts(
                *w,
                job,
                cols[0]@[row - 1],
            )
            &&& row % 8 != 7 ==> hash_laws::one_round(
                hash_laws::numbers(lanes_at(cols, row)),
                hash_laws::constants_in(seeds, row % 8),
                hash_laws::numbers(lanes_at(cols, row + 1)),
            )
            &&& forall|a: int|
                0 <= a < 4 ==> #[trigger] cols[8 + a]@[row] == (if row % 8 == 0 {
                    job_inputs(*w, job)[a]
                } else {
                    field::elem(0)
                })
            &&& cols[12]@[row] == w.owner_secret
            &&& cols[13]@[row] == w.property_id
            &&& forall|c: int|
                14 <= c < 18 ==> #[trigger] cols[c]@[row] == (if c == kind {
                    field::elem(1)
                } else {
                    field::elem(0)
                })
            &&& forall|k: int|
                0 <= k < 32 ==> #[trigger] cols[18 + k]@[row] == (if row == 8 {
                    field::elem(
                        ((w.license_expiry - w.current_timestamp - 1) / (pow2(k as nat) as int)) % 2,
                    )
                } else {
                    field::elem(0)
                })
        }),
{
    let cols = r.0@;
    let job = row / 8;
    let step = row % 8;
    assert(row == job * 8 + step);
    let start = trace::job_state(*w, job);
    assert forall|c: int| 0 <= c < 50 implies #[trigger] cols[c]@[row] == trace::cell(*w, c, row) by {}
    assert(lanes_at(cols, row) =~= permutation::permuted(start, step as nat)) by {
        lemma_permuted_width(start, step as nat);
        assert forall|lane: int| 0 <= lane < 8 implies lanes_at(cols, row)[lane]
            == permutation::permuted(start, step as nat)[lane] by {
            assert(cols[lane]@[row] == trace::cell(*w, lane, row));
        }
    }
    if step == 0 {
        if job > 0 {
            assert((row - 1) / 8 == job - 1);
            assert(cols[0]@[row - 1] == trace::cell(*w, 0, row - 1));
            assert(trace::digest_after(*w, job as nat) == permutation::digest(
                trace::job_state(*w, job - 1),
            ));
            assert(cols[0]@[row - 1] == trace::digest_after(*w, job as nat));
            assert(start =~= job_starts(*w, job, cols[0]@[row - 1]));
        } else {
            assert(start =~= job_starts(*w, 0, field::elem(0)));
        }
    }
    if step != 7 {
        assert((row + 1) / 8 == job);
        let now = permutation::permuted(start, step as nat);
        let next = permutation::permuted(start, (step + 1) as nat);
        lemma_permuted_width(start, (step + 1) as nat);
        assert(lanes_at(cols, row + 1) =~= next) by {
            assert forall|lane: int| 0 <= lane < 8 implies lanes_at(cols, row + 1)[lane]
                == next[lane] by {
                assert(cols[lane]@[row + 1] == trace::cell(*w, lane, row + 1));
            }
        }
        hash_laws::lemma_round(now, permutation::constants_of(step));
        assert forall|lane: int| 0 <= lane < 8 implies #[trigger] hash_laws::numbers(
            permutation::constants_of(step),
        )[lane] == hash_laws::constants_in(seeds, step)[lane] by {
            hash_laws::lemma_constant(seeds, step, lane);
        }
        assert(hash_laws::numbers(permutation::constants_of(step)) =~= hash_laws::constants_in(
            seeds,
            step,
        ));
    }
}

/// A state that rounds were applied to has eight lanes.
proof fn lemma_permuted_width(start: Seq<BaseElement>, n: nat)
    requires
        start.len() == 8,
    ensures
        permutation::permuted(start, n).len() == 8,
{
}

} // verus!
