//! The honest trace: how an owner's witness fills the cells of the trace, and
//! how the constraints are evaluated over a whole trace.

use vstd::arithmetic::div_mod::*;
use vstd::arithmetic::power2::*;
use vstd::prelude::*;

use crate::air;
use crate::air::{PublicInputs, TitleAir};
use crate::context::{zeros, EvaluationFrame};
use crate::field;
use crate::field::BaseElement;
use crate::layout;
use crate::layout::{
    job_start_row, job_type_column, AUX_A, AUX_B, AUX_C, AUX_D, DOMAIN_LEAF, DOMAIN_NODE,
    DOMAIN_NULLIFIER, DOMAIN_OWNER_COMMITMENT, HELD_PID, HELD_SECRET, JOB_COUNT, JOB_LEAF,
    JOB_MERKLE_FIRST, JOB_MERKLE_LAST, JOB_NULLIFIER, JOB_OWNER,
    NUM_TRANSITION_CONSTRAINTS, RANGE_BITS, RC_BIT_0, ROUNDS, ROW_LEAF_FIRST, STATE_WIDTH,
    TRACE_LENGTH, TRACE_WIDTH, TREE_DEPTH,
};
use crate::permutation;
use crate::permutation::{apply_round, round_constants};
use crate::soundness;
use crate::statement;

verus! {

/// What a prover knows: the request's values, the owner's secret and property,
/// the license's expiry and the path of the leaf.
#[derive(Clone, Debug)]
pub struct Witness {
    pub registry_id: BaseElement,
    pub purpose: BaseElement,
    pub request_nonce: BaseElement,
    pub current_timestamp: u64,
    pub owner_secret: BaseElement,
    pub property_id: BaseElement,
    pub license_expiry: u64,
    pub merkle_siblings: Vec<BaseElement>,
    pub merkle_bits: Vec<bool>,
}

impl Witness {
    /// The elements are elements; every witness at run time is so.
    pub open spec fn wf(self) -> bool {
        &&& self.registry_id.wf()
        &&& self.purpose.wf()
        &&& self.request_nonce.wf()
        &&& self.owner_secret.wf()
        &&& self.property_id.wf()
        &&& forall|i: int|
            0 <= i < self.merkle_siblings@.len() ==> (#[trigger] self.merkle_siblings@[i]).wf()
    }

    /// The path leads from a leaf to the root, and the license outlasts the current
    /// time by no more seconds than the range check counts.
    pub open spec fn complete(self) -> bool {
        &&& self.merkle_siblings@.len() == TREE_DEPTH
        &&& self.merkle_bits@.len() == TREE_DEPTH
        &&& self.license_expiry > self.current_timestamp
        &&& self.remaining() < 0x1_0000_0000
    }

    /// The seconds that the range check counts.
    pub open spec fn remaining(self) -> int {
        self.license_expiry - self.current_timestamp - 1
    }

    /// The leaf of the witness's title.
    pub open spec fn leaf(self) -> BaseElement {
        statement::leaf(
            self.registry_id,
            statement::owner_commitment(self.owner_secret, self.property_id),
            field::elem(0),
            field::elem(1),
            field::elem(self.license_expiry as int),
        )
    }

    /// The public inputs that the witness's trace satisfies.
    pub open spec fn public_inputs(self) -> PublicInputs {
        PublicInputs {
            registry_id: self.registry_id,
            merkle_root: statement::climbed(
                self.leaf(),
                self.merkle_siblings@,
                self.merkle_bits@,
                TREE_DEPTH as nat,
            ),
            purpose: self.purpose,
            request_nonce: self.request_nonce,
            current_timestamp: field::elem(self.current_timestamp as int),
            nullifier: statement::nullifier(
                self.owner_secret,
                self.property_id,
                self.purpose,
                self.request_nonce,
            ),
        }
    }
}

/// Bit `i` of an integer.
pub open spec fn bit(v: int, i: nat) -> int {
    (v / pow2(i) as int) % 2
}

/// The lowest `n` bits of an integer as field elements, the lowest one first.
pub fn to_bits_le(v: u64, n: usize) -> (r: Vec<BaseElement>)
    requires
        n <= 64,
    ensures
        r@ == Seq::new(n as nat, |i: int| field::elem(bit(v as int, i as nat))),
{
    let mut r: Vec<BaseElement> = Vec::new();
    let mut i: usize = 0;
    while i < n
        invariant
            i <= n <= 64,
            r@ == Seq::new(i as nat, |k: int| field::elem(bit(v as int, k as nat))),
        decreases n - i,
    {
        let shifted: u64 = v >> (i as u64);
        let low: u64 = shifted & 1;
        proof {
            vstd::bits::lemma_u64_shr_is_div(v, i as u64);
            assert(low == shifted % 2) by (bit_vector)
                requires
                    low == shifted & 1,
            ;
        }
        r.push(BaseElement::new(low as u128));
        i = i + 1;
    }
    r
}

/// The lowest `n` bits of an integer, weighted by powers of two.
pub open spec fn bits_sum(v: int, n: nat) -> int
    decreases n,
{
    if n == 0 {
        0
    } else {
        bits_sum(v, (n - 1) as nat) + bit(v, (n - 1) as nat) * pow2((n - 1) as nat)
    }
}

/// The lowest bits of a number spell out its remainder; all bits of a number that
/// fits spell out the number.
pub proof fn law_bits_spell_out_the_number(v: int, n: nat)
    requires
        v >= 0,
    ensures
        bits_sum(v, n) == v % (pow2(n) as int),
        v < pow2(n) ==> bits_sum(v, n) == v,
    decreases n,
{
    lemma2_to64();
    lemma_pow2_pos(n);
    if n > 0 {
        let m = (n - 1) as nat;
        let h = pow2(m) as int;
        law_bits_spell_out_the_number(v, m);
        lemma_pow2_unfold(n);
        lemma_pow2_pos(m);
        lemma_mod_breakdown(v, h, 2);
        assert(h * 2 == 2 * h);
        assert(bit(v, m) * h == h * ((v / h) % 2)) by (nonlinear_arith)
            requires
                bit(v, m) == (v / h) % 2,
        ;
    }
    if v < pow2(n) {
        lemma_small_mod(v as nat, pow2(n));
    }
}

/// The state in which a job starts, given the previous job's digest.
pub open spec fn start_state(w: Witness, job: int, prev: BaseElement) -> Seq<BaseElement> {
    permutation::padded(
        if job == JOB_OWNER {
            seq![field::elem(DOMAIN_OWNER_COMMITMENT as int), w.owner_secret, w.property_id]
        } else if job == JOB_LEAF {
            seq![
                field::elem(DOMAIN_LEAF as int),
                w.registry_id,
                prev,
                field::elem(0),
                field::elem(1),
                field::elem(w.license_expiry as int),
            ]
        } else if job == JOB_NULLIFIER {
            seq![
                field::elem(DOMAIN_NULLIFIER as int),
                w.owner_secret,
                w.property_id,
                w.purpose,
                w.request_nonce,
            ]
        } else if job > JOB_NULLIFIER {
            seq![field::elem(DOMAIN_NODE as int), prev]
        } else if w.merkle_bits@[job - JOB_MERKLE_FIRST] {
            seq![
                field::elem(DOMAIN_NODE as int),
                w.merkle_siblings@[job - JOB_MERKLE_FIRST],
                prev,
            ]
        } else {
            seq![
                field::elem(DOMAIN_NODE as int),
                prev,
                w.merkle_siblings@[job - JOB_MERKLE_FIRST],
            ]
        },
    )
}

/// The inputs that a job brings along.
pub open spec fn start_aux(w: Witness, job: int) -> Seq<BaseElement> {
    if job == JOB_LEAF {
        seq![w.registry_id, field::elem(0), field::elem(1), field::elem(w.license_expiry as int)]
    } else if job == JOB_NULLIFIER {
        seq![w.purpose, w.request_nonce, field::elem(0), field::elem(0)]
    } else if JOB_MERKLE_FIRST <= job <= JOB_MERKLE_LAST {
        seq![
            w.merkle_siblings@[job - JOB_MERKLE_FIRST],
            field::elem(
                if w.merkle_bits@[job - JOB_MERKLE_FIRST] {
                    1
                } else {
                    0
                },
            ),
            field::elem(0),
            field::elem(0),
        ]
    } else {
        seq![field::elem(0), field::elem(0), field::elem(0), field::elem(0)]
    }
}

/// The digests of the first `n` jobs come one from the other; this is the last
/// of them, and zero before the first.
pub open spec fn digest_after(w: Witness, n: nat) -> BaseElement
    decreases n,
{
    if n == 0 {
        field::elem(0)
    } else {
        permutation::digest(start_state(w, n - 1, digest_after(w, (n - 1) as nat)))
    }
}

/// The state in which a job of the trace starts.
pub open spec fn job_state(w: Witness, job: int) -> Seq<BaseElement> {
    start_state(w, job, digest_after(w, job as nat))
}

/// What a cell holds before the jobs have run: the held columns, the range bits
/// in the leaf job's first row, and zero elsewhere.
pub open spec fn blank(w: Witness, col: int, row: int) -> BaseElement {
    if col == HELD_SECRET {
        w.owner_secret
    } else if col == HELD_PID {
        w.property_id
    } else if col >= RC_BIT_0 && row == ROW_LEAF_FIRST {
        field::elem(bit(w.remaining(), (col - RC_BIT_0) as nat))
    } else {
        field::elem(0)
    }
}

/// What a cell holds once a job has run over it.
pub open spec fn filled(
    job: int,
    start: Seq<BaseElement>,
    aux: Seq<BaseElement>,
    col: int,
    row: int,
    before: BaseElement,
) -> BaseElement {
    let step = row - job * ROUNDS;
    if col < STATE_WIDTH {
        permutation::permuted(start, step as nat)[col]
    } else if col == layout::type_column(job) {
        field::elem(1)
    } else if AUX_A <= col <= AUX_D && step == 0 {
        aux[col - AUX_A]
    } else {
        before
    }
}

/// The cell of the honest trace.
pub open spec fn cell(w: Witness, col: int, row: int) -> BaseElement {
    let job = row / (ROUNDS as int);
    filled(job, job_state(w, job), start_aux(w, job), col, row, blank(w, col, row))
}

/// A row of the honest trace.
pub open spec fn honest_row(w: Witness, row: int) -> Seq<BaseElement> {
    Seq::new(TRACE_WIDTH as nat, |col: int| cell(w, col, row))
}

/// Whether columns have the shape of a trace.
pub open spec fn shaped(cols: Seq<Vec<BaseElement>>) -> bool {
    &&& cols.len() == TRACE_WIDTH
    &&& forall|c: int| 0 <= c < TRACE_WIDTH ==> (#[trigger] cols[c])@.len() == TRACE_LENGTH
}

/// Writes one cell.
fn put(cols: &mut Vec<Vec<BaseElement>>, col: usize, row: usize, value: BaseElement)
    requires
        shaped(old(cols)@),
        col < TRACE_WIDTH,
        row < TRACE_LENGTH,
    ensures
        shaped(final(cols)@),
        forall|c: int, r: int|
            0 <= c < TRACE_WIDTH && 0 <= r < TRACE_LENGTH ==> #[trigger] final(cols)@[c]@[r] == (
            if c == col && r == row {
                value
            } else {
                old(cols)@[c]@[r]
            }),
{
    let column = &mut cols[col];
    column.set(row, value);
}

/// Columns of zeros.
fn zero_columns() -> (cols: Vec<Vec<BaseElement>>)
    ensures
        shaped(cols@),
        forall|c: int, r: int|
            0 <= c < TRACE_WIDTH && 0 <= r < TRACE_LENGTH ==> #[trigger] cols@[c]@[r] == field::elem(
                0,
            ),
{
    let mut cols: Vec<Vec<BaseElement>> = Vec::new();
    let mut i: usize = 0;
    while i < TRACE_WIDTH
        invariant
            i <= TRACE_WIDTH,
            cols@.len() == i,
            forall|c: int| 0 <= c < i ==> (#[trigger] cols@[c])@.len() == TRACE_LENGTH,
            forall|c: int, r: int|
                0 <= c < i && 0 <= r < TRACE_LENGTH ==> #[trigger] cols@[c]@[r] == field::elem(0),
        decreases TRACE_WIDTH - i,
    {
        cols.push(zeros(TRACE_LENGTH));
        i = i + 1;
    }
    cols
}

/// Runs one job: fills its rows and returns its digest.
fn run_job(
    cols: &mut Vec<Vec<BaseElement>>,
    rcs: &[[BaseElement; STATE_WIDTH]; ROUNDS],
    job: usize,
    initial_state: [BaseElement; STATE_WIDTH],
    aux: [BaseElement; 4],
) -> (r: BaseElement)
    requires
        shaped(old(cols)@),
        job < JOB_COUNT,
        forall|k: int| 0 <= k < ROUNDS ==> (#[trigger] rcs@[k])@ == permutation::constants_of(k),
    ensures
        r == permutation::digest(initial_state@),
        shaped(final(cols)@),
        forall|c: int, r: int|
            0 <= c < TRACE_WIDTH && 0 <= r < TRACE_LENGTH ==> #[trigger] final(cols)@[c]@[r] == (
            if r / (ROUNDS as int) == job {
                filled(job as int, initial_state@, aux@, c, r, old(cols)@[c]@[r])
            } else {
                old(cols)@[c]@[r]
            }),
{
    let start = job_start_row(job);
    let t_col = job_type_column(job);
    let ghost cols0 = cols@;
    let mut r: usize = 0;
    while r < ROUNDS
        invariant
            shaped(cols@),
            job < JOB_COUNT,
            start == job * ROUNDS,
            t_col == layout::type_column(job as int),
            r <= ROUNDS,
            forall|c: int, k: int|
                0 <= c < TRACE_WIDTH && 0 <= k < TRACE_LENGTH ==> #[trigger] cols@[c]@[k] == (if c
                    == t_col && start <= k < start + r {
                    field::elem(1)
                } else {
                    cols0[c]@[k]
                }),
        decreases ROUNDS - r,
    {
        put(cols, t_col, start + r, BaseElement::new(1));
        r = r + 1;
    }
    put(cols, AUX_A, start, aux[0]);
    put(cols, AUX_B, start, aux[1]);
    put(cols, AUX_C, start, aux[2]);
    put(cols, AUX_D, start, aux[3]);

    let ghost cols1 = cols@;
    let mut state = initial_state;
    r = 0;
    while r < ROUNDS
        invariant
            shaped(cols@),
            job < JOB_COUNT,
            start == job * ROUNDS,
            r <= ROUNDS,
            forall|k: int| 0 <= k < ROUNDS ==> (#[trigger] rcs@[k])@ == permutation::constants_of(k),
            r < ROUNDS ==> state@ == permutation::permuted(initial_state@, r as nat),
            r == ROUNDS ==> state@ == permutation::permuted(initial_state@, (ROUNDS - 1) as nat),
            forall|c: int, k: int|
                0 <= c < TRACE_WIDTH && 0 <= k < TRACE_LENGTH ==> #[trigger] cols@[c]@[k] == (if c
                    < STATE_WIDTH && start <= k < start + r {
                    permutation::permuted(initial_state@, (k - start) as nat)[c]
                } else {
                    cols1[c]@[k]
                }),
        decreases ROUNDS - r,
    {
        let ghost cols2 = cols@;
        let mut lane: usize = 0;
        while lane < STATE_WIDTH
            invariant
                shaped(cols@),
                job < JOB_COUNT,
                start == job * ROUNDS,
                r < ROUNDS,
                lane <= STATE_WIDTH,
                forall|c: int, k: int|
                    0 <= c < TRACE_WIDTH && 0 <= k < TRACE_LENGTH ==> #[trigger] cols@[c]@[k] == (
                    if c < lane && k == start + r {
                        state@[c]
                    } else {
                        cols2[c]@[k]
                    }),
            decreases STATE_WIDTH - lane,
        {
            put(cols, lane, start + r, state[lane]);
            lane = lane + 1;
        }
        if r < ROUNDS - 1 {
            state = apply_round(&state, &rcs[r]);
        }
        r = r + 1;
    }
    assert forall|c: int, r: int|
        0 <= c < TRACE_WIDTH && 0 <= r < TRACE_LENGTH implies #[trigger] cols@[c]@[r] == (if r / (
    ROUNDS as int) == job {
        filled(job as int, initial_state@, aux@, c, r, cols0[c]@[r])
    } else {
        cols0[c]@[r]
    }) by {
        assert(r / (ROUNDS as int) == job <==> start <= r < start + ROUNDS);
    }
    state[0]
}

/// The state in which a job starts, given the previous job's digest.
fn initial_state(w: &Witness, job: usize, prev: BaseElement) -> (r: [BaseElement; STATE_WIDTH])
    requires
        w.complete(),
        job < JOB_COUNT,
    ensures
        r@ == start_state(*w, job as int, prev),
{
    let z = BaseElement::new(0);
    let r: [BaseElement; STATE_WIDTH] = if job == JOB_OWNER {
        let tag = BaseElement::new(DOMAIN_OWNER_COMMITMENT as u128);
        [tag, w.owner_secret, w.property_id, z, z, z, z, z]
    } else if job == JOB_LEAF {
        let tag = BaseElement::new(DOMAIN_LEAF as u128);
        let expiry = BaseElement::new(w.license_expiry as u128);
        [tag, w.registry_id, prev, z, BaseElement::new(1), expiry, z, z]
    } else if job == JOB_NULLIFIER {
        let tag = BaseElement::new(DOMAIN_NULLIFIER as u128);
        [tag, w.owner_secret, w.property_id, w.purpose, w.request_nonce, z, z, z]
    } else {
        let tag = BaseElement::new(DOMAIN_NODE as u128);
        if job > JOB_NULLIFIER {
            [tag, prev, z, z, z, z, z, z]
        } else {
            let sibling = w.merkle_siblings[job - JOB_MERKLE_FIRST];
            if w.merkle_bits[job - JOB_MERKLE_FIRST] {
                [tag, sibling, prev, z, z, z, z, z]
            } else {
                [tag, prev, sibling, z, z, z, z, z]
            }
        }
    };
    assert(r@ =~= start_state(*w, job as int, prev));
    r
}

/// The inputs that a job brings along.
fn initial_aux(w: &Witness, job: usize) -> (r: [BaseElement; 4])
    requires
        w.complete(),
        job < JOB_COUNT,
    ensures
        r@ == start_aux(*w, job as int),
{
    let z = BaseElement::new(0);
    let r: [BaseElement; 4] = if job == JOB_LEAF {
        [w.registry_id, z, BaseElement::new(1), BaseElement::new(w.license_expiry as u128)]
    } else if job == JOB_NULLIFIER {
        [w.purpose, w.request_nonce, z, z]
    } else if JOB_MERKLE_FIRST <= job && job <= JOB_MERKLE_LAST {
        let bit = if w.merkle_bits[job - JOB_MERKLE_FIRST] {
            BaseElement::new(1)
        } else {
            z
        };
        [w.merkle_siblings[job - JOB_MERKLE_FIRST], bit, z, z]
    } else {
        [z, z, z, z]
    };
    assert(r@ =~= start_aux(*w, job as int));
    r
}

/// The digests of the jobs are the statement's commitment, leaf, path nodes and
/// nullifier.
pub proof fn lemma_digests(w: Witness, level: nat)
    requires
        level <= TREE_DEPTH,
    ensures
        digest_after(w, 1) == statement::owner_commitment(w.owner_secret, w.property_id),
        digest_after(w, (2 + level) as nat) == statement::climbed(
            w.leaf(),
            w.merkle_siblings@,
            w.merkle_bits@,
            level,
        ),
        digest_after(w, (JOB_NULLIFIER + 1) as nat) == w.public_inputs().nullifier,
    decreases level,
{
    assert(digest_after(w, 1) == permutation::digest(start_state(w, 0, digest_after(w, 0))));
    assert(digest_after(w, 2) == permutation::digest(start_state(w, 1, digest_after(w, 1))));
    if level > 0 {
        lemma_digests(w, (level - 1) as nat);
    }
}

/// A witness at run time holds elements only.
fn hold_elements(w: &Witness)
    ensures
        w.wf(),
{
    proof {
        use_type_invariant(&w.registry_id);
        use_type_invariant(&w.purpose);
        use_type_invariant(&w.request_nonce);
        use_type_invariant(&w.owner_secret);
        use_type_invariant(&w.property_id);
    }
    let mut i: usize = 0;
    while i < w.merkle_siblings.len()
        invariant
            i <= w.merkle_siblings@.len(),
            forall|k: int| 0 <= k < i ==> (#[trigger] w.merkle_siblings@[k]).wf(),
        decreases w.merkle_siblings@.len() - i,
    {
        let sibling = w.merkle_siblings[i];
        proof {
            use_type_invariant(&sibling);
        }
        i = i + 1;
    }
}

/// Fills a trace from a witness, and gives the public inputs that it satisfies:
/// every constraint vanishes in every row, and every assertion holds.
pub fn build_trace(w: &Witness) -> (r: (Vec<Vec<BaseElement>>, PublicInputs))
    requires
        w.complete(),
    ensures
        shaped(r.0@),
        forall|c: int, row: int|
            0 <= c < TRACE_WIDTH && 0 <= row < TRACE_LENGTH ==> #[trigger] r.0@[c]@[row] == cell(
                *w,
                c,
                row,
            ),
        r.1 == w.public_inputs(),
        soundness::satisfies(r.1, r.0@),
{
    hold_elements(w);
    let rcs = round_constants();
    let mut cols = zero_columns();
    let mut row: usize = 0;
    while row < TRACE_LENGTH
        invariant
            shaped(cols@),
            row <= TRACE_LENGTH,
            forall|c: int, k: int|
                0 <= c < TRACE_WIDTH && 0 <= k < TRACE_LENGTH ==> #[trigger] cols@[c]@[k] == (if c
                    == HELD_SECRET && k < row {
                    w.owner_secret
                } else if c == HELD_PID && k < row {
                    w.property_id
                } else {
                    field::elem(0)
                }),
        decreases TRACE_LENGTH - row,
    {
        put(&mut cols, HELD_SECRET, row, w.owner_secret);
        put(&mut cols, HELD_PID, row, w.property_id);
        row = row + 1;
    }

    let bits = to_bits_le(w.license_expiry - w.current_timestamp - 1, RANGE_BITS);
    let start = job_start_row(JOB_LEAF);
    let mut i: usize = 0;
    while i < RANGE_BITS
        invariant
            w.complete(),
            shaped(cols@),
            start == ROW_LEAF_FIRST,
            i <= RANGE_BITS,
            bits@ == Seq::new(
                RANGE_BITS as nat,
                |k: int| field::elem(bit(w.remaining(), k as nat)),
            ),
            forall|c: int, k: int|
                0 <= c < TRACE_WIDTH && 0 <= k < TRACE_LENGTH ==> #[trigger] cols@[c]@[k] == (if c
                    >= RC_BIT_0 + i {
                    field::elem(0)
                } else {
                    blank(*w, c, k)
                }),
        decreases RANGE_BITS - i,
    {
        put(&mut cols, RC_BIT_0 + i, start, bits[i]);
        i = i + 1;
    }

    let mut current = BaseElement::new(0);
    let mut merkle_root = current;
    let mut nullifier = current;
    let mut job: usize = 0;
    while job < JOB_COUNT
        invariant
            w.complete(),
            shaped(cols@),
            job <= JOB_COUNT,
            forall|k: int| 0 <= k < ROUNDS ==> (#[trigger] rcs@[k])@ == permutation::constants_of(k),
            current == digest_after(*w, job as nat),
            job > JOB_MERKLE_LAST ==> merkle_root == digest_after(*w, (JOB_MERKLE_LAST + 1) as nat),
            job > JOB_NULLIFIER ==> nullifier == digest_after(*w, (JOB_NULLIFIER + 1) as nat),
            forall|c: int, k: int|
                0 <= c < TRACE_WIDTH && 0 <= k < TRACE_LENGTH ==> #[trigger] cols@[c]@[k] == (if k
                    / (ROUNDS as int) < job {
                    cell(*w, c, k)
                } else {
                    blank(*w, c, k)
                }),
        decreases JOB_COUNT - job,
    {
        let state = initial_state(w, job, current);
        let aux = initial_aux(w, job);
        current = run_job(&mut cols, &rcs, job, state, aux);
        if job == JOB_MERKLE_LAST {
            merkle_root = current;
        }
        if job == JOB_NULLIFIER {
            nullifier = current;
        }
        job = job + 1;
    }
    proof {
        lemma_digests(*w, TREE_DEPTH as nat);
    }
    let pub_inputs = PublicInputs {
        registry_id: w.registry_id,
        merkle_root,
        purpose: w.purpose,
        request_nonce: w.request_nonce,
        current_timestamp: BaseElement::new(w.current_timestamp as u128),
        nullifier,
    };
    proof {
        soundness::law_honest_trace_shows_its_witness(*w, cols@);
    }
    (cols, pub_inputs)
}

/// A row of a trace that is given by its columns.
pub open spec fn row_of(cols: Seq<Vec<BaseElement>>, row: int) -> Seq<BaseElement> {
    Seq::new(cols.len(), |c: int| cols[c]@[row])
}

/// Evaluates all constraints in all rows, the first row being next to the last.
pub fn eval_all_constraints(air: &TitleAir, cols: &[Vec<BaseElement>]) -> (r: Vec<Vec<BaseElement>>)
    requires
        cols@.len() >= TRACE_WIDTH,
        forall|c: int| 0 <= c < cols@.len() ==> (#[trigger] cols@[c])@.len() >= TRACE_LENGTH,
    ensures
        r@.len() == TRACE_LENGTH,
        forall|step: int|
            0 <= step < TRACE_LENGTH ==> (#[trigger] r@[step])@ == Seq::new(
                NUM_TRANSITION_CONSTRAINTS as nat,
                |i: int|
                    air::constraint(
                        air.inputs().current_timestamp,
                        row_of(cols@, step),
                        row_of(cols@, (step + 1) % (TRACE_LENGTH as int)),
                        air::periodic_row(step),
                        i,
                    ),
            ),
{
    let periodic = air.get_periodic_column_values();
    let mut all_results: Vec<Vec<BaseElement>> = Vec::new();
    let mut step: usize = 0;
    while step < TRACE_LENGTH
        invariant
            step <= TRACE_LENGTH,
            cols@.len() >= TRACE_WIDTH,
            forall|c: int| 0 <= c < cols@.len() ==> (#[trigger] cols@[c])@.len() >= TRACE_LENGTH,
            periodic@.len() == STATE_WIDTH + 2,
            forall|col: int|
                0 <= col < STATE_WIDTH + 2 ==> (#[trigger] periodic@[col])@ == Seq::new(
                    ROUNDS as nat,
                    |row: int| air::periodic_value(col, row),
                ),
            all_results@.len() == step,
            forall|k: int|
                0 <= k < step ==> (#[trigger] all_results@[k])@ == Seq::new(
                    NUM_TRANSITION_CONSTRAINTS as nat,
                    |i: int|
                        air::constraint(
                            air.inputs().current_timestamp,
                            row_of(cols@, k),
                            row_of(cols@, (k + 1) % (TRACE_LENGTH as int)),
                            air::periodic_row(k),
                            i,
                        ),
                ),
        decreases TRACE_LENGTH - step,
    {
        let next_step: usize = (step + 1) % TRACE_LENGTH;
        let frame = EvaluationFrame::from_rows(read_row(cols, step), read_row(cols, next_step));
        let cycle_pos: usize = step % ROUNDS;
        let mut pv: Vec<BaseElement> = Vec::new();
        let mut col: usize = 0;
        while col < STATE_WIDTH + 2
            invariant
                col <= STATE_WIDTH + 2,
                cycle_pos == step % ROUNDS,
                periodic@.len() == STATE_WIDTH + 2,
                forall|c: int|
                    0 <= c < STATE_WIDTH + 2 ==> (#[trigger] periodic@[c])@ == Seq::new(
                        ROUNDS as nat,
                        |row: int| air::periodic_value(c, row),
                    ),
                pv@ == Seq::new(col as nat, |c: int| air::periodic_value(c, step as int)),
            decreases STATE_WIDTH + 2 - col,
        {
            pv.push(periodic[col][cycle_pos]);
            col = col + 1;
        }
        let mut result: Vec<BaseElement> = zeros(NUM_TRANSITION_CONSTRAINTS);
        air.evaluate_transition(&frame, pv.as_slice(), result.as_mut_slice());
        assert(pv@ =~= air::periodic_row(step as int));
        assert(result@ =~= Seq::new(
            NUM_TRANSITION_CONSTRAINTS as nat,
            |i: int|
                air::constraint(
                    air.inputs().current_timestamp,
                    row_of(cols@, step as int),
                    row_of(cols@, (step + 1) % (TRACE_LENGTH as int)),
                    air::periodic_row(step as int),
                    i,
                ),
        ));
        all_results.push(result);
        step = step + 1;
    }
    all_results
}

/// Reads one row of a trace.
fn read_row(cols: &[Vec<BaseElement>], row: usize) -> (r: Vec<BaseElement>)
    requires
        forall|c: int| 0 <= c < cols@.len() ==> (#[trigger] cols@[c])@.len() > row,
    ensures
        r@ == row_of(cols@, row as int),
{
    let mut r: Vec<BaseElement> = Vec::new();
    let mut c: usize = 0;
    while c < cols.len()
        invariant
            c <= cols@.len(),
            forall|k: int| 0 <= k < cols@.len() ==> (#[trigger] cols@[k])@.len() > row,
            r@ == Seq::new(c as nat, |k: int| cols@[k]@[row as int]),
        decreases cols@.len() - c,
    {
        r.push(cols[c][row]);
        c = c + 1;
    }
    r
}

} // verus!
