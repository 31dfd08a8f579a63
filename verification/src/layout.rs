//! The shape of the execution trace: 32 jobs of 8 rows each, over 50 columns.
//!
//! | Job    | Rows     | Computes                                |
//! |-------:|----------|-----------------------------------------|
//! | 0      | 0..7     | the owner commitment                    |
//! | 1      | 8..15    | the leaf, with the range check          |
//! | 2..26  | 16..215  | the Merkle steps, from the leaf upwards |
//! | 27     | 216..223 | the nullifier                           |
//! | 28..31 | 224..255 | padding                                 |
//!
//! Columns 0..7 hold the permutation state, whose lane 0 is the digest;
//! 8..11 the inputs that a job brings along; 12 and 13 the owner's secret and
//! the property, held over the whole trace; 14..17 say which kind of job a row
//! belongs to; 18..49 the bits of the range check.

use vstd::prelude::*;

verus! {

/// Tags a leaf of the registry's tree.
pub const DOMAIN_LEAF: u64 = 1;

/// Tags an owner commitment.
pub const DOMAIN_OWNER_COMMITMENT: u64 = 2;

/// Tags a nullifier.
pub const DOMAIN_NULLIFIER: u64 = 3;

/// Tags an inner node of the registry's tree.
pub const DOMAIN_NODE: u64 = 4;

/// Depth of the registry's sparse Merkle tree.
pub const TREE_DEPTH: usize = 25;

/// Lanes of the permutation state.
pub const STATE_WIDTH: usize = 8;

/// Rows of a job: its first row and one for each round of the permutation.
pub const ROUNDS: usize = 8;

/// Jobs that compute something: owner commitment, leaf, Merkle steps, nullifier.
pub const REAL_JOB_COUNT: usize = 3 + TREE_DEPTH;

/// Jobs of a trace, padding included.
pub const JOB_COUNT: usize = 32;

/// Rows of a trace.
pub const TRACE_LENGTH: usize = JOB_COUNT * ROUNDS;

pub const JOB_OWNER: usize = 0;

pub const JOB_LEAF: usize = 1;

pub const JOB_MERKLE_FIRST: usize = 2;

pub const JOB_MERKLE_LAST: usize = JOB_MERKLE_FIRST + TREE_DEPTH - 1;

pub const JOB_NULLIFIER: usize = JOB_MERKLE_LAST + 1;

/// First row of the leaf job.
pub const ROW_LEAF_FIRST: usize = JOB_LEAF * ROUNDS;

/// Row that holds the root.
pub const ROW_MERKLE_LAST_OUTPUT: usize = JOB_MERKLE_LAST * ROUNDS + ROUNDS - 1;

/// First row of the nullifier job.
pub const ROW_NULLIFIER_FIRST: usize = JOB_NULLIFIER * ROUNDS;

/// Row that holds the nullifier.
pub const ROW_NULLIFIER_OUTPUT: usize = JOB_NULLIFIER * ROUNDS + ROUNDS - 1;

/// First lane of the permutation state, the digest.
pub const S0: usize = 0;

pub const AUX_A: usize = 8;

pub const AUX_B: usize = 9;

pub const AUX_C: usize = 10;

pub const AUX_D: usize = 11;

pub const HELD_SECRET: usize = 12;

pub const HELD_PID: usize = 13;

pub const T_OWNER: usize = 14;

pub const T_LEAF: usize = 15;

pub const T_MERKLE: usize = 16;

pub const T_NULLIFIER: usize = 17;

/// First column of the range check's bits.
pub const RC_BIT_0: usize = 18;

/// Bits of the range check.
pub const RANGE_BITS: usize = 32;

/// Columns of a trace.
pub const TRACE_WIDTH: usize = RC_BIT_0 + RANGE_BITS;

/// Transition constraints: 8 state lanes, 2 held columns, 4 job-kind booleans,
/// 1 sum of the job kinds, 1 direction bit, 32 range bits and their weighted sum.
pub const NUM_TRANSITION_CONSTRAINTS: usize = 8 + 2 + 4 + 1 + 1 + RANGE_BITS + 1;

/// Assertions: 7 for the statement's values and one per job for its kind.
pub const NUM_ASSERTIONS: usize = 7 + JOB_COUNT;

/// First row of a job.
pub fn job_start_row(job: usize) -> (row: usize)
    requires
        job * ROUNDS <= usize::MAX,
    ensures
        row == job * ROUNDS,
{
    job * ROUNDS
}

/// Last row of a job.
pub fn job_last_row(job: usize) -> (row: usize)
    requires
        job * ROUNDS + ROUNDS <= usize::MAX,
    ensures
        row == job * ROUNDS + ROUNDS - 1,
{
    job * ROUNDS + ROUNDS - 1
}

/// The column that marks rows of the given job's kind. Padding is marked as a
/// Merkle step.
pub open spec fn type_column(job: int) -> int {
    if job == JOB_OWNER {
        T_OWNER as int
    } else if job == JOB_LEAF {
        T_LEAF as int
    } else if job == JOB_NULLIFIER {
        T_NULLIFIER as int
    } else {
        T_MERKLE as int
    }
}

/// The column that marks rows of the given job's kind.
pub fn job_type_column(job: usize) -> (col: usize)
    ensures
        col == type_column(job as int),
{
    if job == JOB_OWNER {
        T_OWNER
    } else if job == JOB_LEAF {
        T_LEAF
    } else if job == JOB_NULLIFIER {
        T_NULLIFIER
    } else {
        T_MERKLE
    }
}

/// Jobs tile the trace: each row of the trace belongs to exactly one job, the
/// one whose first and last row enclose it.
pub proof fn law_jobs_tile_the_trace(row: int, job: int)
    requires
        0 <= row < TRACE_LENGTH,
        0 <= job < JOB_COUNT,
    ensures
        job == row / (ROUNDS as int) <==> job * ROUNDS <= row <= job * ROUNDS + ROUNDS - 1,
{
}

} // verus!
