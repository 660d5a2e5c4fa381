//! Control of the implicit-shift iteration of the symmetric eigensolver.
//!
//! The solver works on a tridiagonal matrix: `diag` of length `dim` and `off_diag` of
//! length `dim - 1`, where `off_diag[m]` couples `diag[m]` and `diag[m + 1]`. Which
//! off-diagonal entries are negligible is a numeric test made by the caller; here it
//! arrives as one flag per off-diagonal entry, and this module decides which block
//! is worked on next, what is done to it, and when the iteration stops.
use vstd::prelude::*;

verus! {

/// Why a decomposition was refused.
#[derive(Debug, Clone, Copy, PartialEq, Eq, Structural)]
pub enum EigenError {
    /// The matrix is not square.
    NotSquare,
    /// The matrix has no rows.
    Empty,
}

/// The trailing unreduced block `[start, end]` found by a deflation scan, and the
/// off-diagonal entry, if any, that the scan declares converged to zero.
#[derive(Debug, Clone, Copy, PartialEq, Eq, Structural)]
pub struct Subproblem {
    pub start: usize,
    pub end: usize,
    pub zeroed: Option<usize>,
}

/// Where the iteration stands.
#[derive(Debug, Clone, Copy, PartialEq, Eq, Structural)]
pub enum Phase {
    /// The unreduced block `[start, end]` is still to be worked on.
    Running { start: usize, end: usize },
    /// Every block has deflated: the diagonal holds the eigenvalues.
    Converged,
    /// The iteration budget ran out before convergence.
    Diverged,
}

/// What one iteration does to the unreduced block `[start, end]`.
#[derive(Debug, Clone, Copy, PartialEq, Eq, Structural)]
pub enum Step {
    /// One implicit-shift sweep over rows `start .. end`.
    Sweep { start: usize, end: usize },
    /// Closed-form solution of the 2-by-2 block at rows `start` and `start + 1`.
    Solve2 { start: usize },
}

/// All off-diagonal entries `lo .. hi` are negligible.
pub open spec fn all_negligible(negligible: Seq<bool>, lo: int, hi: int) -> bool {
    forall|m: int| lo <= m < hi ==> #[trigger] negligible[m]
}

/// No off-diagonal entry `lo .. hi` is negligible.
pub open spec fn none_negligible(negligible: Seq<bool>, lo: int, hi: int) -> bool {
    forall|m: int| lo <= m < hi ==> !#[trigger] negligible[m]
}

/// `s` is the result of scanning backward from row `end`: `s.end` is the last row
/// at or before `end` still coupled to its predecessor, every row after it has
/// deflated, and `[s.start, s.end]` is the largest block ending there whose interior
/// off-diagonal entries are all above tolerance. `(0, 0)` when everything deflated.
pub open spec fn is_delimited(negligible: Seq<bool>, end: int, s: Subproblem) -> bool {
    &&& s.end <= end
    &&& all_negligible(negligible, s.end as int, end)
    &&& if s.end == 0 {
        s.start == 0 && s.zeroed is None
    } else {
        &&& s.start < s.end
        &&& none_negligible(negligible, s.start as int, s.end as int)
        &&& if s.start == 0 {
            s.zeroed is None
        } else {
            negligible[s.start - 1] && s.zeroed == Some((s.start - 1) as usize)
        }
    }
}

/// A scan's result is determined by the flags and the last row.
pub proof fn lemma_delimited_unique(negligible: Seq<bool>, end: int, s1: Subproblem, s2: Subproblem)
    requires
        end <= negligible.len(),
        is_delimited(negligible, end, s1),
        is_delimited(negligible, end, s2),
    ensures
        s1 == s2,
{
    if s1.end < s2.end {
        assert(negligible[s2.end - 1]);
    } else if s2.end < s1.end {
        assert(negligible[s1.end - 1]);
    }
    if s1.end != 0 {
        if s1.start < s2.start {
            assert(negligible[s2.start - 1]);
        } else if s2.start < s1.start {
            assert(negligible[s1.start - 1]);
        }
    }
}

/// The result of the scan of the rows `0 ..= end`.
pub open spec fn delimited(negligible: Seq<bool>, end: int) -> Subproblem {
    choose|s: Subproblem| is_delimited(negligible, end, s)
}

/// Finds the trailing unreduced block of the rows `0 ..= end`, given for each
/// off-diagonal entry whether it is negligible.
pub fn delimit_subproblem(negligible: &[bool], end: usize) -> (r: Subproblem)
    requires
        end <= negligible@.len(),
    ensures
        is_delimited(negligible@, end as int, r),
        r == delimited(negligible@, end as int),
{
    let r = scan(negligible, end);
    proof {
        lemma_delimited_unique(negligible@, end as int, r, delimited(negligible@, end as int));
    }
    r
}

/// The scan itself: backward over the deflated rows, then over the unreduced block.
fn scan(negligible: &[bool], end: usize) -> (r: Subproblem)
    requires
        end <= negligible@.len(),
    ensures
        is_delimited(negligible@, end as int, r),
{
    let mut n: usize = end;
    while n > 0 && negligible[n - 1]
        invariant
            n <= end <= negligible@.len(),
            all_negligible(negligible@, n as int, end as int),
        decreases n,
    {
        n = n - 1;
    }
    if n == 0 {
        return Subproblem { start: 0, end: 0, zeroed: None };
    }
    let mut new_start: usize = n - 1;
    while new_start > 0
        invariant
            0 < n <= end <= negligible@.len(),
            new_start < n,
            !negligible@[n - 1],
            all_negligible(negligible@, n as int, end as int),
            none_negligible(negligible@, new_start as int, n as int),
        decreases new_start,
    {
        if negligible[new_start - 1] {
            return Subproblem { start: new_start, end: n, zeroed: Some(new_start - 1) };
        }
        new_start = new_start - 1;
    }
    Subproblem { start: 0, end: n, zeroed: None }
}

/// What to do with the unreduced block `[start, end]`: a sweep when it has more
/// than two rows, the closed-form solution when it has two.
pub fn step_for(start: usize, end: usize) -> (r: Step)
    requires
        start < end,
    ensures
        end - start + 1 > 2 ==> r == (Step::Sweep { start, end }),
        end - start + 1 == 2 ==> r == (Step::Solve2 { start }),
{
    if end - start > 1 {
        Step::Sweep { start, end }
    } else {
        Step::Solve2 { start }
    }
}

/// The last row of the block after a step: a 2-by-2 block always splits off its last
/// row; a sweep does so when its last off-diagonal entry became negligible.
pub fn end_after_step(step: Step, end: usize, last_negligible: bool) -> (r: usize)
    requires
        end > 0,
    ensures
        r == match step {
            Step::Solve2 { .. } => (end - 1) as usize,
            Step::Sweep { .. } => if last_negligible {
                (end - 1) as usize
            } else {
                end
            },
        },
{
    match step {
        Step::Solve2 { .. } => end - 1,
        Step::Sweep { .. } => if last_negligible {
            end - 1
        } else {
            end
        },
    }
}

/// The phase after `niter` completed iterations, the last of which (or the opening
/// scan, when `niter == 0`) was followed by the deflation scan `sub`: converged when no
/// unreduced block is left, diverged when a nonzero budget `max_niter` is used up,
/// and otherwise running on the block found.
pub open spec fn phase_of(sub: Subproblem, niter: nat, max_niter: nat) -> Phase {
    if sub.start == sub.end {
        Phase::Converged
    } else if max_niter != 0 && niter >= max_niter {
        Phase::Diverged
    } else {
        Phase::Running { start: sub.start, end: sub.end }
    }
}

/// The phase after the deflation scan that opens the iteration: running on the block
/// it found, or converged when there is none.
pub fn first_phase(sub: Subproblem) -> (r: Phase)
    ensures
        r == phase_of(sub, 0, 0),
{
    if sub.start == sub.end {
        Phase::Converged
    } else {
        Phase::Running { start: sub.start, end: sub.end }
    }
}

/// The phase after `niter` completed iterations, the last of which was followed by the
/// deflation scan `sub`. With `max_niter == 0` there is no budget.
pub fn next_phase(sub: Subproblem, niter: usize, max_niter: usize) -> (r: Phase)
    ensures
        r == phase_of(sub, niter as nat, max_niter as nat),
{
    if sub.start == sub.end {
        Phase::Converged
    } else if max_niter != 0 && niter >= max_niter {
        Phase::Diverged
    } else {
        Phase::Running { start: sub.start, end: sub.end }
    }
}

/// A 1-by-1 matrix has no off-diagonal entry: the opening scan finds no unreduced
/// block, and the iteration converges before any step changes the diagonal.
pub proof fn lemma_single_row_converges(negligible: Seq<bool>, sub: Subproblem)
    requires
        negligible.len() == 0,
        is_delimited(negligible, 0, sub),
    ensures
        sub == (Subproblem { start: 0, end: 0, zeroed: None }),
        phase_of(sub, 0, 0) == Phase::Converged,
{
}

/// With a budget of one iteration, a matrix whose block has not deflated after that
/// iteration is reported as diverged, never as running or converged.
pub proof fn lemma_budget_exhausted(sub: Subproblem, niter: nat, max_niter: nat)
    requires
        sub.start != sub.end,
        max_niter != 0,
        niter >= max_niter,
    ensures
        phase_of(sub, niter, max_niter) == Phase::Diverged,
{
}

/// The dimension of a matrix with `nrows` rows and `ncols` columns that the solver
/// accepts: square and not empty.
pub fn check_square(nrows: usize, ncols: usize) -> (r: Result<usize, EigenError>)
    ensures
        nrows != ncols ==> r == Err::<usize, EigenError>(EigenError::NotSquare),
        nrows == ncols && nrows == 0 ==> r == Err::<usize, EigenError>(EigenError::Empty),
        nrows == ncols && nrows > 0 ==> r == Ok::<usize, EigenError>(nrows),
{
    if nrows != ncols {
        Err(EigenError::NotSquare)
    } else if nrows == 0 {
        Err(EigenError::Empty)
    } else {
        Ok(nrows)
    }
}

} // verus!
