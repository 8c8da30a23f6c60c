//! Splitting a search into overlapping slices, one per worker.
//!
//! The window starts of a haystack are shared out among the workers in
//! contiguous runs of nearly equal size. A worker's slice holds every window
//! that starts in its run, so it reaches `needle_len - 1` bytes past the
//! run's last start. Adjacent slices therefore overlap by exactly
//! `needle_len - 1` bytes, and no window is split across a boundary: each
//! lies whole in the slice of the worker that owns its start.
//!
//! This module plans the slices, searches them, and combines the workers'
//! outcomes. How the workers are run, in turn or side by side, is the
//! caller's choice: the slices and the needle are only read.

use vstd::arithmetic::div_mod::{
    lemma_div_is_ordered, lemma_div_multiples_vanish, lemma_div_plus_one,
};
use vstd::prelude::*;
use vstd::slice::slice_subrange;
use crate::error::SearchError;
use crate::sum::{sum_search, sum_verdict, MAX_SUM_NEEDLE_LEN};
use crate::window::{matches_at, occurs, settle_corner_case, window, window_count};

verus! {

/// The haystack length from which a search is worth partitioning, unless
/// the caller sets another.
pub const DEFAULT_THRESHOLD: usize = 1024;

/// The knobs of a partitioned search.
#[derive(Clone, Copy, Debug, PartialEq, Eq, Structural)]
pub struct ParallelConfig {
    /// Haystacks shorter than this are searched in one piece.
    pub threshold: usize,
    /// The most workers to plan for. A limit of zero is read as one.
    pub max_workers: usize,
}

/// A half-open range `start..end` of the haystack: one worker's slice.
#[derive(Clone, Copy, Debug, PartialEq, Eq, Structural)]
pub struct SliceRange {
    pub start: usize,
    pub end: usize,
}

/// The slices of a partitioned search, in haystack order.
#[derive(Debug)]
pub struct PartitionPlan {
    pub haystack_len: usize,
    pub needle_len: usize,
    pub ranges: Vec<SliceRange>,
}

/// The first window start of worker `i`, where `starts` window starts are
/// shared out among `workers` workers; with `i == workers`, the number of
/// starts.
pub open spec fn boundary(i: int, workers: int, starts: int) -> int {
    i * starts / workers
}

/// The number of workers planned for: one per window start at most, the
/// caller's limit at most, and one at least.
pub open spec fn planned_workers(haystack_len: int, needle_len: int, max_workers: int) -> int {
    let starts = window_count(haystack_len, needle_len);
    if max_workers <= 1 {
        1
    } else if max_workers <= starts {
        max_workers
    } else {
        starts
    }
}

/// Where the slice of worker `i` starts.
pub open spec fn range_start(i: int, workers: int, haystack_len: int, needle_len: int) -> int {
    boundary(i, workers, window_count(haystack_len, needle_len))
}

/// Where the slice of worker `i` ends: `needle_len - 1` bytes past the
/// start of the next worker's slice.
pub open spec fn range_end(i: int, workers: int, haystack_len: int, needle_len: int) -> int {
    boundary(i + 1, workers, window_count(haystack_len, needle_len)) + needle_len - 1
}

/// The lengths and the worker count that a plan can be made for.
pub open spec fn plannable(haystack_len: int, needle_len: int, workers: int) -> bool {
    &&& 0 < needle_len <= haystack_len
    &&& 0 < workers <= window_count(haystack_len, needle_len)
}

/// What a partitioned search answers.
pub open spec fn partitioned_verdict(haystack: Seq<u8>, needle: Seq<u8>) -> Result<
    bool,
    SearchError,
> {
    sum_verdict(haystack, needle, MAX_SUM_NEEDLE_LEN as int)
}

/// What the workers' outcomes combine to: the first fault in worker order
/// if there is one, and otherwise whether any worker found the needle.
pub open spec fn combined(outcomes: Seq<Result<bool, SearchError>>) -> Result<bool, SearchError>
    decreases outcomes.len(),
{
    if outcomes.len() == 0 {
        Ok(false)
    } else {
        match combined(outcomes.drop_last()) {
            Err(fault) => Err(fault),
            Ok(found) => match outcomes.last() {
                Err(fault) => Err(fault),
                Ok(verdict) => Ok(found || verdict),
            },
        }
    }
}

impl PartitionPlan {
    /// The plan holds the slices that its lengths and its number of
    /// workers call for.
    pub open spec fn wf(&self) -> bool {
        &&& plannable(
            self.haystack_len as int,
            self.needle_len as int,
            self.ranges@.len() as int,
        )
        &&& forall|i: int|
            0 <= i < self.ranges@.len() ==> {
                &&& (#[trigger] self.ranges@[i]).start == range_start(
                    i,
                    self.ranges@.len() as int,
                    self.haystack_len as int,
                    self.needle_len as int,
                )
                &&& self.ranges@[i].end == range_end(
                    i,
                    self.ranges@.len() as int,
                    self.haystack_len as int,
                    self.needle_len as int,
                )
            }
    }
}

/// The boundaries start at 0, end at the number of window starts, and rise
/// by at least one from each worker to the next: every worker owns a start.
pub proof fn lemma_boundaries(i: int, workers: int, starts: int)
    requires
        0 <= i < workers <= starts,
    ensures
        boundary(0, workers, starts) == 0,
        boundary(workers, workers, starts) == starts,
        0 <= boundary(i, workers, starts) < boundary(i + 1, workers, starts) <= starts,
{
    let scaled = i * starts;
    assert(0 * starts == 0);
    assert(0int / workers == 0);
    lemma_div_multiples_vanish(starts, workers);
    assert((i + 1) * starts == scaled + starts) by (nonlinear_arith)
        requires
            scaled == i * starts,
    ;
    assert(0 <= scaled) by (nonlinear_arith)
        requires
            scaled == i * starts,
            0 <= i,
            0 <= starts,
    ;
    assert((i + 1) * starts <= workers * starts) by (nonlinear_arith)
        requires
            i + 1 <= workers,
            0 <= starts,
    ;
    lemma_div_is_ordered(0, scaled, workers);
    lemma_div_plus_one(scaled, workers);
    lemma_div_is_ordered(workers + scaled, scaled + starts, workers);
    lemma_div_is_ordered((i + 1) * starts, workers * starts, workers);
}

/// Every slice lies in the haystack and holds at least one window; the
/// first slice starts where the haystack starts and the last one ends where
/// it ends.
pub proof fn lemma_ranges_lie_in_haystack(
    haystack_len: int,
    needle_len: int,
    workers: int,
    i: int,
)
    requires
        plannable(haystack_len, needle_len, workers),
        0 <= i < workers,
    ensures
        0 <= range_start(i, workers, haystack_len, needle_len),
        range_start(i, workers, haystack_len, needle_len) + needle_len <= range_end(
            i,
            workers,
            haystack_len,
            needle_len,
        ) <= haystack_len,
        range_start(0, workers, haystack_len, needle_len) == 0,
        range_end(workers - 1, workers, haystack_len, needle_len) == haystack_len,
{
    lemma_boundaries(i, workers, window_count(haystack_len, needle_len));
}

/// Adjacent slices overlap by exactly `needle_len - 1` bytes.
pub proof fn lemma_adjacent_ranges_overlap(
    haystack_len: int,
    needle_len: int,
    workers: int,
    i: int,
)
    requires
        plannable(haystack_len, needle_len, workers),
        0 <= i < workers - 1,
    ensures
        range_start(i + 1, workers, haystack_len, needle_len) < range_end(
            i,
            workers,
            haystack_len,
            needle_len,
        ) || needle_len == 1,
        range_end(i, workers, haystack_len, needle_len) - range_start(
            i + 1,
            workers,
            haystack_len,
            needle_len,
        ) == needle_len - 1,
{
}

/// Every window lies whole in some worker's slice: the worker returned owns
/// the window's start.
pub proof fn lemma_ranges_cover_every_window(
    haystack_len: int,
    needle_len: int,
    workers: int,
    position: int,
) -> (owner: int)
    requires
        plannable(haystack_len, needle_len, workers),
        0 <= position < window_count(haystack_len, needle_len),
    ensures
        0 <= owner < workers,
        range_start(owner, workers, haystack_len, needle_len) <= position,
        position + needle_len <= range_end(owner, workers, haystack_len, needle_len),
{
    lemma_owner_from(0, workers, window_count(haystack_len, needle_len), position)
}

/// Walks the boundaries upward from worker `from` to the worker whose run
/// holds `position`.
proof fn lemma_owner_from(from: int, workers: int, starts: int, position: int) -> (owner: int)
    requires
        0 <= from < workers <= starts,
        boundary(from, workers, starts) <= position < starts,
    ensures
        from <= owner < workers,
        boundary(owner, workers, starts) <= position < boundary(owner + 1, workers, starts),
    decreases workers - from,
{
    lemma_boundaries(from, workers, starts);
    if position < boundary(from + 1, workers, starts) {
        from
    } else {
        lemma_owner_from(from + 1, workers, starts, position)
    }
}

/// A match in a slice is a match in the haystack, moved by the slice's
/// start.
pub proof fn lemma_match_in_slice(
    haystack: Seq<u8>,
    needle: Seq<u8>,
    from: int,
    to: int,
    position: int,
)
    requires
        0 <= from <= position,
        position + needle.len() <= to <= haystack.len(),
    ensures
        matches_at(haystack.subrange(from, to), needle, position - from) == matches_at(
            haystack,
            needle,
            position,
        ),
{
    let slice = haystack.subrange(from, to);
    assert(window(slice, position - from, needle.len() as int) =~= window(
        haystack,
        position,
        needle.len() as int,
    ));
}

/// The needle occurs in the haystack exactly if it occurs in some worker's
/// slice.
pub proof fn lemma_search_by_slices(haystack: Seq<u8>, needle: Seq<u8>, workers: int)
    requires
        plannable(haystack.len() as int, needle.len() as int, workers),
    ensures
        occurs(haystack, needle) <==> exists|i: int|
            0 <= i < workers && #[trigger] occurs(
                haystack.subrange(
                    range_start(i, workers, haystack.len() as int, needle.len() as int),
                    range_end(i, workers, haystack.len() as int, needle.len() as int),
                ),
                needle,
            ),
{
    let h = haystack.len() as int;
    let n = needle.len() as int;
    if occurs(haystack, needle) {
        let position = choose|position: int| #[trigger] matches_at(haystack, needle, position);
        let owner = lemma_ranges_cover_every_window(h, n, workers, position);
        let from = range_start(owner, workers, h, n);
        let to = range_end(owner, workers, h, n);
        lemma_ranges_lie_in_haystack(h, n, workers, owner);
        lemma_match_in_slice(haystack, needle, from, to, position);
        assert(matches_at(haystack.subrange(from, to), needle, position - from));
        assert(occurs(haystack.subrange(from, to), needle));
    }
    if exists|i: int|
        0 <= i < workers && #[trigger] occurs(
            haystack.subrange(range_start(i, workers, h, n), range_end(i, workers, h, n)),
            needle,
        ) {
        let i = choose|i: int|
            0 <= i < workers && #[trigger] occurs(
                haystack.subrange(range_start(i, workers, h, n), range_end(i, workers, h, n)),
                needle,
            );
        let from = range_start(i, workers, h, n);
        let to = range_end(i, workers, h, n);
        lemma_ranges_lie_in_haystack(h, n, workers, i);
        let slice = haystack.subrange(from, to);
        let offset = choose|offset: int| #[trigger] matches_at(slice, needle, offset);
        lemma_match_in_slice(haystack, needle, from, to, from + offset);
        assert(matches_at(haystack, needle, from + offset));
    }
}

/// The number of workers to plan for.
pub fn worker_count(haystack_len: usize, needle_len: usize, max_workers: usize) -> (workers: usize)
    requires
        0 < needle_len <= haystack_len,
    ensures
        workers == planned_workers(haystack_len as int, needle_len as int, max_workers as int),
        plannable(haystack_len as int, needle_len as int, workers as int),
{
    let starts = haystack_len - needle_len + 1;
    if max_workers <= 1 {
        1
    } else if max_workers <= starts {
        max_workers
    } else {
        starts
    }
}

/// The slice of worker `i` out of `workers`.
pub fn slice_range(i: usize, workers: usize, haystack_len: usize, needle_len: usize) -> (range:
    SliceRange)
    requires
        plannable(haystack_len as int, needle_len as int, workers as int),
        i < workers,
    ensures
        range.start == range_start(i as int, workers as int, haystack_len as int, needle_len as int),
        range.end == range_end(i as int, workers as int, haystack_len as int, needle_len as int),
        range.start + needle_len <= range.end <= haystack_len,
{
    let starts = haystack_len - needle_len + 1;
    proof {
        lemma_boundaries(i as int, workers as int, starts as int);
        lemma_ranges_lie_in_haystack(
            haystack_len as int,
            needle_len as int,
            workers as int,
            i as int,
        );
    }
    let start = share_boundary(i, workers, starts);
    let next = share_boundary(i + 1, workers, starts);
    SliceRange { start, end: next + (needle_len - 1) }
}

/// The boundary before worker `i`, computed in 128 bits: the product of two
/// lengths need not fit a machine word.
fn share_boundary(i: usize, workers: usize, starts: usize) -> (at: usize)
    requires
        0 < workers <= starts,
        i <= workers,
    ensures
        at == boundary(i as int, workers as int, starts as int),
        at <= starts,
{
    proof {
        assert(i * starts <= 0xffff_ffff_ffff_ffff * 0xffff_ffff_ffff_ffff) by (nonlinear_arith)
            requires
                0 <= i <= 0xffff_ffff_ffff_ffff,
                0 <= starts <= 0xffff_ffff_ffff_ffff,
        ;
        if i < workers {
            lemma_boundaries(i as int, workers as int, starts as int);
        } else {
            lemma_boundaries(0, workers as int, starts as int);
        }
    }
    let scaled: u128 = i as u128 * starts as u128;
    (scaled / workers as u128) as usize
}

impl PartitionPlan {
    /// Plans the slices for a haystack and a needle of the given lengths,
    /// for at most `max_workers` workers. There is no plan for an empty
    /// needle or for a needle longer than the haystack: such a search needs
    /// no worker.
    pub fn build(haystack_len: usize, needle_len: usize, max_workers: usize) -> (plan: Option<
        PartitionPlan,
    >)
        ensures
            plan is Some <==> 0 < needle_len <= haystack_len,
            plan matches Some(p) ==> {
                &&& p.wf()
                &&& p.haystack_len == haystack_len
                &&& p.needle_len == needle_len
                &&& p.ranges@.len() == planned_workers(
                    haystack_len as int,
                    needle_len as int,
                    max_workers as int,
                )
            },
    {
        if needle_len == 0 || needle_len > haystack_len {
            return None;
        }
        let workers = worker_count(haystack_len, needle_len, max_workers);
        let mut ranges: Vec<SliceRange> = Vec::new();
        let mut i: usize = 0;
        while i < workers
            invariant
                plannable(haystack_len as int, needle_len as int, workers as int),
                i <= workers,
                ranges@.len() == i,
                forall|k: int|
                    0 <= k < i ==> {
                        &&& (#[trigger] ranges@[k]).start == range_start(
                            k,
                            workers as int,
                            haystack_len as int,
                            needle_len as int,
                        )
                        &&& ranges@[k].end == range_end(
                            k,
                            workers as int,
                            haystack_len as int,
                            needle_len as int,
                        )
                    },
            decreases workers - i,
        {
            ranges.push(slice_range(i, workers, haystack_len, needle_len));
            i += 1;
        }
        Some(PartitionPlan { haystack_len, needle_len, ranges })
    }
}

/// Combines the workers' outcomes once every worker has ended. A fault is
/// fatal: the first one in worker order is passed on and no partial verdict
/// is reported. Otherwise the needle was found if any worker found it.
pub fn combine(outcomes: &[Result<bool, SearchError>]) -> (result: Result<bool, SearchError>)
    ensures
        result == combined(outcomes@),
        result is Ok <==> forall|i: int| 0 <= i < outcomes@.len() ==> outcomes@[i] is Ok,
        result matches Ok(found) ==> (found <==> exists|i: int|
            0 <= i < outcomes@.len() && outcomes@[i] == Ok::<bool, SearchError>(true)),
        result matches Err(fault) ==> exists|i: int|
            0 <= i < outcomes@.len() && outcomes@[i] == Err::<bool, SearchError>(fault) && forall|
                j: int,
            |
                0 <= j < i ==> outcomes@[j] is Ok,
{
    let mut first_fault: Option<SearchError> = None;
    let mut found = false;
    let mut i: usize = 0;
    let ghost mut fault_at: int = 0;
    while i < outcomes.len()
        invariant
            i <= outcomes@.len(),
            match first_fault {
                Some(fault) => combined(outcomes@.take(i as int)) == Err::<bool, SearchError>(
                    fault,
                ),
                None => combined(outcomes@.take(i as int)) == Ok::<bool, SearchError>(found),
            },
            first_fault is None ==> forall|k: int| 0 <= k < i ==> outcomes@[k] is Ok,
            first_fault is None ==> (found <==> exists|k: int|
                0 <= k < i && outcomes@[k] == Ok::<bool, SearchError>(true)),
            first_fault matches Some(fault) ==> {
                &&& 0 <= fault_at < i
                &&& outcomes@[fault_at] == Err::<bool, SearchError>(fault)
                &&& forall|j: int| 0 <= j < fault_at ==> outcomes@[j] is Ok
            },
        decreases outcomes@.len() - i,
    {
        proof {
            assert(outcomes@.take(i + 1).drop_last() =~= outcomes@.take(i as int));
        }
        match outcomes[i] {
            Ok(verdict) => {
                found = found || verdict;
            },
            Err(fault) => {
                if first_fault.is_none() {
                    first_fault = Some(fault);
                    proof {
                        fault_at = i as int;
                    }
                }
            },
        }
        i += 1;
    }
    proof {
        assert(outcomes@.take(i as int) =~= outcomes@);
    }
    match first_fault {
        Some(fault) => Err(fault),
        None => Ok(found),
    }
}

/// What a partitioned search does next.
#[derive(Debug)]
pub enum Dispatch {
    /// The search is over: it needed no worker.
    Settled(Result<bool, SearchError>),
    /// One worker is to search each slice of the plan.
    Workers(PartitionPlan),
}

/// The searches that are handed to workers: the haystack has reached the
/// threshold, no corner case settles the search, and the needle is one that
/// the rolling sum takes.
pub open spec fn needs_workers(haystack: Seq<u8>, needle: Seq<u8>, config: ParallelConfig) -> bool {
    &&& haystack.len() >= config.threshold
    &&& 0 < needle.len() < haystack.len()
    &&& needle.len() <= MAX_SUM_NEEDLE_LEN
}

/// The slice of the haystack that a range stands for.
pub open spec fn slice_of(haystack: Seq<u8>, range: SliceRange) -> Seq<u8> {
    haystack.subrange(range.start as int, range.end as int)
}

/// What a worker answers for its slice: a fault where the range is not a
/// range of the haystack, and otherwise what the rolling sum answers.
pub open spec fn slice_verdict(haystack: Seq<u8>, needle: Seq<u8>, range: SliceRange) -> Result<
    bool,
    SearchError,
> {
    if range.start <= range.end <= haystack.len() {
        sum_verdict(slice_of(haystack, range), needle, MAX_SUM_NEEDLE_LEN as int)
    } else {
        Err(SearchError::WorkerFault)
    }
}

/// Decides how a search goes on.
///
/// A haystack shorter than the threshold is searched at once, in one piece,
/// with the rolling sum. Otherwise corner cases are settled, and an
/// oversized needle is rejected before any slice is searched. What is left
/// gets a plan: the caller runs one worker per slice, each through
/// [`search_slice`], and hands their outcomes to [`combine`] once every
/// worker has ended.
pub fn plan_search(haystack: &[u8], needle: &[u8], config: ParallelConfig) -> (dispatch: Dispatch)
    ensures
        dispatch is Workers <==> needs_workers(haystack@, needle@, config),
        dispatch matches Dispatch::Settled(result) ==> result == partitioned_verdict(
            haystack@,
            needle@,
        ),
        dispatch matches Dispatch::Workers(plan) ==> {
            &&& plan.wf()
            &&& plan.haystack_len == haystack@.len()
            &&& plan.needle_len == needle@.len()
            &&& plan.ranges@.len() == planned_workers(
                haystack@.len() as int,
                needle@.len() as int,
                config.max_workers as int,
            )
        },
{
    if haystack.len() < config.threshold {
        return Dispatch::Settled(sum_search(haystack, needle));
    }
    if let Some(verdict) = settle_corner_case(haystack, needle) {
        return Dispatch::Settled(Ok(verdict));
    }
    if needle.len() as u64 > MAX_SUM_NEEDLE_LEN {
        return Dispatch::Settled(Err(SearchError::InvalidNeedle));
    }
    match PartitionPlan::build(haystack.len(), needle.len(), config.max_workers) {
        Some(plan) => Dispatch::Workers(plan),
        None => Dispatch::Settled(Ok(false)),
    }
}

/// The work of one worker: searches one slice of the haystack for the whole
/// needle with the rolling sum. A range that is not a range of the haystack
/// is a fault.
pub fn search_slice(haystack: &[u8], needle: &[u8], range: SliceRange) -> (result: Result<
    bool,
    SearchError,
>)
    ensures
        result == slice_verdict(haystack@, needle@, range),
{
    if range.start > range.end || range.end > haystack.len() {
        return Err(SearchError::WorkerFault);
    }
    sum_search(slice_subrange(haystack, range.start, range.end), needle)
}

/// The outcomes of the workers of a plan combine to the verdict of the
/// whole search: no slice faults, and the needle is in the haystack exactly
/// if it is in some slice.
pub proof fn lemma_plan_outcomes_combine(
    haystack: Seq<u8>,
    needle: Seq<u8>,
    plan: PartitionPlan,
    outcomes: Seq<Result<bool, SearchError>>,
)
    requires
        plan.wf(),
        plan.haystack_len == haystack.len(),
        plan.needle_len == needle.len(),
        needle.len() <= MAX_SUM_NEEDLE_LEN,
        outcomes.len() == plan.ranges@.len(),
        forall|i: int|
            0 <= i < outcomes.len() ==> #[trigger] outcomes[i] == slice_verdict(
                haystack,
                needle,
                plan.ranges@[i],
            ),
    ensures
        forall|i: int| 0 <= i < outcomes.len() ==> outcomes[i] is Ok,
        occurs(haystack, needle) <==> exists|i: int|
            0 <= i < outcomes.len() && outcomes[i] == Ok::<bool, SearchError>(true),
{
    let h = haystack.len() as int;
    let n = needle.len() as int;
    let workers = plan.ranges@.len() as int;
    assert forall|i: int| 0 <= i < workers implies #[trigger] outcomes[i] == Ok::<
        bool,
        SearchError,
    >(occurs(haystack.subrange(range_start(i, workers, h, n), range_end(i, workers, h, n)), needle))
    by {
        lemma_ranges_lie_in_haystack(h, n, workers, i);
        let range = plan.ranges@[i];
        assert(range.start == range_start(i, workers, h, n));
        assert(range.end == range_end(i, workers, h, n));
    }
    lemma_search_by_slices(haystack, needle, workers);
    if occurs(haystack, needle) {
        let k = choose|k: int|
            0 <= k < workers && #[trigger] occurs(
                haystack.subrange(range_start(k, workers, h, n), range_end(k, workers, h, n)),
                needle,
            );
        assert(outcomes[k] == Ok::<bool, SearchError>(true));
    }
    if exists|i: int| 0 <= i < outcomes.len() && outcomes[i] == Ok::<bool, SearchError>(true) {
        let k = choose|i: int|
            0 <= i < outcomes.len() && outcomes[i] == Ok::<bool, SearchError>(true);
        assert(occurs(
            haystack.subrange(range_start(k, workers, h, n), range_end(k, workers, h, n)),
            needle,
        ));
    }
}

/// Searches slice by slice and combines the verdicts.
///
/// This is [`plan_search`], then [`search_slice`] on every slice of the plan
/// in turn, then [`combine`]: a partitioned search with the workers run one
/// after the other.
pub fn partitioned_sum_search(haystack: &[u8], needle: &[u8], config: ParallelConfig) -> (result:
    Result<bool, SearchError>)
    ensures
        result == partitioned_verdict(haystack@, needle@),
{
    let plan = match plan_search(haystack, needle, config) {
        Dispatch::Settled(result) => {
            return result;
        },
        Dispatch::Workers(plan) => plan,
    };
    let workers = plan.ranges.len();
    let mut outcomes: Vec<Result<bool, SearchError>> = Vec::new();
    let mut i: usize = 0;
    while i < workers
        invariant
            workers == plan.ranges@.len(),
            i <= workers,
            outcomes@.len() == i,
            forall|k: int|
                0 <= k < i ==> #[trigger] outcomes@[k] == slice_verdict(
                    haystack@,
                    needle@,
                    plan.ranges@[k],
                ),
        decreases workers - i,
    {
        outcomes.push(search_slice(haystack, needle, plan.ranges[i]));
        i += 1;
    }
    proof {
        lemma_plan_outcomes_combine(haystack@, needle@, plan, outcomes@);
    }
    combine(outcomes.as_slice())
}

} // verus!
