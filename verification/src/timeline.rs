//! Segments laid end to end on a time axis: where each one starts, and which
//! one a given time falls into.
use vstd::prelude::*;

verus! {

/// The sum of the first `i` values.
pub open spec fn prefix_sum(values: Seq<int>, i: int) -> int
    decreases i,
{
    if i <= 0 {
        0
    } else {
        prefix_sum(values, i - 1) + values[i - 1]
    }
}

/// Whether every duration is positive.
pub open spec fn all_positive(lengths: Seq<int>) -> bool {
    forall|i: int| 0 <= i < lengths.len() ==> lengths[i] > 0
}

/// The total duration.
pub open spec fn total(lengths: Seq<int>) -> int {
    prefix_sum(lengths, lengths.len() as int)
}

/// How many of the first `n` segments are strictly completed before `time`:
/// those whose end lies before it.
pub open spec fn completed_before(lengths: Seq<int>, time: int, n: int) -> int
    decreases n,
{
    if n <= 0 {
        0
    } else {
        completed_before(lengths, time, n - 1) + if prefix_sum(lengths, n) < time {
            1int
        } else {
            0int
        }
    }
}

/// The index of the segment that `time` falls into: the number of segments
/// strictly completed before it. A time on the boundary of two segments
/// belongs to the earlier one.
pub open spec fn active_index(lengths: Seq<int>, time: int) -> int {
    completed_before(lengths, time, lengths.len() as int)
}

/// No more segments are completed than there are.
pub proof fn lemma_completed_in_range(lengths: Seq<int>, time: int, n: int)
    requires
        0 <= n,
    ensures
        0 <= completed_before(lengths, time, n) <= n,
    decreases n,
{
    if n > 0 {
        lemma_completed_in_range(lengths, time, n - 1);
    }
}

/// With positive durations the segments start later and later.
pub proof fn lemma_prefix_sum_increases(lengths: Seq<int>, i: int, j: int)
    requires
        all_positive(lengths),
        0 <= i <= j <= lengths.len(),
    ensures
        prefix_sum(lengths, i) <= prefix_sum(lengths, j),
        i < j ==> prefix_sum(lengths, i) < prefix_sum(lengths, j),
        0 <= prefix_sum(lengths, i),
    decreases j,
{
    if i < j {
        lemma_prefix_sum_increases(lengths, i, j - 1);
    } else if i > 0 {
        lemma_prefix_sum_increases(lengths, i - 1, i - 1);
    }
}

/// Segments that end before `time` are all counted.
pub proof fn lemma_completed_all(lengths: Seq<int>, time: int, n: int)
    requires
        all_positive(lengths),
        0 <= n <= lengths.len(),
        n > 0 ==> prefix_sum(lengths, n) < time,
    ensures
        completed_before(lengths, time, n) == n,
    decreases n,
{
    if n > 0 {
        lemma_prefix_sum_increases(lengths, n - 1, n);
        lemma_completed_all(lengths, time, n - 1);
    }
}

/// Segments that end at or after `time` are not counted.
pub proof fn lemma_completed_none(lengths: Seq<int>, time: int, i: int, n: int)
    requires
        all_positive(lengths),
        0 <= i < n <= lengths.len(),
        time <= prefix_sum(lengths, i + 1),
    ensures
        completed_before(lengths, time, n) == completed_before(lengths, time, i),
    decreases n,
{
    lemma_prefix_sum_increases(lengths, i + 1, n);
    if n > i + 1 {
        lemma_completed_none(lengths, time, i, n - 1);
    }
}

/// The segment that `time` falls into is the one that has started before
/// it (or is the first) and has not ended before it.
pub proof fn lemma_active_index(lengths: Seq<int>, time: int, i: int)
    requires
        all_positive(lengths),
        0 <= i < lengths.len(),
        i > 0 ==> prefix_sum(lengths, i) < time,
        time <= prefix_sum(lengths, i + 1),
    ensures
        active_index(lengths, time) == i,
{
    lemma_completed_all(lengths, time, i);
    lemma_completed_none(lengths, time, i, lengths.len() as int);
}

/// The segment that `time` falls into exists, has started and has not ended.
pub proof fn lemma_active_segment(lengths: Seq<int>, time: int)
    requires
        all_positive(lengths),
        lengths.len() > 0,
        0 <= time <= total(lengths),
    ensures
        0 <= active_index(lengths, time) < lengths.len(),
        prefix_sum(lengths, active_index(lengths, time)) <= time,
        time <= prefix_sum(lengths, active_index(lengths, time) + 1),
        active_index(lengths, time) > 0 ==> prefix_sum(lengths, active_index(lengths, time)) < time,
{
    let i = first_reaching(lengths, time, 0);
    lemma_first_reaching(lengths, time, 0);
    lemma_active_index(lengths, time, i);
    lemma_prefix_sum_increases(lengths, i, i);
}

/// The first segment from `from` on that does not end before `time`.
pub open spec fn first_reaching(lengths: Seq<int>, time: int, from: int) -> int
    decreases lengths.len() - from,
{
    if from >= lengths.len() - 1 || time <= prefix_sum(lengths, from + 1) {
        from
    } else {
        first_reaching(lengths, time, from + 1)
    }
}

/// [`first_reaching`] finds a segment that has started before `time` and
/// ends at or after it.
proof fn lemma_first_reaching(lengths: Seq<int>, time: int, from: int)
    requires
        all_positive(lengths),
        0 <= from < lengths.len(),
        from > 0 ==> prefix_sum(lengths, from) < time,
        time <= total(lengths),
    ensures
        from <= first_reaching(lengths, time, from) < lengths.len(),
        first_reaching(lengths, time, from) > 0 ==> prefix_sum(
            lengths,
            first_reaching(lengths, time, from),
        ) < time,
        time <= prefix_sum(lengths, first_reaching(lengths, time, from) + 1),
    decreases lengths.len() - from,
{
    if from >= lengths.len() - 1 || time <= prefix_sum(lengths, from + 1) {
    } else {
        lemma_first_reaching(lengths, time, from + 1);
    }
}

/// Appending a value leaves the sums of the earlier ones unchanged.
pub proof fn lemma_prefix_sum_push(values: Seq<int>, v: int, i: int)
    requires
        i <= values.len(),
    ensures
        prefix_sum(values.push(v), i) == prefix_sum(values, i),
    decreases i,
{
    if i > 0 {
        lemma_prefix_sum_push(values, v, i - 1);
    }
}

} // verus!
