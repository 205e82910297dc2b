//! Read-only analytics over a task store: day-bucketed series, completion
//! latency and a completion-time estimate for open tasks.
use vstd::prelude::*;

use crate::clock::{now_micros, DAY_MICROS, MAX_UTC_MICROS};
use crate::task::{is_not_completed, Task, TaskManager};

verus! {

/// Offset of the last whole second of a day (23:59:59) from its start.
pub const END_OF_DAY_OFFSET: i64 = 86_399_000_000;

/// The start (00:00:00 UTC) of the day that holds `t`.
pub open spec fn day_start(t: int) -> int {
    t - t % (DAY_MICROS as int)
}

/// The start of the day `k` days before the day that holds `now`.
pub open spec fn bucket_start(now: int, k: int) -> int {
    day_start(now) - k * DAY_MICROS
}

/// The last whole second (23:59:59) of the day `k` days before `now`'s day.
pub open spec fn bucket_end(now: int, k: int) -> int {
    bucket_start(now, k) + END_OF_DAY_OFFSET
}

/// Every bucket boundary of a `days`-long series ending on `now`'s day fits
/// in an `i64`.
pub open spec fn series_fits(now: i64, days: u32) -> bool {
    days == 0 || (bucket_start(now as int, days - 1) >= i64::MIN && bucket_end(now as int, 0)
        <= i64::MAX)
}

/// The longest series that fits for every reading of the clock: its oldest
/// bucket starts no earlier than `i64::MIN`.
pub const MAX_CLOCK_SERIES_DAYS: u32 = 106_751_992;

/// A series of up to `MAX_CLOCK_SERIES_DAYS` days fits for any clock reading
/// between the epoch and `MAX_UTC_MICROS`.
pub proof fn lemma_clock_series_fits(now: i64, days: u32)
    requires
        0 <= now <= MAX_UTC_MICROS,
        days <= MAX_CLOCK_SERIES_DAYS,
    ensures
        series_fits(now, days),
{
}

/// Completed at some time in `[start, end]`.
pub open spec fn completed_within(start: int, end: int) -> spec_fn(Task) -> bool {
    |t: Task|
        match t.completed_at {
            Some(c) => start <= c <= end,
            None => false,
        }
}

/// Created by `end` and not completed by `end`.
pub open spec fn open_at(end: int) -> spec_fn(Task) -> bool {
    |t: Task|
        t.created_at <= end && match t.completed_at {
            Some(c) => c > end,
            None => true,
        }
}

/// Completed at or before `end`.
pub open spec fn completed_by(end: int) -> spec_fn(Task) -> bool {
    |t: Task|
        match t.completed_at {
            Some(c) => c <= end,
            None => false,
        }
}

/// Created at or after `since`.
pub open spec fn created_since(since: int) -> spec_fn(Task) -> bool {
    |t: Task| t.created_at >= since
}

/// Completed at or after `since`.
pub open spec fn completed_since(since: int) -> spec_fn(Task) -> bool {
    |t: Task|
        match t.completed_at {
            Some(c) => c >= since,
            None => false,
        }
}

/// Per-day completions, oldest day first: each bucket's start and the
/// number of records completed within that day.
pub open spec fn completed_per_day(tasks: Seq<Task>, now: int, days: nat) -> Seq<(int, nat)> {
    Seq::new(
        days,
        |j: int|
            {
                let k = days - 1 - j;
                (
                    bucket_start(now, k),
                    tasks.filter(completed_within(bucket_start(now, k), bucket_end(now, k))).len(),
                )
            },
    )
}

/// Per-day backlog, oldest day first: each bucket's end and the number of
/// records open at that moment.
pub open spec fn open_per_day(tasks: Seq<Task>, now: int, days: nat) -> Seq<(int, nat)> {
    Seq::new(
        days,
        |j: int|
            {
                let k = days - 1 - j;
                (bucket_end(now, k), tasks.filter(open_at(bucket_end(now, k))).len())
            },
    )
}

/// Running completions, oldest day first: each bucket's end and the number
/// of records completed by then.
pub open spec fn cumulative_per_day(tasks: Seq<Task>, now: int, days: nat) -> Seq<(int, nat)> {
    Seq::new(
        days,
        |j: int|
            {
                let k = days - 1 - j;
                (bucket_end(now, k), tasks.filter(completed_by(bucket_end(now, k))).len())
            },
    )
}

proof fn lemma_filter_len_implies(s: Seq<Task>, p: spec_fn(Task) -> bool, q: spec_fn(Task) -> bool)
    requires
        forall|t: Task| #[trigger] p(t) ==> q(t),
    ensures
        s.filter(p).len() <= s.filter(q).len(),
    decreases s.len(),
{
    reveal(Seq::filter);
    if s.len() > 0 {
        lemma_filter_len_implies(s.drop_last(), p, q);
    }
}

/// The running completion count never decreases from one day to the next,
/// whatever the store holds.
pub proof fn lemma_cumulative_nondecreasing(tasks: Seq<Task>, now: int, days: nat, j: int)
    requires
        0 <= j,
        j + 1 < days,
    ensures
        cumulative_per_day(tasks, now, days)[j].1 <= cumulative_per_day(tasks, now, days)[j + 1].1,
{
    let k = days - 1 - j;
    lemma_filter_len_implies(
        tasks,
        completed_by(bucket_end(now, k)),
        completed_by(bucket_end(now, k - 1)),
    );
}

/// A day's completions are part of that day's running total.
pub proof fn lemma_daily_within_cumulative(tasks: Seq<Task>, now: int, days: nat, j: int)
    requires
        0 <= j < days,
    ensures
        completed_per_day(tasks, now, days)[j].1 <= cumulative_per_day(tasks, now, days)[j].1,
{
    let k = days - 1 - j;
    lemma_filter_len_implies(
        tasks,
        completed_within(bucket_start(now, k), bucket_end(now, k)),
        completed_by(bucket_end(now, k)),
    );
}

/// A series as the library returns it, read as integers.
pub open spec fn series_view(r: Seq<(i64, usize)>) -> Seq<(int, nat)> {
    r.map_values(|p: (i64, usize)| (p.0 as int, p.1 as nat))
}

/// The estimate for open tasks when nothing has completed yet: 24 hours.
pub const DEFAULT_BASELINE_MICROS: i64 = 86_400_000_000;

/// A duration in microseconds, held exactly as `numerator / denominator`
/// with a positive denominator.
pub struct ExactDuration {
    pub numerator: i128,
    pub denominator: i128,
}

impl ExactDuration {
    /// The fraction as a pair of integers.
    pub open spec fn pair(self) -> (int, int) {
        (self.numerator as int, self.denominator as int)
    }
}

/// Holds of a record with a completion time.
pub open spec fn has_completion() -> spec_fn(Task) -> bool {
    |t: Task| t.completed_at is Some
}

/// The time from creation to completion of a record, 0 where it has none.
pub open spec fn latency(t: Task) -> int {
    match t.completed_at {
        Some(c) => c - t.created_at,
        None => 0,
    }
}

/// The total latency of the records with a completion time.
pub open spec fn latency_sum(s: Seq<Task>) -> int
    decreases s.len(),
{
    if s.len() == 0 {
        0
    } else {
        latency_sum(s.drop_last()) + latency(s.last())
    }
}

/// The mean latency as (total, count), or `None` where no record has a
/// completion time.
pub open spec fn mean_latency(tasks: Seq<Task>) -> Option<(int, int)> {
    let n = tasks.filter(has_completion()).len();
    if n == 0 {
        None
    } else {
        Some((latency_sum(tasks), n as int))
    }
}

/// The mean latency, or 24 hours where nothing has completed, as a fraction.
pub open spec fn baseline(tasks: Seq<Task>) -> (int, int) {
    match mean_latency(tasks) {
        Some(m) => m,
        None => (DEFAULT_BASELINE_MICROS as int, 1),
    }
}

/// The estimate for a task of age `age` against baseline `b = b.0 / b.1`:
/// `b` itself unless the task is older than `b`, and otherwise
/// `b * (1 + (age - b) / b / 2)`, which is `(age + b) / 2`.
pub open spec fn predicted(age: int, b: (int, int)) -> (int, int) {
    if age * b.1 > b.0 {
        (age * b.1 + b.0, 2 * b.1)
    } else {
        b
    }
}

/// One estimate per open record of `s`, in store order, against baseline `b`.
pub open spec fn predictions_with(s: Seq<Task>, now: int, b: (int, int)) -> Seq<(u32, (int, int))> {
    s.filter(is_not_completed()).map_values(|t: Task| (t.id, predicted(now - t.created_at, b)))
}

/// One estimate per open record, in store order, against the store's baseline.
pub open spec fn predictions(tasks: Seq<Task>, now: int) -> Seq<(u32, (int, int))> {
    predictions_with(tasks, now, baseline(tasks))
}

/// Estimates as the library returns them, read as integers.
pub open spec fn predictions_view(r: Seq<(u32, ExactDuration)>) -> Seq<(u32, (int, int))> {
    r.map_values(|p: (u32, ExactDuration)| (p.0, p.1.pair()))
}

const LATENCY_BOUND: i128 = 0x1_0000_0000_0000_0000;

/// The total latency and the number of records with a completion time.
fn latency_totals(tasks: &Vec<Task>) -> (r: (i128, usize))
    requires
        tasks@.len() <= u32::MAX,
    ensures
        r.0 == latency_sum(tasks@),
        r.1 == tasks@.filter(has_completion()).len(),
        -(tasks@.len() as int) * LATENCY_BOUND <= r.0 <= tasks@.len() * LATENCY_BOUND,
        r.1 <= tasks@.len(),
{
    let mut sum: i128 = 0;
    let mut count: usize = 0;
    let mut i: usize = 0;
    while i < tasks.len()
        invariant
            i <= tasks@.len() <= u32::MAX,
            count <= i,
            count == tasks@.take(i as int).filter(has_completion()).len(),
            sum == latency_sum(tasks@.take(i as int)),
            -(i as int) * LATENCY_BOUND <= sum <= i * LATENCY_BOUND,
        decreases tasks@.len() - i,
    {
        proof {
            reveal(Seq::filter);
            assert(tasks@.take(i + 1).drop_last() =~= tasks@.take(i as int));
        }
        match tasks[i].completed_at {
            Some(c) => {
                sum = sum + (c as i128 - tasks[i].created_at as i128);
                count = count + 1;
            },
            None => {},
        }
        i = i + 1;
    }
    assert(tasks@.take(i as int) =~= tasks@);
    (sum, count)
}

/// The start of `t`'s day.
fn start_of_day(t: i64) -> (r: i64)
    requires
        day_start(t as int) >= i64::MIN,
    ensures
        r == day_start(t as int),
{
    match t.checked_rem_euclid(DAY_MICROS) {
        Some(rem) => t - rem,
        None => t,
    }
}

/// Whether every bucket boundary of the series fits in an `i64`.
pub fn series_fits_exec(now: i64, days: u32) -> (r: bool)
    ensures
        r == series_fits(now, days),
{
    if days == 0 {
        return true;
    }
    let rem = match now.checked_rem_euclid(DAY_MICROS) {
        Some(rem) => rem,
        None => 0,
    };
    let today = now as i128 - rem as i128;
    let back = (days - 1) as i128;
    assert(0 <= back * 86_400_000_000 <= 4_294_967_296 * 86_400_000_000) by (nonlinear_arith)
        requires
            0 <= back <= 4_294_967_296,
    ;
    let oldest = today - back * (DAY_MICROS as i128);
    oldest >= i64::MIN as i128 && today + END_OF_DAY_OFFSET as i128 <= i64::MAX as i128
}

/// The start of the oldest bucket of a `days`-long series, `days > 0`.
fn oldest_bucket_start(now: i64, days: u32) -> (r: i64)
    requires
        days > 0,
        series_fits(now, days),
    ensures
        r == bucket_start(now as int, days - 1),
        r + (days - 1) * DAY_MICROS == day_start(now as int),
{
    let today = start_of_day(now);
    let back = (days - 1) as i128;
    assert(0 <= back * 86_400_000_000 <= 4_294_967_296 * 86_400_000_000) by (nonlinear_arith)
        requires
            0 <= back <= 4_294_967_296,
    ;
    let oldest = today as i128 - back * (DAY_MICROS as i128);
    oldest as i64
}

fn count_completed_within(tasks: &Vec<Task>, start: i64, end: i64) -> (r: usize)
    ensures
        r == tasks@.filter(completed_within(start as int, end as int)).len(),
{
    let mut count: usize = 0;
    let mut i: usize = 0;
    while i < tasks.len()
        invariant
            i <= tasks@.len(),
            count <= i,
            count == tasks@.take(i as int).filter(completed_within(start as int, end as int)).len(),
        decreases tasks@.len() - i,
    {
        proof {
            reveal(Seq::filter);
            assert(tasks@.take(i + 1).drop_last() =~= tasks@.take(i as int));
        }
        let hit = match tasks[i].completed_at {
            Some(c) => start <= c && c <= end,
            None => false,
        };
        if hit {
            count = count + 1;
        }
        i = i + 1;
    }
    assert(tasks@.take(i as int) =~= tasks@);
    count
}

fn count_open_at(tasks: &Vec<Task>, end: i64) -> (r: usize)
    ensures
        r == tasks@.filter(open_at(end as int)).len(),
{
    let mut count: usize = 0;
    let mut i: usize = 0;
    while i < tasks.len()
        invariant
            i <= tasks@.len(),
            count <= i,
            count == tasks@.take(i as int).filter(open_at(end as int)).len(),
        decreases tasks@.len() - i,
    {
        proof {
            reveal(Seq::filter);
            assert(tasks@.take(i + 1).drop_last() =~= tasks@.take(i as int));
        }
        let hit = tasks[i].created_at <= end && match tasks[i].completed_at {
            Some(c) => c > end,
            None => true,
        };
        if hit {
            count = count + 1;
        }
        i = i + 1;
    }
    assert(tasks@.take(i as int) =~= tasks@);
    count
}

fn count_completed_by(tasks: &Vec<Task>, end: i64) -> (r: usize)
    ensures
        r == tasks@.filter(completed_by(end as int)).len(),
{
    let mut count: usize = 0;
    let mut i: usize = 0;
    while i < tasks.len()
        invariant
            i <= tasks@.len(),
            count <= i,
            count == tasks@.take(i as int).filter(completed_by(end as int)).len(),
        decreases tasks@.len() - i,
    {
        proof {
            reveal(Seq::filter);
            assert(tasks@.take(i + 1).drop_last() =~= tasks@.take(i as int));
        }
        let hit = match tasks[i].completed_at {
            Some(c) => c <= end,
            None => false,
        };
        if hit {
            count = count + 1;
        }
        i = i + 1;
    }
    assert(tasks@.take(i as int) =~= tasks@);
    count
}

impl TaskManager {
    /// The records created at or after `since`, in store order.
    pub fn get_tasks_created_since(&self, since: i64) -> (r: Vec<&Task>)
        requires
            self.wf(),
        ensures
            r@.len() == self@.tasks.filter(created_since(since as int)).len(),
            forall|i: int|
                0 <= i < r@.len() ==> *r@[i] == self@.tasks.filter(created_since(since as int))[i],
    {
        let tasks = self.records();
        let mut out: Vec<&Task> = Vec::new();
        let mut i: usize = 0;
        while i < tasks.len()
            invariant
                i <= tasks@.len(),
                tasks@ == self@.tasks,
                out@.len() == tasks@.take(i as int).filter(created_since(since as int)).len(),
                forall|m: int|
                    0 <= m < out@.len() ==> *out@[m] == tasks@.take(i as int).filter(
                        created_since(since as int),
                    )[m],
            decreases tasks@.len() - i,
        {
            proof {
                reveal(Seq::filter);
                assert(tasks@.take(i + 1).drop_last() =~= tasks@.take(i as int));
            }
            let t = &tasks[i];
            if t.created_at >= since {
                out.push(t);
            }
            i = i + 1;
        }
        assert(tasks@.take(i as int) =~= tasks@);
        out
    }

    /// The records completed at or after `since`, in store order.
    pub fn get_tasks_completed_since(&self, since: i64) -> (r: Vec<&Task>)
        requires
            self.wf(),
        ensures
            r@.len() == self@.tasks.filter(completed_since(since as int)).len(),
            forall|i: int|
                0 <= i < r@.len() ==> *r@[i] == self@.tasks.filter(completed_since(since as int))[i],
    {
        let tasks = self.records();
        let mut out: Vec<&Task> = Vec::new();
        let mut i: usize = 0;
        while i < tasks.len()
            invariant
                i <= tasks@.len(),
                tasks@ == self@.tasks,
                out@.len() == tasks@.take(i as int).filter(completed_since(since as int)).len(),
                forall|m: int|
                    0 <= m < out@.len() ==> *out@[m] == tasks@.take(i as int).filter(
                        completed_since(since as int),
                    )[m],
            decreases tasks@.len() - i,
        {
            proof {
                reveal(Seq::filter);
                assert(tasks@.take(i + 1).drop_last() =~= tasks@.take(i as int));
            }
            let t = &tasks[i];
            if match t.completed_at {
                Some(c) => c >= since,
                None => false,
            } {
                out.push(t);
            }
            i = i + 1;
        }
        assert(tasks@.take(i as int) =~= tasks@);
        out
    }
    /// Completions per day for the `days` days ending on `now`'s day, oldest
    /// first, each labelled with the day's start.
    pub fn completed_tasks_time_series_at(&self, days: u32, now: i64) -> (r: Vec<(i64, usize)>)
        requires
            self.wf(),
            series_fits(now, days),
        ensures
            series_view(r@) == completed_per_day(self@.tasks, now as int, days as nat),
    {
        let tasks = self.records();
        let mut series: Vec<(i64, usize)> = Vec::new();
        if days == 0 {
            assert(series_view(series@) =~= completed_per_day(self@.tasks, now as int, 0));
            return series;
        }
        let mut start = oldest_bucket_start(now, days);
        let mut j: u32 = 0;
        while j < days
            invariant
                0 < days,
                series_fits(now, days),
                j <= days,
                tasks@ == self@.tasks,
                j < days ==> start == bucket_start(now as int, days - 1 - j),
                series@.len() == j,
                forall|m: int|
                    0 <= m < j ==> (#[trigger] series_view(series@)[m]) == completed_per_day(
                        self@.tasks,
                        now as int,
                        days as nat,
                    )[m],
            decreases days - j,
        {
            let end = start + END_OF_DAY_OFFSET;
            let count = count_completed_within(tasks, start, end);
            let ghost before = series@;
            series.push((start, count));
            proof {
                assert forall|m: int| 0 <= m < j + 1 implies (#[trigger] series_view(series@)[m])
                    == completed_per_day(self@.tasks, now as int, days as nat)[m] by {
                    if m < j {
                        assert(series@[m] == before[m]);
                        assert(series_view(before)[m] == completed_per_day(
                            self@.tasks,
                            now as int,
                            days as nat,
                        )[m]);
                    }
                }
            }
            j = j + 1;
            if j < days {
                start = start + DAY_MICROS;
            }
        }
        assert(series_view(series@) =~= completed_per_day(self@.tasks, now as int, days as nat));
        series
    }

    /// Backlog at the end of each of the `days` days ending on `now`'s day,
    /// oldest first, each labelled with the day's last second.
    pub fn incomplete_tasks_time_series_at(&self, days: u32, now: i64) -> (r: Vec<(i64, usize)>)
        requires
            self.wf(),
            series_fits(now, days),
        ensures
            series_view(r@) == open_per_day(self@.tasks, now as int, days as nat),
    {
        let tasks = self.records();
        let mut series: Vec<(i64, usize)> = Vec::new();
        if days == 0 {
            assert(series_view(series@) =~= open_per_day(self@.tasks, now as int, 0));
            return series;
        }
        let mut end = oldest_bucket_start(now, days) + END_OF_DAY_OFFSET;
        let mut j: u32 = 0;
        while j < days
            invariant
                0 < days,
                series_fits(now, days),
                j <= days,
                tasks@ == self@.tasks,
                j < days ==> end == bucket_end(now as int, days - 1 - j),
                series@.len() == j,
                forall|m: int|
                    0 <= m < j ==> (#[trigger] series_view(series@)[m]) == open_per_day(
                        self@.tasks,
                        now as int,
                        days as nat,
                    )[m],
            decreases days - j,
        {
            let count = count_open_at(tasks, end);
            let ghost before = series@;
            series.push((end, count));
            proof {
                assert forall|m: int| 0 <= m < j + 1 implies (#[trigger] series_view(series@)[m])
                    == open_per_day(self@.tasks, now as int, days as nat)[m] by {
                    if m < j {
                        assert(series@[m] == before[m]);
                        assert(series_view(before)[m] == open_per_day(
                            self@.tasks,
                            now as int,
                            days as nat,
                        )[m]);
                    }
                }
            }
            j = j + 1;
            if j < days {
                end = end + DAY_MICROS;
            }
        }
        assert(series_view(series@) =~= open_per_day(self@.tasks, now as int, days as nat));
        series
    }

    /// Running completions at the end of each of the `days` days ending on
    /// `now`'s day, oldest first, each labelled with the day's last second.
    pub fn cumulative_completed_time_series_at(&self, days: u32, now: i64) -> (r: Vec<(i64, usize)>)
        requires
            self.wf(),
            series_fits(now, days),
        ensures
            series_view(r@) == cumulative_per_day(self@.tasks, now as int, days as nat),
    {
        let tasks = self.records();
        let mut series: Vec<(i64, usize)> = Vec::new();
        if days == 0 {
            assert(series_view(series@) =~= cumulative_per_day(self@.tasks, now as int, 0));
            return series;
        }
        let mut end = oldest_bucket_start(now, days) + END_OF_DAY_OFFSET;
        let mut j: u32 = 0;
        while j < days
            invariant
                0 < days,
                series_fits(now, days),
                j <= days,
                tasks@ == self@.tasks,
                j < days ==> end == bucket_end(now as int, days - 1 - j),
                series@.len() == j,
                forall|m: int|
                    0 <= m < j ==> (#[trigger] series_view(series@)[m]) == cumulative_per_day(
                        self@.tasks,
                        now as int,
                        days as nat,
                    )[m],
            decreases days - j,
        {
            let count = count_completed_by(tasks, end);
            let ghost before = series@;
            series.push((end, count));
            proof {
                assert forall|m: int| 0 <= m < j + 1 implies (#[trigger] series_view(series@)[m])
                    == cumulative_per_day(self@.tasks, now as int, days as nat)[m] by {
                    if m < j {
                        assert(series@[m] == before[m]);
                        assert(series_view(before)[m] == cumulative_per_day(
                            self@.tasks,
                            now as int,
                            days as nat,
                        )[m]);
                    }
                }
            }
            j = j + 1;
            if j < days {
                end = end + DAY_MICROS;
            }
        }
        assert(series_view(series@) =~= cumulative_per_day(self@.tasks, now as int, days as nat));
        series
    }

    /// Completions per day for the `days` days ending today; empty where the
    /// series would reach beyond the representable range.
    pub fn get_completed_tasks_time_series(&self, days: u32) -> (r: Vec<(i64, usize)>)
        requires
            self.wf(),
        ensures
            days <= MAX_CLOCK_SERIES_DAYS ==> r@.len() == days,
            exists|now: i64|
                0 <= now <= MAX_UTC_MICROS && if #[trigger] series_fits(now, days) {
                    series_view(r@) == completed_per_day(self@.tasks, now as int, days as nat)
                } else {
                    r@.len() == 0
                },
    {
        let now = now_micros();
        let r = if series_fits_exec(now, days) {
            self.completed_tasks_time_series_at(days, now)
        } else {
            Vec::new()
        };
        assert(if series_fits(now, days) {
            series_view(r@) == completed_per_day(self@.tasks, now as int, days as nat)
        } else {
            r@.len() == 0
        });
        proof {
            if days <= MAX_CLOCK_SERIES_DAYS {
                lemma_clock_series_fits(now, days);
                assert(series_view(r@).len() == r@.len());
            }
        }
        r
    }

    /// Backlog at the end of each of the `days` days ending today; empty
    /// where the series would reach beyond the representable range.
    pub fn get_incomplete_tasks_time_series(&self, days: u32) -> (r: Vec<(i64, usize)>)
        requires
            self.wf(),
        ensures
            days <= MAX_CLOCK_SERIES_DAYS ==> r@.len() == days,
            exists|now: i64|
                0 <= now <= MAX_UTC_MICROS && if #[trigger] series_fits(now, days) {
                    series_view(r@) == open_per_day(self@.tasks, now as int, days as nat)
                } else {
                    r@.len() == 0
                },
    {
        let now = now_micros();
        let r = if series_fits_exec(now, days) {
            self.incomplete_tasks_time_series_at(days, now)
        } else {
            Vec::new()
        };
        assert(if series_fits(now, days) {
            series_view(r@) == open_per_day(self@.tasks, now as int, days as nat)
        } else {
            r@.len() == 0
        });
        proof {
            if days <= MAX_CLOCK_SERIES_DAYS {
                lemma_clock_series_fits(now, days);
                assert(series_view(r@).len() == r@.len());
            }
        }
        r
    }

    /// Running completions at the end of each of the `days` days ending
    /// today; empty where the series would reach beyond the representable
    /// range.
    pub fn get_cumulative_completed_time_series(&self, days: u32) -> (r: Vec<(i64, usize)>)
        requires
            self.wf(),
        ensures
            days <= MAX_CLOCK_SERIES_DAYS ==> r@.len() == days,
            exists|now: i64|
                0 <= now <= MAX_UTC_MICROS && if #[trigger] series_fits(now, days) {
                    series_view(r@) == cumulative_per_day(self@.tasks, now as int, days as nat)
                } else {
                    r@.len() == 0
                },
    {
        let now = now_micros();
        let r = if series_fits_exec(now, days) {
            self.cumulative_completed_time_series_at(days, now)
        } else {
            Vec::new()
        };
        assert(if series_fits(now, days) {
            series_view(r@) == cumulative_per_day(self@.tasks, now as int, days as nat)
        } else {
            r@.len() == 0
        });
        proof {
            if days <= MAX_CLOCK_SERIES_DAYS {
                lemma_clock_series_fits(now, days);
                assert(series_view(r@).len() == r@.len());
            }
        }
        r
    }

    /// The mean time from creation to completion over the records that have
    /// a completion time, or `None` where there is none.
    pub fn get_average_completion_time(&self) -> (r: Option<ExactDuration>)
        requires
            self.wf(),
        ensures
            r matches Some(d) ==> mean_latency(self@.tasks) == Some(d.pair()),
            r is None <==> mean_latency(self@.tasks) is None,
    {
        proof { self@.lemma_len_below_next_id(); }
        let (sum, count) = latency_totals(self.records());
        if count == 0 {
            None
        } else {
            Some(ExactDuration { numerator: sum, denominator: count as i128 })
        }
    }

    /// An estimate of the remaining time of each open record as of `now`, in
    /// store order: one entry per open record.
    pub fn predict_task_completion_times_at(&self, now: i64) -> (r: Vec<(u32, ExactDuration)>)
        requires
            self.wf(),
        ensures
            predictions_view(r@) == predictions(self@.tasks, now as int),
    {
        proof { self@.lemma_len_below_next_id(); }
        let tasks = self.records();
        let (sum, count) = latency_totals(tasks);
        let (base_num, base_den): (i128, i128) = if count == 0 {
            (DEFAULT_BASELINE_MICROS as i128, 1)
        } else {
            (sum, count as i128)
        };
        let ghost b = baseline(self@.tasks);
        assert(b == (base_num as int, base_den as int));
        let mut out: Vec<(u32, ExactDuration)> = Vec::new();
        let mut i: usize = 0;
        while i < tasks.len()
            invariant
                i <= tasks@.len() < u32::MAX,
                tasks@ == self@.tasks,
                b == (base_num as int, base_den as int),
                1 <= base_den <= u32::MAX,
                -0x1_0000_0000_0000_0000_0000_0000 <= base_num <= 0x1_0000_0000_0000_0000_0000_0000,
                predictions_view(out@) == predictions_with(tasks@.take(i as int), now as int, b),
            decreases tasks@.len() - i,
        {
            let ghost prev = out@;
            proof {
                reveal(Seq::filter);
                assert(tasks@.take(i + 1).drop_last() =~= tasks@.take(i as int));
            }
            if !tasks[i].completed {
                let age = now as i128 - tasks[i].created_at as i128;
                assert(-0x1_0000_0000_0000_0000_0000_0000 <= age * base_den
                    <= 0x1_0000_0000_0000_0000_0000_0000) by (nonlinear_arith)
                    requires
                        -0x1_0000_0000_0000_0000 <= age <= 0x1_0000_0000_0000_0000,
                        1 <= base_den <= 0x1_0000_0000,
                ;
                let estimate = if age * base_den > base_num {
                    ExactDuration { numerator: age * base_den + base_num, denominator: 2 * base_den }
                } else {
                    ExactDuration { numerator: base_num, denominator: base_den }
                };
                out.push((tasks[i].id, estimate));
                proof {
                    let f = |t: Task| (t.id, predicted(now - t.created_at, b));
                    let kept = tasks@.take(i as int).filter(is_not_completed());
                    assert(tasks@.take(i + 1).filter(is_not_completed()) == kept.push(tasks@[i as int]));
                    assert(kept.push(tasks@[i as int]).map_values(f) =~= kept.map_values(f).push(
                        f(tasks@[i as int]),
                    ));
                    assert(predictions_view(out@) =~= predictions_view(prev).push(
                        (tasks@[i as int].id, estimate.pair()),
                    ));
                }
            }
            i = i + 1;
        }
        assert(tasks@.take(i as int) =~= tasks@);
        out
    }

    /// An estimate of the remaining time of each open record as of now.
    pub fn predict_task_completion_times(&self) -> (r: Vec<(u32, ExactDuration)>)
        requires
            self.wf(),
        ensures
            exists|now: i64| 0 <= now <= MAX_UTC_MICROS && predictions_view(r@) == #[trigger] predictions(self@.tasks, now as int),
    {
        let now = now_micros();
        self.predict_task_completion_times_at(now)
    }
}

} // verus!
