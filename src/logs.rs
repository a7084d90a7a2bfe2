use vstd::prelude::*;
use crate::date::{day_start_at, day_window, lemma_day_length, near_day_start, CalendarDate};
use crate::model::Log;

verus! {

/// Whether `log` lies in the half-open window `[start, end)`.
pub open spec fn in_window(log: Log, start: int, end: int) -> bool {
    start <= log.time < end
}

/// The logs of `logs` that lie in `[start, end)`, in their order.
pub open spec fn window_logs(logs: Seq<Log>, start: int, end: int) -> Seq<Log> {
    logs.filter(|l: Log| in_window(l, start, end))
}

/// The total quantity that `logs` record against unit `source`.
pub open spec fn source_total(logs: Seq<Log>, source: u128) -> int
    decreases logs.len(),
{
    if logs.len() == 0 {
        0
    } else {
        source_total(logs.drop_last(), source) + if logs.last().source == source {
            logs.last().quantity as int
        } else {
            0
        }
    }
}

/// Logs in ascending order of time.
pub open spec fn sorted_by_time(logs: Seq<Log>) -> bool {
    forall|i: int, j: int| 0 <= i <= j < logs.len() ==> logs[i].time <= logs[j].time
}

/// Day boundaries: where local time keeps one offset from UTC across two
/// days, a log at 02:59:59 local time on the later day belongs to the
/// earlier logical day alone, and one at 03:00:00 to the later day alone.
pub proof fn lemma_day_boundary(ordinal: int, offset: int, before: Log, at: Log)
    requires
        before.time == day_start_at(ordinal, offset) - 1,
        at.time == day_start_at(ordinal, offset),
    ensures
        in_window(before, day_start_at(ordinal - 1, offset), day_start_at(ordinal, offset)),
        !in_window(before, day_start_at(ordinal, offset), day_start_at(ordinal + 1, offset)),
        in_window(at, day_start_at(ordinal, offset), day_start_at(ordinal + 1, offset)),
        !in_window(at, day_start_at(ordinal - 1, offset), day_start_at(ordinal, offset)),
{
    lemma_day_length(ordinal - 1, offset);
    lemma_day_length(ordinal, offset);
}

/// Logs past `i` all lie at or after `end`, so they add nothing to a window.
proof fn lemma_window_ignores_tail(logs: Seq<Log>, i: int, start: int, end: int)
    requires
        0 <= i <= logs.len(),
        forall|j: int| i <= j < logs.len() ==> logs[j].time >= end,
    ensures
        window_logs(logs, start, end) == window_logs(logs.subrange(0, i), start, end),
    decreases logs.len(),
{
    reveal(Seq::filter);
    if logs.len() > i {
        lemma_window_ignores_tail(logs.drop_last(), i, start, end);
        assert(logs.drop_last().subrange(0, i) =~= logs.subrange(0, i));
    } else {
        assert(logs.subrange(0, i) =~= logs);
    }
}

proof fn lemma_total_bound(logs: Seq<Log>, source: u128)
    ensures
        0 <= source_total(logs, source) <= logs.len() * (u32::MAX as int),
    decreases logs.len(),
{
    if logs.len() > 0 {
        lemma_total_bound(logs.drop_last(), source);
        assert((logs.len() - 1) * (u32::MAX as int) + u32::MAX as int == logs.len() * (
        u32::MAX as int)) by (nonlinear_arith);
    }
}

/// The logs of a time-sorted list that lie in `[start, end)`; the scan
/// stops at the first log at or past `end`.
pub fn load_for_day(logs: &Vec<Log>, start: i64, end: i64) -> (r: Vec<Log>)
    requires
        sorted_by_time(logs@),
    ensures
        r@ == window_logs(logs@, start as int, end as int),
{
    let mut day_logs: Vec<Log> = Vec::new();
    let mut i: usize = 0;
    while i < logs.len()
        invariant
            i <= logs@.len(),
            sorted_by_time(logs@),
            day_logs@ == window_logs(logs@.subrange(0, i as int), start as int, end as int),
        ensures
            i <= logs@.len(),
            day_logs@ == window_logs(logs@.subrange(0, i as int), start as int, end as int),
            i < logs@.len() ==> logs@[i as int].time >= end,
        decreases logs@.len() - i,
    {
        let log = logs[i];
        if log.time >= end {
            break;
        }
        assert(logs@.subrange(0, i + 1).drop_last() =~= logs@.subrange(0, i as int));
        proof {
            reveal(Seq::filter);
        }
        if log.time >= start {
            day_logs.push(log);
        }
        i = i + 1;
    }
    proof {
        assert forall|j: int| i <= j < logs@.len() implies logs@[j].time >= end by {
            assert(logs@[i as int].time <= logs@[j].time);
        }
        lemma_window_ignores_tail(logs@, i as int, start as int, end as int);
        if i == logs@.len() {
            assert(logs@.subrange(0, i as int) =~= logs@);
        }
    }
    day_logs
}

/// The total quantity that `logs` record against unit `source`.
pub fn total_from_source(logs: &Vec<Log>, source: u128) -> (r: u128)
    ensures
        r == source_total(logs@, source),
{
    let mut sum: u128 = 0;
    let mut i: usize = 0;
    while i < logs.len()
        invariant
            i <= logs@.len(),
            sum == source_total(logs@.subrange(0, i as int), source),
        decreases logs@.len() - i,
    {
        let log = logs[i];
        assert(logs@.subrange(0, i + 1).drop_last() =~= logs@.subrange(0, i as int));
        proof {
            lemma_total_bound(logs@.subrange(0, i + 1), source);
            assert((i + 1) * (u32::MAX as int) <= (usize::MAX as int) * (u32::MAX as int))
                by (nonlinear_arith)
                requires
                    i < usize::MAX,
            ;
        }
        if log.source == source {
            sum = sum + log.quantity as u128;
        }
        i = i + 1;
    }
    assert(logs@.subrange(0, i as int) =~= logs@);
    sum
}

/// The quantity logged against unit `source` in `[start, end)`.
pub fn sum_for_window(logs: &Vec<Log>, source: u128, start: i64, end: i64) -> (r: u128)
    requires
        sorted_by_time(logs@),
    ensures
        r == source_total(window_logs(logs@, start as int, end as int), source),
{
    let day_logs = load_for_day(logs, start, end);
    total_from_source(&day_logs, source)
}

/// Whether `logs` are in ascending order of time.
pub fn is_sorted_by_time(logs: &Vec<Log>) -> (r: bool)
    ensures
        r == sorted_by_time(logs@),
{
    let mut i: usize = 1;
    if logs.len() == 0 {
        return true;
    }
    while i < logs.len()
        invariant
            1 <= i <= logs@.len(),
            forall|a: int, b: int| 0 <= a <= b < i ==> logs@[a].time <= logs@[b].time,
        decreases logs@.len() - i,
    {
        if logs[i - 1].time > logs[i].time {
            return false;
        }
        assert forall|a: int, b: int| 0 <= a <= b < i + 1 implies logs@[a].time <= logs@[b].time by {
            if b == i && a < i {
                assert(logs@[a].time <= logs@[i - 1].time);
            }
        }
        i = i + 1;
    }
    true
}

/// The quantity logged against unit `source` on logical day `day`, with
/// the window `(start, end)` it was taken over; `None` for the last
/// representable date, which has no window (see `day_window`).
pub fn sum_for_day(day: &CalendarDate, source: u128, logs: &Vec<Log>) -> (r: Option<(i64, i64, u128)>)
    requires
        day.wf(),
        sorted_by_time(logs@),
    ensures
        r is None <==> day.is_last(),
        r matches Some((s, e, t)) ==> near_day_start(day.ordinal(), s as int) && near_day_start(
            day.ordinal() + 1,
            e as int,
        ) && t == source_total(window_logs(logs@, s as int, e as int), source),
{
    match day_window(day) {
        Some((start, end)) => Some((start, end, sum_for_window(logs, source, start, end))),
        None => None,
    }
}

} // verus!
