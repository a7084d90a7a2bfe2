use vstd::prelude::*;
use chrono::{Datelike, TimeZone};

verus! {

/// Earliest and latest years that a calendar date may carry.
pub const MIN_YEAR: i32 = -262143;
pub const MAX_YEAR: i32 = 262142;

/// Hour of local time at which a logical day begins.
pub const DAY_START_HOUR: u32 = 3;

/// A date of the proleptic Gregorian calendar.
#[derive(Clone, Copy, PartialEq, Eq, Debug)]
pub struct CalendarDate {
    pub year: i32,
    pub month: u32,
    pub day: u32,
}

pub open spec fn is_leap_year(y: int) -> bool {
    y % 4 == 0 && (y % 100 != 0 || y % 400 == 0)
}

pub open spec fn days_in_month(y: int, m: int) -> int {
    if m == 2 {
        if is_leap_year(y) { 29 } else { 28 }
    } else if m == 4 || m == 6 || m == 9 || m == 11 {
        30
    } else {
        31
    }
}

/// Days from 0001-01-01 to the first day of year `y`.
pub open spec fn days_before_year(y: int) -> int {
    365 * (y - 1) + (y - 1) / 4 - (y - 1) / 100 + (y - 1) / 400
}

/// Days from the first of January of year `y` to the first day of month `m`.
pub open spec fn days_before_month(y: int, m: int) -> int {
    let common = if m <= 1 { 0int } else if m == 2 { 31 } else if m == 3 { 59 } else if m == 4 {
        90
    } else if m == 5 { 120 } else if m == 6 { 151 } else if m == 7 { 181 } else if m == 8 {
        212
    } else if m == 9 { 243 } else if m == 10 { 273 } else if m == 11 { 304 } else { 334 };
    if m > 2 && is_leap_year(y) { common + 1 } else { common }
}

impl CalendarDate {
    /// An existing date within the supported years.
    pub open spec fn wf(&self) -> bool {
        &&& MIN_YEAR <= self.year <= MAX_YEAR
        &&& 1 <= self.month <= 12
        &&& 1 <= self.day <= days_in_month(self.year as int, self.month as int)
    }

    /// Number of the day counted from 0001-01-01, which is day 1.
    pub open spec fn ordinal(&self) -> int {
        days_before_year(self.year as int) + days_before_month(self.year as int, self.month as int)
            + self.day
    }

    /// The last date that can be represented.
    pub open spec fn is_last(&self) -> bool {
        self.year == MAX_YEAR && self.month == 12 && self.day == 31
    }

    pub fn new(year: i32, month: u32, day: u32) -> (r: CalendarDate)
        ensures
            r == (CalendarDate { year, month, day }),
    {
        CalendarDate { year, month, day }
    }
}

/// The first of January 2000, from which day counts are taken.
pub fn epoch() -> (r: CalendarDate)
    ensures
        r == (CalendarDate { year: 2000, month: 1, day: 1 }),
        r.wf(),
{
    CalendarDate { year: 2000, month: 1, day: 1 }
}

/// Relies on chrono's `NaiveDate::from_ymd_opt` (a valid date in range is
/// accepted) and `NaiveDate::signed_duration_since` with `TimeDelta::num_days`:
/// the signed number of days from `earlier` to `later`.
#[verifier::external_body]
pub(crate) fn days_between(later: &CalendarDate, earlier: &CalendarDate) -> (r: i64)
    requires
        later.wf(),
        earlier.wf(),
    ensures
        r == later.ordinal() - earlier.ordinal(),
{
    let a = chrono::NaiveDate::from_ymd_opt(later.year, later.month, later.day).unwrap();
    let b = chrono::NaiveDate::from_ymd_opt(earlier.year, earlier.month, earlier.day).unwrap();
    a.signed_duration_since(b).num_days()
}

/// Relies on chrono's `NaiveDate::checked_add_days` with one day: the next
/// date, or `None` past the last representable date.
#[verifier::external_body]
pub(crate) fn following_day(d: &CalendarDate) -> (r: Option<CalendarDate>)
    requires
        d.wf(),
    ensures
        match r {
            Some(n) => !d.is_last() && n.wf() && n.ordinal() == d.ordinal() + 1,
            None => d.is_last(),
        },
{
    let n = chrono::NaiveDate::from_ymd_opt(d.year, d.month, d.day).unwrap();
    n.checked_add_days(chrono::Days::new(1)).map(
        |x| CalendarDate { year: x.year(), month: x.month(), day: x.day() },
    )
}

/// Bounds on the day number of a representable date.
proof fn lemma_ordinal_bounds(d: CalendarDate)
    requires
        d.wf(),
    ensures
        -100_000_000 < d.ordinal() < 100_000_000,
{
    let x = d.year - 1;
    vstd::arithmetic::div_mod::lemma_div_is_ordered(-262144, x, 4);
    vstd::arithmetic::div_mod::lemma_div_is_ordered(x, 262141, 4);
    vstd::arithmetic::div_mod::lemma_div_is_ordered(-262144, x, 100);
    vstd::arithmetic::div_mod::lemma_div_is_ordered(x, 262141, 100);
    vstd::arithmetic::div_mod::lemma_div_is_ordered(-262144, x, 400);
    vstd::arithmetic::div_mod::lemma_div_is_ordered(x, 262141, 400);
    assert(-262144int / 4 == -65536);
    assert(262141int / 4 == 65535);
    assert(-262144int / 100 == -2622);
    assert(262141int / 100 == 2621);
    assert(-262144int / 400 == -656);
    assert(262141int / 400 == 655);
}

/// Day number of 1970-01-01, the first day of Unix time.
pub const UNIX_EPOCH_ORDINAL: i64 = 719163;

pub const SECS_PER_DAY: i64 = 86400;

/// Seconds from the Unix epoch to `hour`:00:00 on the day numbered
/// `ordinal`, read as if local time were UTC.
pub open spec fn local_seconds(ordinal: int, hour: int) -> int {
    (ordinal - UNIX_EPOCH_ORDINAL) * SECS_PER_DAY + hour * 3600
}

/// The Unix time of 03:00 local time on the day numbered `ordinal`, where
/// local time is `offset` seconds ahead of UTC.
pub open spec fn day_start_at(ordinal: int, offset: int) -> int {
    local_seconds(ordinal, DAY_START_HOUR as int) - offset
}

/// Where the offset from UTC does not change, logical days are 86 400
/// seconds long.
pub proof fn lemma_day_length(ordinal: int, offset: int)
    ensures
        day_start_at(ordinal + 1, offset) - day_start_at(ordinal, offset) == SECS_PER_DAY,
{
    assert((ordinal + 1 - UNIX_EPOCH_ORDINAL) * SECS_PER_DAY == (ordinal - UNIX_EPOCH_ORDINAL)
        * SECS_PER_DAY + SECS_PER_DAY) by (nonlinear_arith);
}

/// Whether `t` can be the instant at which the logical day numbered
/// `ordinal` begins: 03:00 local time, under some offset from UTC of less
/// than a day either way.
pub open spec fn near_day_start(ordinal: int, t: int) -> bool {
    local_seconds(ordinal, DAY_START_HOUR as int) - SECS_PER_DAY < t < local_seconds(
        ordinal,
        DAY_START_HOUR as int,
    ) + SECS_PER_DAY
}

/// Relies on chrono's `Local::offset_from_local_datetime` with
/// `MappedLocalTime::earliest` and `FixedOffset::local_minus_utc`: the
/// machine's offset from UTC, in seconds, at `hour`:00:00 local time on
/// `d`, taking the earlier of two where that local time is repeated;
/// `None` where it is skipped. Every `FixedOffset` lies strictly within a
/// day of UTC.
#[verifier::external_body]
pub(crate) fn offset_at_local(d: &CalendarDate, hour: u32) -> (r: Option<i32>)
    requires
        d.wf(),
        hour < 24,
    ensures
        r matches Some(o) ==> -SECS_PER_DAY < o < SECS_PER_DAY,
{
    let n = chrono::NaiveDate::from_ymd_opt(d.year, d.month, d.day).unwrap();
    let t = n.and_hms_opt(hour, 0, 0).unwrap();
    chrono::Local.offset_from_local_datetime(&t).earliest().map(|o| o.local_minus_utc())
}

/// Relies on chrono's `Local::offset_from_utc_datetime` with
/// `FixedOffset::local_minus_utc`: the machine's offset from UTC, in
/// seconds, at the instant `hour`:00:00 UTC on `d`. Every `FixedOffset`
/// lies strictly within a day of UTC.
#[verifier::external_body]
pub(crate) fn offset_at_utc(d: &CalendarDate, hour: u32) -> (r: i32)
    requires
        d.wf(),
        hour < 24,
    ensures
        -SECS_PER_DAY < r < SECS_PER_DAY,
{
    let n = chrono::NaiveDate::from_ymd_opt(d.year, d.month, d.day).unwrap();
    let t = n.and_hms_opt(hour, 0, 0).unwrap();
    chrono::Local.offset_from_utc_datetime(&t).local_minus_utc()
}

/// Signed number of days from the epoch date to `d`.
pub open spec fn days_since_epoch(d: CalendarDate) -> int {
    d.ordinal() - (CalendarDate { year: 2000, month: 1, day: 1 }).ordinal()
}

/// The Unix time of 03:00 local time on `day`, for a local time zone
/// whose offset from UTC there is `offset` seconds.
pub fn day_start_with_offset(day: &CalendarDate, offset: i32) -> (r: i64)
    requires
        day.wf(),
        -SECS_PER_DAY < offset < SECS_PER_DAY,
    ensures
        r == day_start_at(day.ordinal(), offset as int),
        near_day_start(day.ordinal(), r as int),
{
    let days: i64 = days_between(day, &unix_epoch());
    proof {
        lemma_ordinal_bounds(*day);
    }
    days * SECS_PER_DAY + (DAY_START_HOUR as i64) * 3600 - offset as i64
}

/// The first day of Unix time, 1970-01-01.
pub fn unix_epoch() -> (r: CalendarDate)
    ensures
        r == (CalendarDate { year: 1970, month: 1, day: 1 }),
        r.wf(),
        r.ordinal() == UNIX_EPOCH_ORDINAL,
{
    CalendarDate { year: 1970, month: 1, day: 1 }
}

/// The offset that places a local time: the one in force at that local
/// time where there is one, else (where the local time is skipped) the
/// one in force at the same time read as UTC.
pub fn choose_offset(at_local: Option<i32>, at_utc: i32) -> (r: i32)
    ensures
        r == match at_local {
            Some(o) => o,
            None => at_utc,
        },
{
    match at_local {
        Some(o) => o,
        None => at_utc,
    }
}

/// The instant at which logical day `day` begins: 03:00 local time on it.
/// Where the time zone repeats that hour, the earlier instant; where it
/// skips it, 03:00 under the offset in force at 03:00 UTC that day.
pub fn new_day_unix(day: &CalendarDate) -> (r: i64)
    requires
        day.wf(),
    ensures
        near_day_start(day.ordinal(), r as int),
{
    let at_local = offset_at_local(day, DAY_START_HOUR);
    let at_utc = offset_at_utc(day, DAY_START_HOUR);
    day_start_with_offset(day, choose_offset(at_local, at_utc))
}

/// The half-open window `[start, end)` of logical day `day`, where `end`
/// is the start of the following day; `None` for the last representable
/// date, which has no following day.
pub fn day_window(day: &CalendarDate) -> (r: Option<(i64, i64)>)
    requires
        day.wf(),
    ensures
        r is None <==> day.is_last(),
        r matches Some((s, e)) ==> near_day_start(day.ordinal(), s as int) && near_day_start(
            day.ordinal() + 1,
            e as int,
        ),
{
    let next = match following_day(day) {
        Some(n) => n,
        None => return None,
    };
    Some((new_day_unix(day), new_day_unix(&next)))
}

} // verus!
