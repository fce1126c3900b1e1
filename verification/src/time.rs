//! Timestamps, time ranges and calendar-aware durations.
//!
//! A [`Timestamp`] is seconds since the Unix epoch. A [`RelDuration`] is a
//! calendar-aware duration split into a month-granular and a second-granular
//! component, mirroring the shape of `chronoutil::RelativeDuration`: adding
//! it to a timestamp first shifts the calendar date by the months, then adds
//! the seconds. The calendar shift itself is delegated to `chronoutil`.

use vstd::prelude::*;

verus! {

/// Largest magnitude of a cache start time the engine accepts, in seconds
/// (about 8,700 years either side of the epoch). Keeps every shifted
/// timestamp well inside the range `chrono` can represent.
pub const TIME_BOUND: i64 = 0x40_0000_0000;

/// Largest series length the engine accepts (over 268 million points).
pub const MAX_SERIES_LEN: usize = 0x1000_0000;

/// Largest total month offset a series may accrue (about 175,000 years):
/// the calendar shift stays far inside `chrono`'s date range.
pub const MAX_MONTH_OFFSET: i64 = 0x20_0000;

/// Largest total second offset a series may accrue (about 2.2 million
/// years): additions to a shifted timestamp stay far inside an `i64`.
pub const MAX_SECOND_OFFSET: i64 = 0x4000_0000_0000;

/// Every timestamp `chrono` can represent lies within this bound (its
/// documented range is about 262,000 years either side of the epoch).
pub const SHIFT_BOUND: i64 = 0x800_0000_0000;

/// Unix timestamp, inner i64 is seconds since unix epoch
#[derive(Debug, Clone, Copy, PartialEq, Eq, Structural)]
pub struct Timestamp(pub i64);

/// Inclusive range of time, from a start to an end [`Timestamp`]
#[derive(Debug, Clone, Copy, PartialEq, Eq, Structural)]
pub struct Timerange {
    /// Start of the timerange
    pub start: Timestamp,
    /// End of the timerange
    pub end: Timestamp,
}

/// A calendar-aware duration: a month-granular component plus a
/// second-granular component.
///
/// Stands for `chronoutil::RelativeDuration`, whose month component is an
/// `i32` and whose sub-month component is a second count.
#[derive(Debug, Clone, Copy, PartialEq, Eq, Structural)]
pub struct RelDuration {
    /// Month-granular component
    pub months: i32,
    /// Second-granular component
    pub seconds: i64,
}

impl RelDuration {
    /// A duration of the given number of months and no seconds.
    pub fn months(months: i32) -> (r: RelDuration)
        ensures
            r == (RelDuration { months, seconds: 0 }),
    {
        RelDuration { months, seconds: 0 }
    }

    /// A duration of the given number of seconds and no months.
    pub fn seconds(seconds: i64) -> (r: RelDuration)
        ensures
            r == (RelDuration { months: 0, seconds }),
    {
        RelDuration { months: 0, seconds }
    }

    /// A duration of the given number of minutes and no months.
    pub fn minutes(minutes: i32) -> (r: RelDuration)
        ensures
            r.months == 0 && r.seconds == minutes * 60,
    {
        RelDuration { months: 0, seconds: (minutes as i64) * 60 }
    }

    /// The total month and second offsets this period accrues over a
    /// series of `len` points stay within the engine's timestamp
    /// arithmetic: how long each step is and how many steps there are
    /// bound each other, rather than either being capped alone.
    pub open spec fn fits(self, len: int) -> bool {
        &&& -MAX_MONTH_OFFSET <= self.months * len <= MAX_MONTH_OFFSET
        &&& -MAX_SECOND_OFFSET <= self.seconds * len <= MAX_SECOND_OFFSET
    }
}

/// A period that fits a series length also fits any shorter prefix.
pub proof fn lemma_fits_prefix(period: RelDuration, long: int, short: int)
    requires
        period.fits(long),
        0 <= short <= long,
    ensures
        period.fits(short),
{
    assert(-MAX_MONTH_OFFSET <= period.months * short <= MAX_MONTH_OFFSET) by (nonlinear_arith)
        requires
            0 <= short <= long,
            -MAX_MONTH_OFFSET <= period.months * long <= MAX_MONTH_OFFSET,
    {}
    assert(-MAX_SECOND_OFFSET <= period.seconds * short <= MAX_SECOND_OFFSET) by (nonlinear_arith)
        requires
            0 <= short <= long,
            -MAX_SECOND_OFFSET <= period.seconds * long <= MAX_SECOND_OFFSET,
    {}
}

/// Specifier of which data to fetch from a source by time, and time resolution
#[derive(Debug, Clone, Copy, PartialEq, Eq, Structural)]
pub struct TimeSpec {
    /// The range in time of data to fetch
    pub timerange: Timerange,
    /// The time resolution of data that should be fetched
    pub time_resolution: RelDuration,
}

/// What the calendar shift returns: the timestamp `months` months after `t`,
/// with ambiguous month-ends moved backwards as the calendar requires.
pub uninterp spec fn shifted_by_months(t: int, months: int) -> int;

/// Relies on `chronoutil::delta::shift_months` over `chrono::DateTime<Utc>`:
/// the shifted date depends on the timestamp and the month count alone,
/// shifting by zero months returns the input unchanged, and the result is a
/// timestamp of a date `chrono` represents, so it lies within `SHIFT_BOUND`.
#[verifier::external_body]
fn shift_months_exec(t: i64, months: i32) -> (r: i64)
    requires
        -TIME_BOUND <= t <= TIME_BOUND,
        -MAX_MONTH_OFFSET <= months <= MAX_MONTH_OFFSET,
    ensures
        r == shifted_by_months(t as int, months as int),
        months == 0 ==> r == t,
        -SHIFT_BOUND <= r <= SHIFT_BOUND,
{
    let date = chrono::DateTime::<chrono::Utc>::from_timestamp(t, 0).unwrap();
    chronoutil::delta::shift_months(date, months).timestamp()
}

/// The timestamp of the `index`-th point of a series that starts at `start`
/// and advances by the period `(months, seconds)` each step: the calendar
/// shift by `months * index`, plus `seconds * index`.
pub open spec fn spec_time_at(start: int, months: int, seconds: int, index: int) -> int {
    shifted_by_months(start, months * index) + seconds * index
}

/// The timestamp of the `index`-th point of a series starting at `start`
/// with spacing `period`.
pub fn time_at(start: Timestamp, period: RelDuration, index: usize) -> (r: Timestamp)
    requires
        -TIME_BOUND <= start.0 <= TIME_BOUND,
        index <= MAX_SERIES_LEN,
        period.fits(index as int),
    ensures
        r.0 == spec_time_at(start.0 as int, period.months as int, period.seconds as int, index as int),
        period.months == 0 ==> r.0 == start.0 + period.seconds * index,
{
    let month_total: i64 = (period.months as i64) * (index as i64);
    proof {
        if period.months == 0 {
            assert(month_total == 0) by (nonlinear_arith)
                requires
                    month_total == (period.months as i64) * (index as i64),
                    period.months == 0,
            {}
        }
    }
    let shifted = shift_months_exec(start.0, month_total as i32);
    let second_total: i64 = period.seconds * (index as i64);
    Timestamp(shifted + second_total)
}

} // verus!
