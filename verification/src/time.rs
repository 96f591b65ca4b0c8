//! Calendar arithmetic: mapping a UTC timestamp (seconds since the Unix
//! epoch) to the proleptic Gregorian year that contains it. The year is the
//! partition key of the whole archive, so this mapping is verified rather
//! than delegated.

use vstd::prelude::*;

verus! {

/// Seconds in one civil day.
pub const SECS_PER_DAY: i64 = 86400;

/// Exclusive upper bound on the timestamps the library accepts:
/// 10000-01-01T00:00:00Z. Every activity record this archive is meant for
/// falls well inside [0, MAX_TS_SECS), and the bound keeps the year within
/// `i32` and the year computation cheap.
pub const MAX_TS_SECS: i64 = 253402300800;

/// A leap year in the proleptic Gregorian calendar.
pub open spec fn is_leap_year(y: int) -> bool {
    y % 4 == 0 && (y % 100 != 0 || y % 400 == 0)
}

pub open spec fn spec_days_in_year(y: int) -> int {
    if is_leap_year(y) {
        366
    } else {
        365
    }
}

/// The calendar year containing day `d`, where `d` counts whole days from
/// January 1 of year `y` (day 0 is January 1 itself).
pub open spec fn year_of_day_from(y: int, d: int) -> int
    decreases d,
{
    if d < spec_days_in_year(y) {
        y
    } else {
        year_of_day_from(y + 1, d - spec_days_in_year(y))
    }
}

/// The UTC calendar year containing the instant `secs` seconds after
/// 1970-01-01T00:00:00Z. Meaningful for `secs >= 0`.
pub open spec fn year_of_ts(secs: int) -> int {
    year_of_day_from(1970, secs / (SECS_PER_DAY as int))
}

/// The timestamps the library accepts for activity records.
pub open spec fn ts_in_range(secs: int) -> bool {
    0 <= secs < MAX_TS_SECS as int
}

/// Number of days in year `y`.
pub fn days_in_year(y: i32) -> (d: i64)
    requires
        y >= 0,
    ensures
        d == spec_days_in_year(y as int),
{
    if y % 4 == 0 && (y % 100 != 0 || y % 400 == 0) {
        366
    } else {
        365
    }
}

/// The UTC calendar year containing the instant `secs`.
pub fn year_of_unix(secs: i64) -> (y: i32)
    requires
        ts_in_range(secs as int),
    ensures
        y as int == year_of_ts(secs as int),
        1970 <= y <= 10010,
{
    let ghost d0: int = (secs as int) / (SECS_PER_DAY as int);
    let mut d: i64 = secs / SECS_PER_DAY;
    let mut y: i32 = 1970;
    let mut n: i64 = days_in_year(y);
    while d >= n
        invariant
            1970 <= y <= 10010,
            0 <= d,
            d as int + 365 * (y as int - 1970) <= d0,
            0 <= d0 <= 2932896,
            n == spec_days_in_year(y as int),
            year_of_day_from(y as int, d as int) == year_of_day_from(1970, d0),
        decreases d,
    {
        d = d - n;
        y = y + 1;
        n = days_in_year(y);
    }
    y
}

} // verus!
