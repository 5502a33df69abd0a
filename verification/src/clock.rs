//! Timestamps and clock arithmetic.
//!
//! All instants are seconds since the epoch (non-negative). A scheduled hour
//! is always hour-aligned: a multiple of 3600. Calendar dates are day numbers
//! (days since the epoch); hour `h` of day `d` starts at `d * 86400 + h * 3600`.

use vstd::prelude::*;

verus! {

pub const SECS_PER_HOUR: i64 = 3600;
pub const SECS_PER_DAY: i64 = 86400;
pub const HOURS_PER_DAY: i64 = 24;

/// The start of the hour that contains `ts`.
pub open spec fn spec_hour_start(ts: int) -> int {
    ts - (ts % 3600)
}

/// The day number that contains `ts`.
pub open spec fn spec_day_of(ts: int) -> int {
    ts / 86400
}

/// The hour of day (0..=23) that contains `ts`.
pub open spec fn spec_hour_of_day(ts: int) -> int {
    (ts % 86400) / 3600
}

/// The instant at which hour `hour` of day `day` starts.
pub open spec fn spec_day_hour_ts(day: int, hour: int) -> int {
    day * 86400 + hour * 3600
}

/// A timestamp the library accepts: non-negative and small enough that
/// day/hour arithmetic cannot overflow an `i64`.
pub open spec fn valid_ts(ts: int) -> bool {
    0 <= ts < 0x100_0000_0000 * 86400
}

/// A valid day number, bounded like `valid_ts`.
pub open spec fn valid_day(day: int) -> bool {
    0 <= day < 0x100_0000_0000
}

pub fn hour_start(ts: i64) -> (r: i64)
    requires
        valid_ts(ts as int),
    ensures
        r == spec_hour_start(ts as int),
        valid_ts(r as int),
        r % 3600 == 0,
{
    ts - (ts % 3600)
}

pub fn day_of(ts: i64) -> (r: i64)
    requires
        valid_ts(ts as int),
    ensures
        r == spec_day_of(ts as int),
        valid_day(r as int),
{
    ts / 86400
}

pub fn hour_of_day(ts: i64) -> (r: i64)
    requires
        valid_ts(ts as int),
    ensures
        r == spec_hour_of_day(ts as int),
        0 <= r < 24,
{
    (ts % 86400) / 3600
}

pub fn day_hour_ts(day: i64, hour: i64) -> (r: i64)
    requires
        valid_day(day as int),
        0 <= hour < 24,
    ensures
        r == spec_day_hour_ts(day as int, hour as int),
        valid_ts(r as int),
{
    day * 86400 + hour * 3600
}

} // verus!
