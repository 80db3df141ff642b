//! Reset-time computation: the next local midnight in the configured
//! timezone.
//!
//! The service's rotation boundary is midnight in Europe/Berlin, found
//! with calendar-aware arithmetic so that days shortened or stretched by
//! daylight-saving transitions are handled by the timezone database, not
//! by adding a fixed day of seconds.

use vstd::prelude::*;

use chrono::{Datelike, TimeZone};

use crate::date::{spec_next_day, next_day, Date};
use crate::errors::ClockError;

verus! {

/// The first instant this library does not reason about:
/// 2100-01-01T00:00:00 UTC.
pub const MAX_EPOCH: i64 = 4_102_444_800;

/// The civil date, in UTC, of an epoch instant.
pub uninterp spec fn utc_civil_of(t: int) -> Date;

/// The civil date, in Europe/Berlin local time, of an epoch instant.
pub uninterp spec fn berlin_civil_of(t: int) -> Date;

/// The epoch instant of local midnight in Europe/Berlin on a civil
/// date, or nothing where the timezone database makes that wall-clock
/// time skipped or ambiguous. Both which it is and the instant itself
/// are functions of the date alone.
pub uninterp spec fn berlin_midnight_of(d: Date) -> Option<int>;

/// The rotation boundary seen from instant `now`: Berlin local
/// midnight of the civil day after `now`'s Berlin date.
pub open spec fn spec_next_midnight(now: int) -> Option<int> {
    berlin_midnight_of(spec_next_day(berlin_civil_of(now)))
}

/// Whether the boundary seen from `now` exists, lies strictly in the
/// future, and fits a twelve-digit marker — everything a rotation
/// demands of it.
pub open spec fn next_midnight_valid(now: int) -> bool {
    match spec_next_midnight(now) {
        Some(m) => now < m && 0 <= m < 1_000_000_000_000,
        None => false,
    }
}

/// Relies on chrono's `DateTime::from_timestamp` and the `Datelike`
/// accessors: the UTC civil date is a function of the timestamp alone,
/// its month lies in 1..=12 and its day within the month's length, and
/// timestamps below `MAX_EPOCH` fall in years 1970..=2099.
#[verifier::external_body]
pub fn utc_date(t: i64) -> (r: Date)
    requires
        0 <= t < MAX_EPOCH,
    ensures
        r == utc_civil_of(t as int),
        r.wf(),
        1970 <= r.year <= 2099,
{
    let dt = chrono::DateTime::from_timestamp(t, 0).unwrap();
    let nd = dt.date_naive();
    Date { year: nd.year() as u16, month: nd.month() as u8, day: nd.day() as u8 }
}

/// Relies on chrono's timezone conversion with chrono-tz's Europe/Berlin
/// table: the local civil date is a function of the timestamp alone, it
/// is a real calendar date, and — Berlin standing one or two hours ahead
/// of UTC throughout the table — timestamps in `0 .. MAX_EPOCH` fall in
/// local years 1970..=2100.
#[verifier::external_body]
pub fn berlin_date(t: i64) -> (r: Date)
    requires
        0 <= t < MAX_EPOCH,
    ensures
        r == berlin_civil_of(t as int),
        r.wf(),
        1970 <= r.year <= 2100,
{
    let dt = chrono::DateTime::from_timestamp(t, 0).unwrap();
    let local = dt.with_timezone(&chrono_tz::Europe::Berlin);
    let nd = local.date_naive();
    Date { year: nd.year() as u16, month: nd.month() as u8, day: nd.day() as u8 }
}

/// Relies on chrono-tz's `with_ymd_and_hms` on Europe/Berlin and
/// `.single()`: the static table decides, from the date alone, both
/// whether local midnight exists unambiguously and at which instant.
#[verifier::external_body]
pub fn berlin_midnight(d: &Date) -> (r: Option<i64>)
    requires
        d.wf(),
    ensures
        (match r {
            Some(m) => Some(m as int),
            None => None::<int>,
        }) == berlin_midnight_of(*d),
{
    chrono_tz::Europe::Berlin
        .with_ymd_and_hms(d.year as i32, d.month as u32, d.day as u32, 0, 0, 0)
        .single()
        .map(|dt| dt.timestamp())
}

/// Relies on std's `SystemTime::now` and `duration_since`: the current
/// instant as whole seconds past the epoch, of which nothing further
/// is assumed. A system clock set before 1970 yields `-1`, a sentinel
/// outside every caller's accepted range.
#[verifier::external_body]
pub fn now_epoch() -> i64 {
    match std::time::SystemTime::now().duration_since(std::time::UNIX_EPOCH) {
        Ok(elapsed) => elapsed.as_secs() as i64,
        Err(_) => -1,
    }
}

/// The epoch instant at which the quote of the day next rotates, seen
/// from the instant `now`: local midnight in Europe/Berlin of the civil
/// day after `now`'s.
///
/// Succeeds exactly when that boundary is valid: it exists, lies
/// strictly in the future, and fits a twelve-digit marker. A boundary
/// the timezone database cannot place (or one failing those checks) is
/// surfaced as an error, never defaulted.
pub fn next_midnight_epoch(now: i64) -> (r: Result<i64, ClockError>)
    requires
        0 <= now < MAX_EPOCH,
    ensures
        r is Ok <==> next_midnight_valid(now as int),
        r matches Ok(m) ==> Some(m as int) == spec_next_midnight(now as int) && now < m && 0 <= m
            < 1_000_000_000_000,
{
    let today = berlin_date(now);
    let tomorrow = next_day(&today);
    match berlin_midnight(&tomorrow) {
        Some(m) => {
            if now < m && 0 <= m && m < 1_000_000_000_000 {
                Ok(m)
            } else {
                Err(ClockError::Unrepresentable)
            }
        },
        None => Err(ClockError::Unrepresentable),
    }
}

} // verus!
