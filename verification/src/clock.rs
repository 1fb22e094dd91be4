//! Wall-clock and local-calendar readings. The values depend on the
//! machine's clock and time zone, so nothing is promised of them beyond
//! the range the tracker works in.

use vstd::prelude::*;
use crate::session::MAX_TIMESTAMP;
use chrono::Datelike;

verus! {

/// Relies on chrono::Utc::now: the current wall-clock time as UTC epoch
/// seconds. A clock reading promises nothing.
#[verifier::external_body]
fn now_ts_raw() -> i64 {
    chrono::Utc::now().timestamp()
}

/// Relies on chrono::DateTime::from_timestamp, DateTime::with_timezone and
/// chrono::Datelike::num_days_from_ce: the day number (days from the common
/// era) of the local calendar date at the given UTC timestamp, or `None`
/// where chrono refuses the timestamp as out of range. The value depends on
/// the machine's time zone, so nothing is stated of it.
#[verifier::external_body]
fn local_day_raw(ts: i64) -> Option<i64> {
    match chrono::DateTime::<chrono::Utc>::from_timestamp(ts, 0) {
        Some(dt) => Some(dt.with_timezone(&chrono::Local).date_naive().num_days_from_ce() as i64),
        None => None,
    }
}

/// The current time as epoch seconds, clamped into the range the tracker
/// models.
pub fn now_timestamp() -> (r: i64)
    ensures
        0 <= r <= MAX_TIMESTAMP,
{
    let t = now_ts_raw();
    if t < 0 {
        0
    } else if t > MAX_TIMESTAMP {
        MAX_TIMESTAMP
    } else {
        t
    }
}

/// Day number of the local calendar date at `ts`; an out-of-range
/// timestamp maps to day zero.
pub fn local_day_of(ts: i64) -> i64 {
    match local_day_raw(ts) {
        Some(d) => d,
        None => 0,
    }
}

} // verus!
