//! Wall-clock time in whole seconds.
use std::time::{Duration, SystemTime};
use vstd::prelude::*;

verus! {

#[verifier::external_type_specification]
#[verifier::external_body]
pub struct ExSystemTime(SystemTime);

/// Relies on std's SystemTime::now: the current wall-clock time.
#[verifier::external_body]
fn system_now() -> SystemTime {
    SystemTime::now()
}

/// Relies on std's SystemTime::duration_since: the time elapsed since the
/// Unix epoch, or nothing for a time before it.
#[verifier::external_body]
fn since_unix_epoch(t: &SystemTime) -> Option<Duration> {
    t.duration_since(std::time::UNIX_EPOCH).ok()
}

/// Relies on std's Duration::as_secs: the whole seconds of a duration.
#[verifier::external_body]
fn whole_seconds(d: &Duration) -> u64 {
    d.as_secs()
}

/// A Unix timestamp from the whole seconds since the epoch: 0 for a clock
/// set before the epoch, held at `i64::MAX` past that.
pub fn unix_seconds(secs: Option<u64>) -> (r: i64)
    ensures
        r == match secs {
            None => 0,
            Some(s) => if s > i64::MAX {
                i64::MAX as int
            } else {
                s as int
            },
        },
{
    match secs {
        None => 0,
        Some(s) => if s > i64::MAX as u64 {
            i64::MAX
        } else {
            s as i64
        },
    }
}

/// The current Unix time in seconds, as `unix_seconds` makes it of the clock.
pub fn now_ts() -> (r: i64)
    ensures
        r >= 0,
{
    let secs = match since_unix_epoch(&system_now()) {
        Some(d) => Some(whole_seconds(&d)),
        None => None,
    };
    unix_seconds(secs)
}

} // verus!
