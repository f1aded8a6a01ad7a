//! Wall-clock time in milliseconds since the Unix epoch.
use vstd::prelude::*;
use std::time::{Duration, SystemTime, UNIX_EPOCH};

verus! {

#[verifier::external_type_specification]
#[verifier::external_body]
pub struct ExSystemTime(SystemTime);

/// Relies on SystemTime::now: the current reading of the system clock.
#[verifier::external_body]
fn system_now() -> (t: SystemTime) {
    SystemTime::now()
}

/// Relies on SystemTime::duration_since: the time since the Unix epoch, `None` when the
/// clock reads earlier than the epoch.
#[verifier::external_body]
fn since_epoch(t: &SystemTime) -> (d: Option<Duration>) {
    t.duration_since(UNIX_EPOCH).ok()
}

/// Relies on Duration::as_millis: the whole milliseconds of a duration.
#[verifier::external_body]
fn whole_millis(d: &Duration) -> (ms: u128) {
    d.as_millis()
}

/// Milliseconds since the Unix epoch; 0 when the clock reads earlier than the epoch, and
/// the largest `u64` past it.
pub fn current_time_ms() -> (ms: u64) {
    match since_epoch(&system_now()) {
        Some(d) => {
            let m = whole_millis(&d);
            if m > u64::MAX as u128 {
                u64::MAX
            } else {
                m as u64
            }
        },
        None => 0,
    }
}

} // verus!
