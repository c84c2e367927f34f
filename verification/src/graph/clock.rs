//! Wall-clock readings used for visit times and snapshot timestamps.

use std::time::{Duration, SystemTime};
use vstd::prelude::*;

verus! {

#[verifier::external_type_specification]
#[verifier::external_body]
pub struct ExSystemTime(SystemTime);

/// `SystemTime` is `Copy`; its `clone` returns the same reading.
pub assume_specification[ <SystemTime as Clone>::clone ](t: &SystemTime) -> (r: SystemTime)
    ensures
        r == *t,
;

/// `SystemTime::now` reads the system clock; nothing is stated of the reading.
pub assume_specification[ SystemTime::now ]() -> SystemTime;

/// Wraps `SystemTime::duration_since(UNIX_EPOCH)`: the time elapsed since
/// the Unix epoch, or `None` when the clock reads earlier than the epoch.
/// Nothing is stated of the value, which depends on the reading.
#[verifier::external_body]
pub(crate) fn since_unix_epoch(t: &SystemTime) -> (d: Option<Duration>) {
    t.duration_since(std::time::UNIX_EPOCH).ok()
}

/// Wraps `Duration::as_secs`: the whole seconds of a duration. Nothing is
/// stated of the value, since durations are opaque here.
#[verifier::external_body]
pub(crate) fn whole_seconds(d: &Duration) -> (secs: u64) {
    d.as_secs()
}

/// The Unix time to record, from the whole seconds elapsed since the epoch
/// (`None` when the clock reads earlier than the epoch): those seconds, or 0.
pub fn unix_seconds_or_zero(elapsed_secs: Option<u64>) -> (secs: u64)
    ensures
        secs == (match elapsed_secs {
            Some(s) => s,
            None => 0u64,
        }),
{
    match elapsed_secs {
        Some(s) => s,
        None => 0,
    }
}

/// The current Unix time in whole seconds, or 0 when the clock reads
/// earlier than the epoch (see `unix_seconds_or_zero`). The value is the
/// clock's reading, so no clause holds of every outcome.
pub fn unix_time_secs() -> u64 {
    let now = SystemTime::now();
    let elapsed = match since_unix_epoch(&now) {
        Some(d) => Some(whole_seconds(&d)),
        None => None,
    };
    unix_seconds_or_zero(elapsed)
}

} // verus!
