//! Trusted access to wall-clock and monotonic time, used only to stamp
//! reports with a generation timestamp and a measured computation duration.
//! Every result here depends on the clock, so no contract pins a value down.

use vstd::prelude::*;

verus! {

#[verifier::external_type_specification]
#[verifier::external_body]
pub struct ExInstant(std::time::Instant);

/// Relies on std::time::Instant::now: an opaque monotonic clock reading.
pub assume_specification[ std::time::Instant::now ]() -> (t: std::time::Instant);

/// Relies on std::time::Instant::elapsed: the time since the reading.
pub assume_specification[ std::time::Instant::elapsed ](t: &std::time::Instant) -> (d:
    core::time::Duration);

/// Relies on core::time::Duration::as_millis: the duration in milliseconds.
pub assume_specification[ core::time::Duration::as_millis ](d: &core::time::Duration) -> (ms:
    u128);

/// Relies on chrono::Local::now for the generation timestamp of a report;
/// the result depends on the clock and the local time zone.
#[verifier::external_body]
pub fn timestamp_now() -> String {
    format!("{:?}", chrono::Local::now())
}

} // verus!
