//! The wall clock.
use vstd::prelude::*;

use std::time::{Duration, SystemTime, SystemTimeError};

verus! {

#[verifier::external_type_specification]
#[verifier::external_body]
pub struct ExSystemTime(SystemTime);

#[verifier::external_type_specification]
#[verifier::external_body]
pub struct ExSystemTimeError(SystemTimeError);

/// Relies on `SystemTime::now`: the current time; nothing is known of it.
pub assume_specification[ SystemTime::now ]() -> SystemTime;

/// Relies on `SystemTime::duration_since`: the time elapsed since `earlier`,
/// or an error when `earlier` is later.
pub assume_specification[ SystemTime::duration_since ](
    this: &SystemTime,
    earlier: SystemTime,
) -> Result<Duration, SystemTimeError>;

/// Relies on `Duration::as_secs`: the whole seconds of a duration.
pub assume_specification[ Duration::as_secs ](this: &Duration) -> u64;

/// Relies on `std::time::UNIX_EPOCH`: the start of 1970, UTC.
#[verifier::external_body]
fn unix_epoch() -> SystemTime {
    std::time::UNIX_EPOCH
}

/// Seconds since the Unix epoch by the wall clock, or `None` when the clock
/// is set before it.
pub fn get_timestamp() -> Option<u64> {
    match SystemTime::now().duration_since(unix_epoch()) {
        Ok(d) => Some(d.as_secs()),
        Err(_) => None,
    }
}

} // verus!
