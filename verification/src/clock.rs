//! The system clock, read as milliseconds since the Unix epoch.

use vstd::prelude::*;
use std::time::{Duration, SystemTime, SystemTimeError};

verus! {

/// `std::time::SystemTime`: a reading of the system clock. Nothing is known
/// of what a value holds.
#[verifier::external_type_specification]
#[verifier::external_body]
pub struct ExSystemTime(SystemTime);

/// `std::time::SystemTimeError`: what `SystemTime::duration_since` returns
/// where the second time is later than the first.
#[verifier::external_type_specification]
#[verifier::external_body]
pub struct ExSystemTimeError(SystemTimeError);

/// `SystemTime::now` reads the system clock. Nothing is claimed of the
/// reading.
pub assume_specification[ SystemTime::now ]() -> (now: SystemTime);

/// `SystemTime::duration_since` gives the time that passed from `earlier`
/// to `time`, or an error where `earlier` is the later one. Nothing is
/// claimed of which it is.
pub assume_specification[ SystemTime::duration_since ](
    time: &SystemTime,
    earlier: SystemTime,
) -> (elapsed: Result<Duration, SystemTimeError>);

/// `Duration::as_millis` gives the whole milliseconds of a duration. Nothing
/// is claimed of their number.
pub assume_specification[ Duration::as_millis ](duration: &Duration) -> (millis: u128);

/// The start of the Unix epoch, `SystemTime::UNIX_EPOCH`.
#[verifier::external_body]
fn unix_epoch() -> (epoch: SystemTime) {
    SystemTime::UNIX_EPOCH
}

/// The system clock in milliseconds since the Unix epoch, cut to 64 bits; 0
/// where the clock stands before the epoch.
pub(crate) fn now_millis() -> (millis: u64) {
    let elapsed = match SystemTime::now().duration_since(unix_epoch()) {
        Ok(elapsed) => Some(elapsed.as_millis()),
        Err(_) => None,
    };
    stamp_of(elapsed)
}

/// The time stamp that stands for a reading of the clock: the milliseconds
/// since the Unix epoch cut to their lowest 64 bits, or 0 for a reading
/// before the epoch.
pub open spec fn time_stamp(elapsed: Option<u128>) -> u64 {
    match elapsed {
        Some(millis) => (millis % 0x1_0000_0000_0000_0000) as u64,
        None => 0,
    }
}

/// The time stamp that stands for a reading of the clock, given as the
/// milliseconds since the Unix epoch, or as `None` for a reading before it.
pub fn stamp_of(elapsed: Option<u128>) -> (millis: u64)
    ensures
        millis == time_stamp(elapsed),
{
    match elapsed {
        Some(millis) => (millis % 0x1_0000_0000_0000_0000u128) as u64,
        None => 0,
    }
}

} // verus!
