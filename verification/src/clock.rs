//! Reading the system clock.

use vstd::prelude::*;
use std::time::{Duration, SystemTime, UNIX_EPOCH};
use crate::error::LotlError;

verus! {

#[verifier::external_type_specification]
#[verifier::external_body]
pub struct ExSystemTime(SystemTime);

/// `SystemTime::now` (std): the current reading of the system clock. It depends on the
/// clock, so nothing is claimed of it.
#[verifier::external_body]
fn system_time_now() -> SystemTime {
    SystemTime::now()
}

/// `SystemTime::duration_since(UNIX_EPOCH)` (std): the time elapsed since the epoch, or
/// `None` (its error) when the reading is earlier than the epoch. Which of the two comes
/// depends on the reading, so nothing is claimed of it.
#[verifier::external_body]
fn since_epoch(t: &SystemTime) -> Option<Duration> {
    t.duration_since(UNIX_EPOCH).ok()
}

/// `Duration::as_secs` (std): the whole seconds of a duration. The duration comes from the
/// clock and is opaque here, so nothing is claimed of the result.
#[verifier::external_body]
fn whole_seconds(d: &Duration) -> u64 {
    d.as_secs()
}

/// The message of the error returned when the clock reads earlier than the epoch.
pub open spec fn clock_error_text() -> Seq<char> {
    "System time error: second time provided was later than self"@
}

/// The current time in seconds since the Unix epoch, or an error when the system
/// clock reads earlier than the epoch.
pub fn unix_now() -> (r: Result<i64, LotlError>)
    ensures
        r matches Err(e) ==> e matches LotlError::Crypto(m) && m@ == clock_error_text(),
{
    let t = system_time_now();
    match since_epoch(&t) {
        Some(d) => Ok(whole_seconds(&d) as i64),
        None => Err(
            LotlError::Crypto("System time error: second time provided was later than self".to_owned()),
        ),
    }
}

} // verus!
