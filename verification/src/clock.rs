//! The one native builtin's source of time, behind trusted declarations.
//!
//! Nothing can be promised of what a clock returns, so the trusted items
//! below carry no contracts beyond their types; the verified wrapper at the
//! bottom only shapes the reading into a well-formed number of seconds.

use std::time::{Duration, SystemTime, SystemTimeError};

use vstd::prelude::*;

use crate::numbers::LoxNum;

verus! {

#[verifier::external_type_specification]
#[verifier::external_body]
pub struct ExSystemTime(SystemTime);

#[verifier::external_type_specification]
#[verifier::external_body]
pub struct ExSystemTimeError(SystemTimeError);

/// Relies on std::time::SystemTime::now: the current system time.
#[verifier::external_body]
fn time_now() -> SystemTime {
    SystemTime::now()
}

/// Relies on std::time::UNIX_EPOCH: the reference point timestamps count
/// from.
#[verifier::external_body]
fn unix_epoch() -> SystemTime {
    std::time::UNIX_EPOCH
}

/// Relies on std::time::SystemTime::duration_since: the span from `earlier`
/// to `later`, or an error when the clock went backwards.
#[verifier::external_body]
fn duration_between(later: &SystemTime, earlier: SystemTime) -> Result<Duration, SystemTimeError> {
    later.duration_since(earlier)
}

/// Relies on std::time::Duration::as_millis: the span in milliseconds.
#[verifier::external_body]
fn duration_millis(d: &Duration) -> u128 {
    d.as_millis()
}

/// Reads the system clock once and shapes it into seconds, as an exact
/// number with three decimal places. Nothing can be promised of the
/// reading itself, so only what holds of every outcome is stated: the
/// number is well-formed, non-negative, and in thousandths. A clock
/// failure reads as zero.
pub fn clock_seconds() -> (r: LoxNum)
    ensures
        r.wf(),
        r.num >= 0,
        r.den == 1000,
{
    let now = time_now();
    let millis: u64 = match duration_between(&now, unix_epoch()) {
        Ok(d) => {
            let m = duration_millis(&d);
            if m > 0x7fff_ffff_ffff_ffffu128 {
                0x7fff_ffff_ffff_ffffu64
            } else {
                m as u64
            }
        },
        Err(_) => 0,
    };
    LoxNum::new(millis as i64, 1000)
}

} // verus!
