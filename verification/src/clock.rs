//! The timestamp that a message carries.

use std::time::{Duration, SystemTime, UNIX_EPOCH};
use vstd::prelude::*;

verus! {

/// `std::time::SystemTime`, a reading of the system clock.
#[verifier::external_type_specification]
#[verifier::external_body]
pub struct ExSystemTime(std::time::SystemTime);

/// `std::time::SystemTime::now`: the system clock's reading. Nothing is
/// claimed of it.
#[verifier::external_body]
fn system_now() -> SystemTime {
    SystemTime::now()
}

/// `std::time::SystemTime::duration_since` with `UNIX_EPOCH`: the time from
/// the epoch to `t`, `None` where `t` lies before the epoch. Nothing is
/// claimed of it.
#[verifier::external_body]
fn since_epoch(t: &SystemTime) -> Option<Duration> {
    t.duration_since(UNIX_EPOCH).ok()
}

/// `std::time::Duration::as_millis`: the whole milliseconds in `d`. Nothing
/// is claimed of it.
#[verifier::external_body]
fn whole_millis(d: &Duration) -> u128 {
    d.as_millis()
}

/// A count of milliseconds cut to its low 32 bits, the width of the
/// header's timestamp.
pub fn truncate_millis(millis: u128) -> (t: u32)
    ensures
        t == millis % 0x1_0000_0000,
{
    (millis % 0x1_0000_0000u128) as u32
}

/// The timestamp for a message sent now: the milliseconds since the epoch,
/// cut to 32 bits. `None` where the system clock reads a time before the
/// epoch.
pub fn now_ms() -> (t: Option<u32>) {
    let now: SystemTime = system_now();
    match since_epoch(&now) {
        Some(d) => Some(truncate_millis(whole_millis(&d))),
        None => None,
    }
}

} // verus!
