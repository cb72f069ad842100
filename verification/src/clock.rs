//! The wall clock, read in whole milliseconds.

use vstd::prelude::*;

verus! {

/// `std::time::SystemTime`, a point in time as the system clock tells it.
/// Nothing is known of a value of this type.
#[verifier::external_type_specification]
#[verifier::external_body]
pub struct ExSystemTime(std::time::SystemTime);

/// Calls `SystemTime::now`. Trusted: nothing; every call may tell another time.
#[verifier::external_body]
fn system_now() -> std::time::SystemTime {
    std::time::SystemTime::now()
}

/// Calls `SystemTime::duration_since` with the Unix epoch. Trusted: nothing;
/// a clock set before the epoch gives `None`.
#[verifier::external_body]
fn since_unix_epoch(time: &std::time::SystemTime) -> Option<std::time::Duration> {
    time.duration_since(std::time::UNIX_EPOCH).ok()
}

/// Calls `Duration::as_millis`. Trusted: nothing.
#[verifier::external_body]
fn whole_millis(duration: &std::time::Duration) -> u128 {
    duration.as_millis()
}

/// The time now, in milliseconds since the Unix epoch: zero for a clock set
/// before the epoch, and the largest `u64` for a time beyond its range. Two
/// calls may tell different times, so nothing is promised of the result.
pub fn now_millis() -> u64 {
    let now = system_now();
    let elapsed = match since_unix_epoch(&now) {
        Some(elapsed) => Some(whole_millis(&elapsed)),
        None => None,
    };
    millis_within_u64(elapsed)
}

/// The milliseconds that a time stands for: zero for a time before the
/// epoch, given as `None`, and the largest `u64` for one beyond its range.
pub fn millis_within_u64(elapsed: Option<u128>) -> (millis: u64)
    ensures
        millis == match elapsed {
            Some(m) => if m > u64::MAX {
                u64::MAX
            } else {
                m as u64
            },
            None => 0,
        },
{
    match elapsed {
        Some(m) => {
            if m > 0xffff_ffff_ffff_ffff {
                0xffff_ffff_ffff_ffff
            } else {
                m as u64
            }
        },
        None => 0,
    }
}

} // verus!
