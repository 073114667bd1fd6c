//! Readings of the system clock. What the clock returns depends on the
//! machine and the moment, so nothing is promised of the values; every
//! function that acts on a reading takes it as an argument and is
//! specified for all values.

use vstd::prelude::*;

verus! {

/// Relies on std::time::SystemTime::now: whole seconds since the Unix
/// epoch, or zero if the clock reads before it.
#[verifier::external_body]
pub fn unix_now_secs() -> (r: u64) {
    match std::time::SystemTime::now().duration_since(std::time::UNIX_EPOCH) {
        Ok(d) => d.as_secs(),
        Err(_) => 0,
    }
}

/// Relies on std::time::SystemTime::now: milliseconds since the Unix
/// epoch, truncated to 64 bits, or zero if the clock reads before it.
#[verifier::external_body]
pub fn now_millis() -> (r: u64) {
    match std::time::SystemTime::now().duration_since(std::time::UNIX_EPOCH) {
        Ok(d) => d.as_millis() as u64,
        Err(_) => 0,
    }
}

/// Relies on std::time::SystemTime::now: nanoseconds since the Unix
/// epoch, truncated to 64 bits, or zero if the clock reads before it.
#[verifier::external_body]
pub fn now_nanos() -> (r: u64) {
    match std::time::SystemTime::now().duration_since(std::time::UNIX_EPOCH) {
        Ok(d) => d.as_nanos() as u64,
        Err(_) => 0,
    }
}

} // verus!
