//! The wall clock. Every time-dependent operation has a variant that takes
//! the time as an argument; the variants without it read the clock here.

use vstd::prelude::*;

verus! {

/// Relies on std::time::SystemTime::now and UNIX_EPOCH: milliseconds since
/// the Unix epoch (0 if the clock is before it); nothing is known of the value.
#[verifier::external_body]
pub fn unix_millis() -> (r: i64) {
    match std::time::SystemTime::now().duration_since(std::time::UNIX_EPOCH) {
        Ok(d) => d.as_millis() as i64,
        Err(_) => 0,
    }
}

/// Whole seconds since the Unix epoch, from the clock (0 before it).
pub fn unix_seconds() -> (r: u64) {
    let ms = unix_millis();
    if ms < 0 {
        0
    } else {
        (ms / 1000) as u64
    }
}

} // verus!
