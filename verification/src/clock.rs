//! The wall clock.

use vstd::prelude::*;

verus! {

/// The time now, in whole milliseconds since the Unix epoch.
///
/// Reads the system clock with `std::time::SystemTime::now` and measures it
/// against `std::time::UNIX_EPOCH`. The result is `None` when the clock is
/// set to a time before the epoch. Nothing is claimed of the number: two
/// calls may give any two values.
#[verifier::external_body]
pub fn current_timestamp() -> (now: Option<u128>) {
    match std::time::SystemTime::now().duration_since(std::time::UNIX_EPOCH) {
        Ok(elapsed) => Some(elapsed.as_millis()),
        Err(_) => None,
    }
}

} // verus!
