//! The time of day.

use vstd::prelude::*;

verus! {

/// Reads the system clock with `std::time::SystemTime::now` and gives the
/// whole seconds since the Unix epoch, and nothing where the clock is set
/// before it. Nothing is claimed of the value: two calls may differ.
#[verifier::external_body]
pub(crate) fn unix_seconds_now() -> Option<u64> {
    match std::time::SystemTime::now().duration_since(std::time::UNIX_EPOCH) {
        Ok(elapsed) => Some(elapsed.as_secs()),
        Err(_) => None,
    }
}

} // verus!
