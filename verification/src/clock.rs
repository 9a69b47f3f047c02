//! The wall clock, in milliseconds since the Unix epoch.
use vstd::prelude::*;

verus! {

/// Calls `std::time::SystemTime::now()`, `duration_since(UNIX_EPOCH)` and `as_millis()`:
/// the milliseconds since the Unix epoch, or `None` when the clock stands before it.
/// Nothing is claimed of the value: it is the time.
#[verifier::external_body]
pub fn unix_millis() -> (r: Option<u128>) {
    match std::time::SystemTime::now().duration_since(std::time::UNIX_EPOCH) {
        Ok(elapsed) => Some(elapsed.as_millis()),
        Err(_) => None,
    }
}

} // verus!
