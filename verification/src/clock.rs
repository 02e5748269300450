//! Wall-clock access for the optimizer's time budget.

use vstd::prelude::*;

verus! {

/// Relies on std::time::SystemTime::now: the result is a count of
/// milliseconds since the Unix epoch. Nothing is promised of the value;
/// every caller must behave correctly whatever comes back.
#[verifier::external_body]
pub fn now_millis() -> u64 {
    match std::time::SystemTime::now().duration_since(std::time::UNIX_EPOCH) {
        Ok(d) => d.as_millis() as u64,
        Err(_) => 0,
    }
}

} // verus!
