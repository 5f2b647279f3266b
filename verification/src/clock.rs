//! The arrival-time source: the one place where the relay reads the system
//! clock. Everything computed from a timestamp takes it as a plain value,
//! so the rest of the library is verified for every reading the clock could
//! give.

use vstd::prelude::*;
use std::time::SystemTime;
use std::time::UNIX_EPOCH;

verus! {

/// Relies on std::time::SystemTime::now and SystemTime::duration_since:
/// the duration from the Unix epoch to the current instant, taken as whole
/// milliseconds (0 should the clock read earlier than the epoch). Nothing
/// can be promised of what the clock returns.
#[verifier::external_body]
fn now_millis() -> u128 {
    match SystemTime::now().duration_since(UNIX_EPOCH) {
        Ok(d) => d.as_millis(),
        Err(_) => 0,
    }
}

/// Duration since the Unix epoch in milliseconds, read from the system
/// clock. The reading depends on the wall clock, so no contract constrains
/// it; every consumer of a timestamp in this library is verified for every
/// possible value.
pub fn epoch_now() -> u128 {
    now_millis()
}

} // verus!
