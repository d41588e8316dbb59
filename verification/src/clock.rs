//! The wall clock, read once for every block that is created.

use std::time::UNIX_EPOCH;
use vstd::prelude::*;

verus! {

/// Calls `std::time::SystemTime::elapsed` on `UNIX_EPOCH` and returns the
/// whole seconds of the duration.
///
/// Trusted, and nothing is claimed of the value: it is whatever the clock
/// says. A clock set before the epoch cannot stamp a block; the call then
/// panics, which ends the operation.
#[verifier::external_body]
pub(crate) fn unix_seconds() -> (seconds: u64) {
    UNIX_EPOCH.elapsed().expect("system clock is set before the Unix epoch").as_secs()
}

} // verus!
