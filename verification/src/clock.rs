//! The time of the machine.

use vstd::prelude::*;

verus! {

/// Calls `SystemTime::elapsed` on the epoch. Nothing is claimed of the result: it is the time of
/// the machine, and stands still at the epoch where the machine's clock is before it.
#[verifier::external_body]
fn seconds_since_epoch() -> (n: u64) {
    std::time::UNIX_EPOCH.elapsed().unwrap_or_default().as_secs()
}

/// The seconds since the epoch. They depend on the machine, so nothing is stated of them.
pub fn now_unix() -> (n: u64) {
    seconds_since_epoch()
}

} // verus!
