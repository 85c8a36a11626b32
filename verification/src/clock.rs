//! Wall-clock time, in nanoseconds since the Unix epoch.
use vstd::prelude::*;

verus! {

/// Nanoseconds in a second.
pub const NANOS_PER_SEC: u64 = 1_000_000_000;

/// `std::time::SystemTime::elapsed` on the Unix epoch: the current time in
/// nanoseconds since the epoch (0 where the clock reads earlier than the
/// epoch). Nothing is claimed of the value: it depends on the machine's clock,
/// and a step of that clock moves when cached entries expire.
#[verifier::external_body]
pub fn now_nanos() -> u64 {
    match std::time::UNIX_EPOCH.elapsed() {
        Ok(d) => d.as_nanos() as u64,
        Err(_) => 0,
    }
}

} // verus!
