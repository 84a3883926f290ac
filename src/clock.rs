//! Reading the system clock.
use vstd::prelude::*;

verus! {

/// Relies on `std::time::SystemTime::elapsed` of `UNIX_EPOCH`: the whole
/// seconds from the Unix epoch to the system clock's current reading, or
/// `None` when the clock reads earlier than the epoch. The reading depends on
/// the moment of the call, so nothing is assumed of it.
#[verifier::external_body]
pub(crate) fn unix_seconds() -> (r: Option<u64>) {
    std::time::UNIX_EPOCH.elapsed().ok().map(|d| d.as_secs())
}

/// The current time in seconds since the Unix epoch; a clock set before the
/// epoch reads as the epoch itself.
pub fn now_secs() -> (r: u64) {
    match unix_seconds() {
        Some(s) => s,
        None => 0,
    }
}

} // verus!
