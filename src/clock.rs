//! The wall clock, in whole seconds since the Unix epoch.
use vstd::prelude::*;

verus! {

#[verifier::external_type_specification]
#[verifier::external_body]
pub struct ExSystemTime(std::time::SystemTime);

/// Relies on `SystemTime::now`: the current time; nothing is promised of it.
pub assume_specification[ std::time::SystemTime::now ]() -> std::time::SystemTime;

/// Relies on `SystemTime::duration_since(UNIX_EPOCH)`: the whole seconds
/// since the epoch, none for a time before it.
#[verifier::external_body]
fn seconds_since_epoch(t: &std::time::SystemTime) -> (r: Option<u64>) {
    t.duration_since(std::time::UNIX_EPOCH).ok().map(|d| d.as_secs())
}

/// Seconds since the Unix epoch; 0 when the clock stands before it.
pub fn now() -> u64 {
    match seconds_since_epoch(&std::time::SystemTime::now()) {
        Some(s) => s,
        None => 0,
    }
}

} // verus!
