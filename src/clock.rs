use vstd::prelude::*;

use std::time::{SystemTime, UNIX_EPOCH};

verus! {

/// Relies on `SystemTime::now` and `SystemTime::duration_since`: the wall-clock time since
/// the Unix epoch in microseconds, or nothing when the clock stands before the epoch.
#[verifier::external_body]
fn system_time_since_epoch() -> (r: Option<u64>) {
    SystemTime::now().duration_since(UNIX_EPOCH).ok().map(|d| d.as_micros() as u64)
}

/// The wall-clock time since the Unix epoch, in microseconds; nothing when the system clock
/// stands before the epoch.
pub fn duration_since_unix_epoch() -> (r: Option<u64>) {
    system_time_since_epoch()
}

} // verus!
