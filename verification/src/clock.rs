//! The wall clock, for default creation timestamps and key-value
//! modification times.

use vstd::prelude::*;

verus! {

/// The wall clock, in nanoseconds since the epoch.
///
/// Relies on chrono's `Utc::now`; an instant outside chrono's nanosecond
/// range reads as zero.  Nothing is promised of the value: callers state
/// what holds whatever time comes back.
#[verifier::external_body]
pub fn now_timestamp_ns() -> (r: i64) {
    match chrono::Utc::now().timestamp_nanos_opt() {
        Some(n) => n,
        None => 0,
    }
}

} // verus!
