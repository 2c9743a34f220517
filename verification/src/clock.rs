//! Wall-clock reading for demo payloads.

use vstd::prelude::*;

verus! {

/// Relies on std::time::SystemTime: milliseconds elapsed since the Unix
/// epoch, 0 when the clock reads earlier than the epoch. The result depends
/// on the wall clock at the moment of the call, so nothing is promised of
/// it.
#[verifier::external_body]
pub fn now_ms() -> u128 {
    std::time::SystemTime::now()
        .duration_since(std::time::UNIX_EPOCH)
        .unwrap_or_default()
        .as_millis()
}

} // verus!
