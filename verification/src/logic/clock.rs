//! Wall-clock access.

use vstd::prelude::*;

verus! {

/// Milliseconds since the Unix epoch, from `SystemTime::elapsed` on
/// `std::time::UNIX_EPOCH`.
///
/// The value depends on the machine clock, so nothing is promised about it;
/// callers treat it as an arbitrary `u64` (0 when the clock reads before the epoch).
#[verifier::external_body]
pub(crate) fn now_ms() -> u64 {
    match std::time::UNIX_EPOCH.elapsed() {
        Ok(d) => d.as_millis() as u64,
        Err(_) => 0,
    }
}

/// Seconds since the Unix epoch, derived from [`now_ms`].
pub(crate) fn now_secs() -> (secs: i64)
    ensures
        0 <= secs <= u64::MAX / 1000,
{
    (now_ms() / 1000) as i64
}

} // verus!
