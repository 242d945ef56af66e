//! Lifetime / expiry traits.

use crate::logic::mail::{spec_is_expired_at, StoredMail};
use vstd::prelude::*;

verus! {

/// Anything that has a hard expiry timestamp.
pub trait Expirable {
    /// Whether the deadline has elapsed at `now` (Unix seconds).
    spec fn spec_expired_at(&self, now: int) -> bool;

    /// Whether the deadline has elapsed, judged against the system clock: the
    /// answer agrees with [`Self::spec_expired_at`] at some clock reading.
    fn is_expired(&self) -> (b: bool)
        ensures
            exists|now: int| 0 <= now <= u64::MAX / 1000 && b == self.spec_expired_at(now),
    ;
}

impl Expirable for StoredMail {
    open spec fn spec_expired_at(&self, now: int) -> bool {
        spec_is_expired_at(*self, now)
    }

    fn is_expired(&self) -> (b: bool) {
        let b = StoredMail::is_expired(self);
        proof {
            let now = choose|now: int|
                0 <= now <= u64::MAX / 1000 && b == spec_is_expired_at(*self, now);
            assert(b == self.spec_expired_at(now));
        }
        b
    }
}

} // verus!
