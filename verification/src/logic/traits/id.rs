//! Instance-id newtype traits.

use vstd::prelude::*;

verus! {

/// A thin wrapper around `u64` returning its raw value.
pub trait AsU64 {
    spec fn spec_as_u64(&self) -> u64;

    fn as_u64(&self) -> (raw: u64)
        ensures
            raw == self.spec_as_u64(),
    ;
}

/// Marker + factory for newtype instance ids.
pub trait InstanceId: AsU64 + Copy + Eq + core::hash::Hash {
    fn new(raw: u64) -> (id: Self)
        ensures
            id.spec_as_u64() == raw,
    ;

    fn is_zero(&self) -> (b: bool)
        ensures
            b == (self.spec_as_u64() == 0),
    {
        self.as_u64() == 0
    }
}

} // verus!
