//! Wire-format conversion traits.

use vstd::prelude::*;

verus! {

/// Builds the wire-format value `P` from a borrowed `Self`.
///
/// Every `From<&T> for P` is a `ToProto<P>` through the blanket impl below.
pub trait ToProto<P> {
    fn to_proto(&self) -> P;
}

impl<T, P> ToProto<P> for T where for <'a>&'a T: Into<P> {
    fn to_proto(&self) -> P {
        self.into()
    }
}

/// Context-aware variant, for conversions that need static tables.
pub trait ToProtoWith<P, Ctx: ?Sized> {
    fn to_proto_with(&self, ctx: &Ctx) -> P;
}

} // verus!
