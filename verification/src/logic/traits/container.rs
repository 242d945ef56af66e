//! Container traits: the common surface of depots and managers.

use crate::logic::error::LogicError;
use crate::logic::traits::id::InstanceId;
use crate::logic::traits::item::Lockable;
use vstd::prelude::*;

verus! {

/// A collection that knows its size.
pub trait Container {
    type Item;

    /// Number of items held.
    spec fn spec_len(&self) -> nat;

    fn len(&self) -> (n: usize)
        ensures
            n == self.spec_len(),
    ;

    fn is_empty(&self) -> (b: bool)
        ensures
            b == (self.spec_len() == 0),
    {
        self.len() == 0
    }
}

/// A [`Container`] that is also addressable by a typed key.
pub trait KeyedContainer: Container + Sized {
    type Key: Copy;

    /// The item stored under `key`, if any.
    spec fn spec_lookup(&self, key: Self::Key) -> Option<<Self as Container>::Item>;

    /// `after` is this container with the item stored under `key` replaced by `item`,
    /// everything else unchanged.
    spec fn spec_replaced(&self, key: Self::Key, item: <Self as Container>::Item, after: Self) -> bool;

    fn contains_key(&self, key: Self::Key) -> (b: bool)
        ensures
            b == self.spec_lookup(key) is Some,
    ;

    fn get_ref(&self, key: Self::Key) -> (r: Option<&<Self as Container>::Item>)
        ensures
            match r {
                Some(item) => self.spec_lookup(key) == Some(*item),
                None => self.spec_lookup(key) is None,
            },
    ;

    fn get_mut_ref(&mut self, key: Self::Key) -> (r: Option<&mut <Self as Container>::Item>)
        ensures
            match r {
                Some(item) => old(self).spec_lookup(key) == Some(*item) && old(self).spec_replaced(
                    key,
                    *final(item),
                    *final(self),
                ),
                None => old(self).spec_lookup(key) is None && *final(self) == *old(self),
            },
    ;
}

/// A depot that hands out fresh ids.
pub trait IdAllocator {
    type Id: InstanceId;

    /// The next raw id this depot will hand out.
    spec fn spec_next_id(&self) -> u64;

    fn peek_next_id(&self) -> (id: u64)
        ensures
            id == self.spec_next_id(),
    ;

    /// Raises the id counter to at least `at_least`; never lowers it.
    fn bump_next_id_to(&mut self, at_least: u64)
        ensures
            final(self).spec_next_id() == (if at_least > old(self).spec_next_id() {
                at_least
            } else {
                old(self).spec_next_id()
            }),
    ;
}

/// A container identified on the wire by a fixed depot-type integer.
pub trait DepotKind {
    spec fn spec_depot_type() -> i32;

    fn depot_type(&self) -> (t: i32)
        ensures
            t == Self::spec_depot_type(),
    ;
}

/// Lookups that turn a missing key into [`LogicError::NotFound`] carrying `label`.
pub trait KeyedContainerExt: KeyedContainer {
    fn get_or_not_found(&self, key: Self::Key, label: &'static str) -> (r: Result<
        &<Self as Container>::Item,
        LogicError,
    >)
        ensures
            match r {
                Ok(item) => self.spec_lookup(key) == Some(*item),
                Err(e) => self.spec_lookup(key) is None && (e matches LogicError::NotFound(msg)
                    && msg@ == label@),
            },
    {
        match self.get_ref(key) {
            Some(item) => Ok(item),
            None => Err(LogicError::NotFound(String::from_str(label))),
        }
    }

    fn get_mut_or_not_found(&mut self, key: Self::Key, label: &'static str) -> (r: Result<
        &mut <Self as Container>::Item,
        LogicError,
    >)
        ensures
            match r {
                Ok(item) => old(self).spec_lookup(key) == Some(*item) && old(self).spec_replaced(
                    key,
                    *final(item),
                    *final(self),
                ),
                Err(e) => old(self).spec_lookup(key) is None && *final(self) == *old(self)
                    && (e matches LogicError::NotFound(msg) && msg@ == label@),
            },
    {
        match self.get_mut_ref(key) {
            Some(item) => Ok(item),
            None => Err(LogicError::NotFound(String::from_str(label))),
        }
    }
}

impl<T: KeyedContainer> KeyedContainerExt for T {
}

/// Helpers over containers of [`Lockable`] items.
pub trait LockableContainerExt {
    /// Number of items currently locked.
    spec fn spec_locked_count(&self) -> nat;

    fn locked_count(&self) -> (n: usize)
        ensures
            n == self.spec_locked_count(),
    ;
}

} // verus!
