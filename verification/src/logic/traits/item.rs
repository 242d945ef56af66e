//! Item-instance facet traits.

use crate::logic::traits::id::InstanceId;
use vstd::prelude::*;

verus! {

/// An object that exposes a typed instance id.
pub trait Identifiable {
    type Id;

    spec fn spec_id(&self) -> Self::Id;

    fn id(&self) -> (id: Self::Id)
        ensures
            id == self.spec_id(),
    ;
}

/// An object born from a static template.
pub trait Templated {
    spec fn spec_template_id(&self) -> Seq<char>;

    fn template_id(&self) -> (t: &str)
        ensures
            t@ == self.spec_template_id(),
    ;
}

/// Flag the player sets so an item cannot be deleted or used as fodder.
pub trait Lockable {
    spec fn spec_is_locked(&self) -> bool;

    fn is_locked(&self) -> (b: bool)
        ensures
            b == self.spec_is_locked(),
    ;

    fn set_locked(&mut self, locked: bool)
        ensures
            final(self).spec_is_locked() == locked,
    ;

    fn lock(&mut self)
        ensures
            final(self).spec_is_locked(),
    {
        self.set_locked(true);
    }

    fn unlock(&mut self)
        ensures
            !final(self).spec_is_locked(),
    {
        self.set_locked(false);
    }
}

/// "Has the player ever looked at this thing in the UI?"
pub trait NewFlaggable {
    spec fn spec_is_new(&self) -> bool;

    fn is_new(&self) -> (b: bool)
        ensures
            b == self.spec_is_new(),
    ;

    fn set_new(&mut self, is_new: bool)
        ensures
            final(self).spec_is_new() == is_new,
    ;

    fn mark_seen(&mut self)
        ensures
            !final(self).spec_is_new(),
    {
        self.set_new(false);
    }
}

/// When (ms since the Unix epoch) the player obtained this.
pub trait Owned {
    spec fn spec_own_time(&self) -> i64;

    fn own_time(&self) -> (t: i64)
        ensures
            t == self.spec_own_time(),
    ;
}

/// The item is attached to another entity; 0 means detached.
pub trait Attachable {
    spec fn spec_attached_to(&self) -> u64;

    fn attached_to(&self) -> (id: u64)
        ensures
            id == self.spec_attached_to(),
    ;

    fn is_attached(&self) -> (b: bool)
        ensures
            b == (self.spec_attached_to() != 0),
    {
        self.attached_to() != 0
    }

    fn is_detached(&self) -> (b: bool)
        ensures
            b == (self.spec_attached_to() == 0),
    {
        !self.is_attached()
    }
}

} // verus!
