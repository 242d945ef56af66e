//! Coarse entity classification.

use crate::logic::entity::EntityKind;
use vstd::prelude::*;

verus! {

/// Lets generic code talk about an entity's coarse classification.
pub trait Classified {
    spec fn spec_kind(&self) -> EntityKind;

    fn kind(&self) -> (k: EntityKind)
        ensures
            k == self.spec_kind(),
    ;

    fn is_enemy(&self) -> (b: bool)
        ensures
            b == (self.spec_kind() == EntityKind::Enemy),
    {
        self.kind() == EntityKind::Enemy
    }

    fn is_character(&self) -> (b: bool)
        ensures
            b == (self.spec_kind() == EntityKind::Character),
    {
        self.kind() == EntityKind::Character
    }

    fn is_interactive(&self) -> (b: bool)
        ensures
            b == (self.spec_kind() == EntityKind::Interactive),
    {
        self.kind() == EntityKind::Interactive
    }

    fn is_npc(&self) -> (b: bool)
        ensures
            b == (self.spec_kind() == EntityKind::Npc),
    {
        self.kind() == EntityKind::Npc
    }
}

impl Classified for EntityKind {
    open spec fn spec_kind(&self) -> EntityKind {
        *self
    }

    fn kind(&self) -> (k: EntityKind) {
        *self
    }
}

} // verus!
