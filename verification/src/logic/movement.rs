//! Positions, rotations and the player's movement state.

use vstd::prelude::*;

verus! {

/// A 3-component vector (position or Euler rotation).
#[derive(Debug, Clone, Copy, Default)]
pub struct Pos<T> {
    pub inner: [T; 3],
}

impl<T> Pos<T> {
    pub fn new(x: T, y: T, z: T) -> (p: Self)
        ensures
            p.inner@ == seq![x, y, z],
    {
        let p = Pos { inner: [x, y, z] };
        assert(p.inner@ =~= seq![x, y, z]);
        p
    }

    pub fn get_x(&self) -> (x: &T)
        ensures
            *x == self.inner@[0],
    {
        &self.inner[0]
    }

    pub fn get_y(&self) -> (y: &T)
        ensures
            *y == self.inner@[1],
    {
        &self.inner[1]
    }

    pub fn get_z(&self) -> (z: &T)
        ensures
            *z == self.inner@[2],
    {
        &self.inner[2]
    }
}

/// The player's current position and rotation; `T` is the coordinate type
/// (floats on the wire), which the manager only stores.
#[derive(Debug, Clone)]
pub struct MovementManager<T> {
    pub pos: Pos<T>,
    pub rot: Pos<T>,
}

impl<T> MovementManager<T> {
    pub fn new(pos: Pos<T>, rot: Pos<T>) -> (m: Self)
        ensures
            m.pos == pos,
            m.rot == rot,
    {
        MovementManager { pos, rot }
    }

    /// Moves to `(x, y, z)`; the rotation stays.
    pub fn update_position(&mut self, x: T, y: T, z: T)
        ensures
            final(self).pos.inner@ == seq![x, y, z],
            final(self).rot == old(self).rot,
    {
        self.pos = Pos::new(x, y, z);
    }

    /// Turns to `(x, y, z)`; the position stays.
    pub fn update_rotation(&mut self, x: T, y: T, z: T)
        ensures
            final(self).rot.inner@ == seq![x, y, z],
            final(self).pos == old(self).pos,
    {
        self.rot = Pos::new(x, y, z);
    }
}

} // verus!
