use vstd::prelude::*;
use crate::math::Vec3;
use crate::transform::{Handedness, Transform};
use std::marker::PhantomData;

verus! {

/// Holds the position at the value last set, and passes the parent's
/// rotation through.
#[derive(Clone, Copy, Debug, PartialEq, Eq, Structural)]
pub struct LockPosition {
    pub position: Vec3,
}

impl LockPosition {
    pub fn new(position: Vec3) -> (r: LockPosition)
        ensures
            r.position == position,
    {
        LockPosition { position }
    }

    pub open spec fn output<H: Handedness>(self, parent: Transform<H>) -> Transform<H> {
        Transform { position: self.position, rotation: parent.rotation, phantom: PhantomData }
    }

    pub fn update<H: Handedness>(&self, parent: &Transform<H>) -> (r: Transform<H>)
        ensures
            r == self.output(*parent),
    {
        Transform { position: self.position, rotation: parent.rotation, phantom: PhantomData }
    }
}

} // verus!
