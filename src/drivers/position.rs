use vstd::prelude::*;
use crate::math::{Quat, Vec3};
use crate::transform::{Handedness, Transform};
use std::marker::PhantomData;

verus! {

/// Places the camera at a position set by the host, facing the default way.
#[derive(Clone, Copy, Debug, PartialEq, Eq, Structural)]
pub struct Position {
    pub position: Vec3,
}

impl Position {
    pub fn new(position: Vec3) -> (r: Position)
        ensures
            r.position == position,
    {
        Position { position }
    }

    pub open spec fn output<H: Handedness>(self) -> Transform<H> {
        Transform { position: self.position, rotation: Quat::spec_identity(), phantom: PhantomData }
    }

    /// Ignores the parent: the held position with the default rotation.
    pub fn update<H: Handedness>(&self, parent: &Transform<H>) -> (r: Transform<H>)
        ensures
            r == self.output::<H>(),
    {
        Transform { position: self.position, rotation: Quat::identity(), phantom: PhantomData }
    }
}

} // verus!
