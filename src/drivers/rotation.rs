use vstd::prelude::*;
use crate::math::{Quat, Vec3};
use crate::transform::{Handedness, Transform};
use std::marker::PhantomData;

verus! {

/// Turns the camera to a rotation set by the host, at the origin.
#[derive(Clone, Copy, Debug, PartialEq, Eq, Structural)]
pub struct Rotation {
    pub rotation: Quat,
}

impl Rotation {
    pub fn new(rotation: Quat) -> (r: Rotation)
        ensures
            r.rotation == rotation,
    {
        Rotation { rotation }
    }

    pub open spec fn output<H: Handedness>(self) -> Transform<H> {
        Transform { position: Vec3::spec_zero(), rotation: self.rotation, phantom: PhantomData }
    }

    /// Ignores the parent: the held rotation at the origin.
    pub fn update<H: Handedness>(&self, parent: &Transform<H>) -> (r: Transform<H>)
        ensures
            r == self.output::<H>(),
    {
        Transform { position: Vec3::zero(), rotation: self.rotation, phantom: PhantomData }
    }
}

} // verus!
