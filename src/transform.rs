//! The value handed from one driver to the next, and the handedness tags
//! that keep transforms of different coordinate conventions apart.
use vstd::prelude::*;
use std::marker::PhantomData;
use crate::drivers::arm::Arm;
use crate::math::{Quat, Vec3, QUAT_ONE};

verus! {

/// A coordinate system's handedness, as a type-level tag: `RightHanded` or
/// `LeftHanded`. It decides which way the default rotation faces.
pub trait Handedness {
    /// The z component of the default forward direction, scaled by
    /// `QUAT_ONE`: along -z in a right-handed system, along +z in a
    /// left-handed one.
    spec fn spec_forward_z() -> i32;

    fn forward_z() -> (r: i32)
        ensures
            r == Self::spec_forward_z(),
    ;
}

/// The tag of right-handed coordinate systems.
#[derive(Clone, Copy, Debug, PartialEq, Eq)]
pub struct RightHanded;

/// The tag of left-handed coordinate systems.
#[derive(Clone, Copy, Debug, PartialEq, Eq)]
pub struct LeftHanded;

impl Handedness for RightHanded {
    open spec fn spec_forward_z() -> i32 {
        (-QUAT_ONE) as i32
    }

    fn forward_z() -> (r: i32) {
        -QUAT_ONE
    }
}

impl Handedness for LeftHanded {
    open spec fn spec_forward_z() -> i32 {
        QUAT_ONE
    }

    fn forward_z() -> (r: i32) {
        QUAT_ONE
    }
}

/// A camera placement: where it is and which way it faces, in a coordinate
/// system of handedness `H`. The tag costs nothing at run time; transforms,
/// drivers and rigs of different handedness do not mix.
#[derive(Debug, PartialEq, Eq)]
pub struct Transform<H: Handedness> {
    pub position: Vec3,
    pub rotation: Quat,
    pub phantom: PhantomData<H>,
}

impl<H: Handedness> Clone for Transform<H> {
    fn clone(&self) -> (r: Self)
        ensures
            r == *self,
    {
        *self
    }
}

impl<H: Handedness> Copy for Transform<H> {}

impl<H: Handedness> Transform<H> {
    pub open spec fn spec_new(position: Vec3, rotation: Quat) -> Transform<H> {
        Transform { position, rotation, phantom: PhantomData }
    }

    pub fn new(position: Vec3, rotation: Quat) -> (r: Transform<H>)
        ensures
            r == Transform::<H>::spec_new(position, rotation),
    {
        Transform { position, rotation, phantom: PhantomData }
    }

    /// At the origin, facing the default way.
    pub open spec fn spec_identity() -> Transform<H> {
        Transform { position: Vec3::spec_zero(), rotation: Quat::spec_identity(), phantom: PhantomData }
    }

    /// The direction the camera faces, scaled by `QUAT_ONE`: the default
    /// forward direction of `H` turned by the rotation, as an arm of that
    /// length from the origin would turn it.
    pub open spec fn spec_forward(self) -> Vec3 {
        (Arm { offset: Vec3 { x: 0, y: 0, z: H::spec_forward_z() } }).output(
            Transform::<H>::spec_new(Vec3::spec_zero(), self.rotation),
        ).position
    }

    pub fn forward(&self) -> (r: Vec3)
        ensures
            r == self.spec_forward(),
    {
        let arm = Arm::new(Vec3::new(0, 0, H::forward_z()));
        arm.update(&Transform::<H>::new(Vec3::zero(), self.rotation)).position
    }

    pub fn identity() -> (r: Transform<H>)
        ensures
            r == Transform::<H>::spec_identity(),
    {
        Transform { position: Vec3::zero(), rotation: Quat::identity(), phantom: PhantomData }
    }
}

} // verus!
