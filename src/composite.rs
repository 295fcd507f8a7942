//! A rig packaged as one named driver, with accessors that reach into it.
use vstd::prelude::*;
use crate::drivers::maintain_distance::MaintainDistance;
use crate::drivers::position::Position;
use crate::drivers::smooth::Smooth;
use crate::math::{Direction, Vec3};
use crate::transform::Handedness;
use crate::rig::{
    first_of_kind, has_kind, is_first_of_kind, lemma_advanced_keeps_kinds, lemma_first_of_kind,
    lemma_kind_has_first, pipeline_advanced, pipeline_output, CameraRig, Driver, DriverKind,
};

verus! {

/// A camera that eases toward a set position and keeps its distance to a
/// target. As a driver it runs its own rig from the identity transform.
pub struct FollowTarget<H: Handedness> {
    pub rig: CameraRig<H>,
}

/// `ds` with the first `Position` driver moved to `camera`.
pub open spec fn with_camera<H: Handedness>(ds: Seq<Driver<H>>, camera: Vec3) -> Seq<Driver<H>> {
    ds.update(
        first_of_kind(ds, DriverKind::Position),
        Driver::Position(Position { position: camera }),
    )
}

/// `ds` with the focal point of the first `MaintainDistance` driver moved to
/// `target`.
pub open spec fn with_focal<H: Handedness>(ds: Seq<Driver<H>>, target: Vec3) -> Seq<Driver<H>> {
    let i = first_of_kind(ds, DriverKind::MaintainDistance);
    match ds[i] {
        Driver::MaintainDistance(m) => ds.update(
            i,
            Driver::MaintainDistance(MaintainDistance { focal: target, ..m }),
        ),
        _ => ds,
    }
}

impl<H: Handedness> FollowTarget<H> {
    /// The inner rig holds the drivers that the accessors reach.
    pub open spec fn wf(&self) -> bool {
        &&& has_kind(self.rig.drivers@, DriverKind::Position)
        &&& has_kind(self.rig.drivers@, DriverKind::MaintainDistance)
    }

    /// The drivers of the inner rig as first built: the camera's position,
    /// smoothed, then kept between `min_distance` and `max_distance` of the
    /// target, measured in the plane with normal `plane_normal`.
    pub open spec fn initial_drivers(
        camera_position: Vec3,
        target_position: Vec3,
        smoothness: u32,
        plane_normal: Direction,
        min_distance: u32,
        max_distance: u32,
    ) -> Seq<Driver<H>> {
        seq![
            Driver::Position(Position { position: camera_position }),
            Driver::Smooth(
                Smooth { smoothness, predictive: false, previous: None, previous_input: None },
            ),
            Driver::MaintainDistance(
                MaintainDistance { focal: target_position, plane_normal, min_distance, max_distance },
            ),
        ]
    }

    /// A rig built from `initial_drivers` and run once with no time elapsed.
    pub fn from_position_target(
        camera_position: Vec3,
        target_position: Vec3,
        smoothness: u32,
        plane_normal: Direction,
        min_distance: u32,
        max_distance: u32,
    ) -> (r: FollowTarget<H>)
        ensures
            r.wf(),
            pipeline_advanced(
                FollowTarget::<H>::initial_drivers(
                    camera_position,
                    target_position,
                    smoothness,
                    plane_normal,
                    min_distance,
                    max_distance,
                ),
                r.rig.drivers@,
                0,
            ),
            r.rig.final_transform == pipeline_output(
                FollowTarget::<H>::initial_drivers(
                    camera_position,
                    target_position,
                    smoothness,
                    plane_normal,
                    min_distance,
                    max_distance,
                ),
                0,
            ),
    {
        let builder = CameraRig::builder().with(Driver::Position(Position::new(camera_position))).with(
            Driver::Smooth(Smooth::new_position(smoothness)),
        ).with(
            Driver::MaintainDistance(
                MaintainDistance::new(target_position, plane_normal, min_distance, max_distance),
            ),
        );
        let ghost ds = builder.drivers@;
        assert(ds =~= FollowTarget::<H>::initial_drivers(
            camera_position,
            target_position,
            smoothness,
            plane_normal,
            min_distance,
            max_distance,
        ));
        let rig = builder.build();
        proof {
            lemma_advanced_keeps_kinds(ds, rig.drivers@, 0);
            assert(rig.drivers@[0].spec_kind() == DriverKind::Position);
            assert(rig.drivers@[2].spec_kind() == DriverKind::MaintainDistance);
        }
        FollowTarget { rig }
    }

    /// Moves the camera and the target. This changes the inner rig exactly as
    /// changing its drivers through the rig's own lookup would: the first
    /// `Position` driver is set to `camera_position`, and the focal point of
    /// the first `MaintainDistance` driver to `target_position`.
    pub fn set_position_target(&mut self, camera_position: Vec3, target_position: Vec3)
        requires
            old(self).wf(),
        ensures
            final(self).wf(),
            final(self).rig.drivers@ == with_focal(
                with_camera(old(self).rig.drivers@, camera_position),
                target_position,
            ),
            final(self).rig.final_transform == old(self).rig.final_transform,
    {
        let ghost ds0 = self.rig.drivers@;
        let ghost im = first_of_kind(ds0, DriverKind::MaintainDistance);
        proof {
            lemma_kind_has_first(ds0, DriverKind::Position);
            lemma_kind_has_first(ds0, DriverKind::MaintainDistance);
        }
        *self.rig.driver_mut(DriverKind::Position) = Driver::Position(Position::new(camera_position));
        let ghost ds1 = self.rig.drivers@;
        proof {
            assert(ds1 == with_camera(ds0, camera_position));
            assert(is_first_of_kind(ds1, DriverKind::MaintainDistance, im));
            lemma_first_of_kind(ds1, DriverKind::MaintainDistance, im);
        }
        let d = self.rig.driver_mut(DriverKind::MaintainDistance);
        match d {
            Driver::MaintainDistance(m) => {
                m.focal = target_position;
            },
            _ => {},
        }
        proof {
            let ds2 = self.rig.drivers@;
            assert(ds2 =~= with_focal(ds1, target_position));
            assert(ds2[im].spec_kind() == DriverKind::MaintainDistance);
            let ip = first_of_kind(ds0, DriverKind::Position);
            assert(ds2[ip].spec_kind() == DriverKind::Position);
        }
    }
}

} // verus!
