use dolly::composite::FollowTarget;
use dolly::drivers::arm::Arm;
use dolly::drivers::lock_position::LockPosition;
use dolly::drivers::maintain_distance::MaintainDistance;
use dolly::drivers::position::Position;
use dolly::drivers::rotation::Rotation;
use dolly::drivers::smooth::Smooth;
use dolly::math::{Direction, Quat, Vec3, QUAT_ONE};
use dolly::rig::{CameraRig, Driver, DriverKind};
use dolly::transform::{LeftHanded, RightHanded, Transform};

fn turned() -> Quat {
    Quat { x: 0, y: 759250125, z: 0, w: 759250125 }
}

fn keep_distance(focal: Vec3) -> MaintainDistance {
    MaintainDistance::new(focal, Direction::new(0, 1, 0), 4, 10)
}

fn sample_drivers() -> Vec<Driver<RightHanded>> {
    vec![
        Driver::Rotation(Rotation::new(turned())),
        Driver::LockPosition(LockPosition::new(Vec3::new(0, 2, 30))),
        Driver::MaintainDistance(keep_distance(Vec3::new(0, 0, 0))),
    ]
}

fn build(drivers: Vec<Driver<RightHanded>>) -> CameraRig<RightHanded> {
    let mut b = CameraRig::<RightHanded>::builder();
    for d in drivers {
        b = b.with(d);
    }
    b.build()
}

#[test]
fn identity_transform() {
    let t = Transform::<RightHanded>::identity();
    assert_eq!(t.position, Vec3::new(0, 0, 0));
    assert_eq!(t.rotation, Quat { x: 0, y: 0, z: 0, w: QUAT_ONE });
}

#[test]
fn empty_rig_gives_identity() {
    let mut rig = CameraRig::<RightHanded>::builder().build();
    assert_eq!(rig.final_transform, Transform::<RightHanded>::identity());
    assert_eq!(rig.update(16_667), Transform::<RightHanded>::identity());
}

#[test]
fn position_and_rotation_drivers_ignore_parent() {
    let parent = Transform::<RightHanded>::new(Vec3::new(1, 2, 3), turned());
    let p = Position::new(Vec3::new(7, 8, 9)).update(&parent);
    assert_eq!(p, Transform::<RightHanded>::new(Vec3::new(7, 8, 9), Quat::identity()));
    let r = Rotation::new(turned()).update(&parent);
    assert_eq!(r, Transform::<RightHanded>::new(Vec3::zero(), turned()));
}

#[test]
fn lock_position_keeps_parent_rotation() {
    let parent = Transform::<RightHanded>::new(Vec3::new(1, 2, 3), turned());
    let r = LockPosition::new(Vec3::new(-4, 5, 6)).update(&parent);
    assert_eq!(r, Transform::<RightHanded>::new(Vec3::new(-4, 5, 6), turned()));
}

#[test]
fn update_runs_drivers_in_order() {
    let mut rig = build(sample_drivers());
    let r = rig.update(16_667);
    assert_eq!(r, Transform::<RightHanded>::new(Vec3::new(0, 2, 10), turned()));
    assert_eq!(rig.final_transform, r);
}

#[test]
fn update_equals_manual_fold() {
    let dt: u64 = 33_333;
    let mut built = sample_drivers();
    built.push(Driver::Smooth(Smooth::new_position(3)));
    let mut rig = build(built);
    let mut manual = vec![
        Driver::Rotation(Rotation::new(turned())),
        Driver::LockPosition(LockPosition::new(Vec3::new(0, 2, 30))),
        Driver::MaintainDistance(keep_distance(Vec3::new(0, 0, 0))),
        Driver::Smooth(Smooth { smoothness: 3, predictive: false, previous: Some(Vec3::new(0, 2, 10)), previous_input: None }),
    ];
    for frame in 0..3u64 {
        if frame == 2 {
            *rig.driver_mut(DriverKind::LockPosition) =
                Driver::LockPosition(LockPosition::new(Vec3::new(0, 2, 3)));
            manual[1] = Driver::LockPosition(LockPosition::new(Vec3::new(0, 2, 3)));
        }
        let mut t = Transform::<RightHanded>::identity();
        for d in manual.iter_mut() {
            t = d.update(&t, dt);
        }
        assert_eq!(rig.update(dt), t);
    }
}

#[test]
fn order_of_drivers_matters() {
    let mut constrained_then_locked = build(vec![
        Driver::MaintainDistance(keep_distance(Vec3::new(0, 0, 0))),
        Driver::LockPosition(LockPosition::new(Vec3::new(0, 0, 30))),
    ]);
    let mut locked_then_constrained = build(vec![
        Driver::LockPosition(LockPosition::new(Vec3::new(0, 0, 30))),
        Driver::MaintainDistance(keep_distance(Vec3::new(0, 0, 0))),
    ]);
    assert_eq!(constrained_then_locked.update(1).position, Vec3::new(0, 0, 30));
    assert_eq!(locked_then_constrained.update(1).position, Vec3::new(0, 0, 10));
}

#[test]
fn zero_elapsed_time_repeats_previous_output() {
    let mut rig = build(sample_drivers());
    let first = rig.update(16_667);
    assert_eq!(rig.update(0), first);
    let parent = Transform::<RightHanded>::new(Vec3::new(0, 0, 2), turned());
    let mut drivers = sample_drivers();
    drivers.push(Driver::Smooth(Smooth { smoothness: 5, predictive: false, previous: Some(Vec3::new(9, 9, 9)), previous_input: None }));
    for d in drivers.iter_mut() {
        let out = d.update(&parent, 16_667);
        assert_eq!(d.update(&parent, 0), out);
    }
}

#[test]
fn build_runs_one_update() {
    let rig = build(sample_drivers());
    assert_eq!(rig.final_transform.position, Vec3::new(0, 2, 10));
    assert_eq!(rig.drivers.len(), 3);
}

#[test]
fn driver_index_finds_first_of_kind() {
    let rig = build(vec![
        Driver::Position(Position::new(Vec3::new(1, 1, 1))),
        Driver::LockPosition(LockPosition::new(Vec3::new(2, 2, 2))),
        Driver::Position(Position::new(Vec3::new(3, 3, 3))),
    ]);
    assert_eq!(rig.driver_index(DriverKind::Position), Some(0));
    assert_eq!(rig.driver_index(DriverKind::LockPosition), Some(1));
    assert_eq!(rig.driver_index(DriverKind::MaintainDistance), None);
    assert_eq!(rig.drivers[2].kind(), DriverKind::Position);
}

#[test]
fn mutation_through_lookup_changes_next_update() {
    let mut rig = build(vec![
        Driver::Position(Position::new(Vec3::new(0, 0, 20))),
        Driver::MaintainDistance(keep_distance(Vec3::new(0, 0, 0))),
    ]);
    assert_eq!(rig.update(1).position, Vec3::new(0, 0, 10));
    match rig.driver_mut(DriverKind::MaintainDistance) {
        Driver::MaintainDistance(m) => m.focal = Vec3::new(0, 0, 40),
        _ => panic!("wrong kind"),
    }
    assert_eq!(rig.final_transform.position, Vec3::new(0, 0, 10));
    assert_eq!(rig.update(1).position, Vec3::new(0, 0, 30));
    *rig.driver_mut(DriverKind::Position) = Driver::Position(Position::new(Vec3::new(0, 0, 37)));
    // 3 from the focal point at z = 40: pushed out to 4
    assert_eq!(rig.update(1).position, Vec3::new(0, 0, 36));
}

#[test]
fn lookup_reaches_only_first_of_kind() {
    let mut rig = build(vec![
        Driver::LockPosition(LockPosition::new(Vec3::new(1, 1, 1))),
        Driver::LockPosition(LockPosition::new(Vec3::new(2, 2, 2))),
    ]);
    *rig.driver_mut(DriverKind::LockPosition) =
        Driver::LockPosition(LockPosition::new(Vec3::new(9, 9, 9)));
    assert_eq!(rig.update(1).position, Vec3::new(2, 2, 2));
    match &rig.drivers[0] {
        Driver::LockPosition(l) => assert_eq!(l.position, Vec3::new(9, 9, 9)),
        _ => panic!("wrong kind"),
    }
}

#[test]
fn nested_rig_runs_from_identity() {
    let inner = build(vec![Driver::LockPosition(LockPosition::new(Vec3::new(5, 5, 5)))]);
    let mut outer = build(vec![
        Driver::Rotation(Rotation::new(turned())),
        Driver::Rig(inner),
    ]);
    let r = outer.update(1);
    assert_eq!(r, Transform::<RightHanded>::new(Vec3::new(5, 5, 5), Quat::identity()));
}

#[test]
fn composite_accessor_matches_direct_mutation() {
    let camera = Vec3::new(4, 3, 8);
    let target = Vec3::new(2, 1, 2);
    let mut follow =
        FollowTarget::from_position_target(camera, target, 1, Direction::new(0, 1, 0), 4, 10);
    let mut direct = build(vec![
        Driver::Position(Position::new(camera)),
        Driver::Smooth(Smooth::new_position(1)),
        Driver::MaintainDistance(keep_distance(target)),
    ]);

    let new_camera = Vec3::new(40, 3, 2);
    let new_target = Vec3::new(-3, 1, 2);
    follow.set_position_target(new_camera, new_target);
    *direct.driver_mut(DriverKind::Position) = Driver::Position(Position::new(new_camera));
    match direct.driver_mut(DriverKind::MaintainDistance) {
        Driver::MaintainDistance(m) => m.focal = new_target,
        _ => panic!("wrong kind"),
    }

    let mut outer = build(vec![Driver::FollowTarget(follow)]);
    // one time unit with smoothness 1 goes half way: from (4, 3, 8) to (22, 3, 5)
    let via_accessor = outer.update(1);
    let directly = direct.update(1);
    assert_eq!(via_accessor, directly);
    assert_eq!(directly.position, Vec3::new(7, 3, 3));
    assert_eq!(outer.update(0), direct.update(0));
}

#[test]
fn composite_is_one_stage_of_outer_rig() {
    let follow = FollowTarget::from_position_target(
        Vec3::new(0, 0, 15),
        Vec3::new(0, 0, 0),
        5,
        Direction::new(0, 1, 0),
        4,
        10,
    );
    let mut outer = build(vec![Driver::FollowTarget(follow)]);
    assert_eq!(outer.driver_index(DriverKind::FollowTarget), Some(0));
    assert_eq!(outer.driver_index(DriverKind::Position), None);
    assert_eq!(outer.update(1).position, Vec3::new(0, 0, 10));
}

#[test]
fn arm_offset_turns_with_parent() {
    let parent = Transform::<RightHanded>::new(Vec3::new(1, 2, 3), turned());
    let r = Arm::new(Vec3::new(0, 0, 10)).update(&parent);
    assert_eq!(r, Transform::<RightHanded>::new(Vec3::new(11, 2, 3), turned()));
}

#[test]
fn arm_with_identity_rotation_adds_offset() {
    let parent = Transform::<RightHanded>::new(Vec3::new(1, 2, 3), Quat::identity());
    let r = Arm::new(Vec3::new(4, -5, 6)).update(&parent);
    assert_eq!(r.position, Vec3::new(5, -3, 9));
}

#[test]
fn arm_quarter_turn_about_x() {
    let parent = Transform::<RightHanded>::new(
        Vec3::zero(),
        Quat { x: 759250125, y: 0, z: 0, w: 759250125 },
    );
    let r = Arm::new(Vec3::new(0, 1000, 0)).update(&parent);
    assert_eq!(r.position, Vec3::new(0, 0, 1000));
}

#[test]
fn arm_after_rotation_in_rig() {
    let mut rig = build(vec![
        Driver::Rotation(Rotation::new(turned())),
        Driver::Arm(Arm::new(Vec3::new(0, 0, 10))),
    ]);
    assert_eq!(rig.update(1), Transform::<RightHanded>::new(Vec3::new(10, 0, 0), turned()));
}

#[test]
fn smooth_first_frame_starts_at_parent() {
    let mut s = Smooth::new_position(1_000);
    let parent = Transform::<RightHanded>::new(Vec3::new(100, -50, 7), turned());
    assert_eq!(s.update(&parent, 16), parent);
    assert_eq!(s.previous, Some(Vec3::new(100, -50, 7)));
}

#[test]
fn smooth_moves_a_fraction_of_the_way() {
    let mut s = Smooth { smoothness: 3, predictive: false, previous: Some(Vec3::new(0, 0, 0)), previous_input: None };
    let parent = Transform::<RightHanded>::new(Vec3::new(100, -100, 2), turned());
    // dt / (dt + smoothness) = 1 / 4 of the way, rounded to nearest
    let r = s.update(&parent, 1);
    assert_eq!(r, Transform::<RightHanded>::new(Vec3::new(25, -25, 1), turned()));
    let r = s.update(&parent, 1);
    assert_eq!(r.position, Vec3::new(44, -44, 1));
}

#[test]
fn smooth_with_zero_smoothness_follows_parent() {
    let mut s = Smooth { smoothness: 0, predictive: false, previous: Some(Vec3::new(-7, 3, 1000)), previous_input: None };
    let parent = Transform::<RightHanded>::new(Vec3::new(100, -100, 2), turned());
    assert_eq!(s.update(&parent, 1), parent);
    let parent = Transform::<RightHanded>::new(Vec3::new(i32::MIN, i32::MAX, 0), turned());
    assert_eq!(s.update(&parent, 16_667), parent);
}

#[test]
fn smooth_with_large_smoothness_holds_still() {
    let start = Vec3::new(5, 6, 7);
    let mut s = Smooth { smoothness: u32::MAX, predictive: false, previous: Some(start), previous_input: None };
    let parent = Transform::<RightHanded>::new(Vec3::new(100, -100, 2), turned());
    for _ in 0..10 {
        assert_eq!(s.update(&parent, 16_667).position, start);
    }
}

#[test]
fn smooth_zero_time_repeats_output() {
    let mut s = Smooth { smoothness: 0, predictive: false, previous: Some(Vec3::new(1, 2, 3)), previous_input: None };
    let parent = Transform::<RightHanded>::new(Vec3::new(10, 20, 30), turned());
    assert_eq!(s.update(&parent, 0).position, Vec3::new(1, 2, 3));
    let mut s = Smooth { smoothness: 9, predictive: false, previous: Some(Vec3::new(1, 2, 3)), previous_input: None };
    let first = s.update(&parent, 1);
    assert_eq!(first.position, Vec3::new(2, 4, 6));
    assert_eq!(s.update(&parent, 0), first);
}

#[test]
fn rig_update_with_zero_time_repeats_previous_frame() {
    let mut rig = build(vec![
        Driver::Position(Position::new(Vec3::new(0, 0, 100))),
        Driver::Smooth(Smooth::new_position(7)),
    ]);
    *rig.driver_mut(DriverKind::Position) = Driver::Position(Position::new(Vec3::new(0, 0, 0)));
    let moved = rig.update(3);
    assert_eq!(moved.position, Vec3::new(0, 0, 70));
    assert_eq!(rig.update(0), moved);
    assert_eq!(rig.final_transform, moved);
}

#[test]
fn predictive_smooth_leads_a_moving_parent() {
    let mut s = Smooth::new_position(0).predictive(true);
    let at = |x: i32| Transform::<RightHanded>::new(Vec3::new(x, 0, 0), Quat::identity());
    assert_eq!(s.update(&at(0), 1).position, Vec3::new(0, 0, 0));
    // moved by 10 since the last frame: aims 10 further on
    assert_eq!(s.update(&at(10), 1).position, Vec3::new(20, 0, 0));
    assert_eq!(s.update(&at(20), 1).position, Vec3::new(30, 0, 0));
    // stopped: aims at the parent again
    assert_eq!(s.update(&at(20), 1).position, Vec3::new(20, 0, 0));
    // turned back: overshoots the other way
    assert_eq!(s.update(&at(15), 1).position, Vec3::new(10, 0, 0));
}

#[test]
fn predictive_smooth_eases_toward_prediction() {
    let mut s = Smooth::new_position(1).predictive(true);
    let at = |x: i32| Transform::<RightHanded>::new(Vec3::new(x, 0, 0), Quat::identity());
    s.update(&at(0), 1);
    // target 2 * 40 - 0 = 80, half way from 0
    assert_eq!(s.update(&at(40), 1).position, Vec3::new(40, 0, 0));
    assert_eq!(s.update(&at(40), 0).position, Vec3::new(40, 0, 0));
}

#[test]
fn predictive_target_saturates() {
    let mut s = Smooth::new_position(0).predictive(true);
    let at = |x: i32| Transform::<RightHanded>::new(Vec3::new(x, 0, 0), Quat::identity());
    s.update(&at(i32::MIN), 1);
    assert_eq!(s.update(&at(i32::MAX), 1).position, Vec3::new(i32::MAX, 0, 0));
}

#[test]
fn forward_follows_handedness() {
    let r = Transform::<RightHanded>::identity();
    assert_eq!(r.forward(), Vec3::new(0, 0, -QUAT_ONE));
    let l = Transform::<LeftHanded>::identity();
    assert_eq!(l.forward(), Vec3::new(0, 0, QUAT_ONE));
}

#[test]
fn forward_turns_with_rotation() {
    let r = Transform::<RightHanded>::new(Vec3::new(5, 5, 5), turned());
    assert_eq!(r.forward(), Vec3::new(-QUAT_ONE, 0, 0));
    let l = Transform::<LeftHanded>::new(Vec3::new(5, 5, 5), turned());
    assert_eq!(l.forward(), Vec3::new(QUAT_ONE, 0, 0));
}

#[test]
fn left_handed_rig() {
    let mut rig = CameraRig::<LeftHanded>::builder()
        .with(Driver::Rotation(Rotation::new(turned())))
        .with(Driver::Arm(Arm::new(Vec3::new(0, 0, 10))))
        .build();
    let t = rig.update(1);
    assert_eq!(t.position, Vec3::new(10, 0, 0));
    assert_eq!(t.forward(), Vec3::new(QUAT_ONE, 0, 0));
}

#[test]
fn unsmoothed_stage_lets_constraint_see_raw_parent() {
    let mut smoothed = build(vec![
        Driver::Position(Position::new(Vec3::new(0, 0, 30))),
        Driver::Smooth(Smooth::new_position(0)),
        Driver::MaintainDistance(keep_distance(Vec3::new(0, 0, 0))),
    ]);
    let mut raw = build(vec![
        Driver::Position(Position::new(Vec3::new(0, 0, 30))),
        Driver::MaintainDistance(keep_distance(Vec3::new(0, 0, 0))),
    ]);
    for z in [30, 2, 7, -50] {
        let p = Driver::Position(Position::new(Vec3::new(3, 1, z)));
        *smoothed.driver_mut(DriverKind::Position) = p;
        *raw.driver_mut(DriverKind::Position) = Driver::Position(Position::new(Vec3::new(3, 1, z)));
        assert_eq!(smoothed.update(16_667), raw.update(16_667));
    }
}

#[test]
fn heavily_smoothed_stage_holds_constraint_input() {
    let mut rig = build(vec![
        Driver::Position(Position::new(Vec3::new(0, 0, 30))),
        Driver::Smooth(Smooth::new_position(u32::MAX)),
        Driver::MaintainDistance(keep_distance(Vec3::new(0, 0, 0))),
    ]);
    let first = rig.update(16_667);
    assert_eq!(first.position, Vec3::new(0, 0, 10));
    *rig.driver_mut(DriverKind::Position) = Driver::Position(Position::new(Vec3::new(0, 0, 2)));
    assert_eq!(rig.update(16_667), first);
}
