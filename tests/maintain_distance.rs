use dolly::drivers::maintain_distance::MaintainDistance;
use dolly::math::{isqrt, Direction, Quat, Vec3, QUAT_ONE};
use dolly::transform::{RightHanded, Transform};

fn constraint() -> MaintainDistance {
    MaintainDistance::new(Vec3::new(0, 0, 0), Direction::new(0, 1, 0), 4, 10)
}

fn at(x: i32, y: i32, z: i32) -> Transform<RightHanded> {
    Transform::new(Vec3::new(x, y, z), Quat { x: 3, y: -5, z: 7, w: QUAT_ONE - 11 })
}

fn in_plane_distance_sq(p: Vec3) -> i64 {
    (p.x as i64) * (p.x as i64) + (p.z as i64) * (p.z as i64)
}

#[test]
fn far_camera_is_pulled_in_to_max_distance() {
    let parent = at(0, 0, 15);
    let r = constraint().update(&parent);
    assert_eq!(r.position, Vec3::new(0, 0, 10));
    assert_eq!(in_plane_distance_sq(r.position), 100);
    assert_eq!(r.position.y, parent.position.y);
    assert_eq!(r.rotation, parent.rotation);
}

#[test]
fn far_camera_above_plane_keeps_height() {
    let parent = at(0, 6, 15);
    let r = constraint().update(&parent);
    assert_eq!(r.position, Vec3::new(0, 6, 10));
    assert_eq!(r.rotation, parent.rotation);
}

#[test]
fn near_camera_is_pushed_out_to_min_distance() {
    let parent = at(0, 0, 2);
    let r = constraint().update(&parent);
    assert_eq!(r.position, Vec3::new(0, 0, 4));
    assert_eq!(in_plane_distance_sq(r.position), 16);
    assert_eq!(r.rotation, parent.rotation);
}

#[test]
fn camera_within_range_passes_through() {
    let parent = at(0, 0, 7);
    let r = constraint().update(&parent);
    assert_eq!(r, parent);
}

#[test]
fn camera_at_range_edges_passes_through() {
    assert_eq!(constraint().update(&at(0, 0, 10)), at(0, 0, 10));
    assert_eq!(constraint().update(&at(0, 0, 4)), at(0, 0, 4));
}

#[test]
fn camera_over_focal_point_passes_through() {
    let parent = at(0, 9, 0);
    assert_eq!(constraint().update(&parent), parent);
}

#[test]
fn diagonal_offset_is_scaled_toward_focal() {
    // in-plane offset (-30, -40) has length 50; pulled in to 10 leaves (6, 8)
    let parent = at(30, 1, 40);
    let r = constraint().update(&parent);
    assert_eq!(r.position, Vec3::new(6, 1, 8));
}

#[test]
fn focal_away_from_origin() {
    let md = MaintainDistance::new(Vec3::new(100, 0, -50), Direction::new(0, 1, 0), 4, 10);
    let r = md.update(&at(100, 3, -70));
    assert_eq!(r.position, Vec3::new(100, 3, -60));
}

#[test]
fn tilted_plane_normal() {
    // normal (1,0,0): only y and z count; offset (0,-20,0) pulled in to 10
    let md = MaintainDistance::new(Vec3::new(0, 0, 0), Direction::new(1, 0, 0), 4, 10);
    let r = md.update(&at(50, 20, 0));
    assert_eq!(r.position, Vec3::new(50, 10, 0));
}

#[test]
fn non_unit_normal_gives_same_plane() {
    let md = MaintainDistance::new(Vec3::new(0, 0, 0), Direction::new(0, 5, 0), 4, 10);
    let r = md.update(&at(0, 7, 15));
    assert_eq!(r.position, Vec3::new(0, 7, 10));
}

#[test]
fn zero_normal_measures_full_distance() {
    let md = MaintainDistance::new(Vec3::new(0, 0, 0), Direction::new(0, 0, 0), 4, 10);
    let r = md.update(&at(0, 0, 20));
    assert_eq!(r.position, Vec3::new(0, 0, 10));
    let r = md.update(&at(0, 0, 7));
    assert_eq!(r.position, Vec3::new(0, 0, 7));
}

#[test]
fn far_position_at_integer_limits() {
    let md = MaintainDistance::new(Vec3::new(i32::MIN, 0, 0), Direction::new(0, 1, 0), 0, 10);
    let r = md.update(&at(i32::MAX, 0, 0));
    assert_eq!(r.position, Vec3::new(i32::MIN + 10, 0, 0));
}

#[test]
fn push_out_beyond_range_saturates() {
    let md = MaintainDistance::new(Vec3::new(i32::MAX - 1, 0, 0), Direction::new(0, 1, 0), 1000, 2000);
    let r = md.update(&at(i32::MAX, 0, 0));
    assert_eq!(r.position, Vec3::new(i32::MAX, 0, 0));
}

#[test]
fn near_camera_off_axis_is_pushed_out_to_min_distance() {
    // in-plane distance is the square root of 2; pushed out to 100 along the diagonal
    let md = MaintainDistance::new(Vec3::new(0, 0, 0), Direction::new(0, 1, 0), 100, 200);
    let r = md.update(&at(1, 0, 1));
    assert_eq!(r.position, Vec3::new(71, 0, 71));
    let d = in_plane_distance_sq(r.position);
    assert!(d >= 99 * 99 && d <= 101 * 101);
    assert_eq!(r.rotation, at(1, 0, 1).rotation);
}

#[test]
fn near_camera_pushed_far_out_stays_accurate() {
    let md = MaintainDistance::new(Vec3::new(0, 0, 0), Direction::new(0, 1, 0), 10000, 20000);
    let r = md.update(&at(1, 0, 1));
    assert_eq!(r.position, Vec3::new(7071, 0, 7071));
}

#[test]
fn normal_length_does_not_change_push_out() {
    let short = MaintainDistance::new(Vec3::new(0, 0, 0), Direction::new(0, 1, 0), 100, 200);
    let long = MaintainDistance::new(Vec3::new(0, 0, 0), Direction::new(0, 2, 0), 100, 200);
    assert_eq!(long.update(&at(1, 0, 1)), short.update(&at(1, 0, 1)));
}

#[test]
fn far_camera_off_axis_is_pulled_in() {
    // in-plane offset (7, 9) has length about 11.4; pulled in to 10
    let r = constraint().update(&at(7, 5, 9));
    assert_eq!(r.position, Vec3::new(6, 5, 8));
}

#[test]
fn floor_square_root() {
    assert_eq!(isqrt(0), 0);
    assert_eq!(isqrt(1), 1);
    assert_eq!(isqrt(224), 14);
    assert_eq!(isqrt(225), 15);
    assert_eq!(isqrt(226), 15);
    assert_eq!(isqrt((1u128 << 100) - 1), (1u128 << 50) - 1);
    assert_eq!(isqrt((1u128 << 126) - 1), (1u128 << 63) - 1);
}
