use vstd::prelude::*;
use crate::math::{
    add_quotient_clamped, clamp_i32, floor_sqrt, is_floor_sqrt, isqrt, lemma_mul_abs_bound,
    round_div, Direction, Vec3,
};
use crate::transform::{Handedness, Transform};
use std::marker::PhantomData;

verus! {

/// Keeps the camera's distance to a focal point, measured in the plane with
/// the given normal, between `min_distance` and `max_distance`.
///
/// Where the camera's in-plane offset to the focal point is zero, no
/// direction to move in exists, and the parent passes through unchanged.
/// A zero `plane_normal` measures the full distance. The in-plane length is
/// measured with at least 62 bits of precision before the camera is moved, so a moved
/// camera lands within `2^-30` of the bound before its coordinates are
/// rounded to the nearest unit (see `lands_within`). The length of
/// `plane_normal` enters only through that measurement.
#[derive(Clone, Copy, Debug, PartialEq, Eq, Structural)]
pub struct MaintainDistance {
    pub focal: Vec3,
    pub plane_normal: Direction,
    pub min_distance: u32,
    pub max_distance: u32,
}

/// `|n|²`, or 1 for the zero direction.
pub open spec fn normal_scale(n: Direction) -> int {
    let nn = n.x * n.x + n.y * n.y + n.z * n.z;
    if nn == 0 {
        1
    } else {
        nn
    }
}

pub open spec fn dot_dir(v: (int, int, int), n: Direction) -> int {
    v.0 * n.x + v.1 * n.y + v.2 * n.z
}

/// The scale at which a squared length `q` is measured: `m` doubled until
/// `q·m²` reaches 2^124.
pub open spec fn length_scale(q: int, m: int) -> int
    decreases 0x4000_0000_0000_0000_0000_0000_0000_0000 - q * m * m,
    via length_scale_decreases
{
    if q > 0 && m > 0 && q * m * m < 0x1000_0000_0000_0000_0000_0000_0000_0000 {
        length_scale(q, 2 * m)
    } else {
        m
    }
}

#[via_fn]
proof fn length_scale_decreases(q: int, m: int) {
    if q > 0 && m > 0 && q * m * m < 0x1000_0000_0000_0000_0000_0000_0000_0000 {
        assert(q * (2 * m) * (2 * m) == 4 * (q * m * m)) by (nonlinear_arith);
        assert(q * m * m > 0) by (nonlinear_arith)
            requires
                q > 0,
                m > 0,
        ;
    }
}

/// The part of `v` at right angles to `n` (the rejection of `v` from `n`),
/// multiplied by `normal_scale(n)` so that it stays integral.
pub open spec fn scaled_rejection(v: (int, int, int), n: Direction) -> (int, int, int) {
    let s = normal_scale(n);
    let vn = dot_dir(v, n);
    (s * v.0 - vn * n.x, s * v.1 - vn * n.y, s * v.2 - vn * n.z)
}

pub open spec fn norm_sq(w: (int, int, int)) -> int {
    w.0 * w.0 + w.1 * w.1 + w.2 * w.2
}

impl MaintainDistance {
    pub fn new(focal: Vec3, plane_normal: Direction, min_distance: u32, max_distance: u32) -> (r:
        MaintainDistance)
        ensures
            r == (MaintainDistance { focal, plane_normal, min_distance, max_distance }),
    {
        MaintainDistance { focal, plane_normal, min_distance, max_distance }
    }

    /// The in-plane offset from `p` to the focal point, scaled by
    /// `normal_scale(self.plane_normal)`.
    pub open spec fn offset(self, p: Vec3) -> (int, int, int) {
        scaled_rejection(
            (self.focal.x - p.x, self.focal.y - p.y, self.focal.z - p.z),
            self.plane_normal,
        )
    }

    /// The in-plane distance is above `max_distance`.
    pub open spec fn too_far(self, p: Vec3) -> bool {
        let s = normal_scale(self.plane_normal);
        norm_sq(self.offset(p)) > (self.max_distance * s) * (self.max_distance * s)
    }

    /// The in-plane distance is below `min_distance` but not zero.
    pub open spec fn too_near(self, p: Vec3) -> bool {
        let s = normal_scale(self.plane_normal);
        0 < norm_sq(self.offset(p)) < (self.min_distance * s) * (self.min_distance * s)
    }

    /// `p` moved along the in-plane offset `w` (scaled by `s`) so that its
    /// in-plane distance to the focal point becomes `bound`. With `l` the
    /// length of `w`, measured at scale `m` (`l` ≈ `|w|·m`), each axis moves
    /// by `w · (l − bound·s·m) / (s·l)`, rounded to the nearest integer, and
    /// the sum is kept within `i32`.
    pub open spec fn moved(p: Vec3, w: (int, int, int), s: int, l: int, m: int, bound: int) -> Vec3 {
        Vec3 {
            x: clamp_i32(p.x + round_div(w.0 * (l - bound * s * m), s * l)),
            y: clamp_i32(p.y + round_div(w.1 * (l - bound * s * m), s * l)),
            z: clamp_i32(p.z + round_div(w.2 * (l - bound * s * m), s * l)),
        }
    }

    /// The scale at which the in-plane length is measured for `p`.
    pub open spec fn scale(self, p: Vec3) -> int {
        length_scale(norm_sq(self.offset(p)), 1)
    }

    /// The in-plane length, scaled, for `p`: `⌊|w|·m⌋` with `m = self.scale(p)`.
    pub open spec fn scaled_length(self, p: Vec3) -> int {
        let m = self.scale(p);
        floor_sqrt((norm_sq(self.offset(p)) * m * m) as nat) as int
    }

    pub open spec fn output<H: Handedness>(self, parent: Transform<H>) -> Transform<H> {
        let p = parent.position;
        let w = self.offset(p);
        let s = normal_scale(self.plane_normal);
        let l = self.scaled_length(p);
        let m = self.scale(p);
        if self.too_far(p) {
            Transform {
                position: MaintainDistance::moved(p, w, s, l, m, self.max_distance as int),
                rotation: parent.rotation,
                phantom: PhantomData,
            }
        } else if self.too_near(p) {
            Transform {
                position: MaintainDistance::moved(p, w, s, l, m, self.min_distance as int),
                rotation: parent.rotation,
                phantom: PhantomData,
            }
        } else {
            parent
        }
    }

    /// Where the camera at `p` is moved, the move before rounding,
    /// `w · (l − bound·s·m) / (s·l)`, leaves it at an in-plane distance `D`
    /// from the focal point with `D² = bound² · |w|² · m² / l²` (`|w|²` being
    /// `norm_sq(self.offset(p))`, and the in-plane offset `w / s` keeping
    /// its direction). `lands_within` bounds this between `bound` and
    /// `bound · (l + 1) / l` with `l ≥ 2^62`, so `D` is within `2^-30` of
    /// `bound`; rounding then moves each axis by at most one half.
    pub open spec fn lands_within(self, p: Vec3, bound: int) -> bool {
        let q = norm_sq(self.offset(p));
        let m = self.scale(p);
        let l = self.scaled_length(p);
        &&& l >= 0x4000_0000_0000_0000
        &&& (bound * l) * (bound * l) <= bound * bound * (q * m * m)
        &&& bound * bound * (q * m * m) <= (bound * (l + 1)) * (bound * (l + 1))
    }

    /// Pulls the camera in to `max_distance` when farther, pushes it out to
    /// `min_distance` when nearer, and otherwise passes the parent through.
    /// The rotation always passes through.
    pub fn update<H: Handedness>(&self, parent: &Transform<H>) -> (r: Transform<H>)
        ensures
            r == self.output(*parent),
            r.rotation == parent.rotation,
            dot_dir(self.offset(parent.position), self.plane_normal) == 0,
            self.too_far(parent.position) ==> self.lands_within(
                parent.position,
                self.max_distance as int,
            ),
            !self.too_far(parent.position) && self.too_near(parent.position) ==> self.lands_within(
                parent.position,
                self.min_distance as int,
            ),
            !self.too_far(parent.position) && !self.too_near(parent.position) ==> r == *parent,
    {
        let p = parent.position;
        let n = self.plane_normal;
        let vx: i128 = self.focal.x as i128 - p.x as i128;
        let vy: i128 = self.focal.y as i128 - p.y as i128;
        let vz: i128 = self.focal.z as i128 - p.z as i128;
        let nx: i128 = n.x as i128;
        let ny: i128 = n.y as i128;
        let nz: i128 = n.z as i128;
        proof {
            lemma_mul_abs_bound(nx as int, nx as int, 128, 128);
            lemma_mul_abs_bound(ny as int, ny as int, 128, 128);
            lemma_mul_abs_bound(nz as int, nz as int, 128, 128);
            lemma_mul_abs_bound(vx as int, nx as int, 0x1_0000_0000, 128);
            lemma_mul_abs_bound(vy as int, ny as int, 0x1_0000_0000, 128);
            lemma_mul_abs_bound(vz as int, nz as int, 0x1_0000_0000, 128);
        }
        let nn: i128 = nx * nx + ny * ny + nz * nz;
        assert(nn >= 0) by (nonlinear_arith)
            requires
                nn == nx * nx + ny * ny + nz * nz,
        ;
        let s: i128 = if nn == 0 {
            1
        } else {
            nn
        };
        let vn: i128 = vx * nx + vy * ny + vz * nz;
        proof {
            lemma_mul_abs_bound(s as int, vx as int, 49152, 0x1_0000_0000);
            lemma_mul_abs_bound(s as int, vy as int, 49152, 0x1_0000_0000);
            lemma_mul_abs_bound(s as int, vz as int, 49152, 0x1_0000_0000);
            lemma_mul_abs_bound(vn as int, nx as int, 0x200_0000_0000, 128);
            lemma_mul_abs_bound(vn as int, ny as int, 0x200_0000_0000, 128);
            lemma_mul_abs_bound(vn as int, nz as int, 0x200_0000_0000, 128);
        }
        let wx: i128 = s * vx - vn * nx;
        let wy: i128 = s * vy - vn * ny;
        let wz: i128 = s * vz - vn * nz;
        let ghost w = self.offset(p);
        assert(w == (wx as int, wy as int, wz as int));
        proof {
            lemma_mul_abs_bound(wx as int, wx as int, 0x2_0000_0000_0000, 0x2_0000_0000_0000);
            lemma_mul_abs_bound(wy as int, wy as int, 0x2_0000_0000_0000, 0x2_0000_0000_0000);
            lemma_mul_abs_bound(wz as int, wz as int, 0x2_0000_0000_0000, 0x2_0000_0000_0000);
            lemma_mul_abs_bound(self.max_distance as int, s as int, 0x1_0000_0000, 49152);
            lemma_mul_abs_bound(self.min_distance as int, s as int, 0x1_0000_0000, 49152);
        }
        let q: i128 = wx * wx + wy * wy + wz * wz;
        let max_s: i128 = self.max_distance as i128 * s;
        let min_s: i128 = self.min_distance as i128 * s;
        proof {
            lemma_mul_abs_bound(max_s as int, max_s as int, 0x1_0000_0000_0000, 0x1_0000_0000_0000);
            lemma_mul_abs_bound(min_s as int, min_s as int, 0x1_0000_0000_0000, 0x1_0000_0000_0000);
        }
        let b: i128 = if max_s * max_s < q {
            self.max_distance as i128
        } else if 0 < q && q < min_s * min_s {
            self.min_distance as i128
        } else {
            proof {
                lemma_rejection_in_plane(
                    (self.focal.x - p.x, self.focal.y - p.y, self.focal.z - p.z),
                    n,
                );
            }
            return *parent;
        };
        proof {
            lemma_rejection_in_plane(
                    (self.focal.x - p.x, self.focal.y - p.y, self.focal.z - p.z),
                    n,
                );
        }
        assert(q >= 0) by (nonlinear_arith)
            requires
                q == wx * wx + wy * wy + wz * wz,
        ;
        assert(max_s * max_s >= 0) by (nonlinear_arith);
        assert(q > 0);
        assert(wx * wx <= q && wy * wy <= q && wz * wz <= q) by (nonlinear_arith)
            requires
                q == wx * wx + wy * wy + wz * wz,
        ;
        let qq: u128 = q as u128;
        let mut m: u128 = 1;
        let mut qm: u128 = qq;
        while qm < 0x1000_0000_0000_0000_0000_0000_0000_0000
            invariant
                0 < qq < 0x10_0000_0000_0000_0000_0000_0000,
                1 <= m,
                1 <= qm,
                qm == qq * m * m,
                qm < 0x4000_0000_0000_0000_0000_0000_0000_0000,
                length_scale(qq as int, m as int) == length_scale(qq as int, 1),
            decreases 0x4000_0000_0000_0000_0000_0000_0000_0000 - qm,
        {
            assert(qq * (2 * m) * (2 * m) == 4 * (qq * m * m)) by (nonlinear_arith);
            assert(m * m <= qq * m * m) by (nonlinear_arith)
                requires
                    qq >= 1,
            ;
            assert(2 * m < 0x8000_0000_0000_0000) by (nonlinear_arith)
                requires
                    m * m < 0x1000_0000_0000_0000_0000_0000_0000_0000,
                    m >= 1,
            ;
            qm = qm * 4;
            m = m * 2;
        }
        assert(m * m <= qq * m * m) by (nonlinear_arith)
            requires
                qq >= 1,
        ;
        assert(m < 0x8000_0000_0000_0000) by (nonlinear_arith)
            requires
                m * m < 0x4000_0000_0000_0000_0000_0000_0000_0000,
                m >= 1,
        ;
        assert(m as int == self.scale(p));
        let root: u128 = isqrt(qm);
        assert(0x4000_0000_0000_0000 <= root < 0x8000_0000_0000_0000) by (nonlinear_arith)
            requires
                is_floor_sqrt(root as int, qm as int),
                0x1000_0000_0000_0000_0000_0000_0000_0000 <= qm < 0x4000_0000_0000_0000_0000_0000_0000_0000,
        ;
        let l: i128 = root as i128;
        let mi: i128 = m as i128;
        proof {
            lemma_lands_within(b as int, l as int, qm as int);
            lemma_scaled_component(wx as int, mi as int, qq as int);
            lemma_scaled_component(wy as int, mi as int, qq as int);
            lemma_scaled_component(wz as int, mi as int, qq as int);
            lemma_mul_abs_bound(b as int, s as int, 0x1_0000_0000, 49152);
            lemma_mul_abs_bound(wx as int, l as int, 0x2_0000_0000_0000, 0x8000_0000_0000_0000);
            lemma_mul_abs_bound(wy as int, l as int, 0x2_0000_0000_0000, 0x8000_0000_0000_0000);
            lemma_mul_abs_bound(wz as int, l as int, 0x2_0000_0000_0000, 0x8000_0000_0000_0000);
        }
        assert(0 < s * l <= 49152 * 0x8000_0000_0000_0000) by (nonlinear_arith)
            requires
                0 < s <= 49152,
                0 < l <= 0x8000_0000_0000_0000,
        ;
        let den: i128 = s * l;
        let bs: i128 = b * s;
        let x = add_quotient_clamped(p.x as i128, axis_numerator(wx, l, bs, mi), den);
        let y = add_quotient_clamped(p.y as i128, axis_numerator(wy, l, bs, mi), den);
        let z = add_quotient_clamped(p.z as i128, axis_numerator(wz, l, bs, mi), den);
        Transform { position: Vec3 { x, y, z }, rotation: parent.rotation, phantom: PhantomData }
    }
}

/// `w · (l − bs·m)`, for `|w·m| < 2^63`.
fn axis_numerator(w: i128, l: i128, bs: i128, m: i128) -> (r: i128)
    requires
        -0x8000_0000_0000_0000 < w * m < 0x8000_0000_0000_0000,
        -0x2_0000_0000_0000 <= w <= 0x2_0000_0000_0000,
        0 < l <= 0x8000_0000_0000_0000,
        0 <= bs <= 0x1_0000_0000 * 49152,
    ensures
        r == w * (l - bs * m),
        -0x100_0000_0000_0000_0000_0000_0000_0000 <= r <= 0x100_0000_0000_0000_0000_0000_0000_0000,
{
    proof {
        lemma_mul_abs_bound(w as int, l as int, 0x2_0000_0000_0000, 0x8000_0000_0000_0000);
        lemma_mul_abs_bound(bs as int, (w * m) as int, 0x1_0000_0000 * 49152int, 0x8000_0000_0000_0000);
        assert(w * (l - bs * m) == w * l - bs * (w * m)) by (nonlinear_arith);
    }
    let wm: i128 = w * m;
    w * l - bs * wm
}

/// The offset at right angles to the normal has no part along it.
pub proof fn lemma_rejection_in_plane(v: (int, int, int), n: Direction)
    ensures
        dot_dir(scaled_rejection(v, n), n) == 0,
{
    lemma_dot_of_rejection(v.0, v.1, v.2, n.x as int, n.y as int, n.z as int, normal_scale(n));
    let nn = n.x * n.x + n.y * n.y + n.z * n.z;
    let vn = dot_dir(v, n);
    let sc = normal_scale(n);
    assert(dot_dir(scaled_rejection(v, n), n) == sc * vn - vn * nn);
    if nn != 0 {
        assert(sc * vn == vn * nn) by (nonlinear_arith)
            requires
                sc == nn,
        ;
    }
    if nn == 0 {
        assert(n.x * n.x >= 0 && n.y * n.y >= 0 && n.z * n.z >= 0) by (nonlinear_arith);
        assert(n.x == 0 && n.y == 0 && n.z == 0) by (nonlinear_arith)
            requires
                n.x * n.x >= 0,
                n.y * n.y >= 0,
                n.z * n.z >= 0,
                n.x * n.x + n.y * n.y + n.z * n.z == 0,
        ;
        assert(vn == 0) by (nonlinear_arith)
            requires
                n.x == 0,
                n.y == 0,
                n.z == 0,
                vn == v.0 * n.x + v.1 * n.y + v.2 * n.z,
        ;
    }
}

proof fn lemma_dot_of_rejection(x0: int, x1: int, x2: int, n0: int, n1: int, n2: int, s: int)
    ensures
        ({
            let vn = x0 * n0 + x1 * n1 + x2 * n2;
            (s * x0 - vn * n0) * n0 + (s * x1 - vn * n1) * n1 + (s * x2 - vn * n2) * n2 == s * vn
                - vn * (n0 * n0 + n1 * n1 + n2 * n2)
        }),
{
    let vn = x0 * n0 + x1 * n1 + x2 * n2;
    assert((s * x0 - vn * n0) * n0 == s * (x0 * n0) - vn * (n0 * n0)) by (nonlinear_arith);
    assert((s * x1 - vn * n1) * n1 == s * (x1 * n1) - vn * (n1 * n1)) by (nonlinear_arith);
    assert((s * x2 - vn * n2) * n2 == s * (x2 * n2) - vn * (n2 * n2)) by (nonlinear_arith);
    assert(s * (x0 * n0) + s * (x1 * n1) + s * (x2 * n2) == s * vn) by (nonlinear_arith)
        requires
            vn == x0 * n0 + x1 * n1 + x2 * n2,
    ;
    assert(vn * (n0 * n0) + vn * (n1 * n1) + vn * (n2 * n2) == vn * (n0 * n0 + n1 * n1 + n2
        * n2)) by (nonlinear_arith);
}

/// A floor root `l` of `t` bounds `b²·t` between `(b·l)²` and `(b·(l+1))²`.
proof fn lemma_lands_within(b: int, l: int, t: int)
    requires
        is_floor_sqrt(l, t),
        b >= 0,
    ensures
        (b * l) * (b * l) <= b * b * t,
        b * b * t <= (b * (l + 1)) * (b * (l + 1)),
{
    assert((b * l) * (b * l) == (b * b) * (l * l)) by (nonlinear_arith);
    assert((b * (l + 1)) * (b * (l + 1)) == (b * b) * ((l + 1) * (l + 1))) by (nonlinear_arith);
    assert((b * b) * (l * l) <= (b * b) * t) by (nonlinear_arith)
        requires
            l * l <= t,
    ;
    assert((b * b) * t <= (b * b) * ((l + 1) * (l + 1))) by (nonlinear_arith)
        requires
            t < (l + 1) * (l + 1),
    ;
}

/// A component `w` with `w² ≤ q` and `q·m² < 2^126` has `|w·m| < 2^63`.
proof fn lemma_scaled_component(w: int, m: int, q: int)
    requires
        w * w <= q,
        q * m * m < 0x4000_0000_0000_0000_0000_0000_0000_0000,
        m >= 1,
    ensures
        -0x8000_0000_0000_0000 < w * m < 0x8000_0000_0000_0000,
{
    assert((w * m) * (w * m) <= q * m * m) by (nonlinear_arith)
        requires
            w * w <= q,
    ;
    assert(-0x8000_0000_0000_0000 < w * m < 0x8000_0000_0000_0000) by (nonlinear_arith)
        requires
            (w * m) * (w * m) < 0x4000_0000_0000_0000_0000_0000_0000_0000,
    ;
}

} // verus!
