use vstd::prelude::*;
use crate::math::{add_quotient_clamped, clamp_i32, lemma_mul_abs_bound, round_div, Quat, Vec3, QUAT_ONE};
use crate::transform::{Handedness, Transform};
use std::marker::PhantomData;

verus! {

/// Moves the camera by an offset given in the parent's own frame, so that
/// the offset turns with the parent (an over-the-shoulder arm).
#[derive(Clone, Copy, Debug, PartialEq, Eq, Structural)]
pub struct Arm {
    pub offset: Vec3,
}

pub open spec fn cross(a: (int, int, int), b: (int, int, int)) -> (int, int, int) {
    (a.1 * b.2 - a.2 * b.1, a.2 * b.0 - a.0 * b.2, a.0 * b.1 - a.1 * b.0)
}

/// How far turning `v` by `q` moves it, scaled by `QUAT_ONE²`: with
/// `u = (q.x, q.y, q.z)` and `t = 2 (u × v)`, the change is `q.w t + u × t`.
/// For a unit quaternion this is the rotated vector minus `v`.
pub open spec fn turn_change(q: Quat, v: Vec3) -> (int, int, int) {
    let u = (q.x as int, q.y as int, q.z as int);
    let c = cross(u, (v.x as int, v.y as int, v.z as int));
    let t = (2 * c.0, 2 * c.1, 2 * c.2);
    let d = cross(u, t);
    (q.w * t.0 + d.0, q.w * t.1 + d.1, q.w * t.2 + d.2)
}

impl Arm {
    pub fn new(offset: Vec3) -> (r: Arm)
        ensures
            r.offset == offset,
    {
        Arm { offset }
    }

    /// The parent's position plus the offset turned by the parent's
    /// rotation, each axis rounded to the nearest integer and kept within `i32`; the
    /// rotation passes through.
    pub open spec fn output<H: Handedness>(self, parent: Transform<H>) -> Transform<H> {
        let p = parent.position;
        let o = self.offset;
        let c = turn_change(parent.rotation, o);
        let den = QUAT_ONE * QUAT_ONE;
        Transform {
            position: Vec3 {
                x: clamp_i32(p.x + o.x + round_div(c.0, den)),
                y: clamp_i32(p.y + o.y + round_div(c.1, den)),
                z: clamp_i32(p.z + o.z + round_div(c.2, den)),
            },
            rotation: parent.rotation,
            phantom: PhantomData,
        }
    }

    pub fn update<H: Handedness>(&self, parent: &Transform<H>) -> (r: Transform<H>)
        ensures
            r == self.output(*parent),
    {
        let q = parent.rotation;
        let o = self.offset;
        let (ux, uy, uz, w): (i128, i128, i128, i128) = (q.x as i128, q.y as i128, q.z as i128, q.w as i128);
        let (vx, vy, vz): (i128, i128, i128) = (o.x as i128, o.y as i128, o.z as i128);
        let ghost b31: int = 0x8000_0000;
        let ghost b64: int = 0x1_0000_0000_0000_0000;
        proof {
            lemma_mul_abs_bound(uy as int, vz as int, b31, b31);
            lemma_mul_abs_bound(uz as int, vy as int, b31, b31);
            lemma_mul_abs_bound(uz as int, vx as int, b31, b31);
            lemma_mul_abs_bound(ux as int, vz as int, b31, b31);
            lemma_mul_abs_bound(ux as int, vy as int, b31, b31);
            lemma_mul_abs_bound(uy as int, vx as int, b31, b31);
        }
        let tx: i128 = 2 * (uy * vz - uz * vy);
        let ty: i128 = 2 * (uz * vx - ux * vz);
        let tz: i128 = 2 * (ux * vy - uy * vx);
        proof {
            lemma_mul_abs_bound(w as int, tx as int, b31, b64);
            lemma_mul_abs_bound(w as int, ty as int, b31, b64);
            lemma_mul_abs_bound(w as int, tz as int, b31, b64);
            lemma_mul_abs_bound(uy as int, tz as int, b31, b64);
            lemma_mul_abs_bound(uz as int, ty as int, b31, b64);
            lemma_mul_abs_bound(uz as int, tx as int, b31, b64);
            lemma_mul_abs_bound(ux as int, tz as int, b31, b64);
            lemma_mul_abs_bound(ux as int, ty as int, b31, b64);
            lemma_mul_abs_bound(uy as int, tx as int, b31, b64);
        }
        let cx: i128 = w * tx + (uy * tz - uz * ty);
        let cy: i128 = w * ty + (uz * tx - ux * tz);
        let cz: i128 = w * tz + (ux * ty - uy * tx);
        assert(turn_change(q, o) == (cx as int, cy as int, cz as int));
        let den: i128 = QUAT_ONE as i128 * QUAT_ONE as i128;
        let p = parent.position;
        let x = add_quotient_clamped(p.x as i128 + vx, cx, den);
        let y = add_quotient_clamped(p.y as i128 + vy, cy, den);
        let z = add_quotient_clamped(p.z as i128 + vz, cz, den);
        Transform { position: Vec3 { x, y, z }, rotation: parent.rotation, phantom: PhantomData }
    }
}

} // verus!
