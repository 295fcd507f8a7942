use vstd::prelude::*;
use crate::math::{add_quotient_clamped, clamp_i32, round_div, Vec3};
use crate::transform::{Handedness, Transform};
use std::marker::PhantomData;
use vstd::arithmetic::div_mod::lemma_fundamental_div_mod_converse;

verus! {

/// Eases the position toward the parent's, frame by frame; the rotation
/// passes through.
///
/// Each frame moves the previous output a fraction `dt / (dt + smoothness)`
/// of the way to the parent's position, where `dt` is the elapsed time and
/// `smoothness` a time constant in the same unit. This is one implicit
/// (backward) step of exponential decay toward the parent, a rational
/// stand-in for `1 - exp(-dt / smoothness)` with the same limits, and no
/// step overshoots. A zero smoothness follows the parent at once,
/// a large one barely moves, and zero elapsed time repeats the previous
/// output. The first frame starts at the parent's position.
///
/// In predictive mode the driver eases toward where the parent is heading
/// instead: the parent's position plus the step it made since the last
/// frame. This cuts the lag behind a moving parent, at the cost of
/// overshooting where the parent turns back.
#[derive(Clone, Copy, Debug, PartialEq, Eq, Structural)]
pub struct Smooth {
    pub smoothness: u32,
    pub predictive: bool,
    /// The position handed on in the last frame.
    pub previous: Option<Vec3>,
    /// The parent's position in the last frame.
    pub previous_input: Option<Vec3>,
}

/// One axis of a smoothing step from `from` toward `to`.
pub open spec fn ease_axis(from: i32, to: i32, dt: u64, smoothness: u32) -> i32 {
    if dt + smoothness == 0 {
        from
    } else {
        clamp_i32(from + round_div((to - from) * dt, dt + smoothness))
    }
}

impl Smooth {
    pub fn new_position(smoothness: u32) -> (r: Smooth)
        ensures
            r == (Smooth { smoothness, predictive: false, previous: None, previous_input: None }),
    {
        Smooth { smoothness, predictive: false, previous: None, previous_input: None }
    }

    /// The same driver, easing toward the predicted position or not.
    pub fn predictive(self, predictive: bool) -> (r: Smooth)
        ensures
            r == (Smooth { predictive, ..self }),
    {
        Smooth { predictive, ..self }
    }

    /// The position eased toward: the parent's, or in predictive mode the
    /// parent's moved on by its last step, kept within `i32`.
    pub open spec fn target(self, parent: Vec3) -> Vec3 {
        match self.previous_input {
            Some(q) if self.predictive => Vec3 {
                x: clamp_i32(2 * parent.x - q.x),
                y: clamp_i32(2 * parent.y - q.y),
                z: clamp_i32(2 * parent.z - q.z),
            },
            _ => parent,
        }
    }

    pub open spec fn eased(self, target: Vec3, dt: u64) -> Vec3 {
        match self.previous {
            None => target,
            Some(p) => Vec3 {
                x: ease_axis(p.x, target.x, dt, self.smoothness),
                y: ease_axis(p.y, target.y, dt, self.smoothness),
                z: ease_axis(p.z, target.z, dt, self.smoothness),
            },
        }
    }

    pub open spec fn output<H: Handedness>(self, parent: Transform<H>, dt: u64) -> Transform<H> {
        Transform {
            position: self.eased(self.target(parent.position), dt),
            rotation: parent.rotation,
            phantom: PhantomData,
        }
    }

    /// The driver after a frame: it remembers the position it handed on and
    /// the parent's.
    pub open spec fn next<H: Handedness>(self, parent: Transform<H>, dt: u64) -> Smooth {
        Smooth {
            previous: Some(self.eased(self.target(parent.position), dt)),
            previous_input: Some(parent.position),
            ..self
        }
    }

    /// Run again from the same parent with no time elapsed, the driver
    /// hands on what it handed on in the frame before.
    pub proof fn lemma_zero_time_repeats<H: Handedness>(self, parent: Transform<H>, dt: u64)
        ensures
            self.next(parent, dt).output(parent, 0) == self.output(parent, dt),
    {
        let s = self.smoothness as int;
        if s > 0 {
            lemma_fundamental_div_mod_converse(s, 2 * s, 0, s);
        }
    }

    /// With zero smoothness and no prediction, every frame after the first
    /// hands on the parent itself.
    pub proof fn lemma_zero_smoothness_follows<H: Handedness>(self, parent: Transform<H>, dt: u64)
        requires
            self.smoothness == 0,
            !self.predictive,
            dt > 0,
        ensures
            self.output(parent, dt) == parent,
    {
        if let Some(p) = self.previous {
            lemma_ease_all_the_way(p.x, parent.position.x, dt);
            lemma_ease_all_the_way(p.y, parent.position.y, dt);
            lemma_ease_all_the_way(p.z, parent.position.z, dt);
        }
    }

    /// Where the smoothness outweighs the move, the position does not move:
    /// if on each axis twice the distance to the target, times the elapsed
    /// time, is below the elapsed time plus the smoothness, the previous
    /// position is handed on again.
    pub proof fn lemma_large_smoothness_holds<H: Handedness>(self, parent: Transform<H>, dt: u64)
        requires
            self.previous is Some,
            2 * abs(self.target(parent.position).x - self.previous->0.x) * dt < dt
                + self.smoothness,
            2 * abs(self.target(parent.position).y - self.previous->0.y) * dt < dt
                + self.smoothness,
            2 * abs(self.target(parent.position).z - self.previous->0.z) * dt < dt
                + self.smoothness,
        ensures
            self.output(parent, dt).position == self.previous->0,
    {
        let p = self.previous->0;
        let t = self.target(parent.position);
        lemma_ease_stays(p.x, t.x, dt, self.smoothness);
        lemma_ease_stays(p.y, t.y, dt, self.smoothness);
        lemma_ease_stays(p.z, t.z, dt, self.smoothness);
    }

    pub fn update<H: Handedness>(&mut self, parent: &Transform<H>, dt: u64) -> (r: Transform<H>)
        ensures
            r == old(self).output(*parent, dt),
            *final(self) == old(self).next(*parent, dt),
    {
        let p = parent.position;
        let target = match self.previous_input {
            Some(q) if self.predictive => Vec3 {
                x: extrapolate(p.x, q.x),
                y: extrapolate(p.y, q.y),
                z: extrapolate(p.z, q.z),
            },
            _ => p,
        };
        let position = match self.previous {
            None => target,
            Some(p) => Vec3 {
                x: ease(p.x, target.x, dt, self.smoothness),
                y: ease(p.y, target.y, dt, self.smoothness),
                z: ease(p.z, target.z, dt, self.smoothness),
            },
        };
        self.previous = Some(position);
        self.previous_input = Some(p);
        Transform { position, rotation: parent.rotation, phantom: PhantomData }
    }
}

pub open spec fn abs(a: int) -> int {
    if a < 0 {
        -a
    } else {
        a
    }
}

proof fn lemma_ease_all_the_way(from: i32, to: i32, dt: u64)
    requires
        dt > 0,
    ensures
        ease_axis(from, to, dt, 0) == to,
{
    let k = to - from;
    let d = dt as int;
    if k >= 0 {
        assert(2 * (k * d) + d == k * (2 * d) + d) by (nonlinear_arith);
        assert(k * d >= 0) by (nonlinear_arith)
            requires
                k >= 0,
                d > 0,
        ;
        lemma_fundamental_div_mod_converse(2 * (k * d) + d, 2 * d, k, d);
    } else {
        assert(-2 * (k * d) + d == (-k) * (2 * d) + d) by (nonlinear_arith);
        assert(k * d < 0) by (nonlinear_arith)
            requires
                k < 0,
                d > 0,
        ;
        lemma_fundamental_div_mod_converse(-2 * (k * d) + d, 2 * d, -k, d);
    }
}

proof fn lemma_ease_stays(from: i32, to: i32, dt: u64, smoothness: u32)
    requires
        2 * abs(to - from) * dt < dt + smoothness,
    ensures
        ease_axis(from, to, dt, smoothness) == from,
{
    let k = to - from;
    let d = dt + smoothness;
    if d > 0 {
        if k >= 0 {
            assert(2 * (k * dt) == 2 * k * dt) by (nonlinear_arith);
            lemma_fundamental_div_mod_converse(2 * (k * dt) + d, 2 * d, 0, 2 * (k * dt) + d);
        } else {
            assert(-2 * (k * dt) == 2 * (-k) * dt) by (nonlinear_arith);
            assert(2 * (-k) * dt >= 0) by (nonlinear_arith)
                requires
                    -k > 0,
            ;
            lemma_fundamental_div_mod_converse(-2 * (k * dt) + d, 2 * d, 0, -2 * (k * dt) + d);
        }
    }
}

fn extrapolate(now: i32, before: i32) -> (r: i32)
    ensures
        r == clamp_i32(2 * now - before),
{
    let t: i64 = 2 * now as i64 - before as i64;
    if t < i32::MIN as i64 {
        i32::MIN
    } else if t > i32::MAX as i64 {
        i32::MAX
    } else {
        t as i32
    }
}

fn ease(from: i32, to: i32, dt: u64, smoothness: u32) -> (r: i32)
    ensures
        r == ease_axis(from, to, dt, smoothness),
{
    let den: i128 = dt as i128 + smoothness as i128;
    if den == 0 {
        return from;
    }
    let diff: i128 = to as i128 - from as i128;
    assert(-0x1_0000_0000 * 0x1_0000_0000_0000_0000 <= diff * dt <= 0x1_0000_0000
        * 0x1_0000_0000_0000_0000) by (nonlinear_arith)
        requires
            -0x1_0000_0000 <= diff <= 0x1_0000_0000,
            0 <= dt <= 0x1_0000_0000_0000_0000,
    ;
    add_quotient_clamped(from as i128, diff * dt as i128, den)
}

} // verus!
