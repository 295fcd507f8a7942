//! Integer vector and quaternion values in fixed-point units, and the
//! exact integer helpers that the drivers' geometry is built on.
use vstd::prelude::*;

verus! {

/// A point or offset in space, one integer per axis, in the host's length unit.
#[derive(Clone, Copy, Debug, PartialEq, Eq, Structural)]
pub struct Vec3 {
    pub x: i32,
    pub y: i32,
    pub z: i32,
}

impl Vec3 {
    pub open spec fn spec_new(x: i32, y: i32, z: i32) -> Vec3 {
        Vec3 { x, y, z }
    }

    pub fn new(x: i32, y: i32, z: i32) -> (r: Vec3)
        ensures
            r == Vec3::spec_new(x, y, z),
    {
        Vec3 { x, y, z }
    }

    pub open spec fn spec_zero() -> Vec3 {
        Vec3 { x: 0, y: 0, z: 0 }
    }

    pub fn zero() -> (r: Vec3)
        ensures
            r == Vec3::spec_zero(),
    {
        Vec3 { x: 0, y: 0, z: 0 }
    }
}

/// A direction given by small integer components, such as a plane normal.
/// The zero direction is allowed.
#[derive(Clone, Copy, Debug, PartialEq, Eq, Structural)]
pub struct Direction {
    pub x: i8,
    pub y: i8,
    pub z: i8,
}

impl Direction {
    pub fn new(x: i8, y: i8, z: i8) -> (r: Direction)
        ensures
            r == (Direction { x, y, z }),
    {
        Direction { x, y, z }
    }
}

/// The fixed-point scale of quaternion components: `QUAT_ONE` stands for 1.
pub const QUAT_ONE: i32 = 1073741824;

/// An orientation as a quaternion whose components are fixed-point numbers
/// with scale `QUAT_ONE`.
#[derive(Clone, Copy, Debug, PartialEq, Eq, Structural)]
pub struct Quat {
    pub x: i32,
    pub y: i32,
    pub z: i32,
    pub w: i32,
}

impl Quat {
    pub open spec fn spec_identity() -> Quat {
        Quat { x: 0, y: 0, z: 0, w: QUAT_ONE }
    }

    pub fn identity() -> (r: Quat)
        ensures
            r == Quat::spec_identity(),
    {
        Quat { x: 0, y: 0, z: 0, w: QUAT_ONE }
    }
}

/// `r` is the floor of the square root of `n`.
pub open spec fn is_floor_sqrt(r: int, n: int) -> bool {
    0 <= r && r * r <= n < (r + 1) * (r + 1)
}

/// The floor of the square root of a natural number.
pub open spec fn floor_sqrt(n: nat) -> nat {
    choose|r: nat| is_floor_sqrt(r as int, n as int)
}

/// At most one number is the floor square root of `n`.
pub proof fn lemma_floor_sqrt_unique(a: int, b: int, n: int)
    requires
        is_floor_sqrt(a, n),
        is_floor_sqrt(b, n),
    ensures
        a == b,
{
    if a < b {
        assert((a + 1) * (a + 1) <= b * b) by (nonlinear_arith)
            requires
                0 <= a,
                a + 1 <= b,
        ;
    } else if b < a {
        assert((b + 1) * (b + 1) <= a * a) by (nonlinear_arith)
            requires
                0 <= b,
                b + 1 <= a,
        ;
    }
}

/// Largest value handed to `isqrt`.
pub const SQRT_INPUT_LIMIT: u128 = 0x4000_0000_0000_0000_0000_0000_0000_0000;

/// Floor square root by bisection, for inputs below 2^126.
pub fn isqrt(n: u128) -> (r: u128)
    requires
        n < SQRT_INPUT_LIMIT,
    ensures
        r as nat == floor_sqrt(n as nat),
        is_floor_sqrt(r as int, n as int),
{
    let mut lo: u128 = 0;
    let mut hi: u128 = 0x8000_0000_0000_0000;
    assert(hi * hi == SQRT_INPUT_LIMIT);
    while hi - lo > 1
        invariant
            lo < hi <= 0x8000_0000_0000_0000,
            lo * lo <= n,
            n < hi * hi,
        decreases hi - lo,
    {
        let mid: u128 = lo + (hi - lo) / 2;
        assert(mid * mid <= 0x8000_0000_0000_0000 * 0x8000_0000_0000_0000) by (nonlinear_arith)
            requires
                mid <= 0x8000_0000_0000_0000,
        ;
        if mid * mid <= n {
            lo = mid;
        } else {
            hi = mid;
        }
    }
    assert(hi == lo + 1);
    assert(is_floor_sqrt(lo as int, n as int));
    proof {
        let w: nat = lo as nat;
        assert(is_floor_sqrt(w as int, n as int));
        let c = floor_sqrt(n as nat);
        assert(is_floor_sqrt(c as int, n as int));
        lemma_floor_sqrt_unique(c as int, lo as int, n as int);
    }
    lo
}

/// `a / d` rounded to the nearest integer, halves away from zero.
pub open spec fn round_div(a: int, d: int) -> int {
    if a >= 0 {
        (2 * a + d) / (2 * d)
    } else {
        -((-2 * a + d) / (2 * d))
    }
}

/// The nearest `i32` to `a`.
pub open spec fn clamp_i32(a: int) -> i32 {
    if a < i32::MIN {
        i32::MIN
    } else if a > i32::MAX {
        i32::MAX
    } else {
        a as i32
    }
}

/// `|a * b| <= A * B` when `|a| <= A` and `|b| <= B`.
pub proof fn lemma_mul_abs_bound(a: int, b: int, ab: int, bb: int)
    requires
        -ab <= a <= ab,
        -bb <= b <= bb,
    ensures
        -(ab * bb) <= a * b <= ab * bb,
{
    assert(-(ab * bb) <= a * b <= ab * bb) by (nonlinear_arith)
        requires
            -ab <= a <= ab,
            -bb <= b <= bb,
    ;
}

/// `base + num / den`, the quotient rounded as `round_div` does and the sum kept
/// within `i32`.
pub fn add_quotient_clamped(base: i128, num: i128, den: i128) -> (r: i32)
    requires
        -0x1_0000_0000_0000_0000 <= base <= 0x1_0000_0000_0000_0000,
        -0x100_0000_0000_0000_0000_0000_0000_0000 <= num <= 0x100_0000_0000_0000_0000_0000_0000_0000,
        0 < den <= 0x100_0000_0000_0000_0000_0000_0000_0000,
    ensures
        r == clamp_i32(base + round_div(num as int, den as int)),
{
    let c: i128 = if num >= 0 {
        (2 * num + den) / (2 * den)
    } else {
        -((-2 * num + den) / (2 * den))
    };
    let ghost m: int = if num >= 0 {
        2 * num + den
    } else {
        -2 * num + den
    };
    assert(0 <= m / (2 * den as int) <= m) by (nonlinear_arith)
        requires
            den > 0,
            m >= 0,
    ;
    let t: i128 = base + c;
    if t < i32::MIN as i128 {
        i32::MIN
    } else if t > i32::MAX as i128 {
        i32::MAX
    } else {
        t as i32
    }
}

} // verus!
