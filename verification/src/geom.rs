//! Fixed-point scalar helpers and the 3-D vector type used throughout the
//! collision subsystem.
//!
//! A coordinate counts *subunits*; one world unit (the edge of one voxel)
//! is `SUB` subunits.  Keeping everything in integers makes every result
//! of movement resolution exact.

use vstd::prelude::*;

verus! {

/// Subunits per world unit (the side of one voxel).
pub const SUB: i64 = 1024;

/// Largest magnitude accepted for one requested displacement component.
pub const MAX_MOVE: i64 = 0x4000_0000;

/// Largest magnitude a body position component may reach; positions are
/// clamped into `[-MAX_POS, MAX_POS]` when a body is translated.
pub const MAX_POS: i64 = 0x10_0000_0000_0000;

/// Largest body extent, in subunits, on any axis.
pub const MAX_DIM: i64 = 0x10_0000;

/// Largest cell count a collision grid may have on any axis.
pub const MAX_CELLS: usize = 0x10_0000;

/// A point or displacement in world space, in subunits.
#[derive(Clone, Copy, PartialEq, Eq, Structural, Debug)]
pub struct Vec3 {
    pub x: i64,
    pub y: i64,
    pub z: i64,
}

impl Vec3 {
    pub fn new(x: i64, y: i64, z: i64) -> (r: Vec3)
        ensures
            r == (Vec3 { x, y, z }),
    {
        Vec3 { x, y, z }
    }

    pub fn zero() -> (r: Vec3)
        ensures
            r == (Vec3 { x: 0i64, y: 0i64, z: 0i64 }),
    {
        Vec3 { x: 0, y: 0, z: 0 }
    }

    /// Whether all three components are zero.
    pub fn is_zero(&self) -> (r: bool)
        ensures
            r == (*self == (Vec3 { x: 0i64, y: 0i64, z: 0i64 })),
    {
        self.x == 0 && self.y == 0 && self.z == 0
    }
}

/// The mathematical value of a [`Vec3`]: three unbounded integers.
pub struct V3 {
    pub x: int,
    pub y: int,
    pub z: int,
}

impl View for Vec3 {
    type V = V3;

    open spec fn view(&self) -> V3 {
        V3 { x: self.x as int, y: self.y as int, z: self.z as int }
    }
}

pub open spec fn v3(x: int, y: int, z: int) -> V3 {
    V3 { x, y, z }
}

pub open spec fn v3_zero() -> V3 {
    v3(0, 0, 0)
}

pub open spec fn v3_add(a: V3, b: V3) -> V3 {
    v3(a.x + b.x, a.y + b.y, a.z + b.z)
}

pub open spec fn v3_sub(a: V3, b: V3) -> V3 {
    v3(a.x - b.x, a.y - b.y, a.z - b.z)
}

/// Sum of the componentwise magnitudes; the measure that bounds how long
/// a march can keep going.
pub open spec fn v3_abs_sum(a: V3) -> int {
    spec_abs(a.x) + spec_abs(a.y) + spec_abs(a.z)
}

/// Every component lies in `[-b, b]`.
pub open spec fn v3_bounded(a: V3, b: int) -> bool {
    &&& -b <= a.x <= b
    &&& -b <= a.y <= b
    &&& -b <= a.z <= b
}

/// Magnitude of a scalar, as a mathematical integer.
pub open spec fn spec_abs(n: int) -> int {
    if n < 0 {
        -n
    } else {
        n
    }
}

/// Sign of a scalar: -1, 0 or 1.
pub open spec fn spec_sign(n: int) -> int {
    if n < 0 {
        -1int
    } else if n == 0 {
        0int
    } else {
        1int
    }
}

/// Division that rounds toward zero, on a positive divisor.
pub open spec fn spec_div_to_zero(n: int, f: int) -> int
    recommends
        f >= 1,
{
    if n >= 0 {
        n / f
    } else {
        -((-n) / f)
    }
}

/// Magnitude of a scalar.
pub fn abs_i64(n: i64) -> (r: i64)
    requires
        n != i64::MIN,
    ensures
        r == spec_abs(n as int),
{
    if n < 0 {
        -n
    } else {
        n
    }
}

/// Division rounding toward zero, on a positive divisor.
pub fn div_to_zero(n: i64, f: i64) -> (r: i64)
    requires
        n != i64::MIN,
        f >= 1,
    ensures
        r == spec_div_to_zero(n as int, f as int),
        spec_abs(r as int) <= spec_abs(n as int),
        spec_sign(r as int) == spec_sign(n as int) || r == 0,
{
    if n >= 0 {
        n / f
    } else {
        -((-n) / f)
    }
}

/// The bounded marching step taken toward a remaining distance: per axis,
/// magnitude `min(|remaining|, SUB)` with the sign of the remainder.
pub open spec fn spec_axis_step(rem: int) -> int {
    if spec_abs(rem) < SUB as int {
        rem
    } else {
        SUB as int * spec_sign(rem)
    }
}

/// One bounded marching step toward `rem`, axis by axis.
pub open spec fn spec_step(rem: V3) -> V3 {
    v3(spec_axis_step(rem.x), spec_axis_step(rem.y), spec_axis_step(rem.z))
}

pub fn axis_step(rem: i64) -> (r: i64)
    requires
        rem != i64::MIN,
    ensures
        r == spec_axis_step(rem as int),
        spec_abs(r as int) <= spec_abs(rem as int),
        spec_abs(r as int) <= SUB as int,
        spec_sign(r as int) == spec_sign(rem as int),
{
    if abs_i64(rem) < SUB {
        rem
    } else if rem < 0 {
        -SUB
    } else {
        SUB
    }
}

/// Clamp a scalar into `[-MAX_POS, MAX_POS]`.
pub open spec fn spec_clamp_pos(n: int) -> int {
    if n < -MAX_POS as int {
        -MAX_POS as int
    } else if n > MAX_POS as int {
        MAX_POS as int
    } else {
        n
    }
}

pub fn clamp_pos(n: i64) -> (r: i64)
    ensures
        r == spec_clamp_pos(n as int),
{
    if n < -MAX_POS {
        -MAX_POS
    } else if n > MAX_POS {
        MAX_POS
    } else {
        n
    }
}

/// Of two ray travels on one axis, the one of smaller magnitude; on a tie
/// the first is kept.
pub open spec fn spec_min_mag(a: int, b: int) -> int {
    if spec_abs(a) <= spec_abs(b) {
        a
    } else {
        b
    }
}

pub fn min_mag(a: i64, b: i64) -> (r: i64)
    requires
        a != i64::MIN,
        b != i64::MIN,
    ensures
        r == spec_min_mag(a as int, b as int),
{
    if abs_i64(a) <= abs_i64(b) {
        a
    } else {
        b
    }
}

} // verus!
