//! Points, directions and colours on the integer lattice.

use vstd::prelude::*;
use crate::interval::{saturating_difference, saturating_sum};

verus! {

/// Three lattice coordinates. The same type serves as a point, as the step between two
/// points and as a colour.
#[derive(Clone, Copy, Debug, PartialEq, Eq, Structural)]
pub struct Vec3 {
    pub x: i64,
    pub y: i64,
    pub z: i64,
}

impl Vec3 {
    /// The coordinate on axis `n`: `y` for 1, `z` for 2, `x` for any other `n`.
    pub open spec fn axis(self, n: int) -> i64 {
        if n == 1 {
            self.y
        } else if n == 2 {
            self.z
        } else {
            self.x
        }
    }

    /// The vector with the coordinates `x`, `y` and `z`.
    pub open spec fn at(x: int, y: int, z: int) -> Vec3 {
        Vec3 { x: x as i64, y: y as i64, z: z as i64 }
    }

    /// Whether no coordinate is one of the two integers that stand for infinity.
    pub open spec fn is_finite(self) -> bool {
        &&& i64::MIN < self.x < i64::MAX
        &&& i64::MIN < self.y < i64::MAX
        &&& i64::MIN < self.z < i64::MAX
    }

    /// The sum, coordinate by coordinate, saturated.
    pub open spec fn plus(self, rhs: Vec3) -> Vec3 {
        Vec3 {
            x: crate::interval::saturate(self.x + rhs.x),
            y: crate::interval::saturate(self.y + rhs.y),
            z: crate::interval::saturate(self.z + rhs.z),
        }
    }

    /// The difference, coordinate by coordinate, saturated.
    pub open spec fn minus(self, rhs: Vec3) -> Vec3 {
        Vec3 {
            x: crate::interval::saturate(self.x - rhs.x),
            y: crate::interval::saturate(self.y - rhs.y),
            z: crate::interval::saturate(self.z - rhs.z),
        }
    }

    /// The opposite vector, saturated.
    pub open spec fn negated(self) -> Vec3 {
        Vec3 {
            x: crate::interval::saturate(-self.x),
            y: crate::interval::saturate(-self.y),
            z: crate::interval::saturate(-self.z),
        }
    }

    pub fn new(x: i64, y: i64, z: i64) -> (v: Self)
        ensures
            v == (Vec3 { x, y, z }),
    {
        Vec3 { x, y, z }
    }

    pub fn x(&self) -> (r: i64)
        ensures
            r == self.x,
    {
        self.x
    }

    pub fn y(&self) -> (r: i64)
        ensures
            r == self.y,
    {
        self.y
    }

    pub fn z(&self) -> (r: i64)
        ensures
            r == self.z,
    {
        self.z
    }

    /// The coordinate on axis `n`, see [`Vec3::axis`].
    pub fn get(&self, n: usize) -> (r: i64)
        ensures
            r == self.axis(n as int),
    {
        if n == 1 {
            self.y
        } else if n == 2 {
            self.z
        } else {
            self.x
        }
    }

    pub fn add(self, rhs: Vec3) -> (v: Vec3)
        ensures
            v == self.plus(rhs),
    {
        Vec3 {
            x: saturating_sum(self.x, rhs.x),
            y: saturating_sum(self.y, rhs.y),
            z: saturating_sum(self.z, rhs.z),
        }
    }

    pub fn sub(self, rhs: Vec3) -> (v: Vec3)
        ensures
            v == self.minus(rhs),
    {
        Vec3 {
            x: saturating_difference(self.x, rhs.x),
            y: saturating_difference(self.y, rhs.y),
            z: saturating_difference(self.z, rhs.z),
        }
    }

    pub fn neg(self) -> (v: Vec3)
        ensures
            v == self.negated(),
    {
        Vec3 {
            x: saturating_difference(0, self.x),
            y: saturating_difference(0, self.y),
            z: saturating_difference(0, self.z),
        }
    }
}

impl Default for Vec3 {
    fn default() -> (v: Self)
        ensures
            v == (Vec3 { x: 0, y: 0, z: 0 }),
    {
        Vec3 { x: 0, y: 0, z: 0 }
    }
}

} // verus!
