//! A point or direction in space.

use crate::fixed::{clamped, minus, nearest, over, plus, quotient, round, times, whole, ONE};
use vstd::prelude::*;

verus! {

/// Three fixed-point coordinates.
#[derive(Debug, PartialEq, Eq, Clone, Copy, Structural)]
pub struct Vector3 {
    pub x: i32,
    pub y: i32,
    pub z: i32,
}

impl Vector3 {
    /// The vector with every coordinate rounded to a whole number.
    pub open spec fn rounded(self) -> Vector3 {
        Vector3 {
            x: clamped(whole(nearest(self.x as int))) as i32,
            y: clamped(whole(nearest(self.y as int))) as i32,
            z: clamped(whole(nearest(self.z as int))) as i32,
        }
    }

    /// Whether every coordinate is a whole number.
    pub open spec fn is_whole(self) -> bool {
        self.x % ONE == 0 && self.y % ONE == 0 && self.z % ONE == 0
    }

    /// The coordinate-wise sum.
    pub open spec fn sum(self, other: Vector3) -> Vector3 {
        Vector3 {
            x: clamped(self.x + other.x) as i32,
            y: clamped(self.y + other.y) as i32,
            z: clamped(self.z + other.z) as i32,
        }
    }

    /// The coordinate-wise difference.
    pub open spec fn difference(self, other: Vector3) -> Vector3 {
        Vector3 {
            x: clamped(self.x - other.x) as i32,
            y: clamped(self.y - other.y) as i32,
            z: clamped(self.z - other.z) as i32,
        }
    }

    /// Every coordinate multiplied by the scalar `f`.
    pub open spec fn scaled(self, f: i32) -> Vector3 {
        Vector3 {
            x: clamped(quotient(self.x * f, ONE as int)) as i32,
            y: clamped(quotient(self.y * f, ONE as int)) as i32,
            z: clamped(quotient(self.z * f, ONE as int)) as i32,
        }
    }

    /// Every coordinate divided by the scalar `d`.
    pub open spec fn shrunk(self, d: i32) -> Vector3 {
        Vector3 {
            x: clamped(quotient(self.x * ONE, d as int)) as i32,
            y: clamped(quotient(self.y * ONE, d as int)) as i32,
            z: clamped(quotient(self.z * ONE, d as int)) as i32,
        }
    }

    /// The first coordinate of the pair `(a, b)` turned by the angle whose
    /// cosine and sine are `cosa` and `sina`.
    pub open spec fn turned_first(a: i32, b: i32, cosa: i32, sina: i32) -> i32 {
        clamped(
            clamped(quotient(a * cosa, ONE as int)) - clamped(quotient(b * sina, ONE as int)),
        ) as i32
    }

    /// The second coordinate of the pair `(a, b)` turned by the angle whose
    /// cosine and sine are `cosa` and `sina`.
    pub open spec fn turned_second(a: i32, b: i32, cosa: i32, sina: i32) -> i32 {
        clamped(
            clamped(quotient(a * sina, ONE as int)) + clamped(quotient(b * cosa, ONE as int)),
        ) as i32
    }

    /// The vector turned around the X axis by the angle whose cosine and
    /// sine are `cosa` and `sina`.
    pub open spec fn turned_x(self, cosa: i32, sina: i32) -> Vector3 {
        Vector3 {
            x: self.x,
            y: Self::turned_first(self.y, self.z, cosa, sina),
            z: Self::turned_second(self.y, self.z, cosa, sina),
        }
    }

    /// The vector turned around the Y axis by the angle whose cosine and
    /// sine are `cosa` and `sina`.
    pub open spec fn turned_y(self, cosa: i32, sina: i32) -> Vector3 {
        Vector3 {
            x: Self::turned_second(self.z, self.x, cosa, sina),
            y: self.y,
            z: Self::turned_first(self.z, self.x, cosa, sina),
        }
    }

    /// The vector turned around the Z axis by the angle whose cosine and
    /// sine are `cosa` and `sina`.
    pub open spec fn turned_z(self, cosa: i32, sina: i32) -> Vector3 {
        Vector3 {
            x: Self::turned_first(self.x, self.y, cosa, sina),
            y: Self::turned_second(self.x, self.y, cosa, sina),
            z: self.z,
        }
    }

    /// Create a new Vector3 from the given coordinates
    pub fn new(x: i32, y: i32, z: i32) -> (v: Vector3)
        ensures
            v == (Vector3 { x, y, z }),
    {
        Vector3 { x, y, z }
    }

    /// Create a new Vector3 with every coordinate rounded
    pub fn round(&self) -> (v: Vector3)
        ensures
            v == self.rounded(),
    {
        Vector3::new(round(self.x), round(self.y), round(self.z))
    }

    /// Rotate the point around the X axis by the angle whose cosine and sine
    /// are given
    pub fn rotate_x(&mut self, cosa: i32, sina: i32)
        ensures
            *final(self) == old(self).turned_x(cosa, sina),
    {
        let y = minus(times(self.y, cosa), times(self.z, sina));
        let z = plus(times(self.y, sina), times(self.z, cosa));

        self.y = y;
        self.z = z;
    }

    /// Rotate the point around the Y axis by the angle whose cosine and sine
    /// are given
    pub fn rotate_y(&mut self, cosa: i32, sina: i32)
        ensures
            *final(self) == old(self).turned_y(cosa, sina),
    {
        let z = minus(times(self.z, cosa), times(self.x, sina));
        let x = plus(times(self.z, sina), times(self.x, cosa));

        self.z = z;
        self.x = x;
    }

    /// Rotate the point around the Z axis by the angle whose cosine and sine
    /// are given
    pub fn rotate_z(&mut self, cosa: i32, sina: i32)
        ensures
            *final(self) == old(self).turned_z(cosa, sina),
    {
        let x = minus(times(self.x, cosa), times(self.y, sina));
        let y = plus(times(self.x, sina), times(self.y, cosa));

        self.x = x;
        self.y = y;
    }

    /// The coordinate-wise sum of two vectors.
    pub fn add(self, other: Vector3) -> (v: Vector3)
        ensures
            v == self.sum(other),
    {
        Vector3::new(plus(self.x, other.x), plus(self.y, other.y), plus(self.z, other.z))
    }

    /// The coordinate-wise difference of two vectors.
    pub fn sub(self, other: Vector3) -> (v: Vector3)
        ensures
            v == self.difference(other),
    {
        Vector3::new(minus(self.x, other.x), minus(self.y, other.y), minus(self.z, other.z))
    }

    /// The vector scaled by the factor `f`.
    pub fn mul(self, f: i32) -> (v: Vector3)
        ensures
            v == self.scaled(f),
    {
        Vector3::new(times(self.x, f), times(self.y, f), times(self.z, f))
    }

    /// The vector divided by `d`.
    pub fn div(self, d: i32) -> (v: Vector3)
        requires
            d != 0,
        ensures
            v == self.shrunk(d),
    {
        Vector3::new(over(self.x, d), over(self.y, d), over(self.z, d))
    }

    /// Adds `other` to the vector in place.
    pub fn add_assign(&mut self, other: Vector3)
        ensures
            *final(self) == old(self).sum(other),
    {
        self.x = plus(self.x, other.x);
        self.y = plus(self.y, other.y);
        self.z = plus(self.z, other.z);
    }

    /// Scales the vector by `f` in place.
    pub fn mul_assign(&mut self, f: i32)
        ensures
            *final(self) == old(self).scaled(f),
    {
        self.x = times(self.x, f);
        self.y = times(self.y, f);
        self.z = times(self.z, f);
    }
}

} // verus!
