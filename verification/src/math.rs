//! Points and vectors of the integer lattice.
//!
//! Planar geometry uses the same types: points and directions have a zero
//! `z` component, and shapes extend over the whole `z` axis.
pub mod scalar;
pub mod isometry;
pub mod gcd;

use vstd::prelude::*;

verus! {

/// One of the three coordinate axes.
#[derive(Clone, Copy, Debug, PartialEq, Eq, Structural)]
pub enum Axis {
    X,
    Y,
    Z,
}

/// A displacement of the lattice.
#[derive(Clone, Copy, Debug, PartialEq, Eq, Structural)]
pub struct Vector {
    pub x: i32,
    pub y: i32,
    pub z: i32,
}

/// A direction with 64-bit components, such as the normal of a surface:
/// its length says nothing, and sums of weighted lattice vectors fit in it.
#[derive(Clone, Copy, Debug, PartialEq, Eq, Structural)]
pub struct WideVector {
    pub x: i64,
    pub y: i64,
    pub z: i64,
}

/// A position of the lattice.
#[derive(Clone, Copy, Debug, PartialEq, Eq, Structural)]
pub struct Point {
    pub x: i32,
    pub y: i32,
    pub z: i32,
}

/// Whether `v` is representable as a lattice coordinate.
pub open spec fn fits_i32(v: int) -> bool {
    i32::MIN <= v <= i32::MAX
}

/// The dot product of two integer triples.
pub open spec fn dot3(ax: int, ay: int, az: int, bx: int, by: int, bz: int) -> int {
    ax * bx + ay * by + az * bz
}

impl Vector {
    /// The component along `a`.
    pub open spec fn at(self, a: Axis) -> int {
        match a {
            Axis::X => self.x as int,
            Axis::Y => self.y as int,
            Axis::Z => self.z as int,
        }
    }

    /// Whether the opposite vector is representable.
    pub open spec fn negatable(self) -> bool {
        self.x > i32::MIN && self.y > i32::MIN && self.z > i32::MIN
    }

    pub open spec fn is_zero_spec(self) -> bool {
        self.x == 0 && self.y == 0 && self.z == 0
    }

    /// The dot product with `o`.
    pub open spec fn dot_spec(self, o: Vector) -> int {
        dot3(self.x as int, self.y as int, self.z as int, o.x as int, o.y as int, o.z as int)
    }

    pub fn new(x: i32, y: i32, z: i32) -> (r: Vector)
        ensures
            r == (Vector { x, y, z }),
    {
        Vector { x, y, z }
    }

    pub fn zero() -> (r: Vector)
        ensures
            r == (Vector { x: 0, y: 0, z: 0 }),
    {
        Vector { x: 0, y: 0, z: 0 }
    }

    /// The vector with every component equal to `v`.
    pub fn repeat(v: i32) -> (r: Vector)
        ensures
            r == (Vector { x: v, y: v, z: v }),
    {
        Vector { x: v, y: v, z: v }
    }

    pub fn get(&self, a: Axis) -> (r: i32)
        ensures
            r == self.at(a),
    {
        match a {
            Axis::X => self.x,
            Axis::Y => self.y,
            Axis::Z => self.z,
        }
    }

    pub fn is_zero(&self) -> (r: bool)
        ensures
            r == self.is_zero_spec(),
    {
        self.x == 0 && self.y == 0 && self.z == 0
    }

    /// The opposite vector.
    pub fn neg(&self) -> (r: Vector)
        requires
            self.negatable(),
        ensures
            r.x == -self.x,
            r.y == -self.y,
            r.z == -self.z,
    {
        Vector { x: -self.x, y: -self.y, z: -self.z }
    }

    /// The dot product, which always fits in 64 bits plus a sign.
    pub fn dot(&self, o: &Vector) -> (r: i128)
        ensures
            r == self.dot_spec(*o),
    {
        let ax: i128 = self.x as i128;
        let ay: i128 = self.y as i128;
        let az: i128 = self.z as i128;
        let bx: i128 = o.x as i128;
        let by: i128 = o.y as i128;
        let bz: i128 = o.z as i128;
        assert(-0x4000_0000_0000_0000 <= ax * bx <= 0x4000_0000_0000_0000) by (nonlinear_arith)
            requires
                -0x8000_0000 <= ax <= 0x8000_0000,
                -0x8000_0000 <= bx <= 0x8000_0000,
        ;
        assert(-0x4000_0000_0000_0000 <= ay * by <= 0x4000_0000_0000_0000) by (nonlinear_arith)
            requires
                -0x8000_0000 <= ay <= 0x8000_0000,
                -0x8000_0000 <= by <= 0x8000_0000,
        ;
        assert(-0x4000_0000_0000_0000 <= az * bz <= 0x4000_0000_0000_0000) by (nonlinear_arith)
            requires
                -0x8000_0000 <= az <= 0x8000_0000,
                -0x8000_0000 <= bz <= 0x8000_0000,
        ;
        ax * bx + ay * by + az * bz
    }
}

impl WideVector {
    /// Whether the opposite direction is representable.
    pub open spec fn negatable(self) -> bool {
        self.x > i64::MIN && self.y > i64::MIN && self.z > i64::MIN
    }

    /// The direction of the lattice vector `v`.
    pub open spec fn of_vector(v: Vector) -> WideVector {
        WideVector { x: v.x as i64, y: v.y as i64, z: v.z as i64 }
    }

    pub fn new(x: i64, y: i64, z: i64) -> (r: WideVector)
        ensures
            r == (WideVector { x, y, z }),
    {
        WideVector { x, y, z }
    }

    pub fn zero() -> (r: WideVector)
        ensures
            r == (WideVector { x: 0, y: 0, z: 0 }),
    {
        WideVector { x: 0, y: 0, z: 0 }
    }

    /// The direction of the lattice vector `v`.
    pub fn from_vector(v: &Vector) -> (r: WideVector)
        ensures
            r == Self::of_vector(*v),
            r.negatable(),
    {
        WideVector { x: v.x as i64, y: v.y as i64, z: v.z as i64 }
    }

    pub fn is_zero(&self) -> (r: bool)
        ensures
            r == (self.x == 0 && self.y == 0 && self.z == 0),
    {
        self.x == 0 && self.y == 0 && self.z == 0
    }
}

impl Point {
    /// The coordinate along `a`.
    pub open spec fn at(self, a: Axis) -> int {
        match a {
            Axis::X => self.x as int,
            Axis::Y => self.y as int,
            Axis::Z => self.z as int,
        }
    }

    /// Component-wise `<=`.
    pub open spec fn le(self, o: Point) -> bool {
        self.x <= o.x && self.y <= o.y && self.z <= o.z
    }

    /// The position vector of this point.
    pub open spec fn coords_spec(self) -> Vector {
        Vector { x: self.x, y: self.y, z: self.z }
    }

    /// Whether `self + v` is a lattice point.
    pub open spec fn can_translate(self, v: Vector) -> bool {
        fits_i32(self.x + v.x) && fits_i32(self.y + v.y) && fits_i32(self.z + v.z)
    }

    /// The squared Euclidean distance to `o`.
    pub open spec fn distance_squared_spec(self, o: Point) -> int {
        (self.x - o.x) * (self.x - o.x) + (self.y - o.y) * (self.y - o.y) + (self.z - o.z) * (
        self.z - o.z)
    }

    pub fn new(x: i32, y: i32, z: i32) -> (r: Point)
        ensures
            r == (Point { x, y, z }),
    {
        Point { x, y, z }
    }

    pub fn origin() -> (r: Point)
        ensures
            r == (Point { x: 0, y: 0, z: 0 }),
    {
        Point { x: 0, y: 0, z: 0 }
    }

    pub fn get(&self, a: Axis) -> (r: i32)
        ensures
            r == self.at(a),
    {
        match a {
            Axis::X => self.x,
            Axis::Y => self.y,
            Axis::Z => self.z,
        }
    }

    pub fn coords(&self) -> (r: Vector)
        ensures
            r == self.coords_spec(),
    {
        Vector { x: self.x, y: self.y, z: self.z }
    }

    /// Component-wise `<=`: the partial order of the lattice.
    pub fn partial_le(&self, o: &Point) -> (r: bool)
        ensures
            r == self.le(*o),
    {
        self.x <= o.x && self.y <= o.y && self.z <= o.z
    }

    /// Component-wise `>=`.
    pub fn partial_ge(&self, o: &Point) -> (r: bool)
        ensures
            r == o.le(*self),
    {
        self.x >= o.x && self.y >= o.y && self.z >= o.z
    }

    /// The component-wise minimum: the greatest lower bound of the two points.
    pub fn inf(&self, o: &Point) -> (r: Point)
        ensures
            r.x == if self.x <= o.x { self.x } else { o.x },
            r.y == if self.y <= o.y { self.y } else { o.y },
            r.z == if self.z <= o.z { self.z } else { o.z },
    {
        Point {
            x: if self.x <= o.x { self.x } else { o.x },
            y: if self.y <= o.y { self.y } else { o.y },
            z: if self.z <= o.z { self.z } else { o.z },
        }
    }

    /// The component-wise maximum: the least upper bound of the two points.
    pub fn sup(&self, o: &Point) -> (r: Point)
        ensures
            r.x == if self.x >= o.x { self.x } else { o.x },
            r.y == if self.y >= o.y { self.y } else { o.y },
            r.z == if self.z >= o.z { self.z } else { o.z },
    {
        Point {
            x: if self.x >= o.x { self.x } else { o.x },
            y: if self.y >= o.y { self.y } else { o.y },
            z: if self.z >= o.z { self.z } else { o.z },
        }
    }

    /// The point displaced by `v`.
    pub fn translated(&self, v: &Vector) -> (r: Point)
        requires
            self.can_translate(*v),
        ensures
            r.x == self.x + v.x,
            r.y == self.y + v.y,
            r.z == self.z + v.z,
    {
        Point { x: self.x + v.x, y: self.y + v.y, z: self.z + v.z }
    }

    /// The squared Euclidean distance to `o`.
    pub fn distance_squared(&self, o: &Point) -> (r: u128)
        ensures
            r == self.distance_squared_spec(*o),
    {
        let dx: i128 = self.x as i128 - o.x as i128;
        let dy: i128 = self.y as i128 - o.y as i128;
        let dz: i128 = self.z as i128 - o.z as i128;
        assert(0 <= dx * dx <= 0x1_0000_0000_0000_0000) by (nonlinear_arith)
            requires
                -0x1_0000_0000 <= dx <= 0x1_0000_0000,
        ;
        assert(0 <= dy * dy <= 0x1_0000_0000_0000_0000) by (nonlinear_arith)
            requires
                -0x1_0000_0000 <= dy <= 0x1_0000_0000,
        ;
        assert(0 <= dz * dz <= 0x1_0000_0000_0000_0000) by (nonlinear_arith)
            requires
                -0x1_0000_0000 <= dz <= 0x1_0000_0000,
        ;
        (dx * dx + dy * dy + dz * dz) as u128
    }
}

} // verus!
