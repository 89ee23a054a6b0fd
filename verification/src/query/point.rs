//! Point queries: projection of a point on a shape, distance to it, and
//! containment.
use crate::bounding_volume::aabb::AABB;
use crate::math::Point;
use crate::math::isometry::{Int3, Isometry};
use crate::math::scalar::isqrt;
use vstd::prelude::*;

verus! {

/// The projection of a point on a shape.
#[derive(Clone, Copy, Debug, PartialEq, Eq, Structural)]
pub struct PointProjection {
    /// Whether the point was inside the shape.
    pub is_inside: bool,
    /// The projected point.
    pub point: Point,
}

/// The feature of a shape that a projection lies on.
#[derive(Clone, Copy, Debug, PartialEq, Eq, Structural)]
pub enum FeatureId {
    Vertex(usize),
    Edge(usize),
    Face(usize),
    Unknown,
}

impl PointProjection {
    pub fn new(is_inside: bool, point: Point) -> (r: PointProjection)
        ensures
            r == (PointProjection { is_inside, point }),
    {
        PointProjection { is_inside, point }
    }
}

/// A shape that points can be projected on.
///
/// With `solid`, a point inside the shape is its own projection, at
/// distance zero. Without, it is projected on the boundary, at a distance
/// that is not positive. For a point outside the shape `solid` changes nothing.
pub trait PointQuery {
    /// What `project_point` returns.
    spec fn project_point_spec(&self, m: &Isometry, pt: &Point, solid: bool) -> PointProjection;

    /// What `project_point_with_feature` returns.
    spec fn project_point_with_feature_spec(&self, m: &Isometry, pt: &Point) -> (
        PointProjection,
        FeatureId,
    );

    /// What `distance_to_point` returns.
    spec fn distance_to_point_spec(&self, m: &Isometry, pt: &Point, solid: bool) -> int;

    /// What `contains_point` returns.
    spec fn contains_point_spec(&self, m: &Isometry, pt: &Point) -> bool;

    /// Whether the queries about `pt` stay within the lattice; unless a
    /// shape says otherwise, they do if `pt` can be taken into the frame of `m`.
    open spec fn can_query(&self, m: &Isometry, pt: &Point) -> bool {
        m.inverse_transform(Int3::of_point(*pt)).fits()
    }

    /// The projection of `pt` on the shape placed by `m`.
    fn project_point(&self, m: &Isometry, pt: &Point, solid: bool) -> (r: PointProjection)
        requires
            m.wf(),
            self.can_query(m, pt),
        ensures
            r == self.project_point_spec(m, pt, solid),
    ;

    /// The projection of `pt` on the boundary of the shape, with the
    /// feature of the shape that it lies on.
    fn project_point_with_feature(&self, m: &Isometry, pt: &Point) -> (r: (PointProjection, FeatureId))
        requires
            m.wf(),
            self.can_query(m, pt),
        ensures
            r == self.project_point_with_feature_spec(m, pt),
    ;

    /// The distance from `pt` to the shape placed by `m`.
    fn distance_to_point(&self, m: &Isometry, pt: &Point, solid: bool) -> (r: i64)
        requires
            m.wf(),
            self.can_query(m, pt),
        ensures
            r == self.distance_to_point_spec(m, pt, solid),
    ;

    /// Whether `pt` is inside the shape placed by `m`.
    fn contains_point(&self, m: &Isometry, pt: &Point) -> (r: bool)
        requires
            m.wf(),
            self.can_query(m, pt),
        ensures
            r == self.contains_point_spec(m, pt),
    ;
}

/// How far `p` lies outside of the interval from `lo` to `hi`.
pub open spec fn gap(lo: int, hi: int, p: int) -> int {
    if p < lo {
        lo - p
    } else if p > hi {
        p - hi
    } else {
        0
    }
}

/// `r` is the square root of `x`, rounded down.
pub open spec fn is_floor_sqrt(r: int, x: int) -> bool {
    r >= 0 && r * r <= x < (r + 1) * (r + 1)
}

/// The square root of `x`, rounded down.
pub open spec fn floor_sqrt(x: int) -> int {
    choose|r: int| is_floor_sqrt(r, x)
}

/// Only one number is the square root of `x`, rounded down.
pub proof fn lemma_floor_sqrt(r: int, x: int)
    requires
        r >= 0,
        r * r <= x < (r + 1) * (r + 1),
    ensures
        floor_sqrt(x) == r,
{
    let s = floor_sqrt(x);
    assert(is_floor_sqrt(r, x));
    assert(is_floor_sqrt(s, x));
    assert(s == r) by (nonlinear_arith)
        requires
            r >= 0,
            s >= 0,
            r * r <= x < (r + 1) * (r + 1),
            s * s <= x < (s + 1) * (s + 1),
    {
        if s < r {
            assert((s + 1) * (s + 1) <= r * r);
        }
        if r < s {
            assert((r + 1) * (r + 1) <= s * s);
        }
    }
}

/// The root of a non-negative number is not negative, and positive for a
/// positive number.
pub proof fn lemma_floor_sqrt_sign(x: int)
    requires
        x >= 0,
    ensures
        floor_sqrt(x) >= 0,
        x > 0 ==> floor_sqrt(x) >= 1,
        x == 0 ==> floor_sqrt(x) == 0,
{
    if x == 0 {
        lemma_floor_sqrt(0, 0);
    } else {
        lemma_floor_sqrt_exists(x);
        let s = floor_sqrt(x);
        assert(is_floor_sqrt(s, x));
        if s == 0 {
            assert((s + 1) * (s + 1) == 1) by (nonlinear_arith)
                requires
                    s == 0,
            ;
        }
    }
}

/// Every non-negative number has a square root rounded down.
pub proof fn lemma_floor_sqrt_exists(x: int)
    requires
        x >= 0,
    ensures
        exists|r: int| is_floor_sqrt(r, x),
    decreases x,
{
    if x == 0 {
        assert(is_floor_sqrt(0, x));
    } else {
        let y = x - 1;
        lemma_floor_sqrt_exists(y);
        let r = choose|r: int| is_floor_sqrt(r, y);
        if (r + 1) * (r + 1) <= x {
            assert((r + 1) * (r + 1) <= x < (r + 2) * (r + 2)) by (nonlinear_arith)
                requires
                    r >= 0,
                    x - 1 < (r + 1) * (r + 1),
                    (r + 1) * (r + 1) <= x,
            ;
            assert((r + 1) + 1 == r + 2);
            assert(is_floor_sqrt(r + 1, x));
        } else {
            assert(is_floor_sqrt(r, x));
        }
    }
}

/// The Euclidean length of the displacement `(dx, dy, dz)`, rounded down.
pub(crate) fn length(dx: i64, dy: i64, dz: i64) -> (r: i64)
    requires
        -0x2_0000_0000 <= dx <= 0x2_0000_0000,
        -0x2_0000_0000 <= dy <= 0x2_0000_0000,
        -0x2_0000_0000 <= dz <= 0x2_0000_0000,
    ensures
        r == floor_sqrt(dx * dx + dy * dy + dz * dz),
        0 <= r <= 0x4_0000_0000,
{
    let x: i128 = dx as i128;
    let y: i128 = dy as i128;
    let z: i128 = dz as i128;
    assert(0 <= x * x <= 0x4_0000_0000_0000_0000) by (nonlinear_arith)
        requires
            -0x2_0000_0000 <= x <= 0x2_0000_0000,
    ;
    assert(0 <= y * y <= 0x4_0000_0000_0000_0000) by (nonlinear_arith)
        requires
            -0x2_0000_0000 <= y <= 0x2_0000_0000,
    ;
    assert(0 <= z * z <= 0x4_0000_0000_0000_0000) by (nonlinear_arith)
        requires
            -0x2_0000_0000 <= z <= 0x2_0000_0000,
    ;
    let sq: u128 = (x * x + y * y + z * z) as u128;
    let r = isqrt(sq);
    proof {
        assert(r <= 0x4_0000_0000) by (nonlinear_arith)
            requires
                r * r <= sq,
                sq <= 0xc_0000_0000_0000_0000,
        {
            if r > 0x4_0000_0000 {
                assert(r * r >= 0x4_0000_0001 * 0x4_0000_0001);
            }
        }
        lemma_floor_sqrt(r as int, sq as int);
    }
    r as i64
}

impl AABB {
    /// The squared distance from `p` to the box; zero if `p` is in the box.
    pub open spec fn distance_squared_to(self, p: Point) -> int {
        let gx = gap(self.mins.x as int, self.maxs.x as int, p.x as int);
        let gy = gap(self.mins.y as int, self.maxs.y as int, p.y as int);
        let gz = gap(self.mins.z as int, self.maxs.z as int, p.z as int);
        gx * gx + gy * gy + gz * gz
    }

    /// The least distance from `p` to a face of the box, for `p` in the box.
    pub open spec fn depth_of(self, p: Point) -> int {
        let dx = if p.x - self.mins.x <= self.maxs.x - p.x {
            p.x - self.mins.x
        } else {
            self.maxs.x - p.x
        };
        let dy = if p.y - self.mins.y <= self.maxs.y - p.y {
            p.y - self.mins.y
        } else {
            self.maxs.y - p.y
        };
        let dz = if p.z - self.mins.z <= self.maxs.z - p.z {
            p.z - self.mins.z
        } else {
            self.maxs.z - p.z
        };
        let dxy = if dx <= dy {
            dx
        } else {
            dy
        };
        if dxy <= dz {
            dxy
        } else {
            dz
        }
    }

    /// The distance from `p` to the box, in the frame of the box: the
    /// Euclidean distance rounded down for a point outside; for a point
    /// inside, zero if the box is solid, else the distance to the nearest
    /// face with a minus sign.
    pub open spec fn distance_to_local_point_spec(self, p: Point, solid: bool) -> int {
        if !self.has_point(p) {
            floor_sqrt(self.distance_squared_to(p))
        } else if solid {
            0
        } else {
            -self.depth_of(p)
        }
    }

    /// A point has squared distance zero to the box exactly if it is in the box.
    pub proof fn lemma_distance_zero(self, p: Point)
        ensures
            self.distance_squared_to(p) >= 0,
            self.distance_squared_to(p) == 0 <==> self.has_point(p),
    {
        let gx = gap(self.mins.x as int, self.maxs.x as int, p.x as int);
        let gy = gap(self.mins.y as int, self.maxs.y as int, p.y as int);
        let gz = gap(self.mins.z as int, self.maxs.z as int, p.z as int);
        assert(gx * gx >= 0 && gy * gy >= 0 && gz * gz >= 0 && (gx != 0 ==> gx * gx > 0) && (gy != 0
            ==> gy * gy > 0) && (gz != 0 ==> gz * gz > 0)) by (nonlinear_arith);
    }

    /// For a point outside the box the distance is positive and does not
    /// depend on `solid`; for a point inside it is zero or negative.
    pub proof fn lemma_distance_sign(self, p: Point)
        ensures
            !self.has_point(p) ==> self.distance_to_local_point_spec(p, true) >= 1
                && self.distance_to_local_point_spec(p, true) == self.distance_to_local_point_spec(
                p,
                false,
            ),
            self.has_point(p) ==> self.distance_to_local_point_spec(p, true) == 0
                && self.distance_to_local_point_spec(p, false) <= 0,
    {
        self.lemma_distance_zero(p);
        lemma_floor_sqrt_sign(self.distance_squared_to(p));
    }

    /// Whether `p`, given in the frame of the box, is in the box.
    pub fn contains_local_point(&self, p: &Point) -> (r: bool)
        ensures
            r == self.has_point(*p),
    {
        self.mins.partial_le(p) && p.partial_le(&self.maxs)
    }

    /// The distance from `p` to the box, in the frame of the box.
    pub fn distance_to_local_point(&self, p: &Point, solid: bool) -> (r: i64)
        ensures
            r == self.distance_to_local_point_spec(*p, solid),
    {
        if !self.contains_local_point(p) {
            let gx = axis_gap(self.mins.x, self.maxs.x, p.x);
            let gy = axis_gap(self.mins.y, self.maxs.y, p.y);
            let gz = axis_gap(self.mins.z, self.maxs.z, p.z);
            length(gx, gy, gz)
        } else if solid {
            0
        } else {
            let dx = axis_depth(self.mins.x, self.maxs.x, p.x);
            let dy = axis_depth(self.mins.y, self.maxs.y, p.y);
            let dz = axis_depth(self.mins.z, self.maxs.z, p.z);
            let dxy: i64 = if dx <= dy {
                dx
            } else {
                dy
            };
            if dxy <= dz {
                -dxy
            } else {
                -dz
            }
        }
    }
}

pub(crate) fn axis_gap(lo: i32, hi: i32, p: i32) -> (r: i64)
    ensures
        r == gap(lo as int, hi as int, p as int),
        0 <= r <= 0xffff_ffff,
{
    if p < lo {
        lo as i64 - p as i64
    } else if p > hi {
        p as i64 - hi as i64
    } else {
        0
    }
}

fn axis_depth(lo: i32, hi: i32, p: i32) -> (r: i64)
    ensures
        r == if p - lo <= hi - p {
            p - lo
        } else {
            hi - p
        },
{
    let a: i64 = p as i64 - lo as i64;
    let b: i64 = hi as i64 - p as i64;
    if a <= b {
        a
    } else {
        b
    }
}

} // verus!
