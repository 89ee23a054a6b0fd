//! Boxes with faces parallel to the planes of their frame.
use crate::bounding_volume::HasAABB;
use crate::bounding_volume::aabb::AABB;
use crate::math::isometry::Isometry;
use crate::math::{fits_i32, Point, Vector};
use crate::query::point::{FeatureId, PointProjection, PointQuery};
use vstd::prelude::*;

verus! {

/// The box of the points whose coordinates do not exceed the half-extents
/// in absolute value. A planar box has the greatest half-extent along `z`.
#[derive(Clone, Copy, Debug, PartialEq, Eq, Structural)]
pub struct Cuboid {
    pub half_extents: Vector,
}

/// The opposite of `h`; the least coordinate, which has none, stays.
pub open spec fn opposite(h: i32) -> i32 {
    if h == i32::MIN {
        i32::MIN
    } else {
        (-h) as i32
    }
}

/// The value clamped to the interval from `lo` to `hi`.
pub open spec fn clamped(lo: int, hi: int, p: int) -> int {
    if p < lo {
        lo
    } else if p > hi {
        hi
    } else {
        p
    }
}

fn clamp(lo: i32, hi: i32, p: i32) -> (r: i32)
    ensures
        r == clamped(lo as int, hi as int, p as int),
{
    if p < lo {
        lo
    } else if p > hi {
        hi
    } else {
        p
    }
}

impl AABB {
    /// The projection of `p` on the box, in the frame of the box: the
    /// nearest point of the box for a point outside; for a point inside,
    /// the point itself if the box is solid, else the nearest point of the
    /// nearest face, the faces taken in the order of the axes, the low
    /// face of an axis before the high one.
    pub open spec fn project_local_point_spec(self, p: Point, solid: bool) -> PointProjection {
        if !self.has_point(p) {
            PointProjection {
                is_inside: false,
                point: Point {
                    x: clamped(self.mins.x as int, self.maxs.x as int, p.x as int) as i32,
                    y: clamped(self.mins.y as int, self.maxs.y as int, p.y as int) as i32,
                    z: clamped(self.mins.z as int, self.maxs.z as int, p.z as int) as i32,
                },
            }
        } else if solid {
            PointProjection { is_inside: true, point: p }
        } else {
            let d = self.depth_of(p);
            let q = if p.x - self.mins.x == d {
                Point { x: self.mins.x, y: p.y, z: p.z }
            } else if self.maxs.x - p.x == d {
                Point { x: self.maxs.x, y: p.y, z: p.z }
            } else if p.y - self.mins.y == d {
                Point { x: p.x, y: self.mins.y, z: p.z }
            } else if self.maxs.y - p.y == d {
                Point { x: p.x, y: self.maxs.y, z: p.z }
            } else if p.z - self.mins.z == d {
                Point { x: p.x, y: p.y, z: self.mins.z }
            } else {
                Point { x: p.x, y: p.y, z: self.maxs.z }
            };
            PointProjection { is_inside: true, point: q }
        }
    }

    /// The projection of `p` on the box, in the frame of the box.
    pub fn project_local_point(&self, p: &Point, solid: bool) -> (r: PointProjection)
        ensures
            r == self.project_local_point_spec(*p, solid),
    {
        if !self.contains_local_point(p) {
            PointProjection::new(
                false,
                Point {
                    x: clamp(self.mins.x, self.maxs.x, p.x),
                    y: clamp(self.mins.y, self.maxs.y, p.y),
                    z: clamp(self.mins.z, self.maxs.z, p.z),
                },
            )
        } else if solid {
            PointProjection::new(true, *p)
        } else {
            let d: i64 = -self.distance_to_local_point(p, false);
            let q = if p.x as i64 - self.mins.x as i64 == d {
                Point { x: self.mins.x, y: p.y, z: p.z }
            } else if self.maxs.x as i64 - p.x as i64 == d {
                Point { x: self.maxs.x, y: p.y, z: p.z }
            } else if p.y as i64 - self.mins.y as i64 == d {
                Point { x: p.x, y: self.mins.y, z: p.z }
            } else if self.maxs.y as i64 - p.y as i64 == d {
                Point { x: p.x, y: self.maxs.y, z: p.z }
            } else if p.z as i64 - self.mins.z as i64 == d {
                Point { x: p.x, y: p.y, z: self.mins.z }
            } else {
                Point { x: p.x, y: p.y, z: self.maxs.z }
            };
            PointProjection::new(true, q)
        }
    }

    /// The projection of a point is a point of the box, and for a point
    /// outside of a valid box it is as far from the point as the box is.
    pub proof fn lemma_projection_in_box(self, p: Point, solid: bool)
        requires
            self.is_valid(),
        ensures
            self.has_point(self.project_local_point_spec(p, solid).point),
            self.project_local_point_spec(p, solid).is_inside == self.has_point(p),
            !self.has_point(p) ==> p.distance_squared_spec(
                self.project_local_point_spec(p, solid).point,
            ) == self.distance_squared_to(p),
    {
        let q = self.project_local_point_spec(p, solid).point;
        let gx = crate::query::point::gap(self.mins.x as int, self.maxs.x as int, p.x as int);
        let gy = crate::query::point::gap(self.mins.y as int, self.maxs.y as int, p.y as int);
        let gz = crate::query::point::gap(self.mins.z as int, self.maxs.z as int, p.z as int);
        if !self.has_point(p) {
            let dx = p.x - q.x;
            let dy = p.y - q.y;
            let dz = p.z - q.z;
            assert(dx * dx == gx * gx) by (nonlinear_arith)
                requires
                    dx == gx || dx == -gx,
            ;
            assert(dy * dy == gy * gy) by (nonlinear_arith)
                requires
                    dy == gy || dy == -gy,
            ;
            assert(dz * dz == gz * gz) by (nonlinear_arith)
                requires
                    dz == gz || dz == -gz,
            ;
        }
    }
}

impl Cuboid {
    /// No half-extent is negative.
    pub open spec fn wf(self) -> bool {
        self.half_extents.x >= 0 && self.half_extents.y >= 0 && self.half_extents.z >= 0
    }

    /// The box with the given half-extents.
    pub fn new(half_extents: Vector) -> (r: Cuboid)
        requires
            half_extents.x >= 0 && half_extents.y >= 0 && half_extents.z >= 0,
        ensures
            r == (Cuboid { half_extents }),
            r.wf(),
    {
        Cuboid { half_extents }
    }

    pub fn half_extents(&self) -> (r: &Vector)
        ensures
            *r == self.half_extents,
    {
        &self.half_extents
    }

    /// The box in its own frame.
    pub open spec fn local_box(self) -> AABB {
        AABB {
            mins: Point {
                x: opposite(self.half_extents.x),
                y: opposite(self.half_extents.y),
                z: opposite(self.half_extents.z),
            },
            maxs: Point { x: self.half_extents.x, y: self.half_extents.y, z: self.half_extents.z },
        }
    }

    /// The half-extents of the box placed by `m` along the axes of the
    /// frame of the caller: a rigid motion of the lattice permutes them.
    pub open spec fn world_half_extents(self, m: Isometry) -> Vector {
        Vector {
            x: self.half_extents.at(m.rotation.x.axis) as i32,
            y: self.half_extents.at(m.rotation.y.axis) as i32,
            z: self.half_extents.at(m.rotation.z.axis) as i32,
        }
    }

    /// The box placed by `m`, as a box in the frame of the caller.
    pub open spec fn world_box(self, m: Isometry) -> AABB {
        let w = self.world_half_extents(m);
        let t = m.translation;
        AABB {
            mins: Point { x: (t.x - w.x) as i32, y: (t.y - w.y) as i32, z: (t.z - w.z) as i32 },
            maxs: Point { x: (t.x + w.x) as i32, y: (t.y + w.y) as i32, z: (t.z + w.z) as i32 },
        }
    }

    /// The box placed by `m` lies within the lattice.
    pub open spec fn fits_in_lattice(self, m: Isometry) -> bool {
        let w = self.world_half_extents(m);
        let t = m.translation;
        &&& self.wf()
        &&& fits_i32(t.x - w.x) && fits_i32(t.x + w.x)
        &&& fits_i32(t.y - w.y) && fits_i32(t.y + w.y)
        &&& fits_i32(t.z - w.z) && fits_i32(t.z + w.z)
    }
}

impl Cuboid {
    /// Whether the box placed by `m` lies within the lattice.
    pub fn is_in_lattice(&self, m: &Isometry) -> (r: bool)
        ensures
            r == self.fits_in_lattice(*m),
    {
        let h = self.half_extents;
        if h.x < 0 || h.y < 0 || h.z < 0 {
            return false;
        }
        let wx: i64 = h.get(m.rotation.x.axis) as i64;
        let wy: i64 = h.get(m.rotation.y.axis) as i64;
        let wz: i64 = h.get(m.rotation.z.axis) as i64;
        let tx: i64 = m.translation.x as i64;
        let ty: i64 = m.translation.y as i64;
        let tz: i64 = m.translation.z as i64;
        let lo: i64 = -0x8000_0000;
        let hi: i64 = 0x7fff_ffff;
        lo <= tx - wx && tx + wx <= hi && lo <= ty - wy && ty + wy <= hi && lo <= tz - wz && tz + wz
            <= hi
    }
}

impl HasAABB for Cuboid {
    open spec fn aabb_spec(&self, m: &Isometry) -> AABB {
        self.world_box(*m)
    }

    open spec fn can_bound(&self, m: &Isometry) -> bool {
        self.fits_in_lattice(*m)
    }

    fn aabb(&self, m: &Isometry) -> (r: AABB) {
        let wx: i64 = self.half_extents.get(m.rotation.x.axis) as i64;
        let wy: i64 = self.half_extents.get(m.rotation.y.axis) as i64;
        let wz: i64 = self.half_extents.get(m.rotation.z.axis) as i64;
        let tx: i64 = m.translation.x as i64;
        let ty: i64 = m.translation.y as i64;
        let tz: i64 = m.translation.z as i64;
        AABB {
            mins: Point { x: (tx - wx) as i32, y: (ty - wy) as i32, z: (tz - wz) as i32 },
            maxs: Point { x: (tx + wx) as i32, y: (ty + wy) as i32, z: (tz + wz) as i32 },
        }
    }
}

impl PointQuery for Cuboid {
    open spec fn project_point_spec(&self, m: &Isometry, pt: &Point, solid: bool) -> PointProjection {
        self.world_box(*m).project_local_point_spec(*pt, solid)
    }

    open spec fn project_point_with_feature_spec(&self, m: &Isometry, pt: &Point) -> (
        PointProjection,
        FeatureId,
    ) {
        (self.world_box(*m).project_local_point_spec(*pt, false), FeatureId::Unknown)
    }

    open spec fn distance_to_point_spec(&self, m: &Isometry, pt: &Point, solid: bool) -> int {
        self.world_box(*m).distance_to_local_point_spec(*pt, solid)
    }

    open spec fn contains_point_spec(&self, m: &Isometry, pt: &Point) -> bool {
        self.world_box(*m).has_point(*pt)
    }

    open spec fn can_query(&self, m: &Isometry, pt: &Point) -> bool {
        self.fits_in_lattice(*m)
    }

    fn project_point(&self, m: &Isometry, pt: &Point, solid: bool) -> (r: PointProjection) {
        self.aabb(m).project_local_point(pt, solid)
    }

    fn project_point_with_feature(&self, m: &Isometry, pt: &Point) -> (r: (PointProjection, FeatureId)) {
        (self.aabb(m).project_local_point(pt, false), FeatureId::Unknown)
    }

    fn distance_to_point(&self, m: &Isometry, pt: &Point, solid: bool) -> (r: i64) {
        self.aabb(m).distance_to_local_point(pt, solid)
    }

    fn contains_point(&self, m: &Isometry, pt: &Point) -> (r: bool) {
        self.aabb(m).contains_local_point(pt)
    }
}

impl Cuboid {
    /// For a point outside of the box the distance is positive and does
    /// not depend on `solid`; for a point inside it is zero if the box is
    /// solid, and not positive if it is not.
    pub proof fn lemma_solid_matters_inside_only(self, m: Isometry, pt: Point)
        ensures
            !self.contains_point_spec(&m, &pt) ==> self.distance_to_point_spec(&m, &pt, true)
                == self.distance_to_point_spec(&m, &pt, false) && self.distance_to_point_spec(
                &m,
                &pt,
                true,
            ) > 0 && self.project_point_spec(&m, &pt, true) == self.project_point_spec(&m, &pt, false),
            self.contains_point_spec(&m, &pt) ==> self.distance_to_point_spec(&m, &pt, true) == 0
                && self.distance_to_point_spec(&m, &pt, false) <= 0 && self.project_point_spec(
                &m,
                &pt,
                true,
            ).point == pt,
    {
        self.world_box(m).lemma_distance_sign(pt);
    }
}

} // verus!
