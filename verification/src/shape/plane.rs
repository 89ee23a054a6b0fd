//! The half-space below a plane through the origin of its frame.
use crate::math::isometry::{Int3, Isometry};
use crate::math::{Point, Vector};
use crate::query::point::{FeatureId, PointProjection, PointQuery};
use vstd::prelude::*;

verus! {

/// The half-space of the points `p` with `normal . p <= 0`.
#[derive(Clone, Copy, Debug, PartialEq, Eq, Structural)]
pub struct Plane {
    pub normal: Vector,
}

/// A unit vector of the lattice: one component is `1` or `-1`, the others vanish.
pub open spec fn is_unit(v: Vector) -> bool {
    &&& -1 <= v.x <= 1
    &&& -1 <= v.y <= 1
    &&& -1 <= v.z <= 1
    &&& (if v.x == 0 {
        0int
    } else {
        1int
    }) + (if v.y == 0 {
        0int
    } else {
        1int
    }) + (if v.z == 0 {
        0int
    } else {
        1int
    }) == 1
}

/// The product of `v` with a factor that is `-1`, `0` or `1`.
pub open spec fn signed(w: int, v: int) -> int {
    if w == 0 {
        0
    } else if w > 0 {
        v
    } else {
        -v
    }
}

proof fn lemma_signed(w: int, v: int)
    by (nonlinear_arith)
    requires
        -1 <= w <= 1,
    ensures
        w * v == signed(w, v),
{
}

/// Whether `v` is a unit vector of the lattice.
pub fn is_unit_vector(v: &Vector) -> (r: bool)
    ensures
        r == is_unit(*v),
{
    let nx: u8 = if v.x == 0 {
        0
    } else {
        1
    };
    let ny: u8 = if v.y == 0 {
        0
    } else {
        1
    };
    let nz: u8 = if v.z == 0 {
        0
    } else {
        1
    };
    -1 <= v.x && v.x <= 1 && -1 <= v.y && v.y <= 1 && -1 <= v.z && v.z <= 1 && nx + ny + nz == 1
}

impl Plane {
    pub open spec fn wf(self) -> bool {
        is_unit(self.normal)
    }

    /// The plane with the given unit normal, which points out of the half-space.
    pub fn new(normal: Vector) -> (r: Plane)
        requires
            is_unit(normal),
        ensures
            r == (Plane { normal }),
            r.wf(),
    {
        Plane { normal }
    }

    /// The normal of the plane.
    pub fn normal(&self) -> (r: &Vector)
        ensures
            *r == self.normal,
    {
        &self.normal
    }

    /// The signed distance from the point `ls`, given in the frame of the
    /// plane, to the plane: positive outside of the half-space.
    pub open spec fn local_distance(self, ls: Int3) -> int {
        self.normal.x * ls.x + self.normal.y * ls.y + self.normal.z * ls.z
    }

    /// The signed distance from `pt` to the plane placed by `m`.
    pub open spec fn signed_distance(self, m: Isometry, pt: Point) -> int {
        self.local_distance(m.inverse_transform(Int3::of_point(pt)))
    }

    /// The normal of the plane placed by `m`.
    pub open spec fn world_normal(self, m: Isometry) -> Int3 {
        m.rotate(Int3::of_vector(self.normal))
    }

    /// The foot of the perpendicular from `pt` to the plane placed by `m`.
    pub open spec fn foot(self, m: Isometry, pt: Point) -> Int3 {
        let d = self.signed_distance(m, pt);
        let wn = self.world_normal(m);
        Int3 { x: pt.x - wn.x * d, y: pt.y - wn.y * d, z: pt.z - wn.z * d }
    }

    /// The foot of the perpendicular is a point of the lattice, and it lies
    /// on the plane.
    pub proof fn lemma_foot(self, m: Isometry, pt: Point)
        requires
            self.wf(),
            m.wf(),
            m.inverse_transform(Int3::of_point(pt)).fits(),
        ensures
            self.foot(m, pt).fits(),
            fits_distance(self.signed_distance(m, pt)),
            self.local_distance(m.inverse_transform(self.foot(m, pt))) == 0,
    {
        let n = self.normal;
        let ls = m.inverse_transform(Int3::of_point(pt));
        let d = self.signed_distance(m, pt);
        let wn = self.world_normal(m);
        let f = self.foot(m, pt);
        lemma_signed(n.x as int, ls.x);
        lemma_signed(n.y as int, ls.y);
        lemma_signed(n.z as int, ls.z);
        lemma_signed(wn.x, d);
        lemma_signed(wn.y, d);
        lemma_signed(wn.z, d);
        m.lemma_round_trip(Int3::of_point(pt));
        assert(m.transform(ls) == Int3::of_point(pt));
        let lf = m.inverse_transform(f);
        lemma_signed(n.x as int, lf.x);
        lemma_signed(n.y as int, lf.y);
        lemma_signed(n.z as int, lf.z);
    }
}

/// A distance from a lattice point to a plane through the origin of a frame
/// in which the point is a lattice point.
pub open spec fn fits_distance(d: int) -> bool {
    -0x8000_0000 <= d <= 0x8000_0000
}

impl PointQuery for Plane {
    open spec fn project_point_spec(&self, m: &Isometry, pt: &Point, solid: bool) -> PointProjection {
        let d = self.signed_distance(*m, *pt);
        let inside = d <= 0;
        if inside && solid {
            PointProjection { is_inside: true, point: *pt }
        } else {
            let f = self.foot(*m, *pt);
            PointProjection {
                is_inside: inside,
                point: Point { x: f.x as i32, y: f.y as i32, z: f.z as i32 },
            }
        }
    }

    open spec fn project_point_with_feature_spec(&self, m: &Isometry, pt: &Point) -> (
        PointProjection,
        FeatureId,
    ) {
        (self.project_point_spec(m, pt, false), FeatureId::Face(0))
    }

    open spec fn distance_to_point_spec(&self, m: &Isometry, pt: &Point, solid: bool) -> int {
        let d = self.signed_distance(*m, *pt);
        if d < 0 && solid {
            0
        } else {
            d
        }
    }

    open spec fn contains_point_spec(&self, m: &Isometry, pt: &Point) -> bool {
        self.signed_distance(*m, *pt) <= 0
    }

    open spec fn can_query(&self, m: &Isometry, pt: &Point) -> bool {
        self.wf() && m.inverse_transform(Int3::of_point(*pt)).fits()
    }

    fn project_point(&self, m: &Isometry, pt: &Point, solid: bool) -> (r: PointProjection) {
        let ls_pt = m.inverse_transform_point(pt);
        let d: i128 = self.normal.dot(&ls_pt.coords());
        proof {
            self.lemma_foot(*m, *pt);
            lemma_signed(self.world_normal(*m).x, d as int);
            lemma_signed(self.world_normal(*m).y, d as int);
            lemma_signed(self.world_normal(*m).z, d as int);
        }
        let inside = d <= 0;
        if inside && solid {
            PointProjection::new(true, *pt)
        } else {
            let wn = m.rotate_vector(&self.normal);
            let x: i128 = pt.x as i128 - (wn.x as i128) * d;
            let y: i128 = pt.y as i128 - (wn.y as i128) * d;
            let z: i128 = pt.z as i128 - (wn.z as i128) * d;
            PointProjection::new(inside, Point { x: x as i32, y: y as i32, z: z as i32 })
        }
    }

    fn project_point_with_feature(&self, m: &Isometry, pt: &Point) -> (r: (PointProjection, FeatureId)) {
        (self.project_point(m, pt, false), FeatureId::Face(0))
    }

    fn distance_to_point(&self, m: &Isometry, pt: &Point, solid: bool) -> (r: i64) {
        let ls_pt = m.inverse_transform_point(pt);
        let dist: i128 = self.normal.dot(&ls_pt.coords());
        proof {
            self.lemma_foot(*m, *pt);
        }
        if dist < 0 && solid {
            0
        } else {
            dist as i64
        }
    }

    fn contains_point(&self, m: &Isometry, pt: &Point) -> (r: bool) {
        let ls_pt = m.inverse_transform_point(pt);
        self.normal.dot(&ls_pt.coords()) <= 0
    }
}

impl Plane {
    /// For a point outside the half-space the distance does not depend on
    /// `solid`, and it is positive; for a point inside it is zero if the
    /// half-space is solid and not positive if it is not.
    pub proof fn lemma_solid_matters_inside_only(self, m: Isometry, pt: Point)
        ensures
            !self.contains_point_spec(&m, &pt) ==> self.distance_to_point_spec(&m, &pt, true)
                == self.distance_to_point_spec(&m, &pt, false) && self.distance_to_point_spec(
                &m,
                &pt,
                true,
            ) > 0 && self.project_point_spec(&m, &pt, true) == self.project_point_spec(&m, &pt, false),
            self.contains_point_spec(&m, &pt) ==> self.distance_to_point_spec(&m, &pt, true) == 0
                && self.distance_to_point_spec(&m, &pt, false) <= 0 && self.project_point_spec(
                &m,
                &pt,
                true,
            ).point == pt,
            self.project_point_spec(&m, &pt, true).is_inside == self.contains_point_spec(&m, &pt),
            self.project_point_spec(&m, &pt, false).is_inside == self.contains_point_spec(&m, &pt),
    {
    }
}

} // verus!
