//! Closest points between boxes.
use crate::bounding_volume::HasAABB;
use crate::bounding_volume::aabb::AABB;
use crate::math::Point;
use crate::math::isometry::{Int3, Isometry};
use crate::query::closest_points::{
    box_distance_squared, box_has, cost_of, ClosestPoints, ClosestPointsWith,
};
use crate::query::composite_shape_against_shape::{
    can_relate, closest_outcome, lemma_witnesses_give_bounds, part_result, relative_placement,
    witnesses_in_boxes,
};
use crate::query::point::gap;
use crate::shape::compound::Compound;
use crate::shape::cuboid::Cuboid;
use vstd::prelude::*;

verus! {

/// Along one axis, the nearest coordinates of two intervals: the facing
/// ends if the intervals are apart, else the greater of the lower ends for both.
pub open spec fn nearest(lo1: int, hi1: int, lo2: int, hi2: int) -> (int, int) {
    if hi1 < lo2 {
        (hi1, lo2)
    } else if hi2 < lo1 {
        (lo1, hi2)
    } else if lo1 >= lo2 {
        (lo1, lo1)
    } else {
        (lo2, lo2)
    }
}

fn nearest_exec(lo1: i32, hi1: i32, lo2: i32, hi2: i32) -> (r: (i32, i32))
    ensures
        (r.0 as int, r.1 as int) == nearest(lo1 as int, hi1 as int, lo2 as int, hi2 as int),
{
    if hi1 < lo2 {
        (hi1, lo2)
    } else if hi2 < lo1 {
        (lo1, hi2)
    } else if lo1 >= lo2 {
        (lo1, lo1)
    } else {
        (lo2, lo2)
    }
}

impl AABB {
    /// The point of `self` nearest to `o` and the point of `o` nearest to `self`.
    pub open spec fn nearest_points(self, o: AABB) -> (Point, Point) {
        let x = nearest(self.mins.x as int, self.maxs.x as int, o.mins.x as int, o.maxs.x as int);
        let y = nearest(self.mins.y as int, self.maxs.y as int, o.mins.y as int, o.maxs.y as int);
        let z = nearest(self.mins.z as int, self.maxs.z as int, o.mins.z as int, o.maxs.z as int);
        (
            Point { x: x.0 as i32, y: y.0 as i32, z: z.0 as i32 },
            Point { x: x.1 as i32, y: y.1 as i32, z: z.1 as i32 },
        )
    }

    /// Closest points between two boxes of one frame: they intersect, or
    /// their nearest points are within the margin of each other, or the
    /// boxes are apart by more.
    pub open spec fn closest_points_spec(self, o: AABB, margin: u32) -> ClosestPoints {
        if self.intersects_spec(o) {
            ClosestPoints::Intersecting
        } else {
            let (p1, p2) = self.nearest_points(o);
            if p1.distance_squared_spec(p2) <= margin * margin {
                ClosestPoints::WithinMargin(p1, p2)
            } else {
                ClosestPoints::Disjoint
            }
        }
    }

    /// Closest points between two boxes of one frame.
    pub fn closest_points_to_box(&self, o: &AABB, margin: u32) -> (r: ClosestPoints)
        ensures
            r == self.closest_points_spec(*o, margin),
    {
        if self.mins.partial_le(&o.maxs) && o.mins.partial_le(&self.maxs) {
            ClosestPoints::Intersecting
        } else {
            let x = nearest_exec(self.mins.x, self.maxs.x, o.mins.x, o.maxs.x);
            let y = nearest_exec(self.mins.y, self.maxs.y, o.mins.y, o.maxs.y);
            let z = nearest_exec(self.mins.z, self.maxs.z, o.mins.z, o.maxs.z);
            let p1 = Point { x: x.0, y: y.0, z: z.0 };
            let p2 = Point { x: x.1, y: y.1, z: z.1 };
            let m: u128 = margin as u128;
            assert(m * m <= 0xffff_ffff_ffff_ffff) by (nonlinear_arith)
                requires
                    0 <= m <= 0xffff_ffff,
            ;
            if p1.distance_squared(&p2) <= m * m {
                ClosestPoints::WithinMargin(p1, p2)
            } else {
                ClosestPoints::Disjoint
            }
        }
    }

    /// The nearest points of two valid boxes are points of the boxes, as
    /// far from each other as the boxes are; and points within the margin
    /// are no farther apart than the margin.
    pub proof fn lemma_nearest_points(self, o: AABB, margin: u32)
        requires
            self.is_valid(),
            o.is_valid(),
        ensures
            self.has_point(self.nearest_points(o).0),
            o.has_point(self.nearest_points(o).1),
            self.nearest_points(o).0.distance_squared_spec(self.nearest_points(o).1)
                == box_distance_squared(self, o),
            self.closest_points_spec(o, margin) matches ClosestPoints::WithinMargin(p1, p2)
                ==> p1.distance_squared_spec(p2) <= margin * margin,
    {
        let (p1, p2) = self.nearest_points(o);
        let gx = gap(self.mins.x - o.maxs.x, self.maxs.x - o.mins.x, 0);
        let gy = gap(self.mins.y - o.maxs.y, self.maxs.y - o.mins.y, 0);
        let gz = gap(self.mins.z - o.maxs.z, self.maxs.z - o.mins.z, 0);
        let dx = p1.x - p2.x;
        let dy = p1.y - p2.y;
        let dz = p1.z - p2.z;
        assert(dx * dx == gx * gx) by (nonlinear_arith)
            requires
                dx == gx || dx == -gx,
        ;
        assert(dy * dy == gy * gy) by (nonlinear_arith)
            requires
                dy == gy || dy == -gy,
        ;
        assert(dz * dz == gz * gz) by (nonlinear_arith)
            requires
                dz == gz || dz == -gz,
        ;
        assert(gx * gx >= 0 && gy * gy >= 0 && gz * gz >= 0) by (nonlinear_arith);
    }
}

impl AABB {
    /// Closest points between two valid boxes are those between the boxes
    /// the other way around, with the roles exchanged.
    pub proof fn lemma_closest_points_symmetric(self, o: AABB, margin: u32)
        requires
            self.is_valid(),
            o.is_valid(),
        ensures
            self.closest_points_spec(o, margin) == o.closest_points_spec(self, margin).flipped(),
    {
        let (p1, p2) = self.nearest_points(o);
        assert(p1.distance_squared_spec(p2) == p2.distance_squared_spec(p1)) by (nonlinear_arith);
    }
}

impl Cuboid {
    /// Closest points between two boxes are those between the boxes the
    /// other way around, with the roles exchanged.
    pub proof fn lemma_closest_points_symmetric(
        self,
        m1: Isometry,
        m2: Isometry,
        g2: Cuboid,
        margin: u32,
    )
        requires
            self.fits_in_lattice(m1),
            g2.fits_in_lattice(m2),
        ensures
            self.closest_points_spec(&m1, &m2, &g2, margin) == g2.closest_points_spec(
                &m2,
                &m1,
                &self,
                margin,
            ).flipped(),
    {
        self.world_box(m1).lemma_closest_points_symmetric(g2.world_box(m2), margin);
    }
}

impl ClosestPointsWith<Cuboid> for Cuboid {
    open spec fn closest_points_spec(&self, m1: &Isometry, m2: &Isometry, g2: &Cuboid, margin: u32) -> ClosestPoints {
        self.world_box(*m1).closest_points_spec(g2.world_box(*m2), margin)
    }

    open spec fn can_pair(&self, m1: &Isometry, m2: &Isometry, g2: &Cuboid) -> bool {
        self.fits_in_lattice(*m1) && g2.fits_in_lattice(*m2)
    }

    fn closest_points(&self, m1: &Isometry, m2: &Isometry, g2: &Cuboid, margin: u32) -> (r: ClosestPoints) {
        self.aabb(m1).closest_points_to_box(&g2.aabb(m2), margin)
    }
}

impl Cuboid {
    /// A point of the box placed by `a` after `b` is, seen from the frame
    /// of `a`, a point of the box placed by `b`.
    pub proof fn lemma_point_in_moved_box(self, a: Isometry, b: Isometry, p: Int3)
        requires
            self.wf(),
            a.wf(),
            b.wf(),
            a.composed_translation(b).fits(),
            self.fits_in_lattice(a.compose_spec(b)),
            self.fits_in_lattice(b),
            box_has(self.world_box(a.compose_spec(b)), p),
        ensures
            box_has(self.world_box(b), a.inverse_transform(p)),
    {
        let q = a.inverse_transform(p);
        a.lemma_round_trip(p);
        assert(a.transform(q) == p);
        let ab = a.compose_spec(b);
        assert(Int3::of_vector(ab.translation) == a.transform(Int3::of_vector(b.translation)));
    }
}

/// What is reported of two boxes `b1` and `b2` is true of the boxes `l1`
/// and `l2` that hold their points seen from the frame of `m`.
proof fn lemma_pair_from_boxes(b1: AABB, b2: AABB, l1: AABB, l2: AABB, m: Isometry, margin: u32)
    requires
        b1.is_valid(),
        b2.is_valid(),
        forall|p: Int3| box_has(b1, p) ==> box_has(l1, #[trigger] m.inverse_transform(p)),
        forall|p: Int3| box_has(b2, p) ==> box_has(l2, #[trigger] m.inverse_transform(p)),
    ensures
        match b1.closest_points_spec(b2, margin) {
            ClosestPoints::WithinMargin(p1, p2) => {
                &&& box_has(l1, m.inverse_transform(Int3::of_point(p1)))
                &&& box_has(l2, m.inverse_transform(Int3::of_point(p2)))
                &&& p1.distance_squared_spec(p2) <= margin * margin
            },
            ClosestPoints::Intersecting => l1.intersects_spec(l2),
            ClosestPoints::Disjoint => true,
        },
{
    b1.lemma_nearest_points(b2, margin);
    match b1.closest_points_spec(b2, margin) {
        ClosestPoints::WithinMargin(p1, p2) => {
            assert(box_has(b1, Int3::of_point(p1)) && box_has(b2, Int3::of_point(p2)));
        },
        ClosestPoints::Intersecting => {
            let p = Point {
                x: if b1.mins.x >= b2.mins.x { b1.mins.x } else { b2.mins.x },
                y: if b1.mins.y >= b2.mins.y { b1.mins.y } else { b2.mins.y },
                z: if b1.mins.z >= b2.mins.z { b1.mins.z } else { b2.mins.z },
            };
            assert(box_has(b1, Int3::of_point(p)) && box_has(b2, Int3::of_point(p)));
            let q = m.inverse_transform(Int3::of_point(p));
            assert(box_has(l1, q) && box_has(l2, q));
        },
        ClosestPoints::Disjoint => {},
    }
}

/// What is reported of one pair of boxes is true of their boxes in the
/// frame of `m1`.
proof fn lemma_pair_witness(
    part: Cuboid,
    pm: Isometry,
    m1: Isometry,
    m2: Isometry,
    g2: Cuboid,
    margin: u32,
)
    requires
        part.wf(),
        g2.wf(),
        pm.wf(),
        m1.wf(),
        m2.wf(),
        m1.inverse_translation().fits(),
        m1.inverse_spec().composed_translation(m2).fits(),
        m1.composed_translation(pm).fits(),
        part.fits_in_lattice(pm),
        part.fits_in_lattice(m1.compose_spec(pm)),
        g2.fits_in_lattice(m2),
        g2.fits_in_lattice(relative_placement(m1, m2)),
    ensures
        match part.world_box(m1.compose_spec(pm)).closest_points_spec(g2.world_box(m2), margin) {
            ClosestPoints::WithinMargin(p1, p2) => {
                &&& box_has(part.world_box(pm), m1.inverse_transform(Int3::of_point(p1)))
                &&& box_has(
                    g2.world_box(relative_placement(m1, m2)),
                    m1.inverse_transform(Int3::of_point(p2)),
                )
                &&& p1.distance_squared_spec(p2) <= margin * margin
            },
            ClosestPoints::Intersecting => part.world_box(pm).intersects_spec(
                g2.world_box(relative_placement(m1, m2)),
            ),
            ClosestPoints::Disjoint => true,
        },
{
    let rel = relative_placement(m1, m2);
    let b1 = part.world_box(m1.compose_spec(pm));
    let b2 = g2.world_box(m2);
    let l1 = part.world_box(pm);
    let l2 = g2.world_box(rel);
    assert(m1.compose_spec(rel) == m2 && m1.composed_translation(rel).fits()) by {
        m1.lemma_compose_inverse(m2);
    }
    assert(rel.wf()) by {
        m1.lemma_inverse(Int3::of_vector(m2.translation));
        m1.inverse_spec().lemma_compose(m2, Int3::of_vector(m2.translation));
    }
    assert(b1.is_valid()) by {
        lemma_world_box_valid(part, m1.compose_spec(pm));
    }
    assert(b2.is_valid()) by {
        lemma_world_box_valid(g2, m2);
    }
    assert forall|p: Int3| box_has(b1, p) implies box_has(l1, #[trigger] m1.inverse_transform(p)) by {
        part.lemma_point_in_moved_box(m1, pm, p);
    }
    assert forall|p: Int3| box_has(b2, p) implies box_has(l2, #[trigger] m1.inverse_transform(p)) by {
        g2.lemma_point_in_moved_box(m1, rel, p);
    }
    lemma_pair_from_boxes(b1, b2, l1, l2, m1, margin);
}

/// A box that lies within the lattice where it is placed is a valid box there.
proof fn lemma_world_box_valid(c: Cuboid, m: Isometry)
    requires
        c.fits_in_lattice(m),
    ensures
        c.world_box(m).is_valid(),
{
}

impl Compound<Cuboid> {
    /// Closest points between boxes are reported truly: the search of a
    /// compound of boxes against a box finds the nearest part.
    pub proof fn lemma_witnesses_in_boxes(self, m1: Isometry, m2: Isometry, g2: Cuboid, margin: u32)
        requires
            self.wf(),
            self.parts_fit(),
            m1.wf(),
            m2.wf(),
            g2.wf(),
            g2.fits_in_lattice(m2),
            can_relate(m1, self, m2, g2),
        ensures
            witnesses_in_boxes(m1, self, m2, g2, margin),
            forall|r: ClosestPoints| #[trigger]
                closest_outcome(m1, self, m2, g2, margin, r) ==> forall|i: int|
                    0 <= i < self.shapes@.len() ==> cost_of(r, margin).le(
                        cost_of(#[trigger] part_result(m1, self, m2, g2, margin, i), margin),
                    ),
    {
        let rel = relative_placement(m1, m2);
        let other = g2.world_box(rel);
        assert(other.is_valid()) by {
            lemma_world_box_valid(g2, rel);
        }
        assert forall|i: int| 0 <= i < self.shapes@.len() implies self.part_box(i).is_valid()
            && match #[trigger] part_result(m1, self, m2, g2, margin, i) {
            ClosestPoints::WithinMargin(p1, p2) => {
                &&& box_has(self.part_box(i), m1.inverse_transform(Int3::of_point(p1)))
                &&& box_has(other, m1.inverse_transform(Int3::of_point(p2)))
                &&& p1.distance_squared_spec(p2) <= margin * margin
            },
            ClosestPoints::Intersecting => self.part_box(i).intersects_spec(other),
            ClosestPoints::Disjoint => true,
        } by {
            let part = self.shapes@[i];
            lemma_world_box_valid(part.1, part.0);
            lemma_pair_witness(part.1, part.0, m1, m2, g2, margin);
        }
        lemma_witnesses_give_bounds(m1, self, m2, g2, margin);
    }
}

} // verus!
