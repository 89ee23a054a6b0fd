//! Closest points between a compound shape and another shape.
//!
//! The tree of the compound is searched for the part nearest to the other
//! shape. The cost of a result is the distance that it stands for, in whole
//! units; costs whose distances round alike are told apart by the square
//! of the distance, which is exact. The bound of a box is the distance
//! between the box and the box of the other shape: that from the origin to
//! their Minkowski difference.
use crate::bounding_volume::aabb::AABB;
use crate::math::Point;
use crate::math::isometry::{Int3, Isometry};
use crate::partitioning::bvt_search::SearchCost;
use crate::query::point::{
    floor_sqrt, gap, is_floor_sqrt, lemma_floor_sqrt_exists, lemma_floor_sqrt_sign, length,
};
use vstd::prelude::*;

verus! {

/// Closest points between two shapes.
#[derive(Clone, Copy, Debug, PartialEq, Eq, Structural)]
pub enum ClosestPoints {
    /// The shapes intersect.
    Intersecting,
    /// The shapes are apart by no more than the margin; the two points are
    /// a closest pair, the first on the first shape.
    WithinMargin(Point, Point),
    /// The shapes are apart by more than the margin.
    Disjoint,
}

impl ClosestPoints {
    /// The same result with the roles of the two shapes exchanged.
    pub open spec fn flipped(self) -> ClosestPoints {
        match self {
            ClosestPoints::WithinMargin(p1, p2) => ClosestPoints::WithinMargin(p2, p1),
            ClosestPoints::Intersecting => ClosestPoints::Intersecting,
            ClosestPoints::Disjoint => ClosestPoints::Disjoint,
        }
    }

    /// Exchanging the roles twice changes nothing, and exchanging them once
    /// does not change the distance that the result stands for.
    pub proof fn lemma_flip(self, margin: u32)
        ensures
            self.flipped().flipped() == self,
            distance_of(self.flipped(), margin) == distance_of(self, margin),
            rank_of(self.flipped(), margin) == rank_of(self, margin),
            cost_of(self.flipped(), margin) == cost_of(self, margin),
    {
        if let ClosestPoints::WithinMargin(p1, p2) = self {
            assert(p1.distance_squared_spec(p2) == p2.distance_squared_spec(p1)) by (nonlinear_arith);
        }
    }

    /// Exchanges the roles of the two shapes.
    pub fn flip(&mut self)
        ensures
            *final(self) == old(self).flipped(),
    {
        if let ClosestPoints::WithinMargin(p1, p2) = *self {
            *self = ClosestPoints::WithinMargin(p2, p1);
        }
    }
}

/// A shape that closest points can be found for, against shapes of type `G`.
pub trait ClosestPointsWith<G> {
    /// What `closest_points` returns.
    spec fn closest_points_spec(&self, m1: &Isometry, m2: &Isometry, g2: &G, margin: u32) -> ClosestPoints;

    /// Whether the query for the two shapes so placed stays within the
    /// lattice; unless a shape says otherwise, it does.
    open spec fn can_pair(&self, m1: &Isometry, m2: &Isometry, g2: &G) -> bool {
        true
    }

    /// Closest points between this shape placed by `m1` and `g2` placed by `m2`.
    fn closest_points(&self, m1: &Isometry, m2: &Isometry, g2: &G, margin: u32) -> (r: ClosestPoints)
        requires
            m1.wf(),
            m2.wf(),
            self.can_pair(m1, m2, g2),
        ensures
            r == self.closest_points_spec(m1, m2, g2, margin),
    ;
}

/// The cost of closest points in the search for the nearest part.
///
/// `distance` is the distance that the result stands for, in whole units
/// and rounded down. `rank` is exact; it orders the costs whose distances
/// round alike. A cost is below another if its distance is, or, with the
/// same distance, its rank.
#[derive(Clone, Copy, Debug, PartialEq, Eq, Structural)]
pub struct ProximityCost {
    pub distance: u64,
    pub rank: u128,
}

impl ProximityCost {
    /// The cost is not above `o`.
    pub open spec fn le(self, o: ProximityCost) -> bool {
        self.distance < o.distance || (self.distance == o.distance && self.rank <= o.rank)
    }

    /// Whether the cost is below `o`.
    pub fn less(&self, o: &ProximityCost) -> (r: bool)
        ensures
            r == !o.le(*self),
    {
        self.distance < o.distance || (self.distance == o.distance && self.rank < o.rank)
    }
}

impl SearchCost for ProximityCost {
    open spec fn cost_wf(self) -> bool {
        true
    }

    open spec fn cost_le(self, o: ProximityCost) -> bool {
        self.le(o)
    }

    fn cost_less(&self, o: &ProximityCost) -> (r: bool) {
        self.less(o)
    }

    proof fn lemma_cost_total(a: ProximityCost, b: ProximityCost) {
    }

    proof fn lemma_cost_trans(a: ProximityCost, b: ProximityCost, c: ProximityCost) {
    }
}

/// The distance that a result stands for, in whole units and rounded down:
/// that of the two points, zero for shapes that intersect, the margin for
/// shapes apart by more.
pub open spec fn distance_of(pts: ClosestPoints, margin: u32) -> int {
    match pts {
        ClosestPoints::WithinMargin(p1, p2) => floor_sqrt(p1.distance_squared_spec(p2)),
        ClosestPoints::Intersecting => 0,
        ClosestPoints::Disjoint => margin as int,
    }
}

/// What orders the results whose distances are alike: the squared distance
/// of the two points, and zero for shapes that intersect. Shapes apart by
/// more than the margin come after every pair of points that is no farther
/// apart than the margin.
pub open spec fn rank_of(pts: ClosestPoints, margin: u32) -> int {
    match pts {
        ClosestPoints::WithinMargin(p1, p2) => p1.distance_squared_spec(p2),
        ClosestPoints::Intersecting => 0,
        ClosestPoints::Disjoint => margin * margin + 1,
    }
}

/// The cost of a result in the search.
pub open spec fn cost_of(pts: ClosestPoints, margin: u32) -> ProximityCost {
    ProximityCost { distance: distance_of(pts, margin) as u64, rank: rank_of(pts, margin) as u128 }
}

/// The bound of a box in the search: the distance between the box and the
/// box of the other shape, in whole units and rounded down, with its square.
pub open spec fn box_cost(a: AABB, b: AABB) -> ProximityCost {
    cost_at(box_distance_squared(a, b))
}

/// Of two numbers, the greater has the greater root.
pub proof fn lemma_floor_sqrt_monotone(x: int, y: int)
    requires
        0 <= x <= y,
    ensures
        0 <= floor_sqrt(x) <= floor_sqrt(y),
{
    lemma_floor_sqrt_exists(x);
    lemma_floor_sqrt_exists(y);
    let r = floor_sqrt(x);
    let s = floor_sqrt(y);
    assert(is_floor_sqrt(r, x));
    assert(is_floor_sqrt(s, y));
    assert(r <= s) by (nonlinear_arith)
        requires
            r >= 0,
            s >= 0,
            r * r <= x,
            x <= y,
            y < (s + 1) * (s + 1),
    {
        if s < r {
            assert((s + 1) * (s + 1) <= r * r);
        }
    }
}

/// The root of a number is a number of no more than half its width.
pub proof fn lemma_floor_sqrt_range(x: int)
    requires
        0 <= x <= 0x4_0000_0000_0000_0000,
    ensures
        0 <= floor_sqrt(x) <= 0x2_0000_0000,
{
    lemma_floor_sqrt_exists(x);
    let r = floor_sqrt(x);
    assert(is_floor_sqrt(r, x));
    assert(r <= 0x2_0000_0000) by (nonlinear_arith)
        requires
            r >= 0,
            r * r <= x,
            x <= 0x4_0000_0000_0000_0000,
    {
        if r > 0x2_0000_0000 {
            assert(r * r > 0x4_0000_0000_0000_0000);
        }
    }
}

/// The displacement `(dx, dy, dz)` as a cost: its length in whole units,
/// rounded down, and the square of its length.
pub(crate) fn cost_from(dx: i64, dy: i64, dz: i64) -> (r: ProximityCost)
    requires
        -0x1_0000_0000 <= dx <= 0x1_0000_0000,
        -0x1_0000_0000 <= dy <= 0x1_0000_0000,
        -0x1_0000_0000 <= dz <= 0x1_0000_0000,
    ensures
        r.distance == floor_sqrt(dx * dx + dy * dy + dz * dz),
        r.rank == dx * dx + dy * dy + dz * dz,
        0 <= dx * dx + dy * dy + dz * dz <= 0x3_0000_0000_0000_0000,
{
    let d = length(dx, dy, dz);
    let x: i128 = dx as i128;
    let y: i128 = dy as i128;
    let z: i128 = dz as i128;
    assert(0 <= x * x <= 0x1_0000_0000_0000_0000) by (nonlinear_arith)
        requires
            -0x1_0000_0000 <= x <= 0x1_0000_0000,
    ;
    assert(0 <= y * y <= 0x1_0000_0000_0000_0000) by (nonlinear_arith)
        requires
            -0x1_0000_0000 <= y <= 0x1_0000_0000,
    ;
    assert(0 <= z * z <= 0x1_0000_0000_0000_0000) by (nonlinear_arith)
        requires
            -0x1_0000_0000 <= z <= 0x1_0000_0000,
    ;
    ProximityCost { distance: d as u64, rank: (x * x + y * y + z * z) as u128 }
}

/// The cost that the squared distance `x` gives.
pub open spec fn cost_at(x: int) -> ProximityCost {
    ProximityCost { distance: floor_sqrt(x) as u64, rank: x as u128 }
}

/// Of two squared distances, the greater gives the greater cost.
pub proof fn lemma_cost_order(x: int, y: int)
    requires
        0 <= x <= y <= 0x4_0000_0000_0000_0000,
    ensures
        cost_at(x).le(cost_at(y)),
        x < y ==> !cost_at(y).le(cost_at(x)),
        cost_at(x).distance == floor_sqrt(x),
        cost_at(x).rank == x,
{
    lemma_floor_sqrt_monotone(x, y);
    lemma_floor_sqrt_range(x);
    lemma_floor_sqrt_range(y);
}

/// The squared distance between two boxes is a number of the range that
/// squared distances between points are of.
pub proof fn lemma_box_distance_range(a: AABB, b: AABB)
    ensures
        0 <= box_distance_squared(a, b) <= 0x3_0000_0000_0000_0000,
{
    let gx = gap(a.mins.x - b.maxs.x, a.maxs.x - b.mins.x, 0);
    let gy = gap(a.mins.y - b.maxs.y, a.maxs.y - b.mins.y, 0);
    let gz = gap(a.mins.z - b.maxs.z, a.maxs.z - b.mins.z, 0);
    assert(0 <= gx * gx <= 0x1_0000_0000_0000_0000) by (nonlinear_arith)
        requires
            0 <= gx <= 0x1_0000_0000,
    ;
    assert(0 <= gy * gy <= 0x1_0000_0000_0000_0000) by (nonlinear_arith)
        requires
            0 <= gy <= 0x1_0000_0000,
    ;
    assert(0 <= gz * gz <= 0x1_0000_0000_0000_0000) by (nonlinear_arith)
        requires
            0 <= gz <= 0x1_0000_0000,
    ;
}

/// The cost of a result is made of the distance and the rank of the
/// result, which are numbers of the range of its parts.
pub proof fn lemma_cost_range(pts: ClosestPoints, margin: u32)
    ensures
        cost_of(pts, margin).distance == distance_of(pts, margin),
        cost_of(pts, margin).rank == rank_of(pts, margin),
        0 <= distance_of(pts, margin) <= 0x2_0000_0000,
        0 <= rank_of(pts, margin) <= 0x3_0000_0000_0000_0000,
        pts matches ClosestPoints::WithinMargin(p1, p2) ==> cost_of(pts, margin) == cost_at(
            p1.distance_squared_spec(p2),
        ),
{
    match pts {
        ClosestPoints::WithinMargin(p1, p2) => {
            let dx = p1.x - p2.x;
            let dy = p1.y - p2.y;
            let dz = p1.z - p2.z;
            assert(0 <= dx * dx <= 0x1_0000_0000_0000_0000) by (nonlinear_arith)
                requires
                    -0x1_0000_0000 <= dx <= 0x1_0000_0000,
            ;
            assert(0 <= dy * dy <= 0x1_0000_0000_0000_0000) by (nonlinear_arith)
                requires
                    -0x1_0000_0000 <= dy <= 0x1_0000_0000,
            ;
            assert(0 <= dz * dz <= 0x1_0000_0000_0000_0000) by (nonlinear_arith)
                requires
                    -0x1_0000_0000 <= dz <= 0x1_0000_0000,
            ;
            lemma_floor_sqrt_range(p1.distance_squared_spec(p2));
        },
        ClosestPoints::Intersecting => {},
        ClosestPoints::Disjoint => {
            assert(0 <= margin * margin <= 0xffff_ffff_0000_0000) by (nonlinear_arith)
                requires
                    0 <= margin <= 0xffff_ffff,
            ;
        },
    }
}

/// The squared distance between two boxes: the squared distance from the
/// origin to the box of the differences `a - b` of their points.
pub open spec fn box_distance_squared(a: AABB, b: AABB) -> int {
    let gx = gap(a.mins.x - b.maxs.x, a.maxs.x - b.mins.x, 0);
    let gy = gap(a.mins.y - b.maxs.y, a.maxs.y - b.mins.y, 0);
    let gz = gap(a.mins.z - b.maxs.z, a.maxs.z - b.mins.z, 0);
    gx * gx + gy * gy + gz * gz
}

/// The point `q` lies in the box.
pub open spec fn box_has(a: AABB, q: Int3) -> bool {
    &&& a.mins.x <= q.x <= a.maxs.x
    &&& a.mins.y <= q.y <= a.maxs.y
    &&& a.mins.z <= q.z <= a.maxs.z
}

/// The squared distance of two points.
pub open spec fn int3_distance_squared(p: Int3, q: Int3) -> int {
    (p.x - q.x) * (p.x - q.x) + (p.y - q.y) * (p.y - q.y) + (p.z - q.z) * (p.z - q.z)
}

/// Two boxes are no farther apart than any point of the one is from any
/// point of the other.
pub proof fn lemma_box_distance_is_lower_bound(a: AABB, b: AABB, p: Int3, q: Int3)
    requires
        box_has(a, p),
        box_has(b, q),
    ensures
        0 <= box_distance_squared(a, b) <= int3_distance_squared(p, q),
{
    let gx = gap(a.mins.x - b.maxs.x, a.maxs.x - b.mins.x, 0);
    let gy = gap(a.mins.y - b.maxs.y, a.maxs.y - b.mins.y, 0);
    let gz = gap(a.mins.z - b.maxs.z, a.maxs.z - b.mins.z, 0);
    let dx = p.x - q.x;
    let dy = p.y - q.y;
    let dz = p.z - q.z;
    assert(0 <= gx * gx <= dx * dx) by (nonlinear_arith)
        requires
            gx >= 0,
            dx >= gx || -dx >= gx,
    ;
    assert(0 <= gy * gy <= dy * dy) by (nonlinear_arith)
        requires
            gy >= 0,
            dy >= gy || -dy >= gy,
    ;
    assert(0 <= gz * gz <= dz * dz) by (nonlinear_arith)
        requires
            gz >= 0,
            dz >= gz || -dz >= gz,
    ;
}

/// Boxes that intersect are at distance zero, and a box that encloses one
/// of two boxes is no farther from the other.
pub proof fn lemma_box_distance_of_enclosing(outer: AABB, inner: AABB, b: AABB)
    requires
        outer.contains_spec(inner),
    ensures
        inner.intersects_spec(b) ==> box_distance_squared(inner, b) == 0,
        inner.is_valid() && b.is_valid() ==> 0 <= box_distance_squared(outer, b) <= box_distance_squared(inner, b),
{
    let gx = gap(inner.mins.x - b.maxs.x, inner.maxs.x - b.mins.x, 0);
    let gy = gap(inner.mins.y - b.maxs.y, inner.maxs.y - b.mins.y, 0);
    let gz = gap(inner.mins.z - b.maxs.z, inner.maxs.z - b.mins.z, 0);
    let hx = gap(outer.mins.x - b.maxs.x, outer.maxs.x - b.mins.x, 0);
    let hy = gap(outer.mins.y - b.maxs.y, outer.maxs.y - b.mins.y, 0);
    let hz = gap(outer.mins.z - b.maxs.z, outer.maxs.z - b.mins.z, 0);
    if inner.is_valid() && b.is_valid() {
        assert(0 <= hx * hx <= gx * gx) by (nonlinear_arith)
            requires
                0 <= hx <= gx,
        ;
        assert(0 <= hy * hy <= gy * gy) by (nonlinear_arith)
            requires
                0 <= hy <= gy,
        ;
        assert(0 <= hz * hz <= gz * gz) by (nonlinear_arith)
            requires
                0 <= hz <= gz,
        ;
    }
}

/// Two valid boxes are at distance zero exactly if they intersect.
pub proof fn lemma_box_distance_zero(a: AABB, b: AABB)
    requires
        a.is_valid(),
        b.is_valid(),
    ensures
        box_distance_squared(a, b) >= 0,
        box_distance_squared(a, b) == 0 <==> a.intersects_spec(b),
{
    let gx = gap(a.mins.x - b.maxs.x, a.maxs.x - b.mins.x, 0);
    let gy = gap(a.mins.y - b.maxs.y, a.maxs.y - b.mins.y, 0);
    let gz = gap(a.mins.z - b.maxs.z, a.maxs.z - b.mins.z, 0);
    assert(gx * gx >= 0 && gy * gy >= 0 && gz * gz >= 0 && (gx != 0 ==> gx * gx > 0) && (gy != 0
        ==> gy * gy > 0) && (gz != 0 ==> gz * gz > 0)) by (nonlinear_arith);
}

/// The bound of a box is zero exactly if the box intersects the box of
/// the other shape.
pub proof fn lemma_box_cost_zero(a: AABB, b: AABB)
    requires
        a.is_valid(),
        b.is_valid(),
    ensures
        box_cost(a, b).distance == 0 <==> a.intersects_spec(b),
        box_cost(a, b).distance == floor_sqrt(box_distance_squared(a, b)),
        box_cost(a, b).rank == box_distance_squared(a, b),
{
    lemma_box_distance_zero(a, b);
    lemma_box_distance_range(a, b);
    lemma_floor_sqrt_range(box_distance_squared(a, b));
    lemma_floor_sqrt_sign(box_distance_squared(a, b));
}

/// A rigid motion keeps distances: two points are as far apart as they are
/// seen from the frame of the motion.
pub proof fn lemma_isometry_keeps_distance(m: Isometry, p: Int3, q: Int3)
    requires
        m.wf(),
    ensures
        int3_distance_squared(m.inverse_transform(p), m.inverse_transform(q)) == int3_distance_squared(
            p,
            q,
        ),
{
    let d = p.minus(q);
    let inv = m.rotation.inverse_spec();
    m.rotation.lemma_inverse(d);
    inv.lemma_preserves_dot(d, d);
    let a = m.inverse_transform(p);
    let b = m.inverse_transform(q);
    assert(a.minus(b) == inv.apply(d));
}

} // verus!
