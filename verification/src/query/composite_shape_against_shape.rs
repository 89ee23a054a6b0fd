//! Closest points between a compound shape and any other shape.
use crate::bounding_volume::HasAABB;
use crate::bounding_volume::aabb::AABB;
use crate::math::isometry::{Int3, Isometry};
use crate::partitioning::bvt::{has_leaf_for, BVTNode};
use crate::partitioning::bvt_search::{bound_ok, is_max_cost, leaf_cost, BVTCostFn};
use crate::query::closest_points::{
    box_cost, box_distance_squared, box_has, cost_from, cost_of, distance_of,
    int3_distance_squared, lemma_box_distance_is_lower_bound, lemma_box_distance_of_enclosing,
    lemma_box_distance_range, lemma_cost_order, lemma_cost_range, lemma_isometry_keeps_distance,
    rank_of, ClosestPoints, ClosestPointsWith, ProximityCost,
};
use crate::query::point::{gap, lemma_floor_sqrt};
use crate::shape::compound::Compound;
use vstd::prelude::*;

verus! {

/// The cost function of the closest-points search.
///
/// The bound of a box of the compound is its distance from the box of the
/// other shape, both in the frame of the compound. The cost of a part is
/// the distance that its closest points stand for: that of the two points,
/// zero for a part that intersects the other shape, the margin for a part
/// that is farther from it than the margin. Once a
/// part intersects the other shape, the cost function stops the search:
/// `stop` is set and stays set, and every bound is `None` from then on.
pub struct CompositeShapeAgainstClosestPointsCostFn<'a, S, G2> {
    /// The box of the other shape in the frame of the compound.
    pub ls_aabb2: AABB,
    pub margin: u32,
    pub stop: bool,
    pub m1: &'a Isometry,
    pub g1: &'a Compound<S>,
    pub m2: &'a Isometry,
    pub g2: &'a G2,
}

/// The placement of the second shape seen from the frame of the first.
pub open spec fn relative_placement(m1: Isometry, m2: Isometry) -> Isometry {
    m1.inverse_spec().compose_spec(m2)
}

/// The two placements can be related, the box of the second shape seen from
/// the frame of the first is a box of the lattice, and so is the placement
/// of every part of the compound in the common frame.
pub open spec fn can_relate<S: HasAABB + ClosestPointsWith<G2>, G2: HasAABB>(
    m1: Isometry,
    g1: Compound<S>,
    m2: Isometry,
    g2: G2,
) -> bool {
    &&& m1.inverse_translation().fits()
    &&& m1.inverse_spec().composed_translation(m2).fits()
    &&& g2.can_bound(&relative_placement(m1, m2))
    &&& forall|i: int|
        0 <= i < g1.shapes@.len() ==> m1.composed_translation((#[trigger] g1.shapes@[i]).0).fits()
            && g1.shapes@[i].1.can_pair(&m1.compose_spec(g1.shapes@[i].0), &m2, &g2)
}

/// The closest points between the `i`-th part of `g1` and `g2`.
pub open spec fn part_result<S: HasAABB + ClosestPointsWith<G2>, G2>(
    m1: Isometry,
    g1: Compound<S>,
    m2: Isometry,
    g2: G2,
    margin: u32,
    i: int,
) -> ClosestPoints {
    g1.shapes@[i].1.closest_points_spec(&m1.compose_spec(g1.shapes@[i].0), &m2, &g2, margin)
}

impl<'a, S: HasAABB + ClosestPointsWith<G2>, G2: HasAABB> CompositeShapeAgainstClosestPointsCostFn<
    'a,
    S,
    G2,
> {
    pub open spec fn wf(self) -> bool {
        &&& self.g1.wf()
        &&& self.m1.wf()
        &&& self.m2.wf()
        &&& forall|i: int|
            0 <= i < self.g1.shapes@.len() ==> self.m1.composed_translation(
                (#[trigger] self.g1.shapes@[i]).0,
            ).fits() && self.g1.shapes@[i].1.can_pair(
                &self.m1.compose_spec(self.g1.shapes@[i].0),
                self.m2,
                self.g2,
            )
    }

    /// The cost function for the closest points between `g1` placed by `m1`
    /// and `g2` placed by `m2`.
    pub fn new(m1: &'a Isometry, g1: &'a Compound<S>, m2: &'a Isometry, g2: &'a G2, margin: u32) -> (r:
        CompositeShapeAgainstClosestPointsCostFn<'a, S, G2>)
        requires
            g1.wf(),
            m1.wf(),
            m2.wf(),
            can_relate(*m1, *g1, *m2, *g2),
        ensures
            r.wf(),
            r.ls_aabb2 == g2.aabb_spec(&relative_placement(*m1, *m2)),
            r.margin == margin,
            !r.stop,
            r.m1 == m1,
            r.g1 == g1,
            r.m2 == m2,
            r.g2 == g2,
    {
        let ls_m2 = m1.inverse().compose(m2);
        let ls_aabb2 = g2.aabb(&ls_m2);
        CompositeShapeAgainstClosestPointsCostFn { ls_aabb2, margin, stop: false, m1, g1, m2, g2 }
    }
}

fn origin_gap(lo: i64, hi: i64) -> (r: i64)
    requires
        -0x1_0000_0000 <= lo <= 0x1_0000_0000,
        -0x1_0000_0000 <= hi <= 0x1_0000_0000,
    ensures
        r == gap(lo as int, hi as int, 0),
        0 <= r <= 0x1_0000_0000,
{
    if 0 < lo {
        lo
    } else if 0 > hi {
        -hi
    } else {
        0
    }
}

impl<'a, S: HasAABB + ClosestPointsWith<G2>, G2: HasAABB> BVTCostFn<
    usize,
    AABB,
> for CompositeShapeAgainstClosestPointsCostFn<'a, S, G2> {
    type Cost = ProximityCost;

    type UserData = ClosestPoints;

    open spec fn bv_cost(&self, bv: &AABB) -> Option<ProximityCost> {
        Some(box_cost(*bv, self.ls_aabb2))
    }

    open spec fn b_cost(&self, b: &usize) -> Option<(ProximityCost, ClosestPoints)> {
        let pts = part_result(*self.m1, *self.g1, *self.m2, *self.g2, self.margin, *b as int);
        Some((cost_of(pts, self.margin), pts))
    }

    open spec fn accepts(&self, b: &usize) -> bool {
        self.wf() && *b < self.g1.shapes@.len()
    }

    open spec fn stopped(&self) -> bool {
        self.stop
    }

    open spec fn stops_at(&self, b: &usize) -> bool {
        part_result(*self.m1, *self.g1, *self.m2, *self.g2, self.margin, *b as int)
            == ClosestPoints::Intersecting
    }

    /// The distance between `bv` and the box of the other shape, as long
    /// as the search has not been stopped; `None` from then on.
    fn compute_bv_cost(&mut self, bv: &AABB) -> (r: Option<ProximityCost>)
        ensures
            *final(self) == *old(self),
            old(self).stop ==> r is None,
            !old(self).stop ==> r == old(self).bv_cost(bv),
    {
        // The Minkowski difference of the two boxes.
        let gx = origin_gap(
            bv.mins.x as i64 - self.ls_aabb2.maxs.x as i64,
            bv.maxs.x as i64 - self.ls_aabb2.mins.x as i64,
        );
        let gy = origin_gap(
            bv.mins.y as i64 - self.ls_aabb2.maxs.y as i64,
            bv.maxs.y as i64 - self.ls_aabb2.mins.y as i64,
        );
        let gz = origin_gap(
            bv.mins.z as i64 - self.ls_aabb2.maxs.z as i64,
            bv.maxs.z as i64 - self.ls_aabb2.mins.z as i64,
        );
        if self.stop {
            None
        } else {
            // The distance from the origin.
            proof {
                lemma_box_distance_range(*bv, self.ls_aabb2);
                lemma_cost_order(
                    box_distance_squared(*bv, self.ls_aabb2),
                    box_distance_squared(*bv, self.ls_aabb2),
                );
            }
            Some(cost_from(gx, gy, gz))
        }
    }

    /// The closest points between the part `b` and the other shape, with
    /// their cost. A part that intersects the other shape stops the search;
    /// nothing else changes the cost function.
    fn compute_b_cost(&mut self, b: &usize) -> (r: Option<(ProximityCost, ClosestPoints)>)
        ensures
            final(self).stop == (old(self).stop || r matches Some((_, ClosestPoints::Intersecting))),
            final(self).ls_aabb2 == old(self).ls_aabb2,
            final(self).margin == old(self).margin,
            final(self).m1 == old(self).m1,
            final(self).g1 == old(self).g1,
            final(self).m2 == old(self).m2,
            final(self).g2 == old(self).g2,
    {
        let ghost f0 = *self;
        let part = self.g1.transformed_part_at(*b, self.m1);
        let pts = part.1.closest_points(&part.0, self.m2, self.g2, self.margin);
        proof {
            lemma_cost_range(pts, self.margin);
        }
        let cost = match pts {
            ClosestPoints::WithinMargin(p1, p2) => {
                proof {
                    lemma_cost_order(p1.distance_squared_spec(p2), p1.distance_squared_spec(p2));
                }
                cost_from(
                    p1.x as i64 - p2.x as i64,
                    p1.y as i64 - p2.y as i64,
                    p1.z as i64 - p2.z as i64,
                )
            },
            ClosestPoints::Intersecting => {
                self.stop = true;
                ProximityCost { distance: 0, rank: 0 }
            },
            ClosestPoints::Disjoint => {
                let m: u128 = self.margin as u128;
                assert(m * m <= 0xffff_ffff_0000_0000) by (nonlinear_arith)
                    requires
                        0 <= m <= 0xffff_ffff,
                ;
                ProximityCost { distance: self.margin as u64, rank: m * m + 1 }
            },
        };
        Some((cost, pts))
    }
}

/// Every result costs no more than shapes apart by more than the margin,
/// and less unless it is such a result itself, as long as two points that
/// it holds are no farther apart than the margin.
pub proof fn lemma_within_margin_is_below_disjoint(pts: ClosestPoints, margin: u32)
    requires
        pts matches ClosestPoints::WithinMargin(p1, p2) ==> p1.distance_squared_spec(p2) <= margin
            * margin,
    ensures
        cost_of(pts, margin).le(cost_of(ClosestPoints::Disjoint, margin)),
        pts != ClosestPoints::Disjoint ==> !cost_of(ClosestPoints::Disjoint, margin).le(
            cost_of(pts, margin),
        ),
{
    lemma_cost_range(pts, margin);
    lemma_cost_range(ClosestPoints::Disjoint, margin);
    let m = margin as int;
    assert(m * m < (m + 1) * (m + 1)) by (nonlinear_arith)
        requires
            m >= 0,
    ;
    lemma_floor_sqrt(m, m * m);
    if let ClosestPoints::WithinMargin(p1, p2) = pts {
        assert(0 <= m * m <= 0xffff_ffff_0000_0000) by (nonlinear_arith)
            requires
                0 <= m <= 0xffff_ffff,
        ;
        lemma_cost_order(p1.distance_squared_spec(p2), m * m);
    }
}

/// What holds of closest points that primitives report truly, and what the
/// search relies on to find the nearest part: two points within the margin
/// are points of the boxes of their shapes, and no farther apart than the
/// margin; shapes that intersect have boxes that intersect. The boxes are
/// those in the frame of the compound.
pub open spec fn witnesses_in_boxes<S: HasAABB + ClosestPointsWith<G2>, G2: HasAABB>(
    m1: Isometry,
    g1: Compound<S>,
    m2: Isometry,
    g2: G2,
    margin: u32,
) -> bool {
    let other = g2.aabb_spec(&relative_placement(m1, m2));
    &&& other.is_valid()
    &&& forall|i: int|
        0 <= i < g1.shapes@.len() ==> g1.part_box(i).is_valid() && match #[trigger] part_result(
            m1,
            g1,
            m2,
            g2,
            margin,
            i,
        ) {
            ClosestPoints::WithinMargin(p1, p2) => {
                &&& box_has(g1.part_box(i), m1.inverse_transform(Int3::of_point(p1)))
                &&& box_has(other, m1.inverse_transform(Int3::of_point(p2)))
                &&& p1.distance_squared_spec(p2) <= margin * margin
            },
            ClosestPoints::Intersecting => g1.part_box(i).intersects_spec(other),
            ClosestPoints::Disjoint => true,
        }
}

/// What the closest-points query returns: the closest points between some
/// part of the compound and the other shape; and, where the primitives
/// report truly, those of a part that none is nearer than.
pub open spec fn closest_outcome<S: HasAABB + ClosestPointsWith<G2>, G2: HasAABB>(
    m1: Isometry,
    g1: Compound<S>,
    m2: Isometry,
    g2: G2,
    margin: u32,
    r: ClosestPoints,
) -> bool {
    &&& exists|i: int|
        0 <= i < g1.shapes@.len() && r == #[trigger] part_result(m1, g1, m2, g2, margin, i)
    &&& g1.bvt.admissible(closest_points_cost_fn(&m1, &g1, &m2, &g2, margin)) ==> forall|i: int|
        0 <= i < g1.shapes@.len() ==> cost_of(r, margin).le(
            cost_of(#[trigger] part_result(m1, g1, m2, g2, margin, i), margin),
        )
}

/// The cost function that the closest-points query searches with.
pub open spec fn closest_points_cost_fn<'a, S: HasAABB + ClosestPointsWith<G2>, G2: HasAABB>(
    m1: &'a Isometry,
    g1: &'a Compound<S>,
    m2: &'a Isometry,
    g2: &'a G2,
    margin: u32,
) -> CompositeShapeAgainstClosestPointsCostFn<'a, S, G2> {
    CompositeShapeAgainstClosestPointsCostFn {
        ls_aabb2: g2.aabb_spec(&relative_placement(*m1, *m2)),
        margin,
        stop: false,
        m1,
        g1,
        m2,
        g2,
    }
}

/// What the closest-points query returns: the closest points that the
/// search of the tree of the compound ends with.
pub open spec fn closest_points_of<S: HasAABB + ClosestPointsWith<G2>, G2: HasAABB>(
    m1: Isometry,
    g1: Compound<S>,
    m2: Isometry,
    g2: G2,
    margin: u32,
) -> ClosestPoints {
    match g1.bvt.search_result(closest_points_cost_fn(&m1, &g1, &m2, &g2, margin)) {
        Some((_, pts)) => pts,
        None => ClosestPoints::Disjoint,
    }
}

/// What the query with the compound in the second place returns: the
/// closest points of the query with the compound in the first place, with
/// the roles of the two shapes exchanged.
pub open spec fn closest_points_to_composite<G1: HasAABB, S: HasAABB + ClosestPointsWith<G1>>(
    m1: Isometry,
    g1: G1,
    m2: Isometry,
    g2: Compound<S>,
    margin: u32,
) -> ClosestPoints {
    closest_points_of(m2, g2, m1, g1, margin).flipped()
}

/// The closest points between a compound and a shape are those between
/// the shape and the compound, with the roles of the two exchanged.
pub proof fn lemma_closest_points_symmetry<S: HasAABB + ClosestPointsWith<G2>, G2: HasAABB>(
    m1: Isometry,
    g1: Compound<S>,
    m2: Isometry,
    g2: G2,
    margin: u32,
)
    ensures
        closest_points_of(m1, g1, m2, g2, margin) == closest_points_to_composite(
            m2,
            g2,
            m1,
            g1,
            margin,
        ).flipped(),
{
    closest_points_of(m1, g1, m2, g2, margin).lemma_flip(margin);
}

/// Where the primitives report truly, the bounds of the closest-points
/// search are in order throughout the tree of the compound, and the query
/// finds the nearest part.
pub proof fn lemma_witnesses_give_bounds<S: HasAABB + ClosestPointsWith<G2>, G2: HasAABB>(
    m1: Isometry,
    g1: Compound<S>,
    m2: Isometry,
    g2: G2,
    margin: u32,
)
    requires
        g1.wf(),
        m1.wf(),
        witnesses_in_boxes(m1, g1, m2, g2, margin),
    ensures
        g1.bvt.admissible(closest_points_cost_fn(&m1, &g1, &m2, &g2, margin)),
{
    if g1.bvt.root is Some {
        let root = g1.bvt.root->Some_0;
        lemma_closest_bounds_node(root, root, closest_points_cost_fn(&m1, &g1, &m2, &g2, margin));
    }
}

/// Where the primitives report truly, the bounds of the closest-points
/// search are in order at the node and below it.
proof fn lemma_closest_bounds_node<'a, S: HasAABB + ClosestPointsWith<G2>, G2: HasAABB>(
    node: BVTNode<usize, AABB>,
    root: BVTNode<usize, AABB>,
    f: CompositeShapeAgainstClosestPointsCostFn<'a, S, G2>,
)
    requires
        node.wf(),
        f.m1.wf(),
        f.ls_aabb2 == f.g2.aabb_spec(&relative_placement(*f.m1, *f.m2)),
        witnesses_in_boxes(*f.m1, *f.g1, *f.m2, *f.g2, f.margin),
        forall|i: int|
            0 <= i < node.leaves().len() ==> (#[trigger] node.leaves()[i]).0 < f.g1.shapes@.len()
                && node.leaves()[i].1 == f.g1.part_box(node.leaves()[i].0 as int),
        forall|i: int|
            0 <= i < root.leaves().len() ==> (#[trigger] root.leaves()[i]).0 < f.g1.shapes@.len(),
    ensures
        node.leaf_costs_bounded(f, root),
    decreases node,
{
    let other = f.ls_aabb2;
    let margin = f.margin;
    assert forall|i: int| 0 <= i < node.leaves().len() implies bound_ok(
        f,
        node.bv_spec(),
        #[trigger] node.leaves()[i],
        root,
    ) by {
        let x = node.leaves()[i];
        let e = x.0 as int;
        let pts = part_result(*f.m1, *f.g1, *f.m2, *f.g2, margin, e);
        assert(leaf_cost(f, x.0) == Some(cost_of(pts, margin)));
        lemma_cost_range(pts, margin);
        node.lemma_leaf_is_node(i);
        node.lemma_encloses_descendants(BVTNode::Leaf { bv: x.1, b: x.0 });
        let bv = node.bv_spec();
        lemma_box_distance_of_enclosing(bv, x.1, other);
        lemma_box_distance_range(bv, other);
        lemma_box_distance_range(x.1, other);
        let bound = box_distance_squared(bv, other);
        match pts {
            ClosestPoints::WithinMargin(p1, p2) => {
                let q1 = f.m1.inverse_transform(Int3::of_point(p1));
                let q2 = f.m1.inverse_transform(Int3::of_point(p2));
                lemma_box_distance_is_lower_bound(x.1, other, q1, q2);
                lemma_isometry_keeps_distance(*f.m1, Int3::of_point(p1), Int3::of_point(p2));
                assert(int3_distance_squared(Int3::of_point(p1), Int3::of_point(p2))
                    == p1.distance_squared_spec(p2));
                lemma_cost_order(bound, p1.distance_squared_spec(p2));
            },
            ClosestPoints::Intersecting => {
                lemma_cost_order(0, 0);
                lemma_floor_sqrt(0, 0);
            },
            ClosestPoints::Disjoint => {
                assert forall|j: int| 0 <= j < root.leaves().len() implies (leaf_cost(
                    f,
                    (#[trigger] root.leaves()[j]).0,
                ) matches Some(d) ==> d.le(cost_of(pts, margin))) by {
                    let ej = root.leaves()[j].0 as int;
                    let ptsj = part_result(*f.m1, *f.g1, *f.m2, *f.g2, margin, ej);
                    lemma_cost_range(ptsj, margin);
                    lemma_within_margin_is_below_disjoint(ptsj, margin);
                }
                assert(is_max_cost(f, root, cost_of(pts, margin)));
            },
        }
    }
    match node {
        BVTNode::Internal { left, right, .. } => {
            assert forall|i: int| 0 <= i < left.leaves().len() implies (#[trigger] left.leaves()[i]).0
                < f.g1.shapes@.len() && left.leaves()[i].1 == f.g1.part_box(
                left.leaves()[i].0 as int,
            ) by {
                assert(node.leaves()[i] == left.leaves()[i]);
            }
            assert forall|i: int| 0 <= i < right.leaves().len() implies (
            #[trigger] right.leaves()[i]).0 < f.g1.shapes@.len() && right.leaves()[i].1
                == f.g1.part_box(right.leaves()[i].0 as int) by {
                assert(node.leaves()[left.leaves().len() + i] == right.leaves()[i]);
            }
            lemma_closest_bounds_node(*left, root, f);
            lemma_closest_bounds_node(*right, root, f);
        },
        BVTNode::Leaf { .. } => {},
    }
}

/// Where the primitives report truly, the query finds the nearest part.
/// No part costs less than the result. The result tells of shapes apart by
/// more than the margin only if every part does, so a part that intersects
/// the other shape, or is within the margin of it, excludes that result.
/// Two points of the result are no farther apart than the margin, and no
/// farther apart than the two points of any part.
pub proof fn lemma_nearest_part<S: HasAABB + ClosestPointsWith<G2>, G2: HasAABB>(
    m1: Isometry,
    g1: Compound<S>,
    m2: Isometry,
    g2: G2,
    margin: u32,
    r: ClosestPoints,
)
    requires
        g1.wf(),
        m1.wf(),
        witnesses_in_boxes(m1, g1, m2, g2, margin),
        closest_outcome(m1, g1, m2, g2, margin, r),
    ensures
        forall|i: int|
            0 <= i < g1.shapes@.len() ==> cost_of(r, margin).le(
                cost_of(#[trigger] part_result(m1, g1, m2, g2, margin, i), margin),
            ),
        r == ClosestPoints::Disjoint ==> forall|i: int|
            0 <= i < g1.shapes@.len() ==> #[trigger] part_result(m1, g1, m2, g2, margin, i)
                == ClosestPoints::Disjoint,
        forall|i: int|
            0 <= i < g1.shapes@.len() && #[trigger] part_result(m1, g1, m2, g2, margin, i)
                == ClosestPoints::Intersecting ==> distance_of(r, margin) == 0 && rank_of(r, margin)
                == 0,
        r matches ClosestPoints::WithinMargin(p1, p2) ==> {
            &&& p1.distance_squared_spec(p2) <= margin * margin
            &&& forall|i: int|
                0 <= i < g1.shapes@.len() ==> (#[trigger] part_result(
                    m1,
                    g1,
                    m2,
                    g2,
                    margin,
                    i,
                ) matches ClosestPoints::WithinMargin(q1, q2) ==> p1.distance_squared_spec(p2)
                    <= q1.distance_squared_spec(q2))
        },
{
    lemma_witnesses_give_bounds(m1, g1, m2, g2, margin);
    lemma_cost_range(r, margin);
    let k = choose|k: int|
        0 <= k < g1.shapes@.len() && r == #[trigger] part_result(m1, g1, m2, g2, margin, k);
    assert forall|i: int| 0 <= i < g1.shapes@.len() implies ({
        let q = #[trigger] part_result(m1, g1, m2, g2, margin, i);
        &&& r == ClosestPoints::Disjoint ==> q == ClosestPoints::Disjoint
        &&& q == ClosestPoints::Intersecting ==> distance_of(r, margin) == 0 && rank_of(r, margin)
            == 0
        &&& (r matches ClosestPoints::WithinMargin(p1, p2) ==> (q matches ClosestPoints::WithinMargin(
            q1,
            q2,
        ) ==> p1.distance_squared_spec(p2) <= q1.distance_squared_spec(q2)))
    }) by {
        let q = part_result(m1, g1, m2, g2, margin, i);
        lemma_cost_range(q, margin);
        lemma_within_margin_is_below_disjoint(q, margin);
        if let ClosestPoints::WithinMargin(p1, p2) = r {
            if let ClosestPoints::WithinMargin(q1, q2) = q {
                let x = p1.distance_squared_spec(p2);
                let y = q1.distance_squared_spec(q2);
                if y < x {
                    lemma_cost_order(y, x);
                }
            }
        }
    }
}

/// Closest points between a compound shape and any other shape.
///
/// The result is that of the part of the compound nearest to the other
/// shape. The compound must not be empty.
pub fn composite_shape_against_shape<S: HasAABB + ClosestPointsWith<G2>, G2: HasAABB>(
    m1: &Isometry,
    g1: &Compound<S>,
    m2: &Isometry,
    g2: &G2,
    margin: u32,
) -> (r: ClosestPoints)
    requires
        g1.wf(),
        g1.shapes@.len() > 0,
        m1.wf(),
        m2.wf(),
        can_relate(*m1, *g1, *m2, *g2),
    ensures
        r == closest_points_of(*m1, *g1, *m2, *g2, margin),
        closest_outcome(*m1, *g1, *m2, *g2, margin, r),
{
    let mut cost_fn = CompositeShapeAgainstClosestPointsCostFn::new(m1, g1, m2, g2, margin);
    let ghost f0 = cost_fn;
    let ghost n = g1.shapes@.len() as int;
    let ghost leaves = g1.bvt.leaves();
    proof {
        assert(has_leaf_for(leaves, 0));
        assert(g1.bvt.root is Some);
        let root = g1.bvt.root->Some_0;
        assert forall|i: int| 0 <= i < leaves.len() implies leaf_cost(
            f0,
            (#[trigger] leaves[i]).0,
        ) is Some by {}
        assert(g1.bvt.always_costs(f0));
        assert(f0 == closest_points_cost_fn(m1, g1, m2, g2, margin));
    }
    let res = g1.bvt().best_first_search(&mut cost_fn);
    match res {
        Some((b, pts)) => {
            proof {
                let i = choose|i: int| 0 <= i < leaves.len() && (#[trigger] leaves[i]).0 == *b;
                assert(leaves[i].0 < n);
                assert(pts == part_result(*m1, *g1, *m2, *g2, margin, *b as int));
                if g1.bvt.admissible(f0) {
                    lemma_cost_range(pts, margin);
                    assert forall|j: int| 0 <= j < n implies cost_of(pts, margin).le(
                        cost_of(#[trigger] part_result(*m1, *g1, *m2, *g2, margin, j), margin),
                    ) by {
                        let pj = part_result(*m1, *g1, *m2, *g2, margin, j);
                        lemma_cost_range(pj, margin);
                        assert(has_leaf_for(leaves, j));
                        let k = choose|k: int| 0 <= k < leaves.len() && (#[trigger] leaves[k]).0 == j;
                        assert(leaf_cost(f0, leaves[k].0) == Some(cost_of(pj, margin)));
                        assert(leaf_cost(f0, *b) == Some(cost_of(pts, margin)));
                    }
                }
            }
            pts
        },
        None => ClosestPoints::Disjoint,
    }
}

/// Closest points between a shape and a compound shape: those between the
/// compound and the shape, with the roles of the two exchanged.
pub fn shape_against_composite_shape<G1: HasAABB, S: HasAABB + ClosestPointsWith<G1>>(
    m1: &Isometry,
    g1: &G1,
    m2: &Isometry,
    g2: &Compound<S>,
    margin: u32,
) -> (r: ClosestPoints)
    requires
        g2.wf(),
        g2.shapes@.len() > 0,
        m1.wf(),
        m2.wf(),
        can_relate(*m2, *g2, *m1, *g1),
    ensures
        r == closest_points_to_composite(*m1, *g1, *m2, *g2, margin),
        closest_outcome(*m2, *g2, *m1, *g1, margin, r.flipped()),
{
    let mut res = composite_shape_against_shape(m2, g2, m1, g1, margin);
    let ghost before = res;
    res.flip();
    proof {
        before.lemma_flip(margin);
    }
    res
}

} // verus!
