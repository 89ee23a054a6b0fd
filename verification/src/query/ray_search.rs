//! What the ray casts through the bounding-volume tree share.
use crate::bounding_volume::aabb::AABB;
use crate::math::WideVector;
use crate::math::isometry::{Int3, Isometry};
use crate::math::scalar::Scalar;
use crate::partitioning::bvt::{has_leaf_for, leaves_are_elements, BVTNode, BVT};
use crate::partitioning::bvt_search::{leaf_cost, lower_bound_ok, BVTCostFn};
use crate::query::ray::{Ray, RayIntersection};
use vstd::prelude::*;

verus! {

/// A time at which the ray is somewhere: a number, not negative.
pub open spec fn is_impact_time(t: Scalar) -> bool {
    t.den > 0 && t.num >= 0
}

/// The direction with the components of `v`, where they are representable.
pub open spec fn wide_of(v: Int3) -> WideVector {
    WideVector { x: v.x as i64, y: v.y as i64, z: v.z as i64 }
}

/// The impact with its normal rotated by `m` into the frame of the caller.
pub open spec fn rotated(m: Isometry, x: RayIntersection) -> RayIntersection {
    RayIntersection { toi: x.toi, normal: wide_of(m.rotate(Int3::of_wide(x.normal))), uvs: x.uvs }
}

/// `r` is the least of the times: none if there is no time, else a time
/// that no other precedes.
pub open spec fn is_least_of(times: Seq<Option<Scalar>>, r: Option<Scalar>) -> bool {
    &&& r is None <==> forall|i: int| 0 <= i < times.len() ==> #[trigger] times[i] is None
    &&& r matches Some(t) ==> forall|i: int|
        0 <= i < times.len() ==> (#[trigger] times[i] matches Some(ti) ==> t.le(ti))
}

/// The bounds of a ray cast are lower bounds: where every leaf with a cost
/// is hit inside its own box at the time that is its cost, the time at
/// which the ray enters the box of a node does not exceed the cost of any
/// leaf below the node.
pub proof fn lemma_ray_bounds_node<F: BVTCostFn<usize, AABB, Cost = Scalar>>(
    node: BVTNode<usize, AABB>,
    f: F,
    ray: Ray,
)
    requires
        node.wf(),
        forall|bv: AABB| #[trigger] f.bv_cost(&bv) == bv.toi_with_ray_spec(ray, true),
        forall|i: int|
            0 <= i < node.leaves().len() ==> (leaf_cost(f, (#[trigger] node.leaves()[i]).0) matches Some(
                t,
            ) ==> is_impact_time(t) && node.leaves()[i].1.ray_hits_at(ray, t.num as int, t.den as int)),
    ensures
        node.lower_bounded(f),
    decreases node,
{
    assert forall|i: int| 0 <= i < node.leaves().len() implies lower_bound_ok(
        f,
        node.bv_spec(),
        #[trigger] node.leaves()[i],
    ) by {
        let x = node.leaves()[i];
        if let Some(t) = leaf_cost(f, x.0) {
            node.lemma_leaf_is_node(i);
            node.lemma_encloses_descendants(BVTNode::Leaf { bv: x.1, b: x.0 });
            node.bv_spec().lemma_ray_hits_enclosing(x.1, ray, t.num as int, t.den as int);
            node.bv_spec().lemma_toi_with_ray(ray, true);
            assert(f.bv_cost(&node.bv_spec()) == node.bv_spec().toi_with_ray_spec(ray, true));
        }
    }
    match node {
        BVTNode::Internal { left, right, .. } => {
            assert forall|i: int| 0 <= i < left.leaves().len() implies (leaf_cost(
                f,
                (#[trigger] left.leaves()[i]).0,
            ) matches Some(t) ==> is_impact_time(t) && left.leaves()[i].1.ray_hits_at(
                ray,
                t.num as int,
                t.den as int,
            )) by {
                assert(node.leaves()[i] == left.leaves()[i]);
            }
            assert forall|i: int| 0 <= i < right.leaves().len() implies (leaf_cost(
                f,
                (#[trigger] right.leaves()[i]).0,
            ) matches Some(t) ==> is_impact_time(t) && right.leaves()[i].1.ray_hits_at(
                ray,
                t.num as int,
                t.den as int,
            )) by {
                assert(node.leaves()[left.leaves().len() + i] == right.leaves()[i]);
            }
            lemma_ray_bounds_node(*left, f, ray);
            lemma_ray_bounds_node(*right, f, ray);
        },
        BVTNode::Leaf { .. } => {},
    }
}

/// What the search says of the leaves of the tree, said of the elements
/// `0` to `n - 1` that the leaves stand for.
pub proof fn lemma_search_over_elements<F: BVTCostFn<usize, AABB, Cost = Scalar>>(
    bvt: BVT<usize, AABB>,
    n: int,
    f: F,
    r: Option<(&usize, F::UserData)>,
)
    requires
        leaves_are_elements(bvt.leaves(), n),
        bvt.search_sound(f, r),
    ensures
        r matches Some((b, d)) ==> *b < n && (f.b_cost(b) matches Some((c, dd)) && dd == d && c.wf()
            && F::result_ok(c, d)),
        bvt.search_optimal(f, r) ==> is_least_of(
            Seq::new(n as nat, |e: int| leaf_cost(f, e as usize)),
            match r {
                Some((b, _)) => leaf_cost(f, *b),
                None => None,
            },
        ),
{
    let leaves = bvt.leaves();
    let times = Seq::new(n as nat, |e: int| leaf_cost(f, e as usize));
    if let Some((b, d)) = r {
        let i = choose|i: int| 0 <= i < leaves.len() && (#[trigger] leaves[i]).0 == *b;
        assert(leaves[i].0 < n);
    }
    if bvt.search_optimal(f, r) {
        let t = match r {
            Some((b, _)) => leaf_cost(f, *b),
            None => None,
        };
        if r is None {
            assert forall|e: int| 0 <= e < times.len() implies #[trigger] times[e] is None by {
                assert(has_leaf_for(leaves, e));
                let i = choose|i: int| 0 <= i < leaves.len() && (#[trigger] leaves[i]).0 == e;
                assert(leaf_cost(f, leaves[i].0) is None);
            }
        } else {
            let b = r.unwrap().0;
            let i = choose|i: int| 0 <= i < leaves.len() && (#[trigger] leaves[i]).0 == *b;
            assert(times[*b as int] == leaf_cost(f, *b));
            assert(!(forall|e: int| 0 <= e < times.len() ==> #[trigger] times[e] is None));
            assert forall|e: int| 0 <= e < times.len() implies (#[trigger] times[e] matches Some(ti)
                ==> t.unwrap().le(ti)) by {
                assert(has_leaf_for(leaves, e));
                let k = choose|k: int| 0 <= k < leaves.len() && (#[trigger] leaves[k]).0 == e;
                assert(leaf_cost(f, leaves[k].0) == times[e]);
            }
        }
    }
}

/// The costs of a cast are the times in `times`: the cost of the leaf `e`
/// is the `e`-th time.
pub open spec fn costs_are<F: BVTCostFn<usize, AABB, Cost = Scalar>>(f: F, times: Seq<Option<Scalar>>) -> bool {
    forall|e: int| 0 <= e < times.len() ==> leaf_cost(f, e as usize) == #[trigger] times[e]
}

/// Where every impact happens inside the box of what is hit, at a time
/// that is a number and not negative, the bounds of the cast are lower
/// bounds throughout the tree.
pub proof fn lemma_cast_is_monotone<F: BVTCostFn<usize, AABB, Cost = Scalar>>(
    bvt: BVT<usize, AABB>,
    f: F,
    ray: Ray,
    boxes: Seq<AABB>,
    times: Seq<Option<Scalar>>,
)
    requires
        bvt.wf(),
        leaves_are_elements(bvt.leaves(), times.len() as int),
        boxes.len() == times.len(),
        times.len() <= usize::MAX,
        !f.stopped(),
        forall|bv: AABB| #[trigger] f.bv_cost(&bv) == bv.toi_with_ray_spec(ray, true),
        costs_are(f, times),
        forall|i: int|
            0 <= i < bvt.leaves().len() ==> (#[trigger] bvt.leaves()[i]).1 == boxes[bvt.leaves()[i].0 as int],
        forall|e: int|
            0 <= e < times.len() ==> (#[trigger] times[e] matches Some(t) ==> is_impact_time(t)
                && boxes[e].ray_hits_at(ray, t.num as int, t.den as int)),
    ensures
        bvt.monotone(f),
{
    if bvt.root is Some {
        let root = bvt.root->Some_0;
        assert forall|i: int| 0 <= i < root.leaves().len() implies (leaf_cost(
            f,
            (#[trigger] root.leaves()[i]).0,
        ) matches Some(t) ==> is_impact_time(t) && root.leaves()[i].1.ray_hits_at(
            ray,
            t.num as int,
            t.den as int,
        )) by {
            let e = root.leaves()[i].0 as int;
            assert(bvt.leaves()[i].0 < times.len());
            assert(leaf_cost(f, e as usize) == times[e]);
        }
        lemma_ray_bounds_node(root, f, ray);
    }
}

/// What the search says of the leaves, said of the times of the cast: the
/// result is that of a leaf that stands for an element, and, where the
/// bounds are lower bounds, its time is the least of the times.
pub proof fn lemma_cast_result<F: BVTCostFn<usize, AABB, Cost = Scalar>>(
    bvt: BVT<usize, AABB>,
    f: F,
    times: Seq<Option<Scalar>>,
    r: Option<(&usize, F::UserData)>,
)
    requires
        leaves_are_elements(bvt.leaves(), times.len() as int),
        times.len() <= usize::MAX,
        costs_are(f, times),
        bvt.search_sound(f, r),
        bvt.monotone(f) ==> bvt.search_optimal(f, r),
    ensures
        r matches Some((b, d)) ==> *b < times.len() && (f.b_cost(b) matches Some((c, dd)) && dd == d
            && c.wf() && F::result_ok(c, d) && times[*b as int] == Some(c)),
        bvt.monotone(f) ==> is_least_of(
            times,
            match r {
                Some((b, _)) => leaf_cost(f, *b),
                None => None,
            },
        ),
{
    let n = times.len() as int;
    lemma_search_over_elements(bvt, n, f, r);
    if let Some((b, d)) = r {
        assert(leaf_cost(f, *b) == times[*b as int]);
    }
    if bvt.monotone(f) {
        let all = Seq::new(n as nat, |e: int| leaf_cost(f, e as usize));
        assert forall|e: int| 0 <= e < n implies #[trigger] all[e] == times[e] by {
            assert((e as usize) as int == e);
        }
        assert(all =~= times);
    }
}

} // verus!
