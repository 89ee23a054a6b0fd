use ncollide::bounding_volume::aabb::AABB;
use ncollide::bounding_volume::BoundingVolume;
use ncollide::partitioning::bvt::{BVTNode, BVT};
use ncollide::partitioning::bvt_search::BVTCostFn;
use ncollide::partitioning::bvt_visit::BVTVisitor;
use ncollide::math::{Point, Vector};
use ncollide::query::ray::Ray;
use ncollide::math::scalar::Scalar;
use ncollide::query::visitors::{
    BoundingVolumeInterferencesCollector, BoundingVolumeTest, PointInterferencesCollector,
    PointTest, RayInterferencesCollector, RayTest,
};

fn cube(cx: i32, cy: i32, cz: i32, h: i32) -> AABB {
    AABB::new(Point::new(cx - h, cy - h, cz - h), Point::new(cx + h, cy + h, cz + h))
}

fn row(n: usize) -> Vec<(usize, AABB)> {
    (0..n).map(|i| (i, cube(10 * i as i32, 0, 0, 2))).collect()
}

fn depth(n: &BVTNode<usize, AABB>) -> usize {
    match n {
        BVTNode::Leaf { .. } => 1,
        BVTNode::Internal { left, right, .. } => 1 + depth(left).max(depth(right)),
    }
}

fn leaves(n: &BVTNode<usize, AABB>, out: &mut Vec<(usize, AABB)>) {
    match n {
        BVTNode::Leaf { b, bv } => out.push((*b, *bv)),
        BVTNode::Internal { left, right, .. } => {
            leaves(left, out);
            leaves(right, out);
        }
    }
}

fn check_volumes(n: &BVTNode<usize, AABB>) {
    if let BVTNode::Internal { bv, left, right } = n {
        assert_eq!(*bv, left.bounding_volume().merged(right.bounding_volume()));
        assert!(bv.contains(left.bounding_volume()));
        assert!(bv.contains(right.bounding_volume()));
        let mut below = Vec::new();
        leaves(n, &mut below);
        for (_, leaf_bv) in &below {
            assert!(bv.contains(leaf_bv));
        }
        check_volumes(left);
        check_volumes(right);
    }
}

#[test]
fn empty_tree() {
    let bvt: BVT<usize, AABB> = BVT::new_balanced(Vec::new());
    assert!(bvt.is_empty());
    assert!(bvt.root().is_none());
    let mut c: RayInterferencesCollector<usize> = RayInterferencesCollector::new(RayTest {
        ray: Ray::new(Point::origin(), Vector::new(1, 0, 0)),
    });
    bvt.visit(&mut c);
    assert!(c.collected().is_empty());
}

#[test]
fn single_leaf() {
    let bvt = BVT::new_balanced(vec![(7usize, cube(0, 0, 0, 1))]);
    match bvt.root() {
        Some(BVTNode::Leaf { b, bv }) => {
            assert_eq!(*b, 7);
            assert_eq!(*bv, cube(0, 0, 0, 1));
        }
        _ => panic!("a single leaf makes a leaf"),
    }
}

#[test]
fn leaves_are_kept_and_volumes_merge() {
    for n in 1..40usize {
        let input = row(n);
        let bvt = BVT::new_balanced(input.clone());
        let root = bvt.root().unwrap();
        let mut out = Vec::new();
        leaves(root, &mut out);
        out.sort_by_key(|l| l.0);
        assert_eq!(out, input);
        check_volumes(root);
        let mut bound = 1;
        while (1usize << (bound - 1)) < n {
            bound += 1;
        }
        assert!(depth(root) <= bound, "{} leaves, depth {}", n, depth(root));
    }
}

#[test]
fn split_is_at_the_median_of_the_widest_axis() {
    // Spread 30 along y, 3 along x: the split is along y.
    let input = vec![
        (0usize, cube(0, 30, 0, 1)),
        (1, cube(1, 0, 0, 1)),
        (2, cube(2, 20, 0, 1)),
        (3, cube(3, 10, 0, 1)),
    ];
    let bvt = BVT::new_balanced(input);
    match bvt.root().unwrap() {
        BVTNode::Internal { left, right, .. } => {
            let mut l = Vec::new();
            let mut r = Vec::new();
            leaves(left, &mut l);
            leaves(right, &mut r);
            let mut li: Vec<usize> = l.iter().map(|x| x.0).collect();
            let mut ri: Vec<usize> = r.iter().map(|x| x.0).collect();
            li.sort();
            ri.sort();
            assert_eq!(li, vec![1, 3]);
            assert_eq!(ri, vec![0, 2]);
        }
        _ => panic!("four leaves make an internal root"),
    }
}

#[test]
fn odd_count_gives_the_smaller_half_to_the_left() {
    let bvt = BVT::new_balanced(row(5));
    match bvt.root().unwrap() {
        BVTNode::Internal { left, right, .. } => {
            let mut l = Vec::new();
            let mut r = Vec::new();
            leaves(left, &mut l);
            leaves(right, &mut r);
            assert_eq!(l.len(), 2);
            assert_eq!(r.len(), 3);
            assert!(l.iter().all(|x| x.0 < 2));
        }
        _ => panic!("five leaves make an internal root"),
    }
}

#[test]
fn ray_collector_takes_the_boxes_on_the_ray() {
    let mut input = row(8);
    input.push((100, cube(30, 50, 0, 2)));
    input.push((101, cube(-40, 0, 0, 2)));
    let bvt = BVT::new_balanced(input);
    let mut hit: RayInterferencesCollector<usize> = RayInterferencesCollector::new(RayTest {
        ray: Ray::new(Point::new(25, 0, 0), Vector::new(1, 0, 0)),
    });
    bvt.visit(&mut hit);
    let mut got = hit.collected().clone();
    got.sort();
    assert_eq!(got, vec![3, 4, 5, 6, 7]);
    let mut up: RayInterferencesCollector<usize> = RayInterferencesCollector::new(RayTest {
        ray: Ray::new(Point::new(25, 5, 0), Vector::new(0, 1, 0)),
    });
    bvt.visit(&mut up);
    assert!(up.collected().is_empty());
}

#[test]
fn volume_and_point_collectors() {
    let bvt = BVT::new_balanced(row(8));
    let mut c: BoundingVolumeInterferencesCollector<usize, AABB> =
        BoundingVolumeInterferencesCollector::new(BoundingVolumeTest { bv: cube(15, 0, 0, 4) });
    bvt.visit(&mut c);
    let mut got = c.collected().clone();
    got.sort();
    assert_eq!(got, vec![1, 2]);
    let mut p: PointInterferencesCollector<usize> =
        PointInterferencesCollector::new(PointTest { point: Point::new(31, 1, -2) });
    bvt.visit(&mut p);
    assert_eq!(p.collected().clone(), vec![3]);
    let mut q: PointInterferencesCollector<usize> =
        PointInterferencesCollector::new(PointTest { point: Point::new(35, 0, 0) });
    bvt.visit(&mut q);
    assert!(q.collected().is_empty());
}

#[test]
fn collector_appends_to_what_it_holds() {
    let bvt = BVT::new_balanced(row(3));
    let mut c: PointInterferencesCollector<usize> =
        PointInterferencesCollector::new(PointTest { point: Point::new(10, 0, 0) });
    bvt.visit(&mut c);
    bvt.visit(&mut c);
    assert_eq!(c.collected().clone(), vec![1, 1]);
}

struct CountingVisitor {
    internals: usize,
    seen: Vec<usize>,
    stop_at: Option<usize>,
    descend: bool,
}

impl BVTVisitor<usize, AABB> for CountingVisitor {
    fn visit_internal(&mut self, _bv: &AABB) -> bool {
        self.internals += 1;
        self.descend
    }

    fn visit_leaf(&mut self, b: &usize, _bv: &AABB) -> bool {
        self.seen.push(*b);
        Some(*b) != self.stop_at
    }
}

#[test]
fn every_leaf_is_visited_once_from_left_to_right() {
    let bvt = BVT::new_balanced(row(9));
    let mut v = CountingVisitor { internals: 0, seen: Vec::new(), stop_at: None, descend: true };
    bvt.visit(&mut v);
    assert_eq!(v.seen, (0..9).collect::<Vec<usize>>());
    assert_eq!(v.internals, 8);
}

#[test]
fn visitor_can_stop_and_can_refuse_to_descend() {
    let bvt = BVT::new_balanced(row(9));
    let mut v = CountingVisitor { internals: 0, seen: Vec::new(), stop_at: Some(4), descend: true };
    bvt.visit(&mut v);
    assert_eq!(v.seen, vec![0, 1, 2, 3, 4]);
    let mut w = CountingVisitor { internals: 0, seen: Vec::new(), stop_at: None, descend: false };
    bvt.visit(&mut w);
    assert!(w.seen.is_empty());
    assert_eq!(w.internals, 1);
}

/// The cost of a leaf is its distance along x from a target; the bound of a
/// box is the distance of the box from the target.
struct NearestAlongX {
    target: i32,
    bv_calls: usize,
    b_calls: usize,
    skip: Option<usize>,
}

impl BVTCostFn<usize, AABB> for NearestAlongX {
    type Cost = Scalar;
    type UserData = i64;

    fn compute_bv_cost(&mut self, bv: &AABB) -> Option<Scalar> {
        self.bv_calls += 1;
        self.bv_cost(bv)
    }

    fn compute_b_cost(&mut self, b: &usize) -> Option<(Scalar, i64)> {
        self.b_calls += 1;
        self.b_cost(b)
    }

    fn bv_cost(&self, bv: &AABB) -> Option<Scalar> {
        let t = self.target as i64;
        let d = if t < bv.mins.x as i64 {
            bv.mins.x as i64 - t
        } else if t > bv.maxs.x as i64 {
            t - bv.maxs.x as i64
        } else {
            0
        };
        Some(Scalar::from_int(d))
    }

    fn b_cost(&self, b: &usize) -> Option<(Scalar, i64)> {
        if Some(*b) == self.skip {
            return None;
        }
        let c = (10 * *b as i64 - self.target as i64).abs();
        Some((Scalar::from_int(c), c))
    }
}

#[test]
fn best_first_search_finds_the_least_cost() {
    for n in 1..30usize {
        let bvt = BVT::new_balanced(row(n));
        for target in [-15, 0, 4, 5, 6, 37, 95, 500] {
            let mut f = NearestAlongX { target, bv_calls: 0, b_calls: 0, skip: None };
            let (b, d) = bvt.best_first_search(&mut f).expect("every leaf has a cost");
            let brute = (0..n).map(|i| (10 * i as i64 - target as i64).abs()).min().unwrap();
            assert_eq!(d, brute);
            assert_eq!((10 * *b as i64 - target as i64).abs(), brute);
        }
    }
}

#[test]
fn best_first_search_prunes() {
    let bvt = BVT::new_balanced(row(64));
    let mut f = NearestAlongX { target: 0, bv_calls: 0, b_calls: 0, skip: None };
    let (b, d) = bvt.best_first_search(&mut f).unwrap();
    assert_eq!((*b, d), (0, 0));
    assert!(f.b_calls < 64, "{} leaves were asked", f.b_calls);
}

#[test]
fn best_first_search_passes_over_leaves_without_cost() {
    let bvt = BVT::new_balanced(row(4));
    let mut f = NearestAlongX { target: 20, bv_calls: 0, b_calls: 0, skip: Some(2) };
    let (b, d) = bvt.best_first_search(&mut f).unwrap();
    assert_eq!(d, 10);
    assert!(*b == 1 || *b == 3);
    let one = BVT::new_balanced(row(1));
    let mut g = NearestAlongX { target: 0, bv_calls: 0, b_calls: 0, skip: Some(0) };
    assert!(one.best_first_search(&mut g).is_none());
}

#[test]
fn best_first_search_of_the_empty_tree() {
    let bvt: BVT<usize, AABB> = BVT::new_balanced(Vec::new());
    let mut f = NearestAlongX { target: 0, bv_calls: 0, b_calls: 0, skip: None };
    assert!(bvt.best_first_search(&mut f).is_none());
    assert_eq!(f.bv_calls + f.b_calls, 0);
}

struct Pruner;

impl BVTCostFn<usize, AABB> for Pruner {
    type Cost = Scalar;
    type UserData = ();

    fn bv_cost(&self, bv: &AABB) -> Option<Scalar> {
        if bv.maxs.x < 35 {
            None
        } else {
            Some(Scalar::zero())
        }
    }

    fn b_cost(&self, b: &usize) -> Option<(Scalar, ())> {
        Some((Scalar::from_int(*b as i64), ()))
    }

    fn compute_bv_cost(&mut self, bv: &AABB) -> Option<Scalar> {
        self.bv_cost(bv)
    }

    fn compute_b_cost(&mut self, b: &usize) -> Option<(Scalar, ())> {
        self.b_cost(b)
    }
}

#[test]
fn a_volume_without_bound_is_not_entered() {
    let bvt = BVT::new_balanced(row(8));
    let (b, _) = bvt.best_first_search(&mut Pruner).unwrap();
    // Leaves 0 to 3 lie in volumes without a bound or have none themselves.
    assert_eq!(*b, 4);
}

#[test]
fn leaves_with_equal_keys_keep_their_order() {
    // All centers agree along x, the widest axis on a tie.
    let input: Vec<(usize, AABB)> = (0..6).map(|i| (i, cube(0, 0, 0, 1 + i as i32))).collect();
    let bvt = BVT::new_balanced(input);
    let mut out = Vec::new();
    leaves(bvt.root().unwrap(), &mut out);
    let order: Vec<usize> = out.iter().map(|l| l.0).collect();
    assert_eq!(order, vec![0, 1, 2, 3, 4, 5]);
    // Two keys, three leaves each: the lower key goes left, in order.
    let input: Vec<(usize, AABB)> =
        (0..6).map(|i| (i, cube(if i % 2 == 0 { 10 } else { 0 }, 0, 0, 1))).collect();
    let bvt = BVT::new_balanced(input);
    let mut out = Vec::new();
    leaves(bvt.root().unwrap(), &mut out);
    let order: Vec<usize> = out.iter().map(|l| l.0).collect();
    assert_eq!(order, vec![1, 3, 5, 0, 2, 4]);
}
