use ncollide::bounding_volume::bounding_sphere::BoundingSphere;
use ncollide::bounding_volume::BoundingVolume;
use ncollide::partitioning::bvt::{BVTNode, BVT};
use ncollide::math::{Point, Vector};
use ncollide::query::ray::Ray;
use ncollide::query::visitors::{
    BoundingVolumeInterferencesCollector, BoundingVolumeTest, PointInterferencesCollector,
    PointTest, RayInterferencesCollector, RayTest,
};

fn sphere(x: i32, y: i32, z: i32, r: u64) -> BoundingSphere {
    BoundingSphere::new(Point::new(x, y, z), r)
}

fn ray(o: (i32, i32, i32), d: (i32, i32, i32)) -> Ray {
    Ray::new(Point::new(o.0, o.1, o.2), Vector::new(d.0, d.1, d.2))
}

/// The scene in thousandths: a ball of radius 0.5 at (1, 0), a capsule at
/// (2, 0), a cone at (3, 0) and a cuboid of half-extents (1, 0.5) at (4, 2),
/// each with its bounding sphere.
fn scene() -> Vec<(usize, BoundingSphere)> {
    vec![
        (0, sphere(1000, 0, 0, 500)),
        (1, sphere(2000, 0, 0, 1250)),
        (2, sphere(3000, 0, 0, 902)),
        (3, sphere(4000, 2000, 0, 1119)),
    ]
}

#[test]
fn ray_along_x_through_the_scene() {
    let bvt = BVT::new_balanced(scene());
    let mut hit: RayInterferencesCollector<usize> =
        RayInterferencesCollector::new(RayTest { ray: ray((0, 0, 0), (1, 0, 0)) });
    let mut miss: RayInterferencesCollector<usize> =
        RayInterferencesCollector::new(RayTest { ray: ray((0, 0, 0), (-1, 0, 0)) });
    bvt.visit(&mut hit);
    bvt.visit(&mut miss);
    let mut got = hit.collected().clone();
    got.sort();
    assert_eq!(got, vec![0, 1, 2]);
    assert_eq!(hit.collected().len(), 3);
    assert_eq!(miss.collected().len(), 0);
}

#[test]
fn ray_and_sphere() {
    let s = sphere(10, 0, 0, 5);
    assert!(s.intersects_local_ray(&ray((0, 0, 0), (1, 0, 0))));
    assert!(!s.intersects_local_ray(&ray((0, 0, 0), (-1, 0, 0))));
    assert!(!s.intersects_local_ray(&ray((0, 0, 0), (0, 1, 0))));
    assert!(!s.intersects_local_ray(&ray((0, 0, 0), (0, 0, 0))));
    assert!(s.intersects_local_ray(&ray((10, 3, 4), (0, 0, 0))));
    assert!(s.intersects_local_ray(&ray((12, 0, 0), (-7, 3, 1))));
    // Tangent: the line y = 5 touches the sphere at (10, 5, 0).
    assert!(s.intersects_local_ray(&ray((0, 5, 0), (1, 0, 0))));
    assert!(!s.intersects_local_ray(&ray((0, 6, 0), (1, 0, 0))));
    // Slopes 4/7 and 3/5 bracket the tangent through the origin, 1/sqrt(3).
    assert!(s.intersects_local_ray(&ray((0, 0, 0), (7, 4, 0))));
    assert!(!s.intersects_local_ray(&ray((0, 0, 0), (5, 3, 0))));
    // The line meets the sphere, but behind the origin of the ray.
    assert!(!s.intersects_local_ray(&ray((20, 0, 0), (1, 0, 0))));
}

#[test]
fn ray_and_sphere_with_large_numbers() {
    let s = sphere(i32::MAX, i32::MAX, i32::MAX, 3);
    assert!(s.intersects_local_ray(&ray((i32::MIN, i32::MIN, i32::MIN), (1, 1, 1))));
    assert!(s.intersects_local_ray(&ray((i32::MIN, i32::MIN, i32::MIN), (i32::MAX, i32::MAX, i32::MAX))));
    assert!(!s.intersects_local_ray(&ray((i32::MIN, i32::MIN, i32::MIN), (i32::MAX, i32::MAX, i32::MAX - 8))));
    assert!(s.intersects_local_ray(&ray((i32::MIN, i32::MIN, i32::MIN), (i32::MAX, i32::MAX, i32::MAX - 1))));
    assert!(!s.intersects_local_ray(&ray((i32::MIN, i32::MIN, i32::MIN), (-1, -1, -1))));
    let all = sphere(0, 0, 0, u64::MAX);
    assert!(all.intersects_local_ray(&ray((i32::MIN, i32::MIN, i32::MIN), (-1, -1, -1))));
    let big = sphere(0, 0, 0, 1 << 40);
    assert!(big.intersects_local_ray(&ray((i32::MAX, i32::MIN, 0), (1, 0, 0))));
}

#[test]
fn spheres_intersect_and_enclose() {
    let a = sphere(0, 0, 0, 10);
    assert!(a.intersects(&sphere(15, 0, 0, 5)));
    assert!(!a.intersects(&sphere(16, 0, 0, 5)));
    assert!(a.intersects(&sphere(9, 12, 0, 5)));
    assert!(!a.intersects(&sphere(9, 12, 1, 5)));
    assert!(a.contains(&sphere(3, 4, 0, 5)));
    assert!(!a.contains(&sphere(3, 4, 1, 5)));
    assert!(a.contains(&a));
    assert!(!sphere(3, 4, 0, 5).contains(&a));
    let all = sphere(7, 7, 7, u64::MAX);
    assert!(all.contains(&a));
    assert!(!a.contains(&all));
    assert!(all.intersects(&sphere(i32::MIN, 0, 0, 0)));
    assert!(a.contains_local_point(&Point::new(6, 8, 0)));
    assert!(!a.contains_local_point(&Point::new(6, 8, 1)));
}

#[test]
fn merged_sphere_encloses_both() {
    let a = sphere(0, 0, 0, 10);
    let inner = sphere(1, 1, 1, 2);
    assert_eq!(a.merged(&inner), a);
    assert_eq!(inner.merged(&a), a);
    let b = sphere(30, 40, 0, 5);
    let m = a.merged(&b);
    assert_eq!(m, sphere(15, 20, 0, 35));
    assert!(m.contains(&a) && m.contains(&b));
    let far = sphere(i32::MIN, i32::MIN, i32::MIN, 1).merged(&sphere(i32::MAX, i32::MAX, i32::MAX, 1));
    assert!(far.contains(&sphere(i32::MIN, i32::MIN, i32::MIN, 1)));
    assert!(far.contains(&sphere(i32::MAX, i32::MAX, i32::MAX, 1)));
    assert_eq!(far.center, Point::new(-1, -1, -1));
    let huge = sphere(0, 0, 0, u64::MAX - 1).merged(&sphere(5, 0, 0, u64::MAX - 1));
    assert_eq!(huge.radius(), u64::MAX);
    let mut c = a;
    c.merge(&b);
    assert_eq!(c, m);
}

#[test]
fn sphere_grows_and_shrinks() {
    let a = sphere(1, 2, 3, 10);
    assert_eq!(a.loosened(5), sphere(1, 2, 3, 15));
    assert_eq!(a.tightened(10), sphere(1, 2, 3, 0));
    assert_eq!(sphere(0, 0, 0, u64::MAX - 2).loosened(7).radius(), u64::MAX);
    let mut b = a;
    b.loosen(1);
    b.tighten(3);
    assert_eq!(b, sphere(1, 2, 3, 8));
    assert_eq!(*a.center(), Point::new(1, 2, 3));
}

fn check(n: &BVTNode<usize, BoundingSphere>) -> Vec<BoundingSphere> {
    match n {
        BVTNode::Leaf { bv, .. } => vec![*bv],
        BVTNode::Internal { bv, left, right } => {
            let mut below = check(left);
            below.extend(check(right));
            assert!(bv.contains(left.bounding_volume()));
            assert!(bv.contains(right.bounding_volume()));
            for s in &below {
                assert!(bv.contains(s));
            }
            below
        }
    }
}

#[test]
fn tree_of_spheres() {
    let leaves: Vec<(usize, BoundingSphere)> =
        (0..25).map(|i| (i, sphere(100 * (i as i32 % 5), 100 * (i as i32 / 5), 0, 10 + i as u64))).collect();
    let bvt = BVT::new_balanced(leaves.clone());
    assert_eq!(check(bvt.root().unwrap()).len(), 25);
    let mut c: RayInterferencesCollector<usize> =
        RayInterferencesCollector::new(RayTest { ray: ray((-50, 200, 0), (1, 0, 0)) });
    bvt.visit(&mut c);
    let mut got = c.collected().clone();
    got.sort();
    assert_eq!(got, vec![10, 11, 12, 13, 14]);
    let mut p: PointInterferencesCollector<usize> =
        PointInterferencesCollector::new(PointTest { point: Point::new(405, 410, 0) });
    bvt.visit(&mut p);
    assert_eq!(p.collected().clone(), vec![24]);
    let mut v: BoundingVolumeInterferencesCollector<usize, BoundingSphere> =
        BoundingVolumeInterferencesCollector::new(BoundingVolumeTest { bv: sphere(50, 0, 0, 40) });
    bvt.visit(&mut v);
    let mut got = v.collected().clone();
    got.sort();
    assert_eq!(got, vec![0, 1]);
}
