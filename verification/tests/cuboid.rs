use ncollide::bounding_volume::aabb::AABB;
use ncollide::bounding_volume::HasAABB;
use ncollide::query::closest_points::{ClosestPoints, ClosestPointsWith};
use ncollide::query::composite_shape_against_shape::{composite_shape_against_shape, shape_against_composite_shape};
use ncollide::shape::compound::Compound;
use ncollide::shape::cuboid::Cuboid;
use ncollide::math::isometry::{AxisDir, Isometry, Rotation};
use ncollide::math::{Axis, Point, Vector, WideVector};
use ncollide::query::ray::{Ray, RayCast};
use ncollide::math::scalar::Scalar;

fn at(x: i32, y: i32, z: i32) -> Isometry {
    Isometry::from_translation(Vector::new(x, y, z))
}

fn turn() -> Rotation {
    Rotation::new(
        AxisDir { axis: Axis::Y, neg: true },
        AxisDir { axis: Axis::X, neg: false },
        AxisDir { axis: Axis::Z, neg: false },
    )
    .unwrap()
}

fn ray(o: (i32, i32, i32), d: (i32, i32, i32)) -> Ray {
    Ray::new(Point::new(o.0, o.1, o.2), Vector::new(d.0, d.1, d.2))
}

#[test]
fn ray_on_a_box_with_normal() {
    let b = AABB::new(Point::new(-1, -2, -3), Point::new(1, 2, 3));
    let hit = b.toi_and_normal_with_local_ray(&ray((-5, 0, 0), (2, 0, 0)), true).unwrap();
    assert!(hit.toi.same(&Scalar::new(2, 1)));
    assert_eq!(hit.normal, WideVector::new(-1, 0, 0));
    let hit = b.toi_and_normal_with_local_ray(&ray((0, 0, 9), (0, 0, -3)), true).unwrap();
    assert!(hit.toi.same(&Scalar::new(2, 1)));
    assert_eq!(hit.normal, WideVector::new(0, 0, 1));
    // Enters the y slab last.
    let hit = b.toi_and_normal_with_local_ray(&ray((-2, -6, 0), (1, 2, 0)), true).unwrap();
    assert!(hit.toi.same(&Scalar::new(2, 1)));
    assert_eq!(hit.normal, WideVector::new(0, -1, 0));
    // Through an edge: the earlier axis decides.
    let hit = b.toi_and_normal_with_local_ray(&ray((-3, -4, 0), (1, 1, 0)), true).unwrap();
    assert!(hit.toi.same(&Scalar::new(2, 1)));
    assert_eq!(hit.normal, WideVector::new(-1, 0, 0));
    assert!(b.toi_and_normal_with_local_ray(&ray((-5, 0, 0), (-1, 0, 0)), true).is_none());
    assert!(b.toi_and_normal_with_local_ray(&ray((-5, 3, 0), (1, 0, 0)), false).is_none());
}

#[test]
fn ray_from_inside_a_box_with_normal() {
    let b = AABB::new(Point::new(-1, -2, -3), Point::new(1, 2, 3));
    let hit = b.toi_and_normal_with_local_ray(&ray((0, 0, 0), (1, 1, 0)), true).unwrap();
    assert!(hit.toi.is_zero());
    assert_eq!(hit.normal, WideVector::zero());
    let hit = b.toi_and_normal_with_local_ray(&ray((0, 0, 0), (1, 1, 0)), false).unwrap();
    assert!(hit.toi.same(&Scalar::new(1, 1)));
    assert_eq!(hit.normal, WideVector::new(1, 0, 0));
    let hit = b.toi_and_normal_with_local_ray(&ray((0, 0, 0), (0, -1, -3)), false).unwrap();
    assert!(hit.toi.same(&Scalar::new(1, 1)));
    assert_eq!(hit.normal, WideVector::new(0, 0, -1));
    let hit = b.toi_and_normal_with_local_ray(&ray((0, 0, 0), (0, 0, 0)), false).unwrap();
    assert!(!hit.toi.is_finite());
    assert_eq!(hit.normal, WideVector::zero());
}

#[test]
fn ray_on_a_placed_cuboid() {
    let c = Cuboid::new(Vector::new(1, 2, 3));
    // Turned by a quarter about z the half-extents along x and y change places.
    let m = Isometry::new(Vector::new(10, 0, 0), turn());
    let r = ray((0, 0, 0), (1, 0, 0));
    let t = c.toi_with_ray(&m, &r, true).unwrap();
    assert!(t.same(&Scalar::new(8, 1)));
    let hit = c.toi_and_normal_with_ray(&m, &r, true).unwrap();
    assert!(hit.toi.same(&Scalar::new(8, 1)));
    assert_eq!(hit.normal, WideVector::new(-1, 0, 0));
    let hit = c.toi_and_normal_and_uv_with_ray(&m, &ray((10, 9, 0), (0, -1, 0)), true).unwrap();
    assert!(hit.toi.same(&Scalar::new(8, 1)));
    assert_eq!(hit.normal, WideVector::new(0, 1, 0));
    assert!(hit.uvs.is_none());
    assert!(c.toi_with_ray(&m, &ray((0, 2, 0), (1, 0, 0)), true).is_none());
    assert!(c.toi_with_ray(&Isometry::identity(), &ray((-9, 2, 0), (1, 0, 0)), true).is_some());
    assert_eq!(c.local_aabb(), AABB::new(Point::new(-1, -2, -3), Point::new(1, 2, 3)));
}

fn boxes() -> Compound<Cuboid> {
    Compound::new(vec![
        (at(0, 0, 0), Cuboid::new(Vector::new(1, 1, 1))),
        (at(10, 0, 0), Cuboid::new(Vector::new(2, 1, 1))),
        (at(20, 0, 0), Cuboid::new(Vector::new(1, 3, 1))),
        (Isometry::new(Vector::new(30, 0, 0), turn()), Cuboid::new(Vector::new(5, 1, 1))),
        (at(10, 20, 0), Cuboid::new(Vector::new(1, 1, 1))),
    ])
}

#[test]
fn ray_on_a_compound_of_cuboids_is_the_earliest() {
    let c = boxes();
    let rays = [
        ray((-10, 0, 0), (1, 0, 0)),
        ray((50, 0, 0), (-1, 0, 0)),
        ray((50, 4, 0), (-1, 0, 0)),
        ray((15, -9, 0), (1, 2, 0)),
        ray((10, 40, 0), (0, -3, 0)),
        ray((0, 10, 0), (1, 0, 0)),
        ray((5, 5, 5), (-1, -1, -1)),
        ray((10, 0, 0), (0, 1, 0)),
    ];
    for r in &rays {
        let mut brute: Option<Scalar> = None;
        for (m, part) in c.shapes() {
            if let Some(t) = part.toi_with_ray(m, r, true) {
                if brute.map_or(true, |b| t.less(&b)) {
                    brute = Some(t);
                }
            }
        }
        let got = c.toi_with_ray(r, true);
        assert_eq!(got.is_some(), brute.is_some());
        if let (Some(a), Some(b)) = (got, brute) {
            assert!(a.same(&b), "{:?} is not {:?}", a, b);
        }
        let hit = c.toi_and_normal_with_ray(r, true);
        assert_eq!(hit.is_some(), brute.is_some());
        if let (Some(a), Some(b)) = (hit, brute) {
            assert!(a.toi.same(&b));
        }
    }
    let hit = c.toi_and_normal_with_ray(&rays[2], true).unwrap();
    assert!(hit.toi.same(&Scalar::new(19, 1)));
    assert_eq!(hit.normal, WideVector::new(1, 0, 0));
    assert!(c.toi_with_ray(&rays[5], true).is_none());
}

#[test]
fn closest_points_of_boxes() {
    let a = AABB::new(Point::new(0, 0, 0), Point::new(10, 10, 10));
    let b = AABB::new(Point::new(13, 14, 2), Point::new(20, 20, 5));
    assert_eq!(
        a.closest_points_to_box(&b, 5),
        ClosestPoints::WithinMargin(Point::new(10, 10, 2), Point::new(13, 14, 2))
    );
    assert_eq!(a.closest_points_to_box(&b, 4), ClosestPoints::Disjoint);
    assert_eq!(
        b.closest_points_to_box(&a, 5),
        ClosestPoints::WithinMargin(Point::new(13, 14, 2), Point::new(10, 10, 2))
    );
    let touching = AABB::new(Point::new(10, 10, 10), Point::new(11, 11, 11));
    assert_eq!(a.closest_points_to_box(&touching, 0), ClosestPoints::Intersecting);
    let c = AABB::new(Point::new(11, 3, 3), Point::new(12, 4, 4));
    assert_eq!(
        a.closest_points_to_box(&c, 1),
        ClosestPoints::WithinMargin(Point::new(10, 3, 3), Point::new(11, 3, 3))
    );
    assert_eq!(a.closest_points_to_box(&c, 0), ClosestPoints::Disjoint);
    let far = AABB::new(Point::new(i32::MAX, i32::MAX, i32::MAX), Point::new(i32::MAX, i32::MAX, i32::MAX));
    let near = AABB::new(Point::new(i32::MIN, i32::MIN, i32::MIN), Point::new(i32::MIN, i32::MIN, i32::MIN));
    assert_eq!(far.closest_points_to_box(&near, u32::MAX), ClosestPoints::Disjoint);
}

#[test]
fn closest_points_of_placed_cuboids() {
    let c = Cuboid::new(Vector::new(1, 2, 3));
    let d = Cuboid::new(Vector::new(1, 1, 1));
    let m = Isometry::new(Vector::new(10, 0, 0), turn());
    assert_eq!(
        c.closest_points(&m, &Isometry::identity(), &d, 10),
        ClosestPoints::WithinMargin(Point::new(8, -1, -1), Point::new(1, -1, -1))
    );
    assert_eq!(c.closest_points(&m, &Isometry::identity(), &d, 6), ClosestPoints::Disjoint);
    assert_eq!(c.closest_points(&m, &at(8, 2, 4), &d, 6), ClosestPoints::Intersecting);
}

#[test]
fn closest_points_of_a_compound_of_cuboids_are_those_of_the_nearest_part() {
    let c = boxes();
    let probe = Cuboid::new(Vector::new(1, 1, 1));
    let id = Isometry::identity();
    let dist = |r: &ClosestPoints, margin: u32| -> u128 {
        match r {
            ClosestPoints::Intersecting => 0,
            ClosestPoints::WithinMargin(p, q) => p.distance_squared(q),
            ClosestPoints::Disjoint => (margin as u128 + 1) * (margin as u128 + 1),
        }
    };
    for margin in [0u32, 2, 5, 9, 30] {
        for (x, y, z) in [(5, 0, 0), (15, 8, 0), (-20, -20, 0), (30, 9, 2), (10, 10, 10), (21, 0, 0), (40, -3, 7)] {
            let m2 = at(x, y, z);
            let got = composite_shape_against_shape(&id, &c, &m2, &probe, margin);
            let mut best = u128::MAX;
            for (pm, part) in c.shapes() {
                best = best.min(dist(&part.closest_points(pm, &m2, &probe, margin), margin));
            }
            assert_eq!(dist(&got, margin), best, "margin {} at {:?}", margin, (x, y, z));
            let mut forth = got;
            forth.flip();
            assert_eq!(forth, shape_against_composite_shape(&m2, &probe, &id, &c, margin));
        }
    }
    // The compound placed by a motion with a turn.
    let m1 = Isometry::new(Vector::new(0, 100, 0), turn());
    let got = composite_shape_against_shape(&m1, &c, &at(0, 95, 0), &probe, 10);
    assert_eq!(got, ClosestPoints::WithinMargin(Point::new(-1, 99, -1), Point::new(-1, 96, -1)));
}

#[test]
fn box_of_a_compound() {
    let c = boxes();
    assert_eq!(c.aabb(&Isometry::identity()), AABB::new(Point::new(-1, -5, -1), Point::new(31, 21, 1)));
    assert_eq!(c.aabb(&at(100, 0, 0)), AABB::new(Point::new(99, -5, -1), Point::new(131, 21, 1)));
    let empty: Compound<Cuboid> = Compound::new(Vec::new());
    assert_eq!(empty.aabb(&Isometry::identity()), AABB::new_invalid());
}

#[test]
fn nearer_part_wins_where_rounded_distances_agree() {
    // The parts are apart from the probe by the roots of 2 and of 3.
    let id = Isometry::identity();
    let probe = Cuboid::new(Vector::new(1, 1, 1));
    let near = (at(3, 3, 0), Cuboid::new(Vector::new(1, 1, 1)));
    let far = (at(-3, -3, -3), Cuboid::new(Vector::new(1, 1, 1)));
    for parts in [vec![near, far], vec![far, near]] {
        let c = Compound::new(parts);
        assert_eq!(
            composite_shape_against_shape(&id, &c, &id, &probe, 5),
            ClosestPoints::WithinMargin(Point::new(2, 2, -1), Point::new(1, 1, -1))
        );
    }
}

#[test]
fn rotations_and_mirror_images() {
    assert!(Rotation::identity().is_proper());
    assert!(turn().is_proper());
    let mirror = Rotation::new(
        AxisDir { axis: Axis::X, neg: true },
        AxisDir { axis: Axis::Y, neg: false },
        AxisDir { axis: Axis::Z, neg: false },
    )
    .unwrap();
    assert!(!mirror.is_proper());
    let swap = Rotation::new(
        AxisDir { axis: Axis::Y, neg: false },
        AxisDir { axis: Axis::X, neg: false },
        AxisDir { axis: Axis::Z, neg: false },
    )
    .unwrap();
    assert!(!swap.is_proper());
    assert!(swap.compose(&mirror).is_proper());
}
