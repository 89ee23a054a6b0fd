use ncollide::bounding_volume::aabb::AABB;
use ncollide::bounding_volume::HasAABB;
use ncollide::shape::cuboid::Cuboid;
use ncollide::math::isometry::{AxisDir, Isometry, Rotation};
use ncollide::math::{Axis, Point, Vector};
use ncollide::shape::plane::Plane;
use ncollide::query::point::{FeatureId, PointProjection, PointQuery};

fn quarter_turn() -> Rotation {
    Rotation::new(
        AxisDir { axis: Axis::Y, neg: true },
        AxisDir { axis: Axis::X, neg: false },
        AxisDir { axis: Axis::Z, neg: false },
    )
    .unwrap()
}

#[test]
fn planar_cuboid_distances() {
    // Half-extents (1, 2) in the plane: the box extends over the whole z axis.
    let cuboid = Cuboid::new(Vector::new(1, 2, i32::MAX));
    let id = Isometry::identity();
    let inside = Point::new(0, 0, 0);
    let outside = Point::new(2, 2, 0);
    assert_eq!(cuboid.distance_to_point(&id, &inside, true), 0);
    assert_eq!(cuboid.distance_to_point(&id, &inside, false), -1);
    assert_eq!(cuboid.distance_to_point(&id, &outside, false), 1);
    assert_eq!(cuboid.distance_to_point(&id, &outside, true), 1);
    assert!(cuboid.contains_point(&id, &inside));
    assert!(!cuboid.contains_point(&id, &outside));
}

#[test]
fn distance_to_a_box_is_rounded_down() {
    let b = AABB::new(Point::new(0, 0, 0), Point::new(10, 10, 10));
    assert_eq!(b.distance_to_local_point(&Point::new(13, 14, 5), true), 5);
    assert_eq!(b.distance_to_local_point(&Point::new(11, 11, 5), true), 1);
    assert_eq!(b.distance_to_local_point(&Point::new(12, 12, 12), false), 3);
    assert_eq!(b.distance_to_local_point(&Point::new(-1, 5, 5), true), 1);
    assert_eq!(b.distance_to_local_point(&Point::new(10, 10, 10), true), 0);
    assert_eq!(b.distance_to_local_point(&Point::new(10, 10, 10), false), 0);
    assert_eq!(b.distance_to_local_point(&Point::new(3, 5, 6), false), -3);
    assert_eq!(b.distance_to_local_point(&Point::new(5, 5, 9), false), -1);
    let far = AABB::new(Point::new(i32::MAX, i32::MAX, i32::MAX), Point::new(i32::MAX, i32::MAX, i32::MAX));
    let d = far.distance_to_local_point(&Point::new(i32::MIN, i32::MIN, i32::MIN), true);
    assert_eq!(d, 7439101571);
}

#[test]
fn solid_changes_nothing_outside() {
    let b = AABB::new(Point::new(-3, -3, -3), Point::new(3, 3, 3));
    for x in -6..7 {
        for y in -6..7 {
            let p = Point::new(x, y, 1);
            let s = b.distance_to_local_point(&p, true);
            let n = b.distance_to_local_point(&p, false);
            if b.contains_local_point(&p) {
                assert_eq!(s, 0);
                assert!(n <= 0);
                assert_eq!(b.project_local_point(&p, true), PointProjection::new(true, p));
                assert!(b.project_local_point(&p, false).is_inside);
            } else {
                assert_eq!(s, n);
                assert!(s > 0);
                assert_eq!(b.project_local_point(&p, true), b.project_local_point(&p, false));
            }
        }
    }
}

#[test]
fn projection_on_a_box() {
    let b = AABB::new(Point::new(0, 0, 0), Point::new(10, 10, 10));
    assert_eq!(
        b.project_local_point(&Point::new(13, 14, 5), true),
        PointProjection::new(false, Point::new(10, 10, 5))
    );
    assert_eq!(
        b.project_local_point(&Point::new(2, 5, 5), false),
        PointProjection::new(true, Point::new(0, 5, 5))
    );
    assert_eq!(
        b.project_local_point(&Point::new(5, 5, 9), false),
        PointProjection::new(true, Point::new(5, 5, 10))
    );
    assert_eq!(
        b.project_local_point(&Point::new(5, 5, 5), false),
        PointProjection::new(true, Point::new(0, 5, 5))
    );
}

#[test]
fn cuboid_box_follows_the_placement() {
    let c = Cuboid::new(Vector::new(1, 2, 3));
    assert_eq!(*c.half_extents(), Vector::new(1, 2, 3));
    let m = Isometry::new(Vector::new(10, 20, 30), quarter_turn());
    assert_eq!(c.aabb(&m), AABB::new(Point::new(8, 19, 27), Point::new(12, 21, 33)));
    assert_eq!(c.aabb(&Isometry::identity()), AABB::new(Point::new(-1, -2, -3), Point::new(1, 2, 3)));
    assert!(c.contains_point(&m, &Point::new(12, 21, 33)));
    assert!(!c.contains_point(&m, &Point::new(11, 22, 30)));
    assert_eq!(c.distance_to_point(&m, &Point::new(15, 25, 30), true), 5);
    assert_eq!(
        c.project_point(&m, &Point::new(15, 25, 30), true),
        PointProjection::new(false, Point::new(12, 21, 30))
    );
    let (p, f) = c.project_point_with_feature(&m, &Point::new(10, 20, 30));
    assert_eq!(p, PointProjection::new(true, Point::new(10, 19, 30)));
    assert_eq!(f, FeatureId::Unknown);
}

#[test]
fn plane_through_the_origin() {
    let plane = Plane::new(Vector::new(0, 1, 0));
    assert_eq!(*plane.normal(), Vector::new(0, 1, 0));
    let id = Isometry::identity();
    let above = Point::new(3, 5, -2);
    let below = Point::new(3, -5, -2);
    let on = Point::new(7, 0, 7);
    assert_eq!(plane.distance_to_point(&id, &above, true), 5);
    assert_eq!(plane.distance_to_point(&id, &above, false), 5);
    assert_eq!(plane.distance_to_point(&id, &below, true), 0);
    assert_eq!(plane.distance_to_point(&id, &below, false), -5);
    assert_eq!(plane.distance_to_point(&id, &on, false), 0);
    assert!(!plane.contains_point(&id, &above));
    assert!(plane.contains_point(&id, &below));
    assert!(plane.contains_point(&id, &on));
    assert_eq!(plane.project_point(&id, &above, true), PointProjection::new(false, Point::new(3, 0, -2)));
    assert_eq!(plane.project_point(&id, &above, false), PointProjection::new(false, Point::new(3, 0, -2)));
    assert_eq!(plane.project_point(&id, &below, true), PointProjection::new(true, below));
    assert_eq!(plane.project_point(&id, &below, false), PointProjection::new(true, Point::new(3, 0, -2)));
    assert_eq!(
        plane.project_point_with_feature(&id, &below),
        (PointProjection::new(true, Point::new(3, 0, -2)), FeatureId::Face(0))
    );
}

#[test]
fn placed_plane() {
    // The normal (0, 1, 0) turned by a quarter about z is (-1, 0, 0); the
    // plane passes through (10, 20, 30).
    let plane = Plane::new(Vector::new(0, 1, 0));
    let m = Isometry::new(Vector::new(10, 20, 30), quarter_turn());
    let outside = Point::new(4, 0, 0);
    let inside = Point::new(13, 9, 9);
    assert_eq!(plane.distance_to_point(&m, &outside, true), 6);
    assert_eq!(plane.distance_to_point(&m, &inside, false), -3);
    assert_eq!(plane.distance_to_point(&m, &inside, true), 0);
    assert!(plane.contains_point(&m, &inside));
    assert!(!plane.contains_point(&m, &outside));
    assert_eq!(plane.project_point(&m, &outside, true), PointProjection::new(false, Point::new(10, 0, 0)));
    assert_eq!(plane.project_point(&m, &inside, false), PointProjection::new(true, Point::new(10, 9, 9)));
    // The projection lies on the plane.
    let p = plane.project_point(&m, &outside, false).point;
    assert_eq!(plane.distance_to_point(&m, &p, false), 0);
}

#[test]
fn plane_at_the_edge_of_the_lattice() {
    let plane = Plane::new(Vector::new(-1, 0, 0));
    let id = Isometry::identity();
    let p = Point::new(i32::MIN, 1, 2);
    assert_eq!(plane.distance_to_point(&id, &p, true), 2147483648);
    assert_eq!(plane.project_point(&id, &p, true), PointProjection::new(false, Point::new(0, 1, 2)));
}
