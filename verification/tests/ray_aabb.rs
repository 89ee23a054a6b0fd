use ncollide::bounding_volume::aabb::AABB;
use ncollide::math::{Point, Vector};
use ncollide::query::ray::Ray;
use ncollide::math::scalar::Scalar;

fn unit_box() -> AABB {
    AABB::new(Point::new(-1, -1, -1), Point::new(1, 1, 1))
}

fn toi(b: &AABB, o: (i32, i32, i32), d: (i32, i32, i32), solid: bool) -> Option<Scalar> {
    b.toi_with_local_ray(&Ray::new(Point::new(o.0, o.1, o.2), Vector::new(d.0, d.1, d.2)), solid)
}

fn assert_time(t: Option<Scalar>, num: i64, den: i64) {
    let t = t.expect("the ray hits");
    assert!(t.same(&Scalar::new(num, den)), "{:?} is not {}/{}", t, num, den);
}

#[test]
fn ray_enters_through_a_face() {
    let b = unit_box();
    assert_time(toi(&b, (-5, 0, 0), (1, 0, 0), true), 4, 1);
    assert_time(toi(&b, (-5, 0, 0), (2, 0, 0), true), 2, 1);
    assert_time(toi(&b, (-5, 0, 0), (3, 0, 0), true), 4, 3);
    assert_time(toi(&b, (0, 7, 0), (0, -2, 0), false), 3, 1);
}

#[test]
fn ray_enters_at_the_latest_slab() {
    let b = unit_box();
    // Enters x at 4, y at 2: inside the box from 4 on.
    assert_time(toi(&b, (-5, -3, 0), (1, 1, 0), true), 4, 1);
    // Diagonal through a corner.
    assert_time(toi(&b, (-3, -3, -3), (1, 1, 1), true), 2, 1);
}

#[test]
fn ray_misses() {
    let b = unit_box();
    assert!(toi(&b, (-5, 0, 0), (-1, 0, 0), true).is_none());
    assert!(toi(&b, (-5, 3, 0), (1, 0, 0), true).is_none());
    assert!(toi(&b, (-5, -3, 0), (1, 3, 0), true).is_none());
    assert!(toi(&b, (5, 5, 5), (0, 0, 0), true).is_none());
    assert!(!b.intersects_local_ray(&Ray::new(Point::new(0, 2, 0), Vector::new(1, 0, 0))));
}

#[test]
fn ray_grazes_an_edge() {
    let b = unit_box();
    assert_time(toi(&b, (-5, 1, 0), (1, 0, 0), true), 4, 1);
    assert_time(toi(&b, (-2, 0, 0), (1, 1, 0), true), 1, 1);
    assert!(toi(&b, (-3, 0, 0), (1, 1, 0), true).is_none());
}

#[test]
fn ray_from_inside() {
    let b = unit_box();
    assert_time(toi(&b, (0, 0, 0), (1, 0, 0), true), 0, 1);
    assert_time(toi(&b, (0, 0, 0), (1, 0, 0), false), 1, 1);
    assert_time(toi(&b, (0, 0, 0), (2, 3, 0), false), 1, 3);
    assert_time(toi(&b, (1, 0, 0), (-1, 0, 0), false), 2, 1);
    // On the boundary, leaving at once.
    assert_time(toi(&b, (1, 0, 0), (1, 0, 0), false), 0, 1);
}

#[test]
fn still_ray() {
    let b = unit_box();
    assert_time(toi(&b, (0, 0, 0), (0, 0, 0), true), 0, 1);
    let t = toi(&b, (0, 0, 0), (0, 0, 0), false).expect("inside");
    assert!(!t.is_finite());
}

#[test]
fn invalid_box_is_never_hit() {
    let inv = AABB::new_invalid();
    assert!(toi(&inv, (0, 0, 0), (1, 0, 0), true).is_none());
    assert!(toi(&inv, (0, 0, 0), (0, 0, 0), true).is_none());
    assert!(toi(&inv, (i32::MAX, i32::MAX, i32::MAX), (-1, -1, -1), false).is_none());
}

#[test]
fn extreme_coordinates() {
    let b = AABB::new(Point::new(i32::MIN, i32::MIN, i32::MIN), Point::new(i32::MAX, i32::MAX, i32::MAX));
    assert_time(toi(&b, (0, 0, 0), (i32::MIN, i32::MAX, 1), true), 0, 1);
    assert_time(toi(&b, (i32::MIN, 0, 0), (i32::MAX, 0, 0), false), 4294967295, 2147483647);
    let far = AABB::new(Point::new(i32::MAX, i32::MAX, i32::MAX), Point::new(i32::MAX, i32::MAX, i32::MAX));
    assert_time(toi(&far, (i32::MIN, i32::MIN, i32::MIN), (1, 1, 1), true), 4294967295, 1);
}
