use ncollide::bounding_volume::aabb::AABB;
use ncollide::bounding_volume::BoundingVolume;
use ncollide::math::isometry::{AxisDir, Isometry, Rotation};
use ncollide::math::scalar::Scalar;
use ncollide::math::{Axis, Point, Vector};

fn boxed(a: (i32, i32, i32), b: (i32, i32, i32)) -> AABB {
    AABB::new(Point::new(a.0, a.1, a.2), Point::new(b.0, b.1, b.2))
}

#[test]
fn corners_are_kept() {
    let a = boxed((-1, -2, -3), (4, 5, 6));
    assert_eq!(*a.mins(), Point::new(-1, -2, -3));
    assert_eq!(*a.maxs(), Point::new(4, 5, 6));
}

#[test]
fn center_and_half_extents_are_exact() {
    let a = boxed((-3, 0, 1), (4, 10, 2));
    let c = a.center();
    let h = a.half_extents();
    assert_eq!(((c.x.num, c.x.den), (c.y.num, c.y.den), (c.z.num, c.z.den)), ((1, 2), (10, 2), (3, 2)));
    assert_eq!(((h.x.num, h.x.den), (h.y.num, h.y.den), (h.z.num, h.z.den)), ((7, 2), (10, 2), (1, 2)));
    assert!(c.x.same(&Scalar::new(1, 2)) && c.y.same(&Scalar::from_int(5)) && c.z.same(&Scalar::new(3, 2)));
    assert!(h.x.same(&Scalar::new(7, 2)) && h.y.same(&Scalar::from_int(5)) && h.z.same(&Scalar::new(1, 2)));
    // The center less the half-extents is the lower corner, plus them the upper one.
    assert_eq!((c.x.num - h.x.num, c.y.num - h.y.num, c.z.num - h.z.num), (2 * -3, 0, 2));
    assert_eq!((c.x.num + h.x.num, c.y.num + h.y.num, c.z.num + h.z.num), (2 * 4, 2 * 10, 2 * 2));
    let wide = boxed((i32::MIN, i32::MIN, i32::MIN), (i32::MAX, i32::MAX, i32::MAX));
    assert_eq!(wide.center().x.num, -1);
    assert_eq!(wide.half_extents().x.num, 4294967295);
}

#[test]
fn intersects_and_contains() {
    let a = boxed((0, 0, 0), (10, 10, 10));
    let b = boxed((2, 2, 2), (4, 4, 4));
    let c = boxed((10, 10, 10), (12, 12, 12));
    let d = boxed((11, 0, 0), (12, 1, 1));
    assert!(a.contains(&b));
    assert!(!b.contains(&a));
    assert!(a.intersects(&b));
    assert!(a.intersects(&c));
    assert!(!a.intersects(&d));
    assert!(a.contains(&a));
}

#[test]
fn merged_is_the_hull() {
    let a = boxed((0, 0, 0), (1, 1, 1));
    let b = boxed((-2, 3, 0), (0, 4, 5));
    let m = a.merged(&b);
    assert_eq!(m, boxed((-2, 0, 0), (1, 4, 5)));
    let mut c = a;
    c.merge(&b);
    assert_eq!(c, m);
}

#[test]
fn invalid_box_is_neutral_for_merge() {
    let inv = AABB::new_invalid();
    let b = boxed((-2, 3, 0), (0, 4, 5));
    assert_eq!(inv.merged(&b), b);
    assert_eq!(b.merged(&inv), b);
}

#[test]
fn loosened_and_tightened() {
    let a = boxed((0, 0, 0), (10, 10, 10));
    assert_eq!(a.loosened(2), boxed((-2, -2, -2), (12, 12, 12)));
    assert_eq!(a.tightened(3), boxed((3, 3, 3), (7, 7, 7)));
    let mut b = a;
    b.loosen(1);
    assert_eq!(b, boxed((-1, -1, -1), (11, 11, 11)));
    b.tighten(1);
    assert_eq!(b, a);
    assert_eq!(a.loosened(0), a);
}

#[test]
fn translations() {
    let a = boxed((0, 0, 0), (10, 20, 30));
    let t = a.translation();
    assert_eq!((t.x.num, t.y.num, t.z.num, t.x.den), (10, 20, 30, 2));
    let i = a.inv_translation();
    assert_eq!((i.x.num, i.y.num, i.z.num, i.z.den), (-10, -20, -30, 2));
    assert_eq!(a.append_translation(&Vector::new(1, 2, 3)), boxed((1, 2, 3), (11, 22, 33)));
    assert_eq!(a.prepend_translation(&Vector::new(1, 2, 3)), boxed((1, 2, 3), (11, 22, 33)));
    let mut b = a;
    b.append_translation_mut(&Vector::new(-1, -1, -1));
    assert_eq!(b, boxed((-1, -1, -1), (9, 19, 29)));
    let mut c = a;
    c.set_translation(Vector::new(1, 0, 0));
    assert_eq!(c, boxed((-6, -10, -15), (4, 10, 15)));
}

#[test]
fn box_under_a_motion() {
    let turn = Rotation::new(
        AxisDir { axis: Axis::Y, neg: true },
        AxisDir { axis: Axis::X, neg: false },
        AxisDir { axis: Axis::Z, neg: false },
    )
    .unwrap();
    let m = Isometry::new(Vector::new(10, 20, 30), turn);
    let b = boxed((1, 2, 3), (4, 6, 8));
    let moved = b.transform_by(&m);
    assert_eq!(moved, boxed((4, 21, 33), (8, 24, 38)));
    for p in [Point::new(1, 2, 3), Point::new(4, 6, 8), Point::new(2, 5, 4), Point::new(0, 2, 3)] {
        let q = m.transform_point(&p);
        let inside = b.mins().partial_le(&p) && p.partial_le(b.maxs());
        assert_eq!(moved.mins().partial_le(&q) && q.partial_le(moved.maxs()), inside);
    }
    assert_eq!(b.checked_transform_by(&m), Some(moved));
    let far = Isometry::from_translation(Vector::new(i32::MAX, 0, 0));
    assert_eq!(b.checked_transform_by(&far), None);
    assert_eq!(b.transform_by(&Isometry::identity()), b);
}
