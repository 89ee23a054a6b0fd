use ncollide::math::isometry::{AxisDir, Isometry, Rotation};
use ncollide::math::{Axis, Point, Vector};
use ncollide::query::ray::Ray;

fn quarter_turn_about_z() -> Rotation {
    // x' = -y, y' = x, z' = z
    Rotation::new(
        AxisDir { axis: Axis::Y, neg: true },
        AxisDir { axis: Axis::X, neg: false },
        AxisDir { axis: Axis::Z, neg: false },
    )
    .unwrap()
}

#[test]
fn rows_must_name_three_axes() {
    let x = AxisDir { axis: Axis::X, neg: false };
    let y = AxisDir { axis: Axis::Y, neg: true };
    assert!(Rotation::new(x, x, y).is_none());
    assert!(Rotation::new(x, y, y).is_none());
    assert!(Rotation::new(y, x, AxisDir { axis: Axis::Z, neg: true }).is_some());
}

#[test]
fn identity_moves_nothing() {
    let id = Isometry::identity();
    let p = Point::new(3, -4, 5);
    assert_eq!(id.transform_point(&p), p);
    assert_eq!(id.inverse_transform_point(&p), p);
    assert_eq!(id.rotate_vector(&Vector::new(1, 2, 3)), Vector::new(1, 2, 3));
}

#[test]
fn quarter_turn_and_translation() {
    let m = Isometry::new(Vector::new(10, 20, 30), quarter_turn_about_z());
    assert_eq!(m.rotate_vector(&Vector::new(1, 0, 0)), Vector::new(0, 1, 0));
    assert_eq!(m.rotate_vector(&Vector::new(0, 1, 0)), Vector::new(-1, 0, 0));
    assert_eq!(m.transform_point(&Point::new(1, 2, 3)), Point::new(8, 21, 33));
    assert_eq!(m.inverse_transform_point(&Point::new(8, 21, 33)), Point::new(1, 2, 3));
    assert_eq!(m.inverse_rotate_vector(&Vector::new(0, 1, 0)), Vector::new(1, 0, 0));
}

#[test]
fn inverse_undoes_the_motion() {
    let m = Isometry::new(Vector::new(-7, 2, 9), quarter_turn_about_z());
    let inv = m.inverse();
    for p in [Point::new(0, 0, 0), Point::new(5, -6, 7), Point::new(-100, 3, 1)] {
        assert_eq!(inv.transform_point(&m.transform_point(&p)), p);
        assert_eq!(m.transform_point(&inv.transform_point(&p)), p);
        assert_eq!(inv.transform_point(&p), m.inverse_transform_point(&p));
    }
}

#[test]
fn composition_applies_the_right_motion_first() {
    let a = Isometry::new(Vector::new(1, 0, 0), quarter_turn_about_z());
    let b = Isometry::from_translation(Vector::new(0, 5, 0));
    let ab = a.compose(&b);
    let p = Point::new(2, 3, 4);
    assert_eq!(ab.transform_point(&p), a.transform_point(&b.transform_point(&p)));
    assert_eq!(a.checked_compose(&b), Some(ab));
    let far = Isometry::from_translation(Vector::new(i32::MAX, 0, 0));
    assert_eq!(far.checked_compose(&Isometry::from_translation(Vector::new(1, 0, 0))), None);
}

#[test]
fn four_quarter_turns_are_the_identity() {
    let q = quarter_turn_about_z();
    let full = q.compose(&q).compose(&q).compose(&q);
    assert_eq!(full, Rotation::identity());
    assert_eq!(q.compose(&q.inverse()), Rotation::identity());
}

#[test]
fn ray_round_trip() {
    let m = Isometry::new(Vector::new(4, -4, 2), quarter_turn_about_z());
    let ray = Ray::new(Point::new(1, 2, 3), Vector::new(1, 0, -1));
    let local = ray.inverse_transform_by(&m);
    assert_eq!(local.origin, Point::new(6, 3, 1));
    assert_eq!(local.dir, Vector::new(0, -1, -1));
    assert_eq!(local.transform_by(&m), ray);
}
