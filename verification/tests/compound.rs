use ncollide::bounding_volume::aabb::AABB;
use ncollide::bounding_volume::HasAABB;
use ncollide::query::closest_points::{ClosestPoints, ClosestPointsWith};
use ncollide::query::composite_shape_against_shape::{
    composite_shape_against_shape, shape_against_composite_shape,
    CompositeShapeAgainstClosestPointsCostFn,
};
use ncollide::partitioning::bvt_search::BVTCostFn;
use ncollide::shape::compound::Compound;
use ncollide::math::isometry::{AxisDir, Isometry, Rotation};
use ncollide::math::{Axis, Point, Vector, WideVector};
use ncollide::query::ray::{Ray, RayCast, RayIntersection};
use ncollide::math::scalar::Scalar;

fn isqrt(x: i128) -> i128 {
    let mut r = (x as f64).sqrt() as i128;
    while r * r > x {
        r -= 1;
    }
    while (r + 1) * (r + 1) <= x {
        r += 1;
    }
    r
}

/// A ball; in the plane, a disc.
#[derive(Clone, Copy, Debug, PartialEq)]
struct Ball {
    radius: i32,
}

impl HasAABB for Ball {
    fn aabb_spec(&self, m: &Isometry) -> AABB {
        self.aabb(m)
    }

    fn aabb(&self, m: &Isometry) -> AABB {
        let c = m.translation;
        let r = self.radius;
        AABB::new(Point::new(c.x - r, c.y - r, c.z - r), Point::new(c.x + r, c.y + r, c.z + r))
    }
}

impl ClosestPointsWith<Ball> for Ball {
    fn closest_points_spec(&self, m1: &Isometry, m2: &Isometry, g2: &Ball, margin: u32) -> ClosestPoints {
        self.closest_points(m1, m2, g2, margin)
    }

    fn closest_points(&self, m1: &Isometry, m2: &Isometry, g2: &Ball, margin: u32) -> ClosestPoints {
        let c1 = m1.translation;
        let c2 = m2.translation;
        let d = [c2.x as i128 - c1.x as i128, c2.y as i128 - c1.y as i128, c2.z as i128 - c1.z as i128];
        let sq = d[0] * d[0] + d[1] * d[1] + d[2] * d[2];
        let reach = self.radius as i128 + g2.radius as i128;
        if sq <= reach * reach {
            return ClosestPoints::Intersecting;
        }
        let far = reach + margin as i128;
        if sq > far * far {
            return ClosestPoints::Disjoint;
        }
        // The centers differ along one axis in these scenes.
        let len = isqrt(sq);
        assert_eq!(len * len, sq);
        let on = |c: Vector, r: i32, sign: i128| {
            Point::new(
                c.x + (sign * d[0] * r as i128 / len) as i32,
                c.y + (sign * d[1] * r as i128 / len) as i32,
                c.z + (sign * d[2] * r as i128 / len) as i32,
            )
        };
        ClosestPoints::WithinMargin(on(c1, self.radius, 1), on(c2, g2.radius, -1))
    }
}

impl RayCast for Ball {
    fn toi_spec(&self, m: &Isometry, ray: &Ray, solid: bool) -> Option<Scalar> {
        self.toi_with_ray(m, ray, solid)
    }

    fn toi_and_normal_spec(&self, m: &Isometry, ray: &Ray, solid: bool) -> Option<RayIntersection> {
        self.toi_and_normal_with_ray(m, ray, solid)
    }

    fn toi_and_normal_and_uv_spec(&self, m: &Isometry, ray: &Ray, solid: bool) -> Option<RayIntersection> {
        self.toi_and_normal_and_uv_with_ray(m, ray, solid)
    }

    fn toi_with_ray(&self, m: &Isometry, ray: &Ray, solid: bool) -> Option<Scalar> {
        self.toi_and_normal_with_ray(m, ray, solid).map(|i| i.toi)
    }

    /// Only rays along an axis through the center are cast.
    fn toi_and_normal_with_ray(&self, m: &Isometry, ray: &Ray, solid: bool) -> Option<RayIntersection> {
        let ls = ray.inverse_transform_by(m);
        let (o, d) = (ls.origin, ls.dir);
        assert!(o.y == 0 && o.z == 0 && d.y == 0 && d.z == 0 && d.x != 0);
        let r = self.radius as i64;
        let (x, v) = (o.x as i64, d.x as i64);
        let inside = x.abs() <= r;
        let (target, normal) = if inside {
            if solid {
                return Some(RayIntersection::new(Scalar::zero(), WideVector::zero()));
            }
            (if v > 0 { r } else { -r }, if v > 0 { 1 } else { -1 })
        } else {
            (if x < 0 { -r } else { r }, if x < 0 { -1 } else { 1 })
        };
        let num = (target - x) * v.signum();
        if num < 0 {
            return None;
        }
        Some(RayIntersection::new(Scalar::new(num, v.abs()), m.rotate_wide(&WideVector::new(normal, 0, 0))))
    }

    fn toi_and_normal_and_uv_with_ray(&self, m: &Isometry, ray: &Ray, solid: bool) -> Option<RayIntersection> {
        self.toi_and_normal_with_ray(m, ray, solid)
    }
}

fn at(x: i32, y: i32) -> Isometry {
    Isometry::from_translation(Vector::new(x, y, 0))
}

/// Two balls of radius 1 at (-2, 0) and (2, 0), in tenths.
fn two_balls() -> Compound<Ball> {
    Compound::new(vec![(at(-20, 0), Ball { radius: 10 }), (at(20, 0), Ball { radius: 10 })])
}

/// Two balls of diameter 1 at (-2, 0) and (2, 0), in tenths.
fn two_unit_balls() -> Compound<Ball> {
    Compound::new(vec![(at(-20, 0), Ball { radius: 5 }), (at(20, 0), Ball { radius: 5 })])
}

#[test]
fn compound_keeps_its_parts() {
    let c = two_balls();
    assert_eq!(c.shapes().len(), 2);
    assert_eq!(c.shapes()[1], (at(20, 0), Ball { radius: 10 }));
    assert!(!c.bvt().is_empty());
    let (m, part) = c.transformed_part_at(0, &at(5, 5));
    assert_eq!(m, at(-15, 5));
    assert_eq!(*part, Ball { radius: 10 });
}

#[test]
fn closest_points_of_two_balls_and_a_ball() {
    let c = two_unit_balls();
    let id = Isometry::identity();
    let ball = Ball { radius: 5 };
    // All pairs are apart by 1.0, the margin is 0.1.
    assert_eq!(composite_shape_against_shape(&id, &c, &id, &ball, 1), ClosestPoints::Disjoint);
    assert_eq!(composite_shape_against_shape(&id, &c, &id, &ball, 9), ClosestPoints::Disjoint);
    // With the margin 1.2 the closest points are 1.0 apart.
    match composite_shape_against_shape(&id, &c, &id, &ball, 12) {
        ClosestPoints::WithinMargin(p1, p2) => {
            assert_eq!(p1.distance_squared(&p2), 100);
            assert!(p1 == Point::new(-15, 0, 0) || p1 == Point::new(15, 0, 0));
            assert_eq!(p2, Point::new(p1.x / 3, 0, 0));
        }
        other => panic!("{:?}", other),
    }
    // A pair exactly at the margin is within it.
    assert!(matches!(
        composite_shape_against_shape(&id, &c, &id, &ball, 10),
        ClosestPoints::WithinMargin(_, _)
    ));
}

#[test]
fn closest_points_take_the_nearest_part() {
    let c = Compound::new(vec![
        (at(-200, 0), Ball { radius: 10 }),
        (at(-100, 0), Ball { radius: 10 }),
        (at(0, 100), Ball { radius: 10 }),
        (at(40, 0), Ball { radius: 10 }),
        (at(300, 0), Ball { radius: 10 }),
    ]);
    let id = Isometry::identity();
    let ball = Ball { radius: 5 };
    assert_eq!(
        composite_shape_against_shape(&id, &c, &id, &ball, 50),
        ClosestPoints::WithinMargin(Point::new(30, 0, 0), Point::new(5, 0, 0))
    );
    assert_eq!(composite_shape_against_shape(&id, &c, &id, &ball, 24), ClosestPoints::Disjoint);
    assert_eq!(
        composite_shape_against_shape(&id, &c, &at(0, 80), &ball, 50),
        ClosestPoints::WithinMargin(Point::new(0, 90, 0), Point::new(0, 85, 0))
    );
    assert_eq!(composite_shape_against_shape(&id, &c, &at(-90, 0), &ball, 0), ClosestPoints::Intersecting);
    // The compound placed elsewhere.
    assert_eq!(
        composite_shape_against_shape(&at(1000, 0), &c, &at(1000, 0), &ball, 50),
        ClosestPoints::WithinMargin(Point::new(1030, 0, 0), Point::new(1005, 0, 0))
    );
}

#[test]
fn closest_points_with_the_roles_exchanged() {
    let c = two_balls();
    let id = Isometry::identity();
    let ball = Ball { radius: 10 };
    for margin in [0, 1, 9, 10, 12, 100] {
        for x in [-45, -31, -30, -9, 0, 5, 31, 100] {
            let m = at(x, 0);
            let mut forth = composite_shape_against_shape(&id, &c, &m, &ball, margin);
            let back = shape_against_composite_shape(&m, &ball, &id, &c, margin);
            forth.flip();
            assert_eq!(forth, back);
        }
    }
    let mut w = ClosestPoints::WithinMargin(Point::new(1, 2, 3), Point::new(4, 5, 6));
    w.flip();
    assert_eq!(w, ClosestPoints::WithinMargin(Point::new(4, 5, 6), Point::new(1, 2, 3)));
    w.flip();
    assert_eq!(w, ClosestPoints::WithinMargin(Point::new(1, 2, 3), Point::new(4, 5, 6)));
    let mut i = ClosestPoints::Intersecting;
    i.flip();
    assert_eq!(i, ClosestPoints::Intersecting);
}

#[test]
fn cost_function_of_the_closest_points() {
    let c = two_balls();
    let id = Isometry::identity();
    let other = at(50, 0);
    let ball = Ball { radius: 10 };
    let mut f = CompositeShapeAgainstClosestPointsCostFn::new(&id, &c, &other, &ball, 15);
    assert_eq!(f.ls_aabb2, AABB::new(Point::new(40, -10, -10), Point::new(60, 10, 10)));
    assert!(!f.stop);
    // The box of the part at (20, 0) reaches x = 30: 10 from the other box.
    let b = f.compute_bv_cost(&AABB::new(Point::new(10, -10, -10), Point::new(30, 10, 10))).unwrap();
    assert_eq!((b.distance, b.rank), (10, 100));
    let b = f.compute_bv_cost(&AABB::new(Point::new(10, 13, 14), Point::new(37, 20, 20))).unwrap();
    assert_eq!((b.distance, b.rank), (5, 9 + 9 + 16));
    let b = f.compute_bv_cost(&AABB::new(Point::new(45, 0, 0), Point::new(46, 1, 1))).unwrap();
    assert_eq!((b.distance, b.rank), (0, 0));
    let (cost, pts) = f.compute_b_cost(&1).unwrap();
    assert_eq!((cost.distance, cost.rank), (10, 100));
    assert_eq!(pts, ClosestPoints::WithinMargin(Point::new(30, 0, 0), Point::new(40, 0, 0)));
    // A part farther away than the margin costs the margin, and comes
    // after every pair of points within the margin.
    let (cost, pts) = f.compute_b_cost(&0).unwrap();
    assert_eq!((cost.distance, cost.rank), (15, 226));
    assert_eq!(pts, ClosestPoints::Disjoint);
    assert!(!f.stop);
    assert!(f.compute_bv_cost(&AABB::new(Point::new(45, 0, 0), Point::new(46, 1, 1))).is_some());
    let touching = at(0, 0);
    let mut g = CompositeShapeAgainstClosestPointsCostFn::new(&id, &c, &touching, &ball, 15);
    let (cost, pts) = g.compute_b_cost(&1).unwrap();
    assert_eq!((cost.distance, cost.rank), (0, 0));
    assert_eq!(pts, ClosestPoints::Intersecting);
    assert!(g.stop);
    assert!(g.compute_bv_cost(&AABB::new(Point::new(10, -10, -10), Point::new(30, 10, 10))).is_none());
    // Once stopped, the search stays stopped, whatever part is asked next.
    let far = at(0, 500);
    let mut h = CompositeShapeAgainstClosestPointsCostFn::new(&id, &c, &far, &ball, 15);
    h.stop = true;
    let (_, pts) = h.compute_b_cost(&0).unwrap();
    assert_eq!(pts, ClosestPoints::Disjoint);
    assert!(h.stop);
    assert!(h.compute_bv_cost(&AABB::new(Point::new(-1, -1, -1), Point::new(1, 1, 1))).is_none());
    assert!(g.compute_bv_cost(&AABB::new(Point::new(-1, -1, -1), Point::new(1, 1, 1))).is_none());
    assert_eq!(g.margin, 15);
    assert_eq!(g.ls_aabb2, AABB::new(Point::new(-10, -10, -10), Point::new(10, 10, 10)));
}

#[test]
fn relative_placement_is_used_for_the_bounds() {
    let c = two_balls();
    let turn = Rotation::new(
        AxisDir { axis: Axis::Y, neg: true },
        AxisDir { axis: Axis::X, neg: false },
        AxisDir { axis: Axis::Z, neg: false },
    )
    .unwrap();
    let m1 = Isometry::new(Vector::new(100, 0, 0), turn);
    let m2 = at(100, 50);
    let ball = Ball { radius: 10 };
    let f = CompositeShapeAgainstClosestPointsCostFn::new(&m1, &c, &m2, &ball, 15);
    // Seen from the compound the ball is at (50, 0).
    assert_eq!(f.ls_aabb2, AABB::new(Point::new(40, -10, -10), Point::new(60, 10, 10)));
}

#[test]
fn ray_cast_against_a_compound() {
    let c = two_balls();
    let right = Ray::new(Point::new(-100, 0, 0), Vector::new(2, 0, 0));
    let t = c.toi_with_ray(&right, true).expect("hit");
    assert!(t.same(&Scalar::new(35, 1)));
    let hit = c.toi_and_normal_with_ray(&right, true).expect("hit");
    assert!(hit.toi.same(&Scalar::new(35, 1)));
    assert_eq!(hit.normal, WideVector::new(-1, 0, 0));
    let left = Ray::new(Point::new(100, 0, 0), Vector::new(-1, 0, 0));
    let hit = c.toi_and_normal_with_ray(&left, true).expect("hit");
    assert!(hit.toi.same(&Scalar::new(70, 1)));
    assert_eq!(hit.normal, WideVector::new(1, 0, 0));
    let between = Ray::new(Point::new(0, 0, 0), Vector::new(1, 0, 0));
    assert!(c.toi_with_ray(&between, true).unwrap().same(&Scalar::new(10, 1)));
    let away = Ray::new(Point::new(100, 0, 0), Vector::new(1, 0, 0));
    assert!(c.toi_with_ray(&away, true).is_none());
    assert!(c.toi_and_normal_with_ray(&away, false).is_none());
}

#[test]
fn ray_cast_that_is_not_solid_may_hit_inside() {
    let c = two_balls();
    let from_inside = Ray::new(Point::new(-20, 0, 0), Vector::new(1, 0, 0));
    assert!(c.toi_with_ray(&from_inside, true).unwrap().same(&Scalar::zero()));
    assert!(c.toi_with_ray(&from_inside, false).unwrap().same(&Scalar::new(10, 1)));
}

#[test]
fn ray_cast_against_a_placed_compound() {
    let c = two_balls();
    let turn = Rotation::new(
        AxisDir { axis: Axis::Y, neg: true },
        AxisDir { axis: Axis::X, neg: false },
        AxisDir { axis: Axis::Z, neg: false },
    )
    .unwrap();
    // The balls end up at (7, -20) and (7, 20).
    let m = Isometry::new(Vector::new(7, 0, 0), turn);
    let ray = Ray::new(Point::new(7, 100, 0), Vector::new(0, -1, 0));
    let t = c.toi_with_transform_and_ray(&m, &ray, true).expect("hit");
    assert!(t.same(&Scalar::new(70, 1)));
    let hit = c.toi_and_normal_with_transform_and_ray(&m, &ray, true).expect("hit");
    assert_eq!(hit.normal, WideVector::new(0, 1, 0));
    assert!(hit.toi.same(&Scalar::new(70, 1)));
}

#[test]
fn empty_compound_is_never_hit() {
    let c: Compound<Ball> = Compound::new(Vec::new());
    let ray = Ray::new(Point::new(0, 0, 0), Vector::new(1, 0, 0));
    assert!(c.toi_with_ray(&ray, true).is_none());
    assert!(c.toi_and_normal_with_ray(&ray, true).is_none());
}

#[test]
fn callback_on_a_placed_part() {
    let c = two_balls();
    let seen = c.map_transformed_part_at(1, &at(5, 5), |i, m, part| (i, *m, part.radius));
    assert_eq!(seen, (1, at(25, 5), 10));
}

#[test]
fn bound_of_a_box_is_its_distance() {
    let c = two_balls();
    let id = Isometry::identity();
    let unit = Ball { radius: 1 };
    let mut f = CompositeShapeAgainstClosestPointsCostFn::new(&id, &c, &id, &unit, 2);
    assert_eq!(f.ls_aabb2, AABB::new(Point::new(-1, -1, -1), Point::new(1, 1, 1)));
    let b = f.compute_bv_cost(&AABB::new(Point::new(3, 0, 0), Point::new(4, 1, 0))).unwrap();
    assert_eq!(b.distance, 2);
    assert_eq!(b.rank, 4);
    // Distances that round alike are told apart by their squares.
    let near = f.compute_bv_cost(&AABB::new(Point::new(3, 2, 0), Point::new(4, 3, 0))).unwrap();
    let far = f.compute_bv_cost(&AABB::new(Point::new(3, 3, 0), Point::new(4, 4, 0))).unwrap();
    assert_eq!((near.distance, near.rank), (2, 5));
    assert_eq!((far.distance, far.rank), (2, 8));
    assert!(near.less(&far) && !far.less(&near) && !near.less(&near));
    assert!(b.less(&near));
    // The widest boxes of the lattice are still told apart.
    let low = AABB::new(Point::new(i32::MIN, i32::MIN, i32::MIN), Point::new(i32::MIN, i32::MIN, i32::MIN));
    let lower = f.compute_bv_cost(&low).unwrap();
    let side: u128 = (1u128 << 31) - 1;
    assert_eq!(lower.rank, 3 * side * side);
    assert_eq!(lower.distance, 3719550785);
    let next = AABB::new(Point::new(i32::MIN + 1, i32::MIN, i32::MIN), Point::new(i32::MIN + 1, i32::MIN, i32::MIN));
    let nearer = f.compute_bv_cost(&next).unwrap();
    assert!(nearer.less(&lower));
}

#[test]
fn an_intersecting_part_excludes_disjoint() {
    // One part intersects the ball, the other is far from it; with the
    // margin zero both cost the distance zero.
    let id = Isometry::identity();
    let ball = Ball { radius: 5 };
    let hit = (at(0, 0), Ball { radius: 10 });
    let miss = (at(500, 0), Ball { radius: 10 });
    for parts in [vec![hit, miss], vec![miss, hit]] {
        let c = Compound::new(parts);
        for margin in [0, 1, 7] {
            assert_eq!(composite_shape_against_shape(&id, &c, &id, &ball, margin), ClosestPoints::Intersecting);
            assert_eq!(shape_against_composite_shape(&id, &ball, &id, &c, margin), ClosestPoints::Intersecting);
        }
    }
    // A part exactly at the margin is preferred to one beyond it.
    let at_margin = (at(25, 0), Ball { radius: 10 });
    for parts in [vec![at_margin, miss], vec![miss, at_margin]] {
        let c = Compound::new(parts);
        assert_eq!(
            composite_shape_against_shape(&id, &c, &id, &ball, 10),
            ClosestPoints::WithinMargin(Point::new(15, 0, 0), Point::new(5, 0, 0))
        );
    }
    let lone = Compound::new(vec![miss]);
    let mut f = CompositeShapeAgainstClosestPointsCostFn::new(&id, &lone, &id, &ball, 0);
    let (cost, pts) = f.compute_b_cost(&0).unwrap();
    assert_eq!(pts, ClosestPoints::Disjoint);
    assert_eq!(cost.distance, 0);
    assert_eq!(cost.rank, 1);
}
