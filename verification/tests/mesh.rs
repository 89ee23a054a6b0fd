use ncollide::bounding_volume::aabb::AABB;
use ncollide::bounding_volume::HasAABB;
use ncollide::math::isometry::{AxisDir, Isometry, Rotation};
use ncollide::math::{Axis, Point, Vector, WideVector};
use ncollide::shape::mesh::{
    Barycentric, BaseMesh, BaseMeshElement, ElementKind, TriangleMeshElement, Uv,
};
use ncollide::query::ray::{Ray, RayCast, RayIntersection};
use ncollide::math::gcd::greatest_common_divisor;
use ncollide::math::scalar::Scalar;
use ncollide::shape::triangle::Triangle;

fn gcd(a: i128, b: i128) -> i128 {
    if b == 0 {
        a.abs()
    } else {
        gcd(b, a % b)
    }
}

fn sub(a: &Point, b: &Point) -> [i128; 3] {
    [a.x as i128 - b.x as i128, a.y as i128 - b.y as i128, a.z as i128 - b.z as i128]
}

fn cross(a: [i128; 3], b: [i128; 3]) -> [i128; 3] {
    [a[1] * b[2] - a[2] * b[1], a[2] * b[0] - a[0] * b[2], a[0] * b[1] - a[1] * b[0]]
}

fn dot(a: [i128; 3], b: [i128; 3]) -> i128 {
    a[0] * b[0] + a[1] * b[1] + a[2] * b[2]
}

/// The intersection of a ray with a triangle, in exact arithmetic.
fn triangle_ray(a: &Point, b: &Point, c: &Point, ray: &Ray) -> Option<(RayIntersection, Barycentric)> {
    let ab = sub(b, a);
    let ac = sub(c, a);
    let n = cross(ab, ac);
    let dir = [ray.dir.x as i128, ray.dir.y as i128, ray.dir.z as i128];
    let d = dot(n, dir);
    if d == 0 {
        return None;
    }
    let ap = sub(&ray.origin, a);
    let t = dot(ap, n);
    if (t < 0 && d < 0) || (t > 0 && d > 0) {
        return None;
    }
    let e = cross(ap, dir);
    let (v, w, normal) = if t < 0 {
        (-dot(ac, e), dot(ab, e), [-n[0], -n[1], -n[2]])
    } else {
        (dot(ac, e), -dot(ab, e), n)
    };
    let d = d.abs();
    if v < 0 || v > d || w < 0 || v + w > d {
        return None;
    }
    let g = gcd(t.abs(), d);
    let gn = gcd(gcd(normal[0], normal[1]), normal[2]);
    let gw = gcd(gcd(d - v - w, v), w);
    Some((
        RayIntersection::new(
            Scalar::new((t.abs() / g) as i64, (d / g) as i64),
            WideVector::new((normal[0] / gn) as i64, (normal[1] / gn) as i64, (normal[2] / gn) as i64),
        ),
        Barycentric { a: ((d - v - w) / gw) as u32, b: (v / gw) as u32, c: (w / gw) as u32 },
    ))
}

#[derive(Clone, Copy, Debug, PartialEq)]
struct Tri(Triangle);

impl HasAABB for Tri {
    fn aabb_spec(&self, m: &Isometry) -> AABB {
        self.aabb(m)
    }

    fn aabb(&self, m: &Isometry) -> AABB {
        let a = m.transform_point(&self.0.a);
        let b = m.transform_point(&self.0.b);
        let c = m.transform_point(&self.0.c);
        AABB::new(a.inf(&b).inf(&c), a.sup(&b).sup(&c))
    }
}

impl RayCast for Tri {
    fn toi_spec(&self, m: &Isometry, ray: &Ray, solid: bool) -> Option<Scalar> {
        self.toi_with_ray(m, ray, solid)
    }

    fn toi_and_normal_spec(&self, m: &Isometry, ray: &Ray, solid: bool) -> Option<RayIntersection> {
        self.toi_and_normal_with_ray(m, ray, solid)
    }

    fn toi_and_normal_and_uv_spec(&self, m: &Isometry, ray: &Ray, solid: bool) -> Option<RayIntersection> {
        self.toi_and_normal_and_uv_with_ray(m, ray, solid)
    }

    fn toi_with_ray(&self, m: &Isometry, ray: &Ray, solid: bool) -> Option<Scalar> {
        self.toi_and_normal_with_ray(m, ray, solid).map(|i| i.toi)
    }

    fn toi_and_normal_with_ray(&self, m: &Isometry, ray: &Ray, _solid: bool) -> Option<RayIntersection> {
        let ls = ray.inverse_transform_by(m);
        triangle_ray(&self.0.a, &self.0.b, &self.0.c, &ls).map(|(mut i, _)| {
            i.normal = m.rotate_wide(&i.normal);
            i
        })
    }

    fn toi_and_normal_and_uv_with_ray(&self, m: &Isometry, ray: &Ray, solid: bool) -> Option<RayIntersection> {
        self.toi_and_normal_with_ray(m, ray, solid)
    }
}

impl BaseMeshElement for Tri {
    fn from_vertices(a: Point, b: Point, c: Point) -> Tri {
        Self::new_with_vertices(&a, &b, &c)
    }

    fn new_with_vertices(a: &Point, b: &Point, c: &Point) -> Tri {
        Tri(Triangle::new(*a, *b, *c))
    }

    // An impact is a point of the triangle, and so of its box.
    fn lemma_impact_in_box(&self, _ray: Ray, _solid: bool) {}
}

impl TriangleMeshElement for Tri {
    // Both casts go through `triangle_ray`, so they agree.
    fn lemma_triangle_cast_agrees(_a: Point, _b: Point, _c: Point, _ray: Ray, _solid: bool) {}

    fn triangle_ray_intersection_spec(
        a: Point,
        b: Point,
        c: Point,
        ray: Ray,
        solid: bool,
    ) -> Option<(RayIntersection, Barycentric)> {
        Self::triangle_ray_intersection(&a, &b, &c, &ray, solid)
    }

    fn triangle_ray_intersection(
        a: &Point,
        b: &Point,
        c: &Point,
        ray: &Ray,
        _solid: bool,
    ) -> Option<(RayIntersection, Barycentric)> {
        triangle_ray(a, b, c, ray)
    }
}

fn single_triangle(uvs: Option<Vec<Uv>>, normals: Option<Vec<Vector>>) -> BaseMesh<Tri> {
    BaseMesh::new(
        ElementKind::Triangle,
        vec![Point::new(0, 0, 0), Point::new(12, 0, 0), Point::new(0, 12, 0)],
        vec![(0, 1, 2)],
        uvs,
        normals,
    )
}

/// A strip of `n` squares along x, each split in two triangles, in the plane z = 0.
fn strip(n: i32) -> BaseMesh<Tri> {
    let mut vs = Vec::new();
    for i in 0..=n {
        vs.push(Point::new(10 * i, 0, 0));
        vs.push(Point::new(10 * i, 10, 0));
    }
    let mut idx = Vec::new();
    for i in 0..n as usize {
        idx.push((2 * i, 2 * i + 2, 2 * i + 1));
        idx.push((2 * i + 1, 2 * i + 2, 2 * i + 3));
    }
    BaseMesh::new(ElementKind::Triangle, vs, idx, None, None)
}

fn is(t: Scalar, num: i64, den: i64) -> bool {
    t.same(&Scalar::new(num, den))
}

#[test]
fn ray_cast_against_a_single_triangle() {
    // The triangle (0,0,0), (1,0,0), (0,1,0) and the ray from (1/4, 1/4, 1)
    // along (0,0,-1), in twelfths.
    let mesh = single_triangle(None, None);
    let ray = Ray::new(Point::new(3, 3, 12), Vector::new(0, 0, -12));
    let id = Isometry::identity();
    let t = mesh.toi_with_ray(&id, &ray, true).expect("hit");
    assert!(is(t, 1, 1));
    let hit = mesh.toi_and_normal_with_ray(&id, &ray, true).expect("hit");
    assert!(is(hit.toi, 1, 1));
    assert!(hit.normal == WideVector::new(0, 0, 1) || hit.normal == WideVector::new(0, 0, -1));
    let against = -(hit.normal.x * ray.dir.x as i64 + hit.normal.y * ray.dir.y as i64 + hit.normal.z * ray.dir.z as i64);
    assert!(against > 0);
    assert!(hit.uvs.is_none());
    // The point of impact.
    let p = (
        ray.origin.x as i64 * hit.toi.den + ray.dir.x as i64 * hit.toi.num,
        ray.origin.y as i64 * hit.toi.den + ray.dir.y as i64 * hit.toi.num,
        ray.origin.z as i64 * hit.toi.den + ray.dir.z as i64 * hit.toi.num,
    );
    assert_eq!(p, (3 * hit.toi.den, 3 * hit.toi.den, 0));
}

#[test]
fn ray_from_below_gets_the_normal_turned() {
    let mesh = single_triangle(None, None);
    let ray = Ray::new(Point::new(3, 3, -24), Vector::new(0, 0, 6));
    let hit = mesh.toi_and_normal_with_ray(&Isometry::identity(), &ray, true).expect("hit");
    assert!(is(hit.toi, 4, 1));
    assert_eq!(hit.normal, WideVector::new(0, 0, -1));
}

#[test]
fn ray_that_passes_the_mesh_misses() {
    let mesh = single_triangle(None, None);
    let id = Isometry::identity();
    for (o, d) in [
        ((13, 13, 12), (0, 0, -1)),
        ((3, 3, 12), (0, 0, 1)),
        ((3, 3, 12), (1, 0, 0)),
        ((-1, 3, 12), (0, 0, -1)),
        ((7, 7, 12), (0, 0, -1)),
    ] {
        let ray = Ray::new(Point::new(o.0, o.1, o.2), Vector::new(d.0, d.1, d.2));
        assert!(mesh.toi_with_ray(&id, &ray, true).is_none());
        assert!(mesh.toi_and_normal_with_ray(&id, &ray, true).is_none());
        assert!(mesh.toi_and_normal_and_uv_with_ray(&id, &ray, true).is_none());
    }
    let big = strip(20);
    let ray = Ray::new(Point::new(-5, 5, 3), Vector::new(1, 0, 0));
    assert!(big.toi_with_ray(&id, &ray, true).is_none());
    let with_uvs = single_triangle(Some(vec![Uv { u: 0, v: 0 }, Uv { u: 1, v: 0 }, Uv { u: 0, v: 1 }]), None);
    let miss = Ray::new(Point::new(30, 30, 12), Vector::new(0, 0, -1));
    assert!(with_uvs.toi_and_normal_and_uv_with_ray(&id, &miss, true).is_none());
}

#[test]
fn empty_mesh_is_never_hit() {
    let mesh: BaseMesh<Tri> = BaseMesh::new(ElementKind::Triangle, Vec::new(), Vec::new(), None, None);
    let ray = Ray::new(Point::new(0, 0, 5), Vector::new(0, 0, -1));
    assert!(mesh.toi_with_ray(&Isometry::identity(), &ray, true).is_none());
    assert!(mesh.toi_and_normal_with_ray(&Isometry::identity(), &ray, false).is_none());
}

#[test]
fn mesh_cast_is_the_earliest_of_the_elements() {
    let mesh = strip(12);
    let id = Isometry::identity();
    let rays = [
        Ray::new(Point::new(-10, 5, 20), Vector::new(3, 0, -1)),
        Ray::new(Point::new(200, 3, -7), Vector::new(-5, 0, 1)),
        Ray::new(Point::new(33, 7, 9), Vector::new(0, 0, -2)),
        Ray::new(Point::new(60, -20, 10), Vector::new(0, 4, -1)),
        Ray::new(Point::new(0, 0, 10), Vector::new(7, 1, -1)),
        Ray::new(Point::new(0, 0, 10), Vector::new(7, 1, 1)),
    ];
    for ray in &rays {
        let mut brute: Option<Scalar> = None;
        for i in 0..mesh.indices().len() {
            if let Some(t) = mesh.element_at(i).toi_with_ray(&id, ray, true) {
                if brute.map_or(true, |b| t.less(&b)) {
                    brute = Some(t);
                }
            }
        }
        let got = mesh.toi_with_ray(&id, ray, true);
        match (got, brute) {
            (None, None) => {}
            (Some(a), Some(b)) => assert!(a.same(&b), "{:?} is not {:?}", a, b),
            (a, b) => panic!("{:?} is not {:?}", a, b),
        }
        let with_normal = mesh.toi_and_normal_with_ray(&id, ray, true).map(|i| i.toi);
        assert_eq!(with_normal.is_some(), brute.is_some());
        if let (Some(a), Some(b)) = (with_normal, brute) {
            assert!(a.same(&b));
        }
    }
}

#[test]
fn cast_by_a_placement_is_the_cast_of_the_ray_taken_into_its_frame() {
    let mesh = strip(6);
    let turn = Rotation::new(
        AxisDir { axis: Axis::Y, neg: true },
        AxisDir { axis: Axis::X, neg: false },
        AxisDir { axis: Axis::Z, neg: false },
    )
    .unwrap();
    let m = Isometry::new(Vector::new(100, -50, 7), turn);
    let id = Isometry::identity();
    for (o, d) in [((95, -30, 40), (0, 1, -3)), ((97, 0, 0), (0, -1, 1)), ((0, 0, 0), (1, 0, 0))] {
        let ray = Ray::new(Point::new(o.0, o.1, o.2), Vector::new(d.0, d.1, d.2));
        let local = ray.inverse_transform_by(&m);
        let a = mesh.toi_with_ray(&m, &ray, true);
        let b = mesh.toi_with_ray(&id, &local, true);
        assert_eq!(a.map(|t| (t.num, t.den)), b.map(|t| (t.num, t.den)));
        let na = mesh.toi_and_normal_with_ray(&m, &ray, true);
        let nb = mesh.toi_and_normal_with_ray(&id, &local, true);
        assert_eq!(na.is_some(), nb.is_some());
        if let (Some(x), Some(y)) = (na, nb) {
            assert_eq!(x.normal, m.rotate_wide(&y.normal));
            assert_eq!((x.toi.num, x.toi.den), (y.toi.num, y.toi.den));
        }
    }
    let ray = Ray::new(Point::new(95, -30, 40), Vector::new(0, 1, -3));
    assert!(mesh.toi_with_ray(&m, &ray, true).is_some());
}

#[test]
fn texture_coordinates_are_interpolated() {
    // Vertex coordinates (0,0), (1,0), (0,1) in sixths; the ray hits the centroid.
    let uvs = vec![Uv { u: 0, v: 0 }, Uv { u: 6, v: 0 }, Uv { u: 0, v: 6 }];
    let mesh = single_triangle(Some(uvs), None);
    let ray = Ray::new(Point::new(4, 4, 5), Vector::new(0, 0, -1));
    let hit = mesh.toi_and_normal_and_uv_with_ray(&Isometry::identity(), &ray, true).expect("hit");
    assert!(is(hit.toi, 5, 1));
    let (u, v) = hit.uvs.expect("the mesh has texture coordinates");
    assert!(is(u, 2, 1), "{:?}", u);
    assert!(is(v, 2, 1), "{:?}", v);
    assert_eq!(hit.normal, WideVector::new(0, 0, 1));
}

#[test]
fn shade_interpolates_by_the_weights() {
    let uvs = vec![Uv { u: 0, v: 0 }, Uv { u: 1, v: 0 }, Uv { u: 0, v: 1 }];
    let mesh = single_triangle(Some(uvs), None);
    let ray = Ray::new(Point::new(4, 4, 5), Vector::new(0, 0, -1));
    let inter = (RayIntersection::new(Scalar::from_int(5), WideVector::new(0, 0, 1)), Barycentric { a: 1, b: 1, c: 1 });
    let out = mesh.shade(&Isometry::identity(), &ray, 0, &inter);
    let (u, v) = out.uvs.unwrap();
    assert_eq!((u.num, u.den), (1, 3));
    assert_eq!((v.num, v.den), (1, 3));
    let inter = (RayIntersection::new(Scalar::from_int(5), WideVector::new(0, 0, 1)), Barycentric { a: 1, b: 2, c: 5 });
    let out = mesh.shade(&Isometry::identity(), &ray, 0, &inter);
    let (u, v) = out.uvs.unwrap();
    assert_eq!((u.num, u.den), (2, 8));
    assert_eq!((v.num, v.den), (5, 8));
    assert_eq!(out.normal, WideVector::new(0, 0, 1));
    assert_eq!((out.toi.num, out.toi.den), (5, 1));
}

#[test]
fn shading_normal_is_interpolated_and_faces_the_ray() {
    let uvs = vec![Uv { u: 0, v: 0 }, Uv { u: 1, v: 0 }, Uv { u: 0, v: 1 }];
    let normals = vec![Vector::new(3, 0, 3), Vector::new(0, 3, 3), Vector::new(0, 0, 3)];
    let mesh = single_triangle(Some(uvs.clone()), Some(normals));
    let w = Barycentric { a: 1, b: 1, c: 2 };
    let geometric = WideVector::new(0, 0, 1);
    let inter = (RayIntersection::new(Scalar::from_int(5), geometric), w);
    let down = Ray::new(Point::new(4, 4, 5), Vector::new(0, 0, -1));
    let out = mesh.shade(&Isometry::identity(), &down, 0, &inter);
    // The weighted sum (3, 3, 12) in lowest terms.
    assert_eq!(out.normal, WideVector::new(1, 1, 4));
    // A ray that runs along the interpolated normal has it turned around.
    let up = Ray::new(Point::new(4, 4, -5), Vector::new(0, 0, 1));
    let out = mesh.shade(&Isometry::identity(), &up, 0, &inter);
    assert_eq!(out.normal, WideVector::new(-1, -1, -4));
    // The normal comes back in the frame of the caller.
    let turn = Rotation::new(
        AxisDir { axis: Axis::Y, neg: true },
        AxisDir { axis: Axis::X, neg: false },
        AxisDir { axis: Axis::Z, neg: false },
    )
    .unwrap();
    let m = Isometry::new(Vector::new(1, 2, 3), turn);
    let out = mesh.shade(&m, &down, 0, &inter);
    assert_eq!(out.normal, WideVector::new(-1, 1, 4));
}

#[test]
fn vanishing_shading_normal_falls_back() {
    let uvs = vec![Uv { u: 0, v: 0 }, Uv { u: 1, v: 0 }, Uv { u: 0, v: 1 }];
    let geometric = WideVector::new(0, 0, 1);
    let down = Ray::new(Point::new(4, 4, 5), Vector::new(0, 0, -1));
    let cancel = vec![Vector::new(1, 0, 0), Vector::new(-1, 0, 0), Vector::new(0, 5, 0)];
    let mesh = single_triangle(Some(uvs.clone()), Some(cancel));
    let inter = (RayIntersection::new(Scalar::from_int(5), geometric), Barycentric { a: 2, b: 2, c: 0 });
    assert_eq!(mesh.shade(&Isometry::identity(), &down, 0, &inter).normal, geometric);
    let huge = vec![Vector::new(i32::MAX, 0, 0), Vector::new(i32::MAX, 0, 0), Vector::new(0, 0, 1)];
    let mesh = single_triangle(Some(uvs), Some(huge));
    let inter = (RayIntersection::new(Scalar::from_int(5), geometric), Barycentric { a: 1, b: 1, c: 0 });
    assert_eq!(
        mesh.shade(&Isometry::identity(), &down, 0, &inter).normal,
        WideVector::new(1, 0, 0)
    );
    let inter = (
        RayIntersection::new(Scalar::from_int(5), geometric),
        Barycentric { a: u32::MAX - 1, b: 1, c: 0 },
    );
    assert_eq!(
        mesh.shade(&Isometry::identity(), &down, 0, &inter).normal,
        WideVector::new(1, 0, 0)
    );
}

#[test]
fn mesh_of_segments_is_cast_without_texture_coordinates() {
    let uvs = vec![Uv { u: 0, v: 0 }, Uv { u: 6, v: 0 }, Uv { u: 0, v: 6 }];
    let mesh: BaseMesh<Tri> = BaseMesh::new(
        ElementKind::Segment,
        vec![Point::new(0, 0, 0), Point::new(12, 0, 0), Point::new(0, 12, 0)],
        vec![(0, 1, 2)],
        Some(uvs),
        None,
    );
    let ray = Ray::new(Point::new(4, 4, 5), Vector::new(0, 0, -1));
    let hit = mesh.toi_and_normal_and_uv_with_ray(&Isometry::identity(), &ray, true).expect("hit");
    assert!(hit.uvs.is_none());
}

#[test]
fn triangle_to_trimesh() {
    let t = Triangle::new(Point::new(1, 2, 3), Point::new(4, 5, 6), Point::new(7, 8, 10));
    let m = t.to_trimesh(());
    assert_eq!(m.coords, vec![*t.a(), *t.b(), *t.c()]);
    assert_eq!(m.indices, vec![(0, 1, 2)]);
    assert!(m.normals.is_none());
    assert!(m.uvs.is_none());
}

#[test]
fn trivial_indices_take_vertices_three_by_three() {
    let coords: Vec<Point> = (0..7).map(|i| Point::new(i, 0, 0)).collect();
    let m = ncollide::procedural::TriMesh::new(coords, None, None, None);
    assert_eq!(m.indices, vec![(0, 1, 2), (3, 4, 5)]);
}

/// A triangle that a cast which is not solid sees from its front only:
/// a ray that comes from behind passes through.
#[derive(Clone, Copy, Debug, PartialEq)]
struct OneSided(Tri);

fn one_sided(a: &Point, b: &Point, c: &Point, ray: &Ray, solid: bool) -> Option<(RayIntersection, Barycentric)> {
    let front = cross(sub(b, a), sub(c, a));
    triangle_ray(a, b, c, ray).filter(|(i, _)| {
        let n = [i.normal.x as i128, i.normal.y as i128, i.normal.z as i128];
        solid || dot(n, front) > 0
    })
}

impl HasAABB for OneSided {
    fn aabb_spec(&self, m: &Isometry) -> AABB {
        self.aabb(m)
    }

    fn aabb(&self, m: &Isometry) -> AABB {
        self.0.aabb(m)
    }
}

impl RayCast for OneSided {
    fn toi_spec(&self, m: &Isometry, ray: &Ray, solid: bool) -> Option<Scalar> {
        self.toi_with_ray(m, ray, solid)
    }

    fn toi_and_normal_spec(&self, m: &Isometry, ray: &Ray, solid: bool) -> Option<RayIntersection> {
        self.toi_and_normal_with_ray(m, ray, solid)
    }

    fn toi_and_normal_and_uv_spec(&self, m: &Isometry, ray: &Ray, solid: bool) -> Option<RayIntersection> {
        self.toi_and_normal_and_uv_with_ray(m, ray, solid)
    }

    fn toi_with_ray(&self, m: &Isometry, ray: &Ray, solid: bool) -> Option<Scalar> {
        self.toi_and_normal_with_ray(m, ray, solid).map(|i| i.toi)
    }

    fn toi_and_normal_with_ray(&self, m: &Isometry, ray: &Ray, solid: bool) -> Option<RayIntersection> {
        let ls = ray.inverse_transform_by(m);
        let t = &self.0 .0;
        one_sided(&t.a, &t.b, &t.c, &ls, solid).map(|(mut i, _)| {
            i.normal = m.rotate_wide(&i.normal);
            i
        })
    }

    fn toi_and_normal_and_uv_with_ray(&self, m: &Isometry, ray: &Ray, solid: bool) -> Option<RayIntersection> {
        self.toi_and_normal_with_ray(m, ray, solid)
    }
}

impl BaseMeshElement for OneSided {
    fn from_vertices(a: Point, b: Point, c: Point) -> OneSided {
        Self::new_with_vertices(&a, &b, &c)
    }

    fn new_with_vertices(a: &Point, b: &Point, c: &Point) -> OneSided {
        OneSided(Tri::new_with_vertices(a, b, c))
    }

    // An impact is a point of the triangle, and so of its box.
    fn lemma_impact_in_box(&self, _ray: Ray, _solid: bool) {}
}

impl TriangleMeshElement for OneSided {
    // Both casts go through `one_sided`, so they agree.
    fn lemma_triangle_cast_agrees(_a: Point, _b: Point, _c: Point, _ray: Ray, _solid: bool) {}

    fn triangle_ray_intersection_spec(
        a: Point,
        b: Point,
        c: Point,
        ray: Ray,
        solid: bool,
    ) -> Option<(RayIntersection, Barycentric)> {
        Self::triangle_ray_intersection(&a, &b, &c, &ray, solid)
    }

    fn triangle_ray_intersection(
        a: &Point,
        b: &Point,
        c: &Point,
        ray: &Ray,
        solid: bool,
    ) -> Option<(RayIntersection, Barycentric)> {
        one_sided(a, b, c, ray, solid)
    }
}

#[test]
fn the_flag_of_the_caller_reaches_the_elements() {
    let mesh: BaseMesh<OneSided> = BaseMesh::new(
        ElementKind::Triangle,
        vec![Point::new(0, 0, 0), Point::new(12, 0, 0), Point::new(0, 12, 0)],
        vec![(0, 1, 2)],
        Some(vec![Uv { u: 0, v: 0 }, Uv { u: 6, v: 0 }, Uv { u: 0, v: 6 }]),
        None,
    );
    let id = Isometry::identity();
    // From the front the triangle is hit whatever the flag.
    let down = Ray::new(Point::new(4, 4, 5), Vector::new(0, 0, -1));
    for solid in [true, false] {
        assert!(is(mesh.toi_with_ray(&id, &down, solid).unwrap(), 5, 1));
        assert!(is(mesh.toi_and_normal_with_ray(&id, &down, solid).unwrap().toi, 5, 1));
        assert!(is(mesh.toi_and_normal_and_uv_with_ray(&id, &down, solid).unwrap().toi, 5, 1));
    }
    // From behind only a solid cast hits it.
    let up = Ray::new(Point::new(4, 4, -3), Vector::new(0, 0, 1));
    assert!(is(mesh.toi_with_ray(&id, &up, true).unwrap(), 3, 1));
    assert!(is(mesh.toi_and_normal_with_ray(&id, &up, true).unwrap().toi, 3, 1));
    assert!(is(mesh.toi_and_normal_and_uv_with_ray(&id, &up, true).unwrap().toi, 3, 1));
    assert!(mesh.toi_with_ray(&id, &up, false).is_none());
    assert!(mesh.toi_and_normal_with_ray(&id, &up, false).is_none());
    assert!(mesh.toi_and_normal_and_uv_with_ray(&id, &up, false).is_none());
}

#[test]
fn shading_normal_along_an_axis_is_a_unit_vector() {
    let uvs = vec![Uv { u: 0, v: 0 }, Uv { u: 1, v: 0 }, Uv { u: 0, v: 1 }];
    let normals = vec![Vector::new(0, 0, -1), Vector::new(0, 0, -1), Vector::new(0, 0, -1)];
    let mesh: BaseMesh<Tri> = BaseMesh::new(
        ElementKind::Triangle,
        vec![Point::new(0, 0, 0), Point::new(8, 0, 0), Point::new(0, 8, 0)],
        vec![(0, 1, 2)],
        Some(uvs),
        Some(normals),
    );
    let down = Ray::new(Point::new(4, 1, 8), Vector::new(0, 0, -8));
    let geometric = WideVector::new(0, 0, 1);
    for w in [Barycentric { a: 1, b: 1, c: 1 }, Barycentric { a: 3, b: 4, c: 1 }] {
        let inter = (RayIntersection::new(Scalar::from_int(1), geometric), w);
        let out = mesh.shade(&Isometry::identity(), &down, 0, &inter);
        assert_eq!(out.normal, WideVector::new(0, 0, 1));
    }
    let hit = mesh.toi_and_normal_and_uv_with_ray(&Isometry::identity(), &down, true).unwrap();
    assert!(is(hit.toi, 1, 1));
    assert_eq!(hit.normal, WideVector::new(0, 0, 1));
    let (u, v) = hit.uvs.unwrap();
    assert!(is(u, 1, 2) && is(v, 1, 8));
}

#[test]
fn vectors_in_lowest_terms() {
    assert_eq!(WideVector::new(0, 0, 3).reduced(), WideVector::new(0, 0, 1));
    assert_eq!(WideVector::new(0, -8, 0).reduced(), WideVector::new(0, -1, 0));
    assert_eq!(WideVector::new(6, -9, 15).reduced(), WideVector::new(2, -3, 5));
    assert_eq!(WideVector::new(7, 0, 5).reduced(), WideVector::new(7, 0, 5));
    assert_eq!(WideVector::new(0, 0, 0).reduced(), WideVector::new(0, 0, 0));
    assert_eq!(WideVector::new(i64::MAX, -i64::MAX, 0).reduced(), WideVector::new(1, -1, 0));
    assert_eq!(greatest_common_divisor(12, 18), 6);
    assert_eq!(greatest_common_divisor(0, 5), 5);
    assert_eq!(greatest_common_divisor(5, 0), 5);
    assert_eq!(greatest_common_divisor(0, 0), 0);
    assert_eq!(greatest_common_divisor(u64::MAX, u64::MAX - 1), 1);
}
