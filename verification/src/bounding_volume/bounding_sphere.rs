//! Bounding spheres.
use crate::bounding_volume::BoundingVolume;
use crate::math::{Axis, Point};
use crate::math::isometry::Int3;
use crate::math::scalar::product_le;
use crate::query::point::{floor_sqrt, is_floor_sqrt, lemma_floor_sqrt_exists, length};
use crate::query::ray::Ray;
use crate::query::visitors::{PointTest, RayTest, VolumeTest};
use vstd::prelude::*;

verus! {

/// The dot product of two triples.
pub open spec fn dot(u: Int3, v: Int3) -> int {
    u.x * v.x + u.y * v.y + u.z * v.z
}

/// Four factors can be paired either way.
proof fn lemma_mul4(a: int, b: int, c: int, d: int)
    ensures
        (a * b) * (c * d) == (a * c) * (b * d),
{
    vstd::arithmetic::mul::lemma_mul_is_associative(a, b, c * d);
    vstd::arithmetic::mul::lemma_mul_is_associative(b, c, d);
    vstd::arithmetic::mul::lemma_mul_is_commutative(b, c);
    vstd::arithmetic::mul::lemma_mul_is_associative(c, b, d);
    vstd::arithmetic::mul::lemma_mul_is_associative(a, c, b * d);
}

proof fn lemma_binomial(p: int, q: int)
    by (nonlinear_arith)
    ensures
        (p - q) * (p - q) == p * p - 2 * (p * q) + q * q,
        (p + q) * (p + q) == p * p + 2 * (p * q) + q * q,
        (p - q) * (p - q) >= 0,
{
}

proof fn lemma_square_of_difference(p: int, q: int, r: int, t: int)
    ensures
        (p * t - q * r) * (p * t - q * r) == (p * p) * (t * t) - 2 * ((p * r) * (q * t)) + (q * q) * (
        r * r),
        (p * r) * (p * r) == (p * p) * (r * r),
        (p * t - q * r) * (p * t - q * r) >= 0,
{
    lemma_binomial(p * t, q * r);
    lemma_mul4(p, t, p, t);
    lemma_mul4(q, r, q, r);
    lemma_mul4(p, r, p, r);
    lemma_mul4(p, t, q, r);
    lemma_mul4(p, q, t, r);
    lemma_mul4(p, r, q, t);
    vstd::arithmetic::mul::lemma_mul_is_commutative(t, r);
}

proof fn lemma_product_of_sums(a1: int, a2: int, a3: int, b1: int, b2: int, b3: int)
    by (nonlinear_arith)
    ensures
        (a1 + a2 + a3) * (b1 + b2 + b3) == a1 * b1 + a1 * b2 + a1 * b3 + a2 * b1 + a2 * b2 + a2 * b3
            + a3 * b1 + a3 * b2 + a3 * b3,
{
}

/// The squared length of a dot product does not exceed the product of the
/// squared lengths.
pub proof fn lemma_cauchy_schwarz(u: Int3, v: Int3)
    ensures
        dot(u, v) * dot(u, v) <= dot(u, u) * dot(v, v),
{
    let (x1, y1, z1, x2, y2, z2) = (u.x, u.y, u.z, v.x, v.y, v.z);
    // (u.u)(v.v) - (u.v)^2 is the squared length of the cross product.
    lemma_product_of_sums(x1 * x1, y1 * y1, z1 * z1, x2 * x2, y2 * y2, z2 * z2);
    lemma_product_of_sums(x1 * x2, y1 * y2, z1 * z2, x1 * x2, y1 * y2, z1 * z2);
    lemma_square_of_difference(x1, y1, x2, y2);
    lemma_square_of_difference(x1, z1, x2, z2);
    lemma_square_of_difference(y1, z1, y2, z2);
    lemma_square_of_difference(z1, x1, z2, x2);
    assert((y1 * y2) * (x1 * x2) == (x1 * x2) * (y1 * y2)) by (nonlinear_arith);
    assert((z1 * z2) * (x1 * x2) == (x1 * x2) * (z1 * z2)) by (nonlinear_arith);
    assert((z1 * z2) * (y1 * y2) == (y1 * y2) * (z1 * z2)) by (nonlinear_arith);
}

/// The triangle inequality, cleared of square roots: a vector no longer
/// than `s` plus a vector no longer than `t` is no longer than `s + t`.
pub proof fn lemma_triangle(u: Int3, v: Int3, s: int, t: int)
    requires
        s >= 0,
        t >= 0,
        dot(u, u) <= s * s,
        dot(v, v) <= t * t,
    ensures
        dot(u.plus(v), u.plus(v)) <= (s + t) * (s + t),
{
    lemma_cauchy_schwarz(u, v);
    let uu = dot(u, u);
    let vv = dot(v, v);
    let uv = dot(u, v);
    assert(uu >= 0 && vv >= 0) by (nonlinear_arith)
        requires
            uu == u.x * u.x + u.y * u.y + u.z * u.z,
            vv == v.x * v.x + v.y * v.y + v.z * v.z,
    ;
    assert(uv <= s * t) by (nonlinear_arith)
        requires
            uv * uv <= uu * vv,
            0 <= uu <= s * s,
            0 <= vv <= t * t,
            s >= 0,
            t >= 0,
    {
        assert(uu * vv <= (s * s) * (t * t));
        assert((s * s) * (t * t) == (s * t) * (s * t));
        if uv > s * t {
            assert(s * t >= 0);
            assert(uv * uv > (s * t) * (s * t));
        }
    }
    let w = u.plus(v);
    assert(dot(w, w) == uu + 2 * uv + vv) by (nonlinear_arith)
        requires
            w.x == u.x + v.x,
            w.y == u.y + v.y,
            w.z == u.z + v.z,
            uu == u.x * u.x + u.y * u.y + u.z * u.z,
            vv == v.x * v.x + v.y * v.y + v.z * v.z,
            uv == u.x * v.x + u.y * v.y + u.z * v.z,
            dot(w, w) == w.x * w.x + w.y * w.y + w.z * w.z,
    ;
    assert((s + t) * (s + t) == s * s + 2 * (s * t) + t * t) by (nonlinear_arith);
}

/// The ball of the points within `radius` of `center`. The greatest
/// radius stands for the whole space.
#[derive(Clone, Copy, Debug, PartialEq, Eq, Structural)]
pub struct BoundingSphere {
    pub center: Point,
    pub radius: u64,
}

/// Half of `s`, rounded down.
pub open spec fn half(s: int) -> int {
    s / 2
}

/// The displacement from `a` to `b`.
pub open spec fn from_to(a: Point, b: Point) -> Int3 {
    Int3 { x: b.x - a.x, y: b.y - a.y, z: b.z - a.z }
}

/// The triple `v` scaled by `k`.
pub open spec fn scaled(k: int, v: Int3) -> Int3 {
    Int3 { x: k * v.x, y: k * v.y, z: k * v.z }
}

/// The distance from `p` to `q`, rounded up.
pub open spec fn ceil_distance_spec(p: Point, q: Point) -> int {
    let sq = dot(from_to(p, q), from_to(p, q));
    let s = floor_sqrt(sq);
    if s * s == sq {
        s
    } else {
        s + 1
    }
}

/// The sum of a distance and a radius, capped at the radius that stands
/// for the whole space.
pub open spec fn capped(r: int) -> u64 {
    if r >= u64::MAX {
        u64::MAX
    } else {
        r as u64
    }
}

proof fn lemma_square_monotone(a: int, b: int)
    by (nonlinear_arith)
    requires
        0 <= a <= b,
    ensures
        a * a <= b * b,
{
}

proof fn lemma_scaled_dot(k: int, v: Int3, r: int)
    requires
        dot(v, v) <= r * r,
    ensures
        dot(scaled(k, v), scaled(k, v)) <= (k * r) * (k * r),
{
    lemma_mul4(k, v.x, k, v.x);
    lemma_mul4(k, v.y, k, v.y);
    lemma_mul4(k, v.z, k, v.z);
    lemma_mul4(k, r, k, r);
    let kk = k * k;
    assert(kk * (v.x * v.x) + kk * (v.y * v.y) + kk * (v.z * v.z) == kk * dot(v, v))
        by (nonlinear_arith)
        requires
            dot(v, v) == v.x * v.x + v.y * v.y + v.z * v.z,
    ;
    assert(kk * dot(v, v) <= kk * (r * r)) by (nonlinear_arith)
        requires
            dot(v, v) <= r * r,
            kk == k * k,
    ;
}

fn ceil_distance(p: &Point, q: &Point) -> (r: u64)
    ensures
        r == ceil_distance_spec(*p, *q),
        r <= 0x4_0000_0001,
        dot(from_to(*p, *q), from_to(*p, *q)) <= r * r,
{
    let dx: i64 = q.x as i64 - p.x as i64;
    let dy: i64 = q.y as i64 - p.y as i64;
    let dz: i64 = q.z as i64 - p.z as i64;
    let s: i64 = length(dx, dy, dz);
    assert(0 <= dx * dx <= 0x1_0000_0000_0000_0000 && 0 <= dy * dy <= 0x1_0000_0000_0000_0000 && 0
        <= dz * dz <= 0x1_0000_0000_0000_0000) by (nonlinear_arith)
        requires
            -0x1_0000_0000 <= dx <= 0x1_0000_0000,
            -0x1_0000_0000 <= dy <= 0x1_0000_0000,
            -0x1_0000_0000 <= dz <= 0x1_0000_0000,
    ;
    let sq: i128 = (dx as i128) * (dx as i128) + (dy as i128) * (dy as i128) + (dz as i128) * (
    dz as i128);
    proof {
        lemma_floor_sqrt_exists(sq as int);
        assert(is_floor_sqrt(s as int, sq as int));
        assert(0 <= (s as i128) * (s as i128) <= 0x10_0000_0000_0000_0000) by (nonlinear_arith)
            requires
                0 <= s <= 0x4_0000_0000,
        ;
    }
    if (s as i128) * (s as i128) == sq {
        s as u64
    } else {
        (s + 1) as u64
    }
}

impl BoundingSphere {
    /// The sphere stands for the whole space.
    pub open spec fn is_everything(self) -> bool {
        self.radius == u64::MAX
    }

    /// The squared distance of the centers.
    pub open spec fn center_distance_squared(self, o: BoundingSphere) -> int {
        dot(from_to(self.center, o.center), from_to(self.center, o.center))
    }

    /// Every point of `o` is a point of `self`.
    pub open spec fn contains_spec(self, o: BoundingSphere) -> bool {
        self.is_everything() || (!o.is_everything() && o.radius <= self.radius
            && self.center_distance_squared(o) <= (self.radius - o.radius) * (self.radius
            - o.radius))
    }

    /// The two spheres have a point in common.
    pub open spec fn intersects_spec(self, o: BoundingSphere) -> bool {
        self.is_everything() || o.is_everything() || self.center_distance_squared(o) <= (self.radius
            + o.radius) * (self.radius + o.radius)
    }

    /// The lattice point `p` lies in the sphere.
    pub open spec fn has_point(self, p: Point) -> bool {
        self.is_everything() || dot(from_to(self.center, p), from_to(self.center, p)) <= self.radius
            * self.radius
    }

    /// The point of `ray` at time `n / d`, seen from the center and scaled by `d`.
    pub open spec fn ray_offset(self, ray: Ray, n: int, d: int) -> Int3 {
        scaled(d, from_to(self.center, ray.origin)).plus(
            scaled(n, Int3 { x: ray.dir.x as int, y: ray.dir.y as int, z: ray.dir.z as int }),
        )
    }

    /// The point of `ray` at time `n / d` lies in the sphere.
    pub open spec fn ray_hits_at(self, ray: Ray, n: int, d: int) -> bool {
        self.is_everything() || dot(self.ray_offset(ray, n, d), self.ray_offset(ray, n, d)) <= (d
            * self.radius) * (d * self.radius)
    }

    /// The ray meets the sphere at some time.
    pub open spec fn meets_ray(self, ray: Ray) -> bool {
        exists|n: int, d: int| n >= 0 && d > 0 && #[trigger] self.ray_hits_at(ray, n, d)
    }

    /// The point halfway between the centers, each coordinate rounded down.
    pub open spec fn midpoint(self, o: BoundingSphere) -> Point {
        Point {
            x: half(self.center.x + o.center.x) as i32,
            y: half(self.center.y + o.center.y) as i32,
            z: half(self.center.z + o.center.z) as i32,
        }
    }

    /// The sphere that `merged` gives: the greater of the two if it encloses
    /// the other; else the sphere about the point halfway between the
    /// centers that reaches around both, with distances rounded up. It
    /// encloses both spheres; it need not be the smallest sphere that does,
    /// which is seldom a sphere of the lattice.
    pub open spec fn merged_spec(self, o: BoundingSphere) -> BoundingSphere {
        if self.contains_spec(o) {
            self
        } else if o.contains_spec(self) {
            o
        } else {
            let c = self.midpoint(o);
            let ra = ceil_distance_spec(c, self.center) + self.radius;
            let rb = ceil_distance_spec(c, o.center) + o.radius;
            BoundingSphere {
                center: c,
                radius: capped(
                    if ra >= rb {
                        ra
                    } else {
                        rb
                    },
                ),
            }
        }
    }

    /// The sphere with the given center and radius.
    pub fn new(center: Point, radius: u64) -> (r: BoundingSphere)
        ensures
            r == (BoundingSphere { center, radius }),
    {
        BoundingSphere { center, radius }
    }

    pub fn center(&self) -> (r: &Point)
        ensures
            *r == self.center,
    {
        &self.center
    }

    pub fn radius(&self) -> (r: u64)
        ensures
            r == self.radius,
    {
        self.radius
    }

    /// What is known of the squared distance of two lattice points.
    proof fn lemma_distance_range(p: Point, q: Point)
        ensures
            0 <= dot(from_to(p, q), from_to(p, q)) <= 0x3_0000_0000_0000_0000,
            dot(from_to(p, q), from_to(p, q)) == q.distance_squared_spec(p),
    {
        let v = from_to(p, q);
        assert(0 <= v.x * v.x <= 0x1_0000_0000_0000_0000 && 0 <= v.y * v.y <= 0x1_0000_0000_0000_0000
            && 0 <= v.z * v.z <= 0x1_0000_0000_0000_0000) by (nonlinear_arith)
            requires
                -0x1_0000_0000 <= v.x <= 0x1_0000_0000,
                -0x1_0000_0000 <= v.y <= 0x1_0000_0000,
                -0x1_0000_0000 <= v.z <= 0x1_0000_0000,
        ;
    }

    /// Whether the squared distance of `p` and `q` is at most `k * k`.
    fn within(p: &Point, q: &Point, k: u128) -> (r: bool)
        ensures
            r == (dot(from_to(*p, *q), from_to(*p, *q)) <= k * k),
    {
        proof {
            Self::lemma_distance_range(*p, *q);
        }
        let sq: u128 = q.distance_squared(p);
        if k >= 0x8_0000_0000 {
            proof {
                lemma_square_monotone(0x8_0000_0000, k as int);
            }
            true
        } else {
            assert(k * k <= 0x40_0000_0000_0000_0000) by (nonlinear_arith)
                requires
                    0 <= k < 0x8_0000_0000,
            ;
            sq <= k * k
        }
    }

    /// Whether `self` encloses `other`.
    pub fn encloses(&self, other: &BoundingSphere) -> (r: bool)
        ensures
            r == self.contains_spec(*other),
    {
        if self.radius == u64::MAX {
            true
        } else if other.radius == u64::MAX || other.radius > self.radius {
            false
        } else {
            Self::within(&self.center, &other.center, (self.radius - other.radius) as u128)
        }
    }

    /// Whether the two spheres have a point in common.
    pub fn meets(&self, other: &BoundingSphere) -> (r: bool)
        ensures
            r == self.intersects_spec(*other),
    {
        if self.radius == u64::MAX || other.radius == u64::MAX {
            true
        } else {
            Self::within(&self.center, &other.center, self.radius as u128 + other.radius as u128)
        }
    }

    /// Whether the lattice point `p` lies in the sphere.
    pub fn contains_local_point(&self, p: &Point) -> (r: bool)
        ensures
            r == self.has_point(*p),
    {
        if self.radius == u64::MAX {
            true
        } else {
            Self::within(&self.center, p, self.radius as u128)
        }
    }

    /// A sphere that encloses both spheres.
    pub fn union(&self, other: &BoundingSphere) -> (r: BoundingSphere)
        ensures
            r == self.merged_spec(*other),
    {
        if self.encloses(other) {
            *self
        } else if other.encloses(self) {
            *other
        } else {
            let c = Point {
                x: mid(self.center.x, other.center.x),
                y: mid(self.center.y, other.center.y),
                z: mid(self.center.z, other.center.z),
            };
            let ra: u128 = ceil_distance(&c, &self.center) as u128 + self.radius as u128;
            let rb: u128 = ceil_distance(&c, &other.center) as u128 + other.radius as u128;
            let m: u128 = if ra >= rb {
                ra
            } else {
                rb
            };
            let radius: u64 = if m >= 0xffff_ffff_ffff_ffff {
                0xffff_ffff_ffff_ffff
            } else {
                m as u64
            };
            BoundingSphere { center: c, radius }
        }
    }

    /// The merged sphere encloses both spheres.
    pub proof fn lemma_merged_encloses(self, o: BoundingSphere)
        ensures
            self.merged_spec(o).contains_spec(self),
            self.merged_spec(o).contains_spec(o),
    {
        let m = self.merged_spec(o);
        if self.contains_spec(o) {
            Self::lemma_encloses_itself(self);
        } else if o.contains_spec(self) {
            Self::lemma_encloses_itself(o);
        } else {
            let c = self.midpoint(o);
            let ra = ceil_distance_spec(c, self.center) + self.radius;
            let rb = ceil_distance_spec(c, o.center) + o.radius;
            Self::lemma_reaches(c, self.center, self.radius as int, ra);
            Self::lemma_reaches(c, o.center, o.radius as int, rb);
            if !m.is_everything() {
                assert(m.center == c);
                assert(m.radius >= ra && m.radius >= rb);
                Self::lemma_reaches(c, self.center, self.radius as int, m.radius as int);
                Self::lemma_reaches(c, o.center, o.radius as int, m.radius as int);
                assert(!self.is_everything());
                assert(!o.is_everything());
            }
        }
    }

    proof fn lemma_encloses_itself(a: BoundingSphere)
        ensures
            a.contains_spec(a),
    {
        assert(0 * 0 == 0) by (nonlinear_arith);
        let v = from_to(a.center, a.center);
        assert(dot(v, v) == 0) by (nonlinear_arith)
            requires
                v.x == 0 && v.y == 0 && v.z == 0,
                dot(v, v) == v.x * v.x + v.y * v.y + v.z * v.z,
        ;
    }

    /// A sphere about `c` whose radius is at least the distance to `p`
    /// rounded up plus `r` reaches around the sphere about `p` of radius `r`.
    proof fn lemma_reaches(c: Point, p: Point, r: int, big: int)
        requires
            r >= 0,
            big >= ceil_distance_spec(c, p) + r,
        ensures
            dot(from_to(c, p), from_to(c, p)) <= (big - r) * (big - r),
            ceil_distance_spec(c, p) >= 0,
    {
        Self::lemma_distance_range(c, p);
        let sq = dot(from_to(c, p), from_to(c, p));
        lemma_floor_sqrt_exists(sq);
        let s = floor_sqrt(sq);
        assert(is_floor_sqrt(s, sq));
        let e = ceil_distance_spec(c, p);
        assert(sq <= e * e) by {
            if s * s != sq {
                assert(e == s + 1);
            }
        }
        lemma_square_monotone(e, big - r);
    }
}

fn mid(a: i32, b: i32) -> (r: i32)
    ensures
        r == half(a + b),
{
    let s: i64 = a as i64 + b as i64;
    if s >= 0 {
        (s / 2) as i32
    } else {
        let t: i64 = (1 - s) / 2;
        (-t) as i32
    }
}

impl BoundingSphere {
    /// The displacement from `a` to `c` is the sum of those from `a` to
    /// `b` and from `b` to `c`.
    proof fn lemma_chain(a: Point, b: Point, c: Point)
        ensures
            from_to(a, c) == from_to(a, b).plus(from_to(b, c)),
    {
    }

    /// Enclosing is transitive.
    pub proof fn lemma_encloses_transitive(a: BoundingSphere, b: BoundingSphere, c: BoundingSphere)
        requires
            a.contains_spec(b),
            b.contains_spec(c),
        ensures
            a.contains_spec(c),
    {
        if !a.is_everything() {
            Self::lemma_chain(a.center, b.center, c.center);
            lemma_triangle(
                from_to(a.center, b.center),
                from_to(b.center, c.center),
                a.radius - b.radius,
                b.radius - c.radius,
            );
        }
    }

    /// A sphere that encloses a sphere meets every sphere that the
    /// enclosed one meets.
    pub proof fn lemma_meets_enclosing(a: BoundingSphere, b: BoundingSphere, q: BoundingSphere)
        requires
            a.contains_spec(b),
            b.intersects_spec(q),
        ensures
            a.intersects_spec(q),
    {
        if !a.is_everything() && !q.is_everything() {
            Self::lemma_chain(a.center, b.center, q.center);
            lemma_triangle(
                from_to(a.center, b.center),
                from_to(b.center, q.center),
                a.radius - b.radius,
                b.radius + q.radius,
            );
        }
    }

    /// A sphere that encloses a sphere holds every lattice point that the
    /// enclosed one holds.
    pub proof fn lemma_point_in_enclosing(a: BoundingSphere, b: BoundingSphere, p: Point)
        requires
            a.contains_spec(b),
            b.has_point(p),
        ensures
            a.has_point(p),
    {
        if !a.is_everything() {
            Self::lemma_chain(a.center, b.center, p);
            lemma_triangle(
                from_to(a.center, b.center),
                from_to(b.center, p),
                a.radius - b.radius,
                b.radius as int,
            );
        }
    }

    /// A sphere that encloses a sphere is hit by a ray whenever the
    /// enclosed one is.
    pub proof fn lemma_ray_hits_enclosing(a: BoundingSphere, b: BoundingSphere, ray: Ray, n: int, d: int)
        requires
            a.contains_spec(b),
            b.ray_hits_at(ray, n, d),
            d > 0,
        ensures
            a.ray_hits_at(ray, n, d),
    {
        if !a.is_everything() {
            let v = scaled(d, from_to(a.center, b.center));
            let w = b.ray_offset(ray, n, d);
            lemma_scaled_dot(d, from_to(a.center, b.center), a.radius - b.radius);
            assert(d * (a.radius - b.radius) >= 0 && d * b.radius >= 0 && d * (a.radius - b.radius)
                + d * b.radius == d * a.radius) by (nonlinear_arith)
                requires
                    d > 0,
                    a.radius >= b.radius,
                    b.radius >= 0,
            ;
            lemma_triangle(v, w, d * (a.radius - b.radius), d * b.radius);
            let o = ray.origin;
            assert(d * (o.x - a.center.x) == d * (b.center.x - a.center.x) + d * (o.x - b.center.x)
                && d * (o.y - a.center.y) == d * (b.center.y - a.center.y) + d * (o.y - b.center.y)
                && d * (o.z - a.center.z) == d * (b.center.z - a.center.z) + d * (o.z - b.center.z))
                by (nonlinear_arith);
            assert(a.ray_offset(ray, n, d) == v.plus(w));
        }
    }
}

/// The squared length of `d * oc + n * dir`, in the dot products of `oc`
/// and `dir`.
proof fn lemma_offset_length(oc: Int3, dir: Int3, n: int, d: int)
    ensures
        dot(scaled(d, oc).plus(scaled(n, dir)), scaled(d, oc).plus(scaled(n, dir))) == (d * d) * dot(
            oc,
            oc,
        ) + 2 * ((n * d) * dot(oc, dir)) + (n * n) * dot(dir, dir),
{
    lemma_binomial(d * oc.x, n * dir.x);
    lemma_binomial(d * oc.y, n * dir.y);
    lemma_binomial(d * oc.z, n * dir.z);
    lemma_mul4(d, oc.x, d, oc.x);
    lemma_mul4(d, oc.y, d, oc.y);
    lemma_mul4(d, oc.z, d, oc.z);
    lemma_mul4(n, dir.x, n, dir.x);
    lemma_mul4(n, dir.y, n, dir.y);
    lemma_mul4(n, dir.z, n, dir.z);
    lemma_mul4(d, oc.x, n, dir.x);
    lemma_mul4(d, oc.y, n, dir.y);
    lemma_mul4(d, oc.z, n, dir.z);
    vstd::arithmetic::mul::lemma_mul_is_commutative(d, n);
    let dd = d * d;
    let nn = n * n;
    let nd = n * d;
    assert(dd * (oc.x * oc.x) + dd * (oc.y * oc.y) + dd * (oc.z * oc.z) == dd * dot(oc, oc))
        by (nonlinear_arith)
        requires
            dot(oc, oc) == oc.x * oc.x + oc.y * oc.y + oc.z * oc.z,
    ;
    assert(nn * (dir.x * dir.x) + nn * (dir.y * dir.y) + nn * (dir.z * dir.z) == nn * dot(dir, dir))
        by (nonlinear_arith)
        requires
            dot(dir, dir) == dir.x * dir.x + dir.y * dir.y + dir.z * dir.z,
    ;
    assert(nd * (oc.x * dir.x) + nd * (oc.y * dir.y) + nd * (oc.z * dir.z) == nd * dot(oc, dir))
        by (nonlinear_arith)
        requires
            dot(oc, dir) == oc.x * dir.x + oc.y * dir.y + oc.z * dir.z,
    ;
}

/// The quadratic `d^2 cc + 2 n d b + n^2 a`, which is not positive exactly
/// at the times `n / d` at which a ray is inside a sphere.
pub open spec fn quadratic(a: int, b: int, cc: int, n: int, d: int) -> int {
    (d * d) * cc + 2 * ((n * d) * b) + (n * n) * a
}

proof fn lemma_quadratic_positive(a: int, b: int, cc: int, n: int, d: int)
    requires
        n >= 0,
        d > 0,
        a >= 0,
        cc > 0,
        b >= 0 || a * cc > b * b,
    ensures
        quadratic(a, b, cc, n, d) > 0,
{
    let dd = d * d;
    let nd = n * d;
    let nn = n * n;
    assert(dd > 0 && nd >= 0 && nn >= 0) by (nonlinear_arith)
        requires
            n >= 0,
            d > 0,
            dd == d * d,
            nd == n * d,
            nn == n * n,
    ;
    assert(dd * cc > 0 && nn * a >= 0) by (nonlinear_arith)
        requires
            dd > 0,
            cc > 0,
            nn >= 0,
            a >= 0,
    ;
    if b >= 0 {
        assert(nd * b >= 0) by (nonlinear_arith)
            requires
                nd >= 0,
                b >= 0,
        ;
    } else {
        // a g = (n a + d b)^2 + d^2 (a cc - b^2)
        let g = quadratic(a, b, cc, n, d);
        lemma_binomial(n * a, d * b);
        lemma_mul4(n, a, n, a);
        lemma_mul4(d, b, d, b);
        lemma_mul4(n, a, d, b);
        assert(a * g == a * (dd * cc) + 2 * (a * (nd * b)) + a * (nn * a)) by (nonlinear_arith)
            requires
                g == dd * cc + 2 * (nd * b) + nn * a,
        ;
        vstd::arithmetic::mul::lemma_mul_is_associative(a, nn, a);
        vstd::arithmetic::mul::lemma_mul_is_commutative(a, nn);
        vstd::arithmetic::mul::lemma_mul_is_associative(nn, a, a);
        vstd::arithmetic::mul::lemma_mul_is_associative(a, nd, b);
        vstd::arithmetic::mul::lemma_mul_is_commutative(a, nd);
        vstd::arithmetic::mul::lemma_mul_is_associative(nd, a, b);
        vstd::arithmetic::mul::lemma_mul_is_associative(a, dd, cc);
        vstd::arithmetic::mul::lemma_mul_is_commutative(a, dd);
        vstd::arithmetic::mul::lemma_mul_is_associative(dd, a, cc);
        let sq = (n * a + d * b) * (n * a + d * b);
        assert(sq >= 0) by (nonlinear_arith)
            requires
                sq == (n * a + d * b) * (n * a + d * b),
        ;
        assert(a * g == sq + dd * (a * cc) - dd * (b * b));
        assert(dd * (a * cc) - dd * (b * b) > 0) by (nonlinear_arith)
            requires
                dd > 0,
                a * cc > b * b,
        ;
        assert(g > 0) by (nonlinear_arith)
            requires
                a * g > 0,
                a >= 0,
        ;
    }
}

proof fn lemma_quadratic_witness(a: int, b: int, cc: int)
    requires
        a > 0,
        b < 0,
        a * cc <= b * b,
    ensures
        quadratic(a, b, cc, -b, a) <= 0,
{
    let g = quadratic(a, b, cc, -b, a);
    let aa = a * a;
    let bb = b * b;
    assert((-b) * (-b) == bb && (-b) * a == -(a * b)) by (nonlinear_arith)
        requires
            bb == b * b,
    ;
    vstd::arithmetic::mul::lemma_mul_is_associative(a, a, cc);
    vstd::arithmetic::mul::lemma_mul_is_associative(a, b, b);
    vstd::arithmetic::mul::lemma_mul_is_commutative(bb, a);
    assert((-(a * b)) * b == -((a * b) * b)) by (nonlinear_arith);
    assert(g == a * (a * cc) - a * bb);
    assert(a * (a * cc) - a * bb <= 0) by (nonlinear_arith)
        requires
            a > 0,
            a * cc <= bb,
    ;
}

impl BoundingSphere {
    /// When a ray meets a sphere that is not the whole space: with `oc`
    /// from the center to the origin of the ray, `a = dir . dir`,
    /// `b = oc . dir` and `cc = oc . oc - r^2`, exactly if the origin lies
    /// in the sphere (`cc <= 0`), or the ray approaches the center
    /// (`b < 0`) and comes close enough (`a cc <= b^2`).
    pub proof fn lemma_meets_ray(self, ray: Ray)
        requires
            !self.is_everything(),
        ensures
            ({
                let oc = from_to(self.center, ray.origin);
                let dir = Int3 { x: ray.dir.x as int, y: ray.dir.y as int, z: ray.dir.z as int };
                let a = dot(dir, dir);
                let b = dot(oc, dir);
                let cc = dot(oc, oc) - self.radius * self.radius;
                self.meets_ray(ray) <==> (cc <= 0 || (b < 0 && a * cc <= b * b))
            }),
    {
        let oc = from_to(self.center, ray.origin);
        let dir = Int3 { x: ray.dir.x as int, y: ray.dir.y as int, z: ray.dir.z as int };
        let a = dot(dir, dir);
        let b = dot(oc, dir);
        let q = dot(oc, oc);
        let r = self.radius as int;
        let cc = q - r * r;
        lemma_cauchy_schwarz(oc, dir);
        assert(a >= 0 && q >= 0) by (nonlinear_arith)
            requires
                a == dir.x * dir.x + dir.y * dir.y + dir.z * dir.z,
                q == oc.x * oc.x + oc.y * oc.y + oc.z * oc.z,
        ;
        assert(a == 0 ==> b == 0) by (nonlinear_arith)
            requires
                b * b <= q * a,
        ;
        assert forall|n: int, d: int| n >= 0 && d > 0 implies (#[trigger] self.ray_hits_at(ray, n, d)
            <==> quadratic(a, b, cc, n, d) <= 0) by {
            lemma_offset_length(oc, dir, n, d);
            lemma_mul4(d, r, d, r);
            assert((d * d) * cc == (d * d) * q - (d * d) * (r * r)) by (nonlinear_arith)
                requires
                    cc == q - r * r,
            ;
        }
        if cc <= 0 {
            assert(quadratic(a, b, cc, 0, 1) == cc) by (nonlinear_arith)
                requires
                    quadratic(a, b, cc, 0, 1) == (1 * 1) * cc + 2 * ((0 * 1) * b) + (0 * 0) * a,
            ;
            assert(self.ray_hits_at(ray, 0, 1));
        } else if b < 0 && a * cc <= b * b {
            lemma_quadratic_witness(a, b, cc);
            assert(self.ray_hits_at(ray, -b, a));
        } else {
            assert forall|n: int, d: int| n >= 0 && d > 0 implies !#[trigger] self.ray_hits_at(
                ray,
                n,
                d,
            ) by {
                lemma_quadratic_positive(a, b, cc, n, d);
            }
        }
    }

    /// Whether `ray` meets the sphere.
    pub fn intersects_local_ray(&self, ray: &Ray) -> (r: bool)
        ensures
            r == self.meets_ray(*ray),
    {
        if self.radius == u64::MAX {
            assert(self.ray_hits_at(*ray, 0, 1));
            return true;
        }
        proof {
            self.lemma_meets_ray(*ray);
            Self::lemma_distance_range(self.center, ray.origin);
        }
        let ox: i128 = ray.origin.x as i128 - self.center.x as i128;
        let oy: i128 = ray.origin.y as i128 - self.center.y as i128;
        let oz: i128 = ray.origin.z as i128 - self.center.z as i128;
        let dx: i128 = ray.dir.x as i128;
        let dy: i128 = ray.dir.y as i128;
        let dz: i128 = ray.dir.z as i128;
        assert(0 <= ox * ox <= 0x1_0000_0000_0000_0000 && 0 <= oy * oy <= 0x1_0000_0000_0000_0000 && 0
            <= oz * oz <= 0x1_0000_0000_0000_0000) by (nonlinear_arith)
            requires
                -0x1_0000_0000 <= ox <= 0x1_0000_0000,
                -0x1_0000_0000 <= oy <= 0x1_0000_0000,
                -0x1_0000_0000 <= oz <= 0x1_0000_0000,
        ;
        let q: i128 = ox * ox + oy * oy + oz * oz;
        if self.radius >= 0x8_0000_0000 {
            proof {
                lemma_square_monotone(0x8_0000_0000, self.radius as int);
            }
            return true;
        }
        let r: i128 = self.radius as i128;
        assert(0 <= r * r <= 0x40_0000_0000_0000_0000) by (nonlinear_arith)
            requires
                0 <= r < 0x8_0000_0000,
        ;
        let cc: i128 = q - r * r;
        if cc <= 0 {
            return true;
        }
        assert(-0x8000_0000_0000_0000 <= ox * dx <= 0x8000_0000_0000_0000 && -0x8000_0000_0000_0000
            <= oy * dy <= 0x8000_0000_0000_0000 && -0x8000_0000_0000_0000 <= oz * dz
            <= 0x8000_0000_0000_0000) by (nonlinear_arith)
            requires
                -0x1_0000_0000 <= ox <= 0x1_0000_0000,
                -0x1_0000_0000 <= oy <= 0x1_0000_0000,
                -0x1_0000_0000 <= oz <= 0x1_0000_0000,
                -0x8000_0000 <= dx <= 0x8000_0000,
                -0x8000_0000 <= dy <= 0x8000_0000,
                -0x8000_0000 <= dz <= 0x8000_0000,
        ;
        let b: i128 = ox * dx + oy * dy + oz * dz;
        if b >= 0 {
            return false;
        }
        assert(0 <= dx * dx <= 0x4000_0000_0000_0000 && 0 <= dy * dy <= 0x4000_0000_0000_0000 && 0
            <= dz * dz <= 0x4000_0000_0000_0000) by (nonlinear_arith)
            requires
                -0x8000_0000 <= dx <= 0x8000_0000,
                -0x8000_0000 <= dy <= 0x8000_0000,
                -0x8000_0000 <= dz <= 0x8000_0000,
        ;
        let a: i128 = dx * dx + dy * dy + dz * dz;
        product_le(a, cc, b, b)
    }
}

impl BoundingVolume for BoundingSphere {
    open spec fn bv_intersects(&self, other: &Self) -> bool {
        self.intersects_spec(*other)
    }

    open spec fn bv_contains(&self, other: &Self) -> bool {
        self.contains_spec(*other)
    }

    open spec fn bv_key(&self, a: Axis) -> int {
        2 * self.center.at(a)
    }

    open spec fn bv_merged(&self, other: &Self) -> Self {
        self.merged_spec(*other)
    }

    open spec fn can_loosen(&self, amount: i32) -> bool {
        amount >= 0
    }

    open spec fn is_loosened_from(&self, orig: &Self, amount: i32) -> bool {
        self.center == orig.center && self.radius == capped(orig.radius + amount)
    }

    open spec fn can_tighten(&self, amount: i32) -> bool {
        0 <= amount <= self.radius && !self.is_everything()
    }

    open spec fn is_tightened_from(&self, orig: &Self, amount: i32) -> bool {
        self.center == orig.center && self.radius == orig.radius - amount
    }

    proof fn lemma_contains_reflexive(a: &Self) {
        Self::lemma_encloses_itself(*a);
    }

    proof fn lemma_contains_transitive(a: &Self, b: &Self, c: &Self) {
        Self::lemma_encloses_transitive(*a, *b, *c);
    }

    proof fn lemma_merge_contains(a: &Self, b: &Self) {
        a.lemma_merged_encloses(*b);
    }

    proof fn lemma_intersects_enclosing(a: &Self, b: &Self, q: &Self) {
        Self::lemma_meets_enclosing(*a, *b, *q);
    }

    proof fn lemma_loosened_contains(l: &Self, orig: &Self, amount: i32) {
        Self::lemma_encloses_itself(*orig);
        if !l.is_everything() {
            lemma_square_monotone(0, l.radius - orig.radius);
        }
    }

    proof fn lemma_tightened_contained(t: &Self, orig: &Self, amount: i32) {
        Self::lemma_encloses_itself(*orig);
        lemma_square_monotone(0, orig.radius - t.radius);
    }

    fn key(&self, a: Axis) -> (r: i64) {
        2 * (self.center.get(a) as i64)
    }

    fn intersects(&self, other: &BoundingSphere) -> (r: bool) {
        self.meets(other)
    }

    fn contains(&self, other: &BoundingSphere) -> (r: bool) {
        self.encloses(other)
    }

    fn merge(&mut self, other: &BoundingSphere) {
        *self = self.union(other);
    }

    fn merged(&self, other: &BoundingSphere) -> (r: BoundingSphere) {
        self.union(other)
    }

    fn loosen(&mut self, amount: i32) {
        self.radius = self.radius.saturating_add(amount as u64);
    }

    fn loosened(&self, amount: i32) -> (r: BoundingSphere) {
        BoundingSphere { center: self.center, radius: self.radius.saturating_add(amount as u64) }
    }

    fn tighten(&mut self, amount: i32) {
        self.radius = self.radius - amount as u64;
    }

    fn tightened(&self, amount: i32) -> (r: BoundingSphere) {
        BoundingSphere { center: self.center, radius: self.radius - amount as u64 }
    }
}

impl VolumeTest<BoundingSphere> for RayTest {
    open spec fn passes(&self, bv: &BoundingSphere) -> bool {
        bv.meets_ray(self.ray)
    }

    proof fn lemma_enclosing_passes(&self, outer: &BoundingSphere, inner: &BoundingSphere) {
        let (n, d) = choose|n: int, d: int|
            n >= 0 && d > 0 && #[trigger] inner.ray_hits_at(self.ray, n, d);
        BoundingSphere::lemma_ray_hits_enclosing(*outer, *inner, self.ray, n, d);
    }

    fn test(&self, bv: &BoundingSphere) -> (r: bool) {
        bv.intersects_local_ray(&self.ray)
    }
}

impl VolumeTest<BoundingSphere> for PointTest {
    open spec fn passes(&self, bv: &BoundingSphere) -> bool {
        bv.has_point(self.point)
    }

    proof fn lemma_enclosing_passes(&self, outer: &BoundingSphere, inner: &BoundingSphere) {
        BoundingSphere::lemma_point_in_enclosing(*outer, *inner, self.point);
    }

    fn test(&self, bv: &BoundingSphere) -> (r: bool) {
        bv.contains_local_point(&self.point)
    }
}

} // verus!
