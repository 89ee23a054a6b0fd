//! Rays, their impacts, and the ray cast against an axis-aligned box.
use crate::bounding_volume::aabb::AABB;
use crate::math::isometry::{Int3, Isometry};
use crate::math::scalar::{frac_le, frac_wf, lemma_frac_le_trans, Scalar};
use crate::math::{Point, Vector, WideVector};
use vstd::prelude::*;

verus! {

/// The half-line of the points `origin + t * dir` for `t >= 0`.
#[derive(Clone, Copy, Debug, PartialEq, Eq, Structural)]
pub struct Ray {
    pub origin: Point,
    pub dir: Vector,
}

/// Where a ray meets a shape: the time of impact, the normal of the shape
/// there, and the texture coordinates there if the shape has any. The
/// normal is a direction: the lattice has no unit vectors off its axes, so
/// the length of a normal is not fixed.
#[derive(Clone, Copy, Debug)]
pub struct RayIntersection {
    pub toi: Scalar,
    pub normal: WideVector,
    pub uvs: Option<(Scalar, Scalar)>,
}

impl RayIntersection {
    pub fn new(toi: Scalar, normal: WideVector) -> (r: RayIntersection)
        ensures
            r == (RayIntersection { toi, normal, uvs: None }),
    {
        RayIntersection { toi, normal, uvs: None }
    }

    pub fn new_with_uvs(toi: Scalar, normal: WideVector, uvs: Option<(Scalar, Scalar)>) -> (r:
        RayIntersection)
        ensures
            r == (RayIntersection { toi, normal, uvs }),
    {
        RayIntersection { toi, normal, uvs }
    }
}

/// Along one axis, the point of the ray at time `n / d` lies between `lo`
/// and `hi`: `lo <= o + (n / d) * dir <= hi`, cleared of the denominator.
pub open spec fn slab_hit(lo: int, hi: int, o: int, dir: int, n: int, d: int) -> bool {
    d * lo <= d * o + n * dir <= d * hi
}

/// The times at which the ray is between `lo` and `hi` along one axis, as
/// an interval from an entry to an exit; `None` if the ray never is.
pub open spec fn slab_interval(lo: int, hi: int, o: int, dir: int) -> Option<(Scalar, Scalar)> {
    if dir > 0 {
        if hi - o < 0 {
            None
        } else {
            Some(
                (
                    if lo - o > 0 {
                        Scalar { num: (lo - o) as i64, den: dir as i64 }
                    } else {
                        Scalar { num: 0, den: 1 }
                    },
                    Scalar { num: (hi - o) as i64, den: dir as i64 },
                ),
            )
        }
    } else if dir < 0 {
        if o - lo < 0 {
            None
        } else {
            Some(
                (
                    if o - hi > 0 {
                        Scalar { num: (o - hi) as i64, den: (-dir) as i64 }
                    } else {
                        Scalar { num: 0, den: 1 }
                    },
                    Scalar { num: (o - lo) as i64, den: (-dir) as i64 },
                ),
            )
        }
    } else {
        if lo <= o <= hi {
            Some((Scalar { num: 0, den: 1 }, Scalar { num: 1, den: 0 }))
        } else {
            None
        }
    }
}

/// The greater of two scalars; the first if they are equal.
pub open spec fn scalar_max(a: Scalar, b: Scalar) -> Scalar {
    if a.lt(b) {
        b
    } else {
        a
    }
}

/// The lesser of two scalars; the first if they are equal.
pub open spec fn scalar_min(a: Scalar, b: Scalar) -> Scalar {
    if b.lt(a) {
        b
    } else {
        a
    }
}

/// Entry and exit times that the slab test produces: small enough to be
/// compared and combined without overflow.
pub open spec fn slab_time(t: Scalar) -> bool {
    &&& t.wf()
    &&& 0 <= t.num <= 0xffff_ffff
    &&& t.den <= 0x8000_0000
}

proof fn lemma_slab_arith(lo: int, hi: int, o: int, dir: int, n: int, d: int)
    by (nonlinear_arith)
    requires
        n >= 0,
        d > 0,
    ensures
        dir > 0 ==> ((d * lo <= d * o + n * dir <= d * hi) <==> ((lo - o) * d <= n * dir && n * dir
            <= (hi - o) * d)),
        dir < 0 ==> ((d * lo <= d * o + n * dir <= d * hi) <==> ((o - hi) * d <= n * (-dir) && n * (
        -dir) <= (o - lo) * d)),
        dir == 0 ==> ((d * lo <= d * o + n * dir <= d * hi) <==> (lo <= o <= hi)),
        dir >= 0 ==> n * dir >= 0,
        dir <= 0 ==> n * (-dir) >= 0,
        lo - o <= 0 ==> (lo - o) * d <= 0,
        o - hi <= 0 ==> (o - hi) * d <= 0,
        hi - o < 0 ==> (hi - o) * d < 0,
        o - lo < 0 ==> (o - lo) * d < 0,
        0 * d == 0,
        n * 1 == n,
        1 * d == d,
        n * 0 == 0,
{
}

/// The interval of the slab test holds exactly the times at which the ray
/// is inside the slab.
pub proof fn lemma_slab_interval(lo: int, hi: int, o: int, dir: int)
    requires
        -0x8000_0000 <= lo <= 0x7fff_ffff,
        -0x8000_0000 <= hi <= 0x7fff_ffff,
        -0x8000_0000 <= o <= 0x7fff_ffff,
        -0x8000_0000 <= dir <= 0x7fff_ffff,
    ensures
        slab_interval(lo, hi, o, dir) is None ==> forall|n: int, d: int|
            n >= 0 && d > 0 ==> !#[trigger] slab_hit(lo, hi, o, dir, n, d),
        slab_interval(lo, hi, o, dir) matches Some((a, b)) ==> {
            &&& slab_time(a)
            &&& slab_time(b)
            &&& a.den > 0
            &&& forall|n: int, d: int|
                n >= 0 && d > 0 ==> (#[trigger] slab_hit(lo, hi, o, dir, n, d) <==> frac_le(
                    a.num as int,
                    a.den as int,
                    n,
                    d,
                ) && frac_le(n, d, b.num as int, b.den as int))
        },
{
    match slab_interval(lo, hi, o, dir) {
        None => {
            assert forall|n: int, d: int| n >= 0 && d > 0 implies !#[trigger] slab_hit(
                lo,
                hi,
                o,
                dir,
                n,
                d,
            ) by {
                lemma_slab_arith(lo, hi, o, dir, n, d);
            }
        },
        Some((a, b)) => {
            assert forall|n: int, d: int| n >= 0 && d > 0 implies (#[trigger] slab_hit(
                lo,
                hi,
                o,
                dir,
                n,
                d,
            ) <==> frac_le(a.num as int, a.den as int, n, d) && frac_le(
                n,
                d,
                b.num as int,
                b.den as int,
            )) by {
                lemma_slab_arith(lo, hi, o, dir, n, d);
            }
        },
    }
}

impl Ray {
    pub fn new(origin: Point, dir: Vector) -> (r: Ray)
        ensures
            r == (Ray { origin, dir }),
    {
        Ray { origin, dir }
    }

    /// Whether the ray seen from the frame of `m` is a ray of the lattice.
    pub open spec fn can_inverse_transform_by(self, m: Isometry) -> bool {
        m.inverse_transform(Int3::of_point(self.origin)).fits() && m.inverse_rotate(
            Int3::of_vector(self.dir),
        ).fits()
    }

    /// The ray seen from the frame of `m`, where it is representable.
    pub open spec fn inverse_transform_by_spec(self, m: Isometry) -> Ray {
        let o = m.inverse_transform(Int3::of_point(self.origin));
        let d = m.inverse_rotate(Int3::of_vector(self.dir));
        Ray {
            origin: Point { x: o.x as i32, y: o.y as i32, z: o.z as i32 },
            dir: Vector { x: d.x as i32, y: d.y as i32, z: d.z as i32 },
        }
    }

    /// Whether the image of the ray under `m` is a ray of the lattice.
    pub open spec fn can_transform_by(self, m: Isometry) -> bool {
        m.transform(Int3::of_point(self.origin)).fits() && m.rotate(Int3::of_vector(self.dir)).fits()
    }

    /// The image of the ray under `m`, where it is representable.
    pub open spec fn transform_by_spec(self, m: Isometry) -> Ray {
        let o = m.transform(Int3::of_point(self.origin));
        let d = m.rotate(Int3::of_vector(self.dir));
        Ray {
            origin: Point { x: o.x as i32, y: o.y as i32, z: o.z as i32 },
            dir: Vector { x: d.x as i32, y: d.y as i32, z: d.z as i32 },
        }
    }

    /// The ray seen from the frame of `m`: the origin is transformed back,
    /// the direction is rotated back.
    pub fn inverse_transform_by(&self, m: &Isometry) -> (r: Ray)
        requires
            m.wf(),
            self.can_inverse_transform_by(*m),
        ensures
            r == self.inverse_transform_by_spec(*m),
    {
        Ray {
            origin: m.inverse_transform_point(&self.origin),
            dir: m.inverse_rotate_vector(&self.dir),
        }
    }

    /// The ray seen from the frame of `m`, if it is a ray of the lattice.
    pub fn checked_inverse_transform_by(&self, m: &Isometry) -> (r: Option<Ray>)
        requires
            m.wf(),
        ensures
            r.is_some() == self.can_inverse_transform_by(*m),
            r matches Some(ls) ==> ls == self.inverse_transform_by_spec(*m),
    {
        match (
            m.checked_inverse_transform_point(&self.origin),
            m.checked_inverse_rotate_vector(&self.dir),
        ) {
            (Some(origin), Some(dir)) => Some(Ray { origin, dir }),
            _ => None,
        }
    }

    /// The image of the ray under `m`.
    pub fn transform_by(&self, m: &Isometry) -> (r: Ray)
        requires
            m.wf(),
            self.can_transform_by(*m),
        ensures
            r == self.transform_by_spec(*m),
    {
        Ray { origin: m.transform_point(&self.origin), dir: m.rotate_vector(&self.dir) }
    }

    /// Seen from the frame of the identity, a ray is itself.
    pub proof fn lemma_identity(self)
        ensures
            self.can_inverse_transform_by(Isometry::identity_spec()),
            self.inverse_transform_by_spec(Isometry::identity_spec()) == self,
    {
    }

    /// Taking a ray into a frame and back gives the ray.
    pub proof fn lemma_round_trip(self, m: Isometry)
        requires
            m.wf(),
            self.can_inverse_transform_by(m),
        ensures
            self.inverse_transform_by_spec(m).can_transform_by(m),
            self.inverse_transform_by_spec(m).transform_by_spec(m) == self,
    {
        m.lemma_round_trip(Int3::of_point(self.origin));
        m.lemma_round_trip(Int3::of_vector(self.dir));
        let r = self.inverse_transform_by_spec(m);
        assert(Int3::of_point(r.origin) == m.inverse_transform(Int3::of_point(self.origin)));
        assert(Int3::of_vector(r.dir) == m.inverse_rotate(Int3::of_vector(self.dir)));
    }
}

/// The slab test along one axis.
pub(crate) fn slab(lo: i32, hi: i32, o: i32, dir: i32) -> (r: Option<(Scalar, Scalar)>)
    ensures
        r == slab_interval(lo as int, hi as int, o as int, dir as int),
{
    if dir > 0 {
        if (hi as i64) - (o as i64) < 0 {
            None
        } else {
            let a = if (lo as i64) - (o as i64) > 0 {
                Scalar { num: lo as i64 - o as i64, den: dir as i64 }
            } else {
                Scalar { num: 0, den: 1 }
            };
            Some((a, Scalar { num: hi as i64 - o as i64, den: dir as i64 }))
        }
    } else if dir < 0 {
        if (o as i64) - (lo as i64) < 0 {
            None
        } else {
            let a = if (o as i64) - (hi as i64) > 0 {
                Scalar { num: o as i64 - hi as i64, den: -(dir as i64) }
            } else {
                Scalar { num: 0, den: 1 }
            };
            Some((a, Scalar { num: o as i64 - lo as i64, den: -(dir as i64) }))
        }
    } else {
        if lo <= o && o <= hi {
            Some((Scalar { num: 0, den: 1 }, Scalar { num: 1, den: 0 }))
        } else {
            None
        }
    }
}

fn max_of(a: Scalar, b: Scalar) -> (r: Scalar)
    requires
        a.den >= 0,
        b.den >= 0,
    ensures
        r == scalar_max(a, b),
{
    if a.less(&b) {
        b
    } else {
        a
    }
}

fn min_of(a: Scalar, b: Scalar) -> (r: Scalar)
    requires
        a.den >= 0,
        b.den >= 0,
    ensures
        r == scalar_min(a, b),
{
    if b.less(&a) {
        b
    } else {
        a
    }
}

impl AABB {
    /// The point of `ray` at time `n / d` lies in the box.
    pub open spec fn ray_hits_at(self, ray: Ray, n: int, d: int) -> bool {
        &&& slab_hit(self.mins.x as int, self.maxs.x as int, ray.origin.x as int, ray.dir.x as int, n, d)
        &&& slab_hit(self.mins.y as int, self.maxs.y as int, ray.origin.y as int, ray.dir.y as int, n, d)
        &&& slab_hit(self.mins.z as int, self.maxs.z as int, ray.origin.z as int, ray.dir.z as int, n, d)
    }

    /// The ray never meets the box.
    pub open spec fn ray_misses(self, ray: Ray) -> bool {
        forall|n: int, d: int| n >= 0 && d > 0 ==> !#[trigger] self.ray_hits_at(ray, n, d)
    }

    /// `t` is the first time at which the ray is in the box.
    pub open spec fn is_first_hit(self, ray: Ray, t: Scalar) -> bool {
        &&& t.den > 0
        &&& t.num >= 0
        &&& self.ray_hits_at(ray, t.num as int, t.den as int)
        &&& forall|n: int, d: int|
            n >= 0 && d > 0 && #[trigger] self.ray_hits_at(ray, n, d) ==> frac_le(
                t.num as int,
                t.den as int,
                n,
                d,
            )
    }

    /// `t` is the last time at which the ray is in the box; it is infinite
    /// if the ray never leaves the box.
    pub open spec fn is_last_hit(self, ray: Ray, t: Scalar) -> bool {
        &&& t.wf()
        &&& t.den > 0 ==> t.num >= 0 && self.ray_hits_at(ray, t.num as int, t.den as int)
        &&& forall|n: int, d: int|
            n >= 0 && d > 0 && #[trigger] self.ray_hits_at(ray, n, d) ==> frac_le(
                n,
                d,
                t.num as int,
                t.den as int,
            )
    }

    /// The times at which the ray is in the box, as an interval from the
    /// latest entry into a slab to the earliest exit from one; `None` if
    /// the ray misses a slab, or leaves one before it enters another.
    pub open spec fn ray_interval(self, ray: Ray) -> Option<(Scalar, Scalar)> {
        let sx = slab_interval(
            self.mins.x as int,
            self.maxs.x as int,
            ray.origin.x as int,
            ray.dir.x as int,
        );
        let sy = slab_interval(
            self.mins.y as int,
            self.maxs.y as int,
            ray.origin.y as int,
            ray.dir.y as int,
        );
        let sz = slab_interval(
            self.mins.z as int,
            self.maxs.z as int,
            ray.origin.z as int,
            ray.dir.z as int,
        );
        if sx is Some && sy is Some && sz is Some {
            let (ax, bx) = sx.unwrap();
            let (ay, by) = sy.unwrap();
            let (az, bz) = sz.unwrap();
            let tmin = scalar_max(scalar_max(ax, ay), az);
            let tmax = scalar_min(scalar_min(bx, by), bz);
            if tmin.le(tmax) {
                Some((tmin, tmax))
            } else {
                None
            }
        } else {
            None
        }
    }

    /// The time of impact of the ray on the box: the entry time, or, for a
    /// box that is not solid and a ray that starts in it, the exit time.
    pub open spec fn toi_with_ray_spec(self, ray: Ray, solid: bool) -> Option<Scalar> {
        match self.ray_interval(ray) {
            Some((tmin, tmax)) => if tmin.num == 0 && !solid {
                Some(tmax)
            } else {
                Some(tmin)
            },
            None => None,
        }
    }
}

/// A time is at or after the greater of two times exactly if it is at or
/// after both.
pub proof fn lemma_max_le(a: Scalar, b: Scalar, n: int, d: int)
    requires
        a.wf(),
        b.wf(),
        frac_wf(n, d),
    ensures
        frac_le(scalar_max(a, b).num as int, scalar_max(a, b).den as int, n, d) <==> frac_le(
            a.num as int,
            a.den as int,
            n,
            d,
        ) && frac_le(b.num as int, b.den as int, n, d),
{
    if a.lt(b) {
        if frac_le(b.num as int, b.den as int, n, d) {
            lemma_frac_le_trans(a.num as int, a.den as int, b.num as int, b.den as int, n, d);
        }
    } else {
        if frac_le(a.num as int, a.den as int, n, d) {
            lemma_frac_le_trans(b.num as int, b.den as int, a.num as int, a.den as int, n, d);
        }
    }
}

/// A time is at or before the lesser of two times exactly if it is at or
/// before both.
pub proof fn lemma_le_min(a: Scalar, b: Scalar, n: int, d: int)
    requires
        a.wf(),
        b.wf(),
        frac_wf(n, d),
    ensures
        frac_le(n, d, scalar_min(a, b).num as int, scalar_min(a, b).den as int) <==> frac_le(
            n,
            d,
            a.num as int,
            a.den as int,
        ) && frac_le(n, d, b.num as int, b.den as int),
{
    if b.lt(a) {
        if frac_le(n, d, b.num as int, b.den as int) {
            lemma_frac_le_trans(n, d, b.num as int, b.den as int, a.num as int, a.den as int);
        }
    } else {
        if frac_le(n, d, a.num as int, a.den as int) {
            lemma_frac_le_trans(n, d, a.num as int, a.den as int, b.num as int, b.den as int);
        }
    }
}

impl AABB {
    /// The interval of the ray cast holds exactly the times at which the
    /// ray is in the box.
    pub proof fn lemma_ray_interval(self, ray: Ray)
        ensures
            self.ray_interval(ray) is None ==> self.ray_misses(ray),
            self.ray_interval(ray) matches Some((tmin, tmax)) ==> {
                &&& slab_time(tmin)
                &&& slab_time(tmax)
                &&& tmin.den > 0
                &&& tmin.le(tmax)
                &&& forall|n: int, d: int|
                    n >= 0 && d > 0 ==> (#[trigger] self.ray_hits_at(ray, n, d) <==> frac_le(
                        tmin.num as int,
                        tmin.den as int,
                        n,
                        d,
                    ) && frac_le(n, d, tmax.num as int, tmax.den as int))
            },
    {
        let (lx, hx, ox, dx) = (
            self.mins.x as int,
            self.maxs.x as int,
            ray.origin.x as int,
            ray.dir.x as int,
        );
        let (ly, hy, oy, dy) = (
            self.mins.y as int,
            self.maxs.y as int,
            ray.origin.y as int,
            ray.dir.y as int,
        );
        let (lz, hz, oz, dz) = (
            self.mins.z as int,
            self.maxs.z as int,
            ray.origin.z as int,
            ray.dir.z as int,
        );
        lemma_slab_interval(lx, hx, ox, dx);
        lemma_slab_interval(ly, hy, oy, dy);
        lemma_slab_interval(lz, hz, oz, dz);
        let sx = slab_interval(lx, hx, ox, dx);
        let sy = slab_interval(ly, hy, oy, dy);
        let sz = slab_interval(lz, hz, oz, dz);
        if sx is Some && sy is Some && sz is Some {
            let (ax, bx) = sx.unwrap();
            let (ay, by) = sy.unwrap();
            let (az, bz) = sz.unwrap();
            let axy = scalar_max(ax, ay);
            let bxy = scalar_min(bx, by);
            let tmin = scalar_max(axy, az);
            let tmax = scalar_min(bxy, bz);
            assert forall|n: int, d: int| n >= 0 && d > 0 implies (#[trigger] self.ray_hits_at(
                ray,
                n,
                d,
            ) <==> frac_le(tmin.num as int, tmin.den as int, n, d) && frac_le(
                n,
                d,
                tmax.num as int,
                tmax.den as int,
            )) by {
                lemma_max_le(ax, ay, n, d);
                lemma_max_le(axy, az, n, d);
                lemma_le_min(bx, by, n, d);
                lemma_le_min(bxy, bz, n, d);
                assert(slab_hit(lx, hx, ox, dx, n, d) <==> frac_le(
                    ax.num as int,
                    ax.den as int,
                    n,
                    d,
                ) && frac_le(n, d, bx.num as int, bx.den as int));
                assert(slab_hit(ly, hy, oy, dy, n, d) <==> frac_le(
                    ay.num as int,
                    ay.den as int,
                    n,
                    d,
                ) && frac_le(n, d, by.num as int, by.den as int));
                assert(slab_hit(lz, hz, oz, dz, n, d) <==> frac_le(
                    az.num as int,
                    az.den as int,
                    n,
                    d,
                ) && frac_le(n, d, bz.num as int, bz.den as int));
            }
            if !tmin.le(tmax) {
                assert forall|n: int, d: int| n >= 0 && d > 0 implies !#[trigger] self.ray_hits_at(
                    ray,
                    n,
                    d,
                ) by {
                    if self.ray_hits_at(ray, n, d) {
                        lemma_frac_le_trans(
                            tmin.num as int,
                            tmin.den as int,
                            n,
                            d,
                            tmax.num as int,
                            tmax.den as int,
                        );
                    }
                }
            }
        } else {
            assert forall|n: int, d: int| n >= 0 && d > 0 implies !#[trigger] self.ray_hits_at(
                ray,
                n,
                d,
            ) by {
                if sx is None {
                    assert(!slab_hit(lx, hx, ox, dx, n, d));
                } else if sy is None {
                    assert(!slab_hit(ly, hy, oy, dy, n, d));
                } else {
                    assert(!slab_hit(lz, hz, oz, dz, n, d));
                }
            }
        }
    }

    /// What the time of impact is: none exactly if the ray misses the box;
    /// else the first time at which the ray is in the box, or, for a
    /// box that is not solid and a ray that starts in it, the last.
    pub proof fn lemma_toi_with_ray(self, ray: Ray, solid: bool)
        ensures
            self.toi_with_ray_spec(ray, solid) is None <==> self.ray_misses(ray),
            self.toi_with_ray_spec(ray, solid) matches Some(t) ==> t.wf() && if solid
                || !self.ray_hits_at(ray, 0, 1) {
                self.is_first_hit(ray, t)
            } else {
                self.is_last_hit(ray, t)
            },
            self.toi_with_ray_spec(ray, true) matches Some(t) ==> slab_time(t),
    {
        self.lemma_ray_interval(ray);
        if let Some((tmin, tmax)) = self.ray_interval(ray) {
            assert(self.ray_hits_at(ray, tmin.num as int, tmin.den as int));
            assert(tmin.num * 1 == tmin.num && 0 * tmin.den == 0 && tmax.num * 1 == tmax.num && 0
                * tmax.den == 0) by (nonlinear_arith);
            assert(self.ray_hits_at(ray, 0, 1) <==> tmin.num == 0);
            if tmax.den > 0 {
                lemma_frac_le_trans(
                    0,
                    1,
                    tmin.num as int,
                    tmin.den as int,
                    tmax.num as int,
                    tmax.den as int,
                );
                assert(self.ray_hits_at(ray, tmax.num as int, tmax.den as int));
            }
        }
    }

    /// A box that encloses another is hit by a ray whenever the other is.
    pub proof fn lemma_ray_hits_enclosing(self, inner: AABB, ray: Ray, n: int, d: int)
        requires
            self.contains_spec(inner),
            inner.ray_hits_at(ray, n, d),
            d > 0,
        ensures
            self.ray_hits_at(ray, n, d),
    {
        assert(forall|a: int, b: int| a <= b ==> #[trigger] (d * a) <= #[trigger] (d * b))
            by (nonlinear_arith)
            requires
                d > 0,
        ;
    }

    /// A ray that hits a box hits every box that encloses it, and no later.
    pub proof fn lemma_toi_of_enclosing(self, inner: AABB, ray: Ray)
        requires
            self.contains_spec(inner),
            inner.toi_with_ray_spec(ray, true) is Some,
        ensures
            self.toi_with_ray_spec(ray, true) matches Some(t) && t.le(
                inner.toi_with_ray_spec(ray, true).unwrap(),
            ),
    {
        let ti = inner.toi_with_ray_spec(ray, true).unwrap();
        inner.lemma_toi_with_ray(ray, true);
        self.lemma_toi_with_ray(ray, true);
        self.lemma_ray_hits_enclosing(inner, ray, ti.num as int, ti.den as int);
    }

    /// The time of impact of `ray` on the box, in the frame of the box.
    ///
    /// This is the slab test in exact arithmetic. A ray parallel to a slab
    /// is inside it forever or never; a box that is not valid is never hit.
    pub fn toi_with_local_ray(&self, ray: &Ray, solid: bool) -> (r: Option<Scalar>)
        ensures
            r == self.toi_with_ray_spec(*ray, solid),
            r is None <==> self.ray_misses(*ray),
            r matches Some(t) ==> t.wf() && if solid || !self.ray_hits_at(*ray, 0, 1) {
                self.is_first_hit(*ray, t)
            } else {
                self.is_last_hit(*ray, t)
            },
    {
        proof {
            self.lemma_toi_with_ray(*ray, solid);
            lemma_slab_interval(
                self.mins.x as int,
                self.maxs.x as int,
                ray.origin.x as int,
                ray.dir.x as int,
            );
            lemma_slab_interval(
                self.mins.y as int,
                self.maxs.y as int,
                ray.origin.y as int,
                ray.dir.y as int,
            );
            lemma_slab_interval(
                self.mins.z as int,
                self.maxs.z as int,
                ray.origin.z as int,
                ray.dir.z as int,
            );
        }
        let sx = match slab(self.mins.x, self.maxs.x, ray.origin.x, ray.dir.x) {
            Some(s) => s,
            None => {
                return None;
            },
        };
        let sy = match slab(self.mins.y, self.maxs.y, ray.origin.y, ray.dir.y) {
            Some(s) => s,
            None => {
                return None;
            },
        };
        let sz = match slab(self.mins.z, self.maxs.z, ray.origin.z, ray.dir.z) {
            Some(s) => s,
            None => {
                return None;
            },
        };
        let tmin = max_of(max_of(sx.0, sy.0), sz.0);
        let tmax = min_of(min_of(sx.1, sy.1), sz.1);
        if !tmin.leq(&tmax) {
            return None;
        }
        if tmin.is_zero() && !solid {
            Some(tmax)
        } else {
            Some(tmin)
        }
    }

    /// Whether `ray` meets the box.
    pub fn intersects_local_ray(&self, ray: &Ray) -> (r: bool)
        ensures
            r == !self.ray_misses(*ray),
            r == self.toi_with_ray_spec(*ray, true).is_some(),
    {
        self.toi_with_local_ray(ray, true).is_some()
    }
}

impl RayIntersection {
    /// The time is a number or infinity, and the normal has an opposite.
    pub open spec fn wf(self) -> bool {
        self.toi.wf() && self.normal.negatable()
    }
}

/// A shape that rays can be cast at.
///
/// The three `*_spec` functions say what the casts return, as functions
/// of the shape, its placement and the ray; every shape states them.
pub trait RayCast {
    /// What `toi_with_ray` returns.
    spec fn toi_spec(&self, m: &Isometry, ray: &Ray, solid: bool) -> Option<Scalar>;

    /// What `toi_and_normal_with_ray` returns.
    spec fn toi_and_normal_spec(&self, m: &Isometry, ray: &Ray, solid: bool) -> Option<
        RayIntersection,
    >;

    /// What `toi_and_normal_and_uv_with_ray` returns.
    spec fn toi_and_normal_and_uv_spec(&self, m: &Isometry, ray: &Ray, solid: bool) -> Option<
        RayIntersection,
    >;

    /// The time of impact of `ray` on the shape placed by `m`, if the ray hits it.
    fn toi_with_ray(&self, m: &Isometry, ray: &Ray, solid: bool) -> (r: Option<Scalar>)
        requires
            m.wf(),
            ray.can_inverse_transform_by(*m),
        ensures
            r == self.toi_spec(m, ray, solid),
            r matches Some(t) ==> t.wf(),
    ;

    /// The time of impact and the normal at the impact.
    fn toi_and_normal_with_ray(&self, m: &Isometry, ray: &Ray, solid: bool) -> (r: Option<
        RayIntersection,
    >)
        requires
            m.wf(),
            ray.can_inverse_transform_by(*m),
        ensures
            r == self.toi_and_normal_spec(m, ray, solid),
            r matches Some(i) ==> i.wf(),
    ;

    /// The time of impact, the normal and the texture coordinates at the impact.
    fn toi_and_normal_and_uv_with_ray(&self, m: &Isometry, ray: &Ray, solid: bool) -> (r: Option<
        RayIntersection,
    >)
        requires
            m.wf(),
            ray.can_inverse_transform_by(*m),
        ensures
            r == self.toi_and_normal_and_uv_spec(m, ray, solid),
            r matches Some(i) ==> i.wf(),
    ;
}

} // verus!
