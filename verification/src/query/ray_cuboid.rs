//! Ray casts against boxes, with the normal at the impact.
use crate::bounding_volume::aabb::AABB;
use crate::math::isometry::{Int3, Isometry};
use crate::math::scalar::Scalar;
use crate::math::{Axis, Point, WideVector};
use crate::query::ray::{
    lemma_slab_interval, scalar_max, scalar_min, slab, slab_hit, slab_interval, Ray, RayCast,
    RayIntersection,
};
use crate::query::ray_search::{is_impact_time, is_least_of, rotated};
use crate::shape::compound::Compound;
use crate::shape::cuboid::{opposite, Cuboid};
use vstd::prelude::*;

verus! {

/// The unit vector along `a`, or its opposite.
pub open spec fn axis_vector(a: Axis, negative: bool) -> WideVector {
    let s: i64 = if negative {
        -1i64
    } else {
        1i64
    };
    match a {
        Axis::X => WideVector { x: s, y: 0, z: 0 },
        Axis::Y => WideVector { x: 0, y: s, z: 0 },
        Axis::Z => WideVector { x: 0, y: 0, z: s },
    }
}

fn axis_vector_exec(a: Axis, negative: bool) -> (r: WideVector)
    ensures
        r == axis_vector(a, negative),
{
    let s: i64 = if negative {
        -1
    } else {
        1
    };
    match a {
        Axis::X => WideVector { x: s, y: 0, z: 0 },
        Axis::Y => WideVector { x: 0, y: s, z: 0 },
        Axis::Z => WideVector { x: 0, y: 0, z: s },
    }
}

/// The axis of the greatest of three times; on a tie the earlier axis.
pub open spec fn latest_axis(ax: Scalar, ay: Scalar, az: Scalar) -> Axis {
    if scalar_max(ax, ay).lt(az) {
        Axis::Z
    } else if ax.lt(ay) {
        Axis::Y
    } else {
        Axis::X
    }
}

/// The axis of the least of three times; on a tie the earlier axis.
pub open spec fn earliest_axis(bx: Scalar, by: Scalar, bz: Scalar) -> Axis {
    if bz.lt(scalar_min(bx, by)) {
        Axis::Z
    } else if by.lt(bx) {
        Axis::Y
    } else {
        Axis::X
    }
}

fn slab_of(b: &AABB, ray: &Ray, a: Axis) -> (r: Option<(Scalar, Scalar)>)
    ensures
        r == b.slab(*ray, a),
{
    slab(b.mins.get(a), b.maxs.get(a), ray.origin.get(a), ray.dir.get(a))
}

impl AABB {
    /// The times at which the ray is inside the slab of the box along `a`.
    pub open spec fn slab(self, ray: Ray, a: Axis) -> Option<(Scalar, Scalar)> {
        slab_interval(self.mins.at(a), self.maxs.at(a), ray.origin.at(a), ray.dir.at(a))
    }

    /// The normal of the box at the impact of the ray, in the frame of the
    /// box. Where the ray enters the box, it is the normal of the face that
    /// the ray enters through: along the axis of the slab that the ray
    /// enters last, against the ray. A ray that starts in the box has no
    /// normal if the box is solid; if it is not, the normal is that of the
    /// face that the ray leaves through, or none if the ray never leaves.
    pub open spec fn ray_normal_spec(self, ray: Ray, solid: bool) -> WideVector {
        let sx = self.slab(ray, Axis::X);
        let sy = self.slab(ray, Axis::Y);
        let sz = self.slab(ray, Axis::Z);
        if sx is Some && sy is Some && sz is Some {
            let (ax, bx) = sx.unwrap();
            let (ay, by) = sy.unwrap();
            let (az, bz) = sz.unwrap();
            let tmin = scalar_max(scalar_max(ax, ay), az);
            let tmax = scalar_min(scalar_min(bx, by), bz);
            if tmin.num == 0 {
                if solid || tmax.den == 0 {
                    WideVector { x: 0, y: 0, z: 0 }
                } else {
                    let a = earliest_axis(bx, by, bz);
                    axis_vector(a, ray.dir.at(a) < 0)
                }
            } else {
                let a = latest_axis(ax, ay, az);
                axis_vector(a, ray.dir.at(a) > 0)
            }
        } else {
            WideVector { x: 0, y: 0, z: 0 }
        }
    }

    /// The impact of the ray on the box, in the frame of the box.
    pub open spec fn toi_and_normal_with_ray_spec(self, ray: Ray, solid: bool) -> Option<
        RayIntersection,
    > {
        match self.toi_with_ray_spec(ray, solid) {
            Some(toi) => Some(
                RayIntersection { toi, normal: self.ray_normal_spec(ray, solid), uvs: None },
            ),
            None => None,
        }
    }

    /// The impact of `ray` on the box, in the frame of the box: the time of
    /// impact of `toi_with_local_ray`, with the normal of the face hit.
    pub fn toi_and_normal_with_local_ray(&self, ray: &Ray, solid: bool) -> (r: Option<RayIntersection>)
        ensures
            r == self.toi_and_normal_with_ray_spec(*ray, solid),
            r matches Some(i) ==> i.wf(),
    {
        proof {
            lemma_slab_interval(
                self.mins.x as int,
                self.maxs.x as int,
                ray.origin.x as int,
                ray.dir.x as int,
            );
            lemma_slab_interval(
                self.mins.y as int,
                self.maxs.y as int,
                ray.origin.y as int,
                ray.dir.y as int,
            );
            lemma_slab_interval(
                self.mins.z as int,
                self.maxs.z as int,
                ray.origin.z as int,
                ray.dir.z as int,
            );
        }
        let sx = match slab_of(self, ray, Axis::X) {
            Some(s) => s,
            None => {
                return None;
            },
        };
        let sy = match slab_of(self, ray, Axis::Y) {
            Some(s) => s,
            None => {
                return None;
            },
        };
        let sz = match slab_of(self, ray, Axis::Z) {
            Some(s) => s,
            None => {
                return None;
            },
        };
        let (ax, bx) = sx;
        let (ay, by) = sy;
        let (az, bz) = sz;
        let axy = if ax.less(&ay) {
            ay
        } else {
            ax
        };
        let tmin = if axy.less(&az) {
            az
        } else {
            axy
        };
        let bxy = if by.less(&bx) {
            by
        } else {
            bx
        };
        let tmax = if bz.less(&bxy) {
            bz
        } else {
            bxy
        };
        if !tmin.leq(&tmax) {
            return None;
        }
        if tmin.is_zero() {
            if solid {
                Some(RayIntersection::new(tmin, WideVector::zero()))
            } else if !tmax.is_finite() {
                Some(RayIntersection::new(tmax, WideVector::zero()))
            } else {
                let a = if bz.less(&bxy) {
                    Axis::Z
                } else if by.less(&bx) {
                    Axis::Y
                } else {
                    Axis::X
                };
                Some(RayIntersection::new(tmax, axis_vector_exec(a, ray.dir.get(a) < 0)))
            }
        } else {
            let a = if axy.less(&az) {
                Axis::Z
            } else if ax.less(&ay) {
                Axis::Y
            } else {
                Axis::X
            };
            Some(RayIntersection::new(tmin, axis_vector_exec(a, ray.dir.get(a) > 0)))
        }
    }
}

impl RayCast for Cuboid {
    open spec fn toi_spec(&self, m: &Isometry, ray: &Ray, solid: bool) -> Option<Scalar> {
        self.local_box().toi_with_ray_spec(ray.inverse_transform_by_spec(*m), solid)
    }

    open spec fn toi_and_normal_spec(&self, m: &Isometry, ray: &Ray, solid: bool) -> Option<
        RayIntersection,
    > {
        match self.local_box().toi_and_normal_with_ray_spec(ray.inverse_transform_by_spec(*m), solid) {
            Some(i) => Some(rotated(*m, i)),
            None => None,
        }
    }

    open spec fn toi_and_normal_and_uv_spec(&self, m: &Isometry, ray: &Ray, solid: bool) -> Option<
        RayIntersection,
    > {
        self.toi_and_normal_spec(m, ray, solid)
    }

    fn toi_with_ray(&self, m: &Isometry, ray: &Ray, solid: bool) -> (r: Option<Scalar>) {
        let ls_ray = ray.inverse_transform_by(m);
        self.local_aabb().toi_with_local_ray(&ls_ray, solid)
    }

    fn toi_and_normal_with_ray(&self, m: &Isometry, ray: &Ray, solid: bool) -> (r: Option<RayIntersection>) {
        let ls_ray = ray.inverse_transform_by(m);
        match self.local_aabb().toi_and_normal_with_local_ray(&ls_ray, solid) {
            Some(i) => {
                let mut out = i;
                out.normal = m.rotate_wide(&i.normal);
                Some(out)
            },
            None => None,
        }
    }

    fn toi_and_normal_and_uv_with_ray(&self, m: &Isometry, ray: &Ray, solid: bool) -> (r: Option<
        RayIntersection,
    >) {
        self.toi_and_normal_with_ray(m, ray, solid)
    }
}

impl Cuboid {
    /// The box in its own frame.
    pub fn local_aabb(&self) -> (r: AABB)
        ensures
            r == self.local_box(),
    {
        let h = self.half_extents;
        AABB {
            mins: Point { x: low(h.x), y: low(h.y), z: low(h.z) },
            maxs: Point { x: h.x, y: h.y, z: h.z },
        }
    }
}

fn low(h: i32) -> (r: i32)
    ensures
        r == opposite(h),
{
    if h == i32::MIN {
        i32::MIN
    } else {
        -h
    }
}

/// A slab about the origin that the ray is inside at a time is, moved by
/// `t` with the ray, one that the moved ray is inside at that time; and so
/// if the axis is turned around.
proof fn lemma_slab_moved(h: int, o: int, dir: int, t: int, neg: bool, n: int, d: int)
    requires
        slab_hit(-h, h, o, dir, n, d),
    ensures
        slab_hit(
            t - h,
            t + h,
            (if neg {
                -o
            } else {
                o
            }) + t,
            if neg {
                -dir
            } else {
                dir
            },
            n,
            d,
        ),
{
    assert(d * (t - h) == d * t - d * h && d * (t + h) == d * t + d * h && d * (-h) == -(d * h) && d
        * (o + t) == d * o + d * t && d * (-o + t) == -(d * o) + d * t && n * (-dir) == -(n * dir))
        by (nonlinear_arith);
}

impl Cuboid {
    /// A cast by `m` is the cast by the identity of the ray taken into the
    /// frame of `m`, with the normal rotated by `m`.
    pub proof fn lemma_cast_round_trip(self, m: Isometry, ray: Ray, solid: bool)
        requires
            m.wf(),
            ray.can_inverse_transform_by(m),
        ensures
            ({
                let ls = ray.inverse_transform_by_spec(m);
                let id = Isometry::identity_spec();
                &&& ls.can_inverse_transform_by(id)
                &&& self.toi_spec(&m, &ray, solid) == self.toi_spec(&id, &ls, solid)
                &&& self.toi_and_normal_spec(&m, &ray, solid) == match self.toi_and_normal_spec(
                    &id,
                    &ls,
                    solid,
                ) {
                    Some(x) => Some(rotated(m, x)),
                    None => None,
                }
            }),
    {
        let ls = ray.inverse_transform_by_spec(m);
        ls.lemma_identity();
        let b = self.local_box();
        if let Some(x) = b.toi_and_normal_with_ray_spec(ls, solid) {
            assert(rotated(Isometry::identity_spec(), x) == x);
        }
    }

    /// A ray that is in the box at a time, seen from the frame of the box,
    /// is at that time in the box placed in the frame of the caller.
    pub proof fn lemma_hit_in_world_box(self, m: Isometry, ray: Ray, n: int, d: int)
        requires
            self.wf(),
            m.wf(),
            ray.can_inverse_transform_by(m),
            self.fits_in_lattice(m),
            self.local_box().ray_hits_at(ray.inverse_transform_by_spec(m), n, d),
        ensures
            self.world_box(m).ray_hits_at(ray, n, d),
    {
        let ls = ray.inverse_transform_by_spec(m);
        ray.lemma_round_trip(m);
        let h = self.half_extents;
        let t = m.translation;
        let rx = m.rotation.x;
        let ry = m.rotation.y;
        let rz = m.rotation.z;
        lemma_slab_moved(h.at(rx.axis), ls.origin.at(rx.axis), ls.dir.at(rx.axis), t.x as int, rx.neg, n, d);
        lemma_slab_moved(h.at(ry.axis), ls.origin.at(ry.axis), ls.dir.at(ry.axis), t.y as int, ry.neg, n, d);
        lemma_slab_moved(h.at(rz.axis), ls.origin.at(rz.axis), ls.dir.at(rz.axis), t.z as int, rz.neg, n, d);
        let lo = Int3::of_point(ls.origin);
        let ld = Int3::of_vector(ls.dir);
        assert(Int3::of_point(ray.origin) == m.transform(lo));
        assert(Int3::of_vector(ray.dir) == m.rotate(ld));
    }

    /// The impact of a ray on a solid box happens in the box placed in the
    /// frame of the caller, at a time that is a number and not negative.
    pub proof fn lemma_impact_in_world_box(self, m: Isometry, ray: Ray)
        requires
            self.wf(),
            m.wf(),
            ray.can_inverse_transform_by(m),
            self.fits_in_lattice(m),
        ensures
            self.toi_spec(&m, &ray, true) matches Some(t) ==> is_impact_time(t)
                && self.world_box(m).ray_hits_at(ray, t.num as int, t.den as int),
            self.toi_and_normal_spec(&m, &ray, true) matches Some(x) ==> is_impact_time(x.toi)
                && self.world_box(m).ray_hits_at(ray, x.toi.num as int, x.toi.den as int),
    {
        let ls = ray.inverse_transform_by_spec(m);
        self.local_box().lemma_toi_with_ray(ls, true);
        if let Some(t) = self.toi_spec(&m, &ray, true) {
            self.lemma_hit_in_world_box(m, ray, t.num as int, t.den as int);
        }
    }
}

impl Compound<Cuboid> {
    /// Every part is a box that lies within the lattice where it is placed.
    pub open spec fn parts_fit(self) -> bool {
        forall|i: int|
            0 <= i < self.shapes@.len() ==> (#[trigger] self.shapes@[i]).1.fits_in_lattice(
                self.shapes@[i].0,
            )
    }

    /// In a compound of solid boxes every impact of a ray on a part
    /// happens inside the box of the part: the cast of the compound finds
    /// the earliest impact among its parts.
    pub proof fn lemma_impacts_in_boxes(self, ray: Ray)
        requires
            self.wf(),
            self.parts_fit(),
            self.can_cast(ray),
        ensures
            self.impacts_in_boxes(ray, true),
            self.normal_impacts_in_boxes(ray, true),
            forall|r: Option<Scalar>| #[trigger]
                self.toi_outcome(ray, true, r) ==> is_least_of(self.part_tois(ray, true), r),
    {
        self.lemma_impacts_in_boxes_give_bounds(ray, true);
        assert forall|i: int| 0 <= i < self.shapes@.len() implies (#[trigger] self.part_toi(
            ray,
            true,
            i,
        ) matches Some(t) ==> is_impact_time(t) && self.part_box(i).ray_hits_at(
            ray,
            t.num as int,
            t.den as int,
        )) by {
            let part = self.shapes@[i];
            part.1.lemma_impact_in_world_box(part.0, ray);
        }
        assert forall|i: int| 0 <= i < self.shapes@.len() implies (#[trigger] self.part_impact(
            ray,
            true,
            i,
        ) matches Some(x) ==> is_impact_time(x.toi) && self.part_box(i).ray_hits_at(
            ray,
            x.toi.num as int,
            x.toi.den as int,
        )) by {
            let part = self.shapes@[i];
            part.1.lemma_impact_in_world_box(part.0, ray);
        }
    }
}

} // verus!
