//! Ray casts against a mesh: the ray is taken into the frame of the mesh,
//! and the tree over the elements is searched for the earliest impact.
use crate::bounding_volume::aabb::AABB;
use crate::math::WideVector;
use crate::math::gcd::reduced;
use crate::math::isometry::{Int3, Isometry};
use crate::math::scalar::Scalar;
use crate::partitioning::bvt_search::{costs_agree, leaf_cost, BVTCostFn};
use crate::query::ray::{Ray, RayIntersection};
use crate::query::ray_search::{
    costs_are, is_impact_time, is_least_of, lemma_cast_is_monotone, lemma_cast_result, rotated,
    wide_of,
};
use crate::shape::mesh::{
    index_ok, Barycentric, BaseMesh, BaseMeshElement, ElementKind, TriangleMeshElement,
};
use vstd::prelude::*;

verus! {

/// The cost function of the plain ray cast: the bound of a box is the time
/// at which the ray enters it, the cost of an element its time of impact.
pub struct BaseMeshRayToiCostFn<'a, E> {
    pub mesh: &'a BaseMesh<E>,
    pub ray: &'a Ray,
    pub solid: bool,
}

/// The cost function of the ray cast with normals.
pub struct BaseMeshRayToiAndNormalCostFn<'a, E> {
    pub mesh: &'a BaseMesh<E>,
    pub ray: &'a Ray,
    pub solid: bool,
}

/// The cost function of the ray cast with texture coordinates: the
/// elements are cast as triangles, and their impacts come with barycentric
/// coordinates.
pub struct BaseMeshRayToiAndNormalAndUVsCostFn<'a, E> {
    pub mesh: &'a BaseMesh<E>,
    pub ray: &'a Ray,
    pub solid: bool,
}

impl<'a, E: BaseMeshElement> BVTCostFn<usize, AABB> for BaseMeshRayToiCostFn<'a, E> {
    type Cost = Scalar;

    type UserData = Scalar;

    open spec fn bv_cost(&self, bv: &AABB) -> Option<Scalar> {
        bv.toi_with_ray_spec(*self.ray, true)
    }

    open spec fn result_ok(c: Scalar, d: Scalar) -> bool {
        d.wf()
    }

    open spec fn b_cost(&self, b: &usize) -> Option<(Scalar, Scalar)> {
        match self.mesh.elements@[*b as int].toi_spec(&Isometry::identity_spec(), self.ray, self.solid) {
            Some(toi) => Some((toi, toi)),
            None => None,
        }
    }

    open spec fn accepts(&self, b: &usize) -> bool {
        *b < self.mesh.elements@.len()
    }

    open spec fn stopped(&self) -> bool {
        false
    }

    /// The time at which the ray enters the box, taken as solid.
    fn compute_bv_cost(&mut self, aabb: &AABB) -> (r: Option<Scalar>)
        ensures
            *final(self) == *old(self),
            r == aabb.toi_with_ray_spec(*old(self).ray, true),
            r is None <==> aabb.ray_misses(*old(self).ray),
    {
        aabb.toi_with_local_ray(self.ray, true)
    }

    /// The impact of the ray on the element `b`, cast with the flag of the caller.
    fn compute_b_cost(&mut self, b: &usize) -> (r: Option<(Scalar, Scalar)>)
        ensures
            *final(self) == *old(self),
    {
        proof {
            self.ray.lemma_identity();
        }
        match self.mesh.element_at(*b).toi_with_ray(&Isometry::identity(), self.ray, self.solid) {
            Some(toi) => Some((toi, toi)),
            None => None,
        }
    }
}

impl<'a, E: BaseMeshElement> BVTCostFn<usize, AABB> for BaseMeshRayToiAndNormalCostFn<'a, E> {
    type Cost = Scalar;

    type UserData = RayIntersection;

    open spec fn bv_cost(&self, bv: &AABB) -> Option<Scalar> {
        bv.toi_with_ray_spec(*self.ray, true)
    }

    open spec fn result_ok(c: Scalar, d: RayIntersection) -> bool {
        d.wf()
    }

    open spec fn b_cost(&self, b: &usize) -> Option<(Scalar, RayIntersection)> {
        match self.mesh.elements@[*b as int].toi_and_normal_spec(
            &Isometry::identity_spec(),
            self.ray,
            self.solid,
        ) {
            Some(inter) => Some((inter.toi, inter)),
            None => None,
        }
    }

    open spec fn accepts(&self, b: &usize) -> bool {
        *b < self.mesh.elements@.len()
    }

    open spec fn stopped(&self) -> bool {
        false
    }

    /// The time at which the ray enters the box, taken as solid.
    fn compute_bv_cost(&mut self, aabb: &AABB) -> (r: Option<Scalar>)
        ensures
            *final(self) == *old(self),
            r == aabb.toi_with_ray_spec(*old(self).ray, true),
            r is None <==> aabb.ray_misses(*old(self).ray),
    {
        aabb.toi_with_local_ray(self.ray, true)
    }

    /// The impact of the ray on the element `b`, cast with the flag of the caller.
    fn compute_b_cost(&mut self, b: &usize) -> (r: Option<(Scalar, RayIntersection)>)
        ensures
            *final(self) == *old(self),
    {
        proof {
            self.ray.lemma_identity();
        }
        match self.mesh.element_at(*b).toi_and_normal_with_ray(&Isometry::identity(), self.ray, self.solid) {
            Some(inter) => Some((inter.toi, inter)),
            None => None,
        }
    }
}

impl<'a, E: TriangleMeshElement> BVTCostFn<
    usize,
    AABB,
> for BaseMeshRayToiAndNormalAndUVsCostFn<'a, E> {
    type Cost = Scalar;

    type UserData = (RayIntersection, Barycentric);

    open spec fn bv_cost(&self, bv: &AABB) -> Option<Scalar> {
        bv.toi_with_ray_spec(*self.ray, true)
    }

    open spec fn result_ok(c: Scalar, d: (RayIntersection, Barycentric)) -> bool {
        d.0.wf() && d.1.wf()
    }

    open spec fn b_cost(&self, b: &usize) -> Option<(Scalar, (RayIntersection, Barycentric))> {
        let idx = self.mesh.indices@[*b as int];
        match E::triangle_ray_intersection_spec(
            self.mesh.vertices@[idx.0 as int],
            self.mesh.vertices@[idx.1 as int],
            self.mesh.vertices@[idx.2 as int],
            *self.ray,
            self.solid,
        ) {
            Some(inter) => Some((inter.0.toi, inter)),
            None => None,
        }
    }

    open spec fn accepts(&self, b: &usize) -> bool {
        *b < self.mesh.indices@.len() && index_ok(
            self.mesh.indices@[*b as int],
            self.mesh.vertices@.len() as int,
        )
    }

    open spec fn stopped(&self) -> bool {
        false
    }

    /// The time at which the ray enters the box, taken as solid.
    fn compute_bv_cost(&mut self, aabb: &AABB) -> (r: Option<Scalar>)
        ensures
            *final(self) == *old(self),
            r == aabb.toi_with_ray_spec(*old(self).ray, true),
            r is None <==> aabb.ray_misses(*old(self).ray),
    {
        aabb.toi_with_local_ray(self.ray, true)
    }

    /// The impact of the ray on the element `b`, cast with the flag of the caller.
    fn compute_b_cost(&mut self, b: &usize) -> (r: Option<(Scalar, (RayIntersection, Barycentric))>)
        ensures
            *final(self) == *old(self),
    {
        let vs = self.mesh.vertices();
        let idx = self.mesh.indices()[*b];
        let a = &vs[idx.0];
        let b = &vs[idx.1];
        let c = &vs[idx.2];
        match E::triangle_ray_intersection(a, b, c, self.ray, self.solid) {
            Some(inter) => Some((inter.0.toi, inter)),
            None => None,
        }
    }
}

impl<E: BaseMeshElement> BaseMesh<E> {
    /// The time of impact of the ray of the mesh's frame on the `i`-th element.
    pub open spec fn element_toi(self, ray: Ray, solid: bool, i: int) -> Option<Scalar> {
        self.elements@[i].toi_spec(&Isometry::identity_spec(), &ray, solid)
    }

    /// The impact of the ray of the mesh's frame on the `i`-th element.
    pub open spec fn element_impact(self, ray: Ray, solid: bool, i: int) -> Option<RayIntersection> {
        self.elements@[i].toi_and_normal_spec(&Isometry::identity_spec(), &ray, solid)
    }

    /// The box of the `i`-th element in the frame of the mesh.
    pub open spec fn element_box(self, i: int) -> AABB {
        self.elements@[i].aabb_spec(&Isometry::identity_spec())
    }

    /// Every impact of the ray on an element happens inside the box of the
    /// element, at a time that is a number and not negative. This is what
    /// the search needs of the elements to find the earliest impact.
    pub open spec fn impacts_in_boxes(self, ray: Ray, solid: bool) -> bool {
        forall|i: int|
            0 <= i < self.elements@.len() ==> (#[trigger] self.element_toi(ray, solid, i) matches Some(t)
                ==> is_impact_time(t) && self.element_box(i).ray_hits_at(
                ray,
                t.num as int,
                t.den as int,
            ))
    }

    /// As `impacts_in_boxes`, for the cast with normals.
    pub open spec fn normal_impacts_in_boxes(self, ray: Ray, solid: bool) -> bool {
        forall|i: int|
            0 <= i < self.elements@.len() ==> (#[trigger] self.element_impact(ray, solid, i) matches Some(
                x,
            ) ==> is_impact_time(x.toi) && self.element_box(i).ray_hits_at(
                ray,
                x.toi.num as int,
                x.toi.den as int,
            ))
    }

    /// The times of impact of the ray of the mesh's frame on the elements, in order.
    pub open spec fn element_tois(self, ray: Ray, solid: bool) -> Seq<Option<Scalar>> {
        Seq::new(self.elements@.len(), |i: int| self.element_toi(ray, solid, i))
    }

    /// The times of impact on the elements that the cast with normals gives.
    pub open spec fn element_impact_tois(self, ray: Ray, solid: bool) -> Seq<Option<Scalar>> {
        Seq::new(
            self.elements@.len(),
            |i: int|
                match self.element_impact(ray, solid, i) {
                    Some(x) => Some(x.toi),
                    None => None,
                },
        )
    }
}

/// The sum of three values weighted by barycentric coordinates.
pub open spec fn weighted(a: int, b: int, c: int, w: Barycentric) -> int {
    a * w.a + b * w.b + c * w.c
}

fn weighted_sum(a: i32, b: i32, c: i32, w: &Barycentric) -> (r: i64)
    requires
        w.wf(),
    ensures
        r == weighted(a as int, b as int, c as int, *w),
        -0x8000_0000 * w.total() <= r <= 0x8000_0000 * w.total(),
        -0x7fff_ffff_ffff_ffff <= r <= 0x7fff_ffff_ffff_ffff,
{
    let wa: i64 = w.a as i64;
    let wb: i64 = w.b as i64;
    let wc: i64 = w.c as i64;
    let x: i64 = a as i64;
    let y: i64 = b as i64;
    let z: i64 = c as i64;
    assert(-0x8000_0000 * wa <= x * wa <= 0x8000_0000 * wa) by (nonlinear_arith)
        requires
            -0x8000_0000 <= x <= 0x8000_0000,
            0 <= wa,
    ;
    assert(-0x8000_0000 * wb <= y * wb <= 0x8000_0000 * wb) by (nonlinear_arith)
        requires
            -0x8000_0000 <= y <= 0x8000_0000,
            0 <= wb,
    ;
    assert(-0x8000_0000 * wc <= z * wc <= 0x8000_0000 * wc) by (nonlinear_arith)
        requires
            -0x8000_0000 <= z <= 0x8000_0000,
            0 <= wc,
    ;
    x * wa + y * wb + z * wc
}

impl<E: BaseMeshElement> BaseMesh<E> {
    /// The texture coordinates at the point of the element `best` that has
    /// the barycentric coordinates `w`: the weighted mean of the texture
    /// coordinates of the vertices, as two exact fractions.
    pub open spec fn interpolated_uv(self, best: int, w: Barycentric) -> (Scalar, Scalar) {
        let idx = self.indices@[best];
        let uvs = self.uvs.unwrap()@;
        let (u1, u2, u3) = (uvs[idx.0 as int], uvs[idx.1 as int], uvs[idx.2 as int]);
        (
            Scalar {
                num: weighted(u1.u as int, u2.u as int, u3.u as int, w) as i64,
                den: w.total() as i64,
            },
            Scalar {
                num: weighted(u1.v as int, u2.v as int, u3.v as int, w) as i64,
                den: w.total() as i64,
            },
        )
    }

    /// The normals of the vertices of the element `best`, weighted by `w`
    /// and summed: the interpolated normal before it is taken to lowest terms.
    pub open spec fn interpolated_normal(self, best: int, w: Barycentric) -> Int3 {
        let idx = self.indices@[best];
        let ns = self.normals.unwrap()@;
        let (n1, n2, n3) = (ns[idx.0 as int], ns[idx.1 as int], ns[idx.2 as int]);
        Int3 {
            x: weighted(n1.x as int, n2.x as int, n3.x as int, w),
            y: weighted(n1.y as int, n2.y as int, n3.y as int, w),
            z: weighted(n1.z as int, n2.z as int, n3.z as int, w),
        }
    }

    /// The normal that the cast with texture coordinates reports, in the
    /// frame of the mesh. Without normals at the vertices it is the normal
    /// of the element. With them it is the interpolated normal in lowest
    /// terms, turned to face the side the ray comes from: the shortest
    /// lattice vector of that direction, which along an axis is the unit
    /// vector. Where the interpolated normal vanishes, it is the normal of
    /// the element.
    pub open spec fn shading_normal(
        self,
        ray: Ray,
        best: int,
        inter: (RayIntersection, Barycentric),
    ) -> WideVector {
        if self.normals is None {
            inter.0.normal
        } else {
            let n = self.interpolated_normal(best, inter.1);
            let p = reduced(n);
            if n.x == 0 && n.y == 0 && n.z == 0 {
                inter.0.normal
            } else if n.x * ray.dir.x + n.y * ray.dir.y + n.z * ray.dir.z > 0 {
                WideVector { x: (-p.x) as i64, y: (-p.y) as i64, z: (-p.z) as i64 }
            } else {
                wide_of(p)
            }
        }
    }

    /// What the cast with texture coordinates makes of the impact `inter`
    /// on the element `best`: the time of the impact, the shading normal
    /// rotated by `m`, and the interpolated texture coordinates.
    pub open spec fn shaded(
        self,
        m: Isometry,
        ray: Ray,
        best: int,
        inter: (RayIntersection, Barycentric),
    ) -> RayIntersection {
        RayIntersection {
            toi: inter.0.toi,
            normal: wide_of(m.rotate(Int3::of_wide(self.shading_normal(ray, best, inter)))),
            uvs: Some(self.interpolated_uv(best, inter.1)),
        }
    }

    /// The boxes of the elements in the frame of the mesh, in order.
    pub open spec fn element_boxes(self) -> Seq<AABB> {
        Seq::new(self.elements@.len(), |i: int| self.element_box(i))
    }

    /// What `toi_with_ray` returns for the ray `ls` of the mesh's frame: the
    /// time of impact on some element, the earliest of all; nothing if the
    /// ray hits no element.
    pub open spec fn toi_outcome(self, ls: Ray, solid: bool, r: Option<Scalar>) -> bool {
        &&& r matches Some(t) ==> t.wf() && exists|i: int|
            0 <= i < self.elements@.len() && #[trigger] self.element_toi(ls, solid, i) == Some(t)
        &&& is_least_of(self.element_tois(ls, solid), r)
    }

    /// What `toi_and_normal_with_ray` returns: the impact on some element,
    /// with the normal rotated by `m`, the earliest of all; nothing if the
    /// ray hits no element.
    pub open spec fn impact_outcome(
        self,
        m: Isometry,
        ls: Ray,
        solid: bool,
        r: Option<RayIntersection>,
    ) -> bool {
        &&& r matches Some(x) ==> exists|i: int|
            0 <= i < self.elements@.len() && (#[trigger] self.element_impact(ls, solid, i) matches Some(
                y,
            ) && y.wf() && x == rotated(m, y))
        &&& is_least_of(
            self.element_impact_tois(ls, solid),
            match r {
                Some(x) => Some(x.toi),
                None => None,
            },
        )
    }

    /// What `toi_with_ray` returns for the ray `ls` of the mesh's frame:
    /// the time that the search of the tree ends with.
    pub open spec fn cast_toi(self, ls: Ray, solid: bool) -> Option<Scalar> {
        match self.bvt.search_result(BaseMeshRayToiCostFn { mesh: &self, ray: &ls, solid }) {
            Some((_, t)) => Some(t),
            None => None,
        }
    }

    /// What `toi_and_normal_with_ray` returns: the impact that the search
    /// of the tree ends with, its normal rotated by `m`.
    pub open spec fn cast_impact(self, m: Isometry, ls: Ray, solid: bool) -> Option<RayIntersection> {
        match self.bvt.search_result(BaseMeshRayToiAndNormalCostFn { mesh: &self, ray: &ls, solid }) {
            Some((_, x)) => Some(rotated(m, x)),
            None => None,
        }
    }

    /// Every impact on an element happens inside the box of the element,
    /// so the bounds of the casts are lower bounds, and each cast finds
    /// the earliest impact.
    pub proof fn lemma_impacts_in_boxes_give_bounds(self, ls: Ray, solid: bool)
        requires
            self.wf(),
        ensures
            self.impacts_in_boxes(ls, solid),
            self.normal_impacts_in_boxes(ls, solid),
            self.bvt.monotone(BaseMeshRayToiCostFn { mesh: &self, ray: &ls, solid }),
            self.bvt.monotone(BaseMeshRayToiAndNormalCostFn { mesh: &self, ray: &ls, solid }),
    {
        assert forall|i: int| 0 <= i < self.elements@.len() implies (#[trigger] self.element_toi(
            ls,
            solid,
            i,
        ) matches Some(t) ==> is_impact_time(t) && self.element_box(i).ray_hits_at(
            ls,
            t.num as int,
            t.den as int,
        )) by {
            self.elements@[i].lemma_impact_in_box(ls, solid);
        }
        assert forall|i: int| 0 <= i < self.elements@.len() implies (#[trigger] self.element_impact(
            ls,
            solid,
            i,
        ) matches Some(x) ==> is_impact_time(x.toi) && self.element_box(i).ray_hits_at(
            ls,
            x.toi.num as int,
            x.toi.den as int,
        )) by {
            self.elements@[i].lemma_impact_in_box(ls, solid);
        }
        let boxes = self.element_boxes();
        assert(self.elements.len() == self.elements@.len());
        if self.impacts_in_boxes(ls, solid) {
            let f = BaseMeshRayToiCostFn { mesh: &self, ray: &ls, solid };
            let times = self.element_tois(ls, solid);
            assert forall|e: int| 0 <= e < times.len() implies (#[trigger] times[e] matches Some(t)
                ==> is_impact_time(t) && boxes[e].ray_hits_at(ls, t.num as int, t.den as int)) by {
                assert(times[e] == self.element_toi(ls, solid, e));
            }
            lemma_cast_is_monotone(self.bvt, f, ls, boxes, times);
        }
        if self.normal_impacts_in_boxes(ls, solid) {
            let f = BaseMeshRayToiAndNormalCostFn { mesh: &self, ray: &ls, solid };
            let times = self.element_impact_tois(ls, solid);
            assert forall|e: int| 0 <= e < times.len() implies (#[trigger] times[e] matches Some(t)
                ==> is_impact_time(t) && boxes[e].ray_hits_at(ls, t.num as int, t.den as int)) by {
                assert(self.element_impact(ls, solid, e) is Some ==> times[e] == Some(
                    self.element_impact(ls, solid, e)->Some_0.toi,
                ));
            }
            lemma_cast_is_monotone(self.bvt, f, ls, boxes, times);
        }
    }

    /// The time of impact of `ray` on the mesh placed by `m`.
    ///
    /// The boxes of the tree are cast as solids; the elements are cast
    /// with the flag of the caller.
    pub fn toi_with_ray(&self, m: &Isometry, ray: &Ray, solid: bool) -> (r: Option<Scalar>)
        requires
            self.wf(),
            m.wf(),
            ray.can_inverse_transform_by(*m),
        ensures
            r == self.cast_toi(ray.inverse_transform_by_spec(*m), solid),
            self.toi_outcome(ray.inverse_transform_by_spec(*m), solid, r),
    {
        let ls_ray = ray.inverse_transform_by(m);
        let mut cost_fn = BaseMeshRayToiCostFn { mesh: self, ray: &ls_ray, solid };
        let ghost f0 = cost_fn;
        let ghost times = self.element_tois(ls_ray, solid);
        assert(self.elements.len() == times.len());
        assert(costs_are(f0, times));
        let res = self.bvt.best_first_search(&mut cost_fn);
        proof {
            self.lemma_impacts_in_boxes_give_bounds(ls_ray, solid);
            lemma_cast_result(self.bvt, f0, times, res);
        }
        match res {
            Some((b, t)) => {
                proof {
                    assert(self.element_toi(ls_ray, solid, *b as int) == Some(t));
                }
                Some(t)
            },
            None => None,
        }
    }

    /// The impact of `ray` on the mesh placed by `m`, with the normal at
    /// the impact in the frame of the caller.
    ///
    /// The normal is that of the element that is hit; normals given at the
    /// vertices are interpolated by `toi_and_normal_and_uv_with_ray` only.
    pub fn toi_and_normal_with_ray(&self, m: &Isometry, ray: &Ray, solid: bool) -> (r: Option<
        RayIntersection,
    >)
        requires
            self.wf(),
            m.wf(),
            ray.can_inverse_transform_by(*m),
        ensures
            r == self.cast_impact(*m, ray.inverse_transform_by_spec(*m), solid),
            self.impact_outcome(*m, ray.inverse_transform_by_spec(*m), solid, r),
    {
        let ls_ray = ray.inverse_transform_by(m);
        let mut cost_fn = BaseMeshRayToiAndNormalCostFn { mesh: self, ray: &ls_ray, solid };
        let ghost f0 = cost_fn;
        let ghost times = self.element_impact_tois(ls_ray, solid);
        assert(self.elements.len() == times.len());
        assert(costs_are(f0, times));
        let res = self.bvt.best_first_search(&mut cost_fn);
        proof {
            self.lemma_impacts_in_boxes_give_bounds(ls_ray, solid);
            lemma_cast_result(self.bvt, f0, times, res);
        }
        match res {
            Some((b, inter)) => {
                let mut out = inter;
                out.normal = m.rotate_wide(&inter.normal);
                proof {
                    assert(self.element_impact(ls_ray, solid, *b as int) == Some(inter));
                    assert(out == rotated(*m, inter));
                }
                Some(out)
            },
            None => None,
        }
    }

    /// What the cast with texture coordinates makes of an impact on a
    /// triangle: the texture coordinates and, where the mesh has normals at
    /// its vertices, the normal are interpolated between the vertices of
    /// the triangle by the barycentric coordinates of the impact.
    pub fn shade(
        &self,
        m: &Isometry,
        ls_ray: &Ray,
        best: usize,
        inter: &(RayIntersection, Barycentric),
    ) -> (r: RayIntersection)
        requires
            self.wf(),
            m.wf(),
            self.uvs is Some,
            best < self.indices@.len(),
            inter.0.wf(),
            inter.1.wf(),
        ensures
            r == self.shaded(*m, *ls_ray, best as int, *inter),
            r.wf(),
    {
        let toi = inter.0.toi;
        let n = inter.0.normal;
        let w = inter.1;
        let idx = self.indices[best];
        assert(index_ok(self.indices@[best as int], self.vertices@.len() as int));
        let uvs = match &self.uvs {
            Some(u) => u,
            None => {
                return inter.0;
            },
        };
        let uv1 = uvs[idx.0];
        let uv2 = uvs[idx.1];
        let uv3 = uvs[idx.2];
        let total: i64 = w.a as i64 + w.b as i64 + w.c as i64;
        let uvx = Scalar { num: weighted_sum(uv1.u, uv2.u, uv3.u, &w), den: total };
        let uvy = Scalar { num: weighted_sum(uv1.v, uv2.v, uv3.v, &w), den: total };
        let local: WideVector = match &self.normals {
            None => n,
            Some(ns) => {
                let n1 = ns[idx.0];
                let n2 = ns[idx.1];
                let n3 = ns[idx.2];
                let x: i64 = weighted_sum(n1.x, n2.x, n3.x, &w);
                let y: i64 = weighted_sum(n1.y, n2.y, n3.y, &w);
                let z: i64 = weighted_sum(n1.z, n2.z, n3.z, &w);
                if x == 0 && y == 0 && z == 0 {
                    n
                } else {
                    let dx: i128 = ls_ray.dir.x as i128;
                    let dy: i128 = ls_ray.dir.y as i128;
                    let dz: i128 = ls_ray.dir.z as i128;
                    let wx: i128 = x as i128;
                    let wy: i128 = y as i128;
                    let wz: i128 = z as i128;
                    assert(-0x4000_0000_0000_0000_0000_0000 <= wx * dx
                        <= 0x4000_0000_0000_0000_0000_0000 && -0x4000_0000_0000_0000_0000_0000 <= wy
                        * dy <= 0x4000_0000_0000_0000_0000_0000 && -0x4000_0000_0000_0000_0000_0000
                        <= wz * dz <= 0x4000_0000_0000_0000_0000_0000) by (nonlinear_arith)
                        requires
                            -0x8000_0000_0000_0000 <= wx <= 0x8000_0000_0000_0000,
                            -0x8000_0000_0000_0000 <= wy <= 0x8000_0000_0000_0000,
                            -0x8000_0000_0000_0000 <= wz <= 0x8000_0000_0000_0000,
                            -0x8000_0000 <= dx <= 0x8000_0000,
                            -0x8000_0000 <= dy <= 0x8000_0000,
                            -0x8000_0000 <= dz <= 0x8000_0000,
                    ;
                    let dot: i128 = wx * dx + wy * dy + wz * dz;
                    let lowest = WideVector { x, y, z }.reduced();
                    if dot > 0 {
                        WideVector { x: -lowest.x, y: -lowest.y, z: -lowest.z }
                    } else {
                        lowest
                    }
                }
            },
        };
        RayIntersection::new_with_uvs(toi, m.rotate_wide(&local), Some((uvx, uvy)))
    }

    /// A cast by `m` is the cast by the identity of the ray taken into the
    /// frame of `m`: the times of impact are equal, and the normal of the
    /// one is the normal of the other rotated by `m`.
    pub proof fn lemma_cast_round_trip(self, m: Isometry, ray: Ray, solid: bool)
        requires
            self.wf(),
            m.wf(),
            ray.can_inverse_transform_by(m),
        ensures
            ({
                let ls = ray.inverse_transform_by_spec(m);
                let id = Isometry::identity_spec();
                &&& ls.can_inverse_transform_by(id)
                &&& self.cast_toi(ray.inverse_transform_by_spec(m), solid) == self.cast_toi(
                    ls.inverse_transform_by_spec(id),
                    solid,
                )
                &&& self.cast_impact(m, ray.inverse_transform_by_spec(m), solid) == match self.cast_impact(
                    id,
                    ls.inverse_transform_by_spec(id),
                    solid,
                ) {
                    Some(x) => Some(rotated(m, x)),
                    None => None,
                }
            }),
    {
        let ls = ray.inverse_transform_by_spec(m);
        let id = Isometry::identity_spec();
        ls.lemma_identity();
        let f = BaseMeshRayToiAndNormalCostFn { mesh: &self, ray: &ls, solid };
        if let Some((b, x)) = self.bvt.search_result(f) {
            assert(rotated(id, x) == x);
        }
    }
}

impl<E: TriangleMeshElement> BaseMesh<E> {
    /// The three casts of a mesh of triangles agree. The cast with texture
    /// coordinates hits the element that the other two hit, at the same
    /// time; and, unless the mesh has normals at its vertices to
    /// interpolate, with the normal of the cast with the normal.
    pub proof fn lemma_casts_agree(self, m: Isometry, ls: Ray, solid: bool)
        requires
            self.wf(),
        ensures
            match (self.cast_uv(m, ls, solid), self.cast_impact(m, ls, solid)) {
                (Some(u), Some(x)) => u.toi == x.toi && (self.normals is None ==> u.normal
                    == x.normal),
                (None, None) => true,
                _ => false,
            },
            match (self.cast_uv(m, ls, solid), self.cast_toi(ls, solid)) {
                (Some(u), Some(t)) => u.toi == t,
                (None, None) => true,
                _ => false,
            },
    {
        let f = BaseMeshRayToiAndNormalCostFn { mesh: &self, ray: &ls, solid };
        let g = BaseMeshRayToiAndNormalAndUVsCostFn { mesh: &self, ray: &ls, solid };
        let h = BaseMeshRayToiCostFn { mesh: &self, ray: &ls, solid };
        assert forall|b: usize| #[trigger] f.accepts(&b) implies leaf_cost(f, b) == leaf_cost(g, b)
            && f.stops_at(&b) == g.stops_at(&b) by {
            self.lemma_element_casts_agree(b as int, ls, solid);
        }
        assert forall|b: usize| #[trigger] h.accepts(&b) implies leaf_cost(h, b) == leaf_cost(g, b)
            && h.stops_at(&b) == g.stops_at(&b) by {
            self.lemma_element_casts_agree(b as int, ls, solid);
        }
        assert(costs_agree(f, g));
        assert(costs_agree(h, g));
        self.bvt.lemma_search_result_agrees(f, g);
        self.bvt.lemma_search_result_agrees(h, g);
        if let Some((b, d)) = self.bvt.search_result(f) {
            self.lemma_element_casts_agree(*b as int, ls, solid);
        }
        if let Some((b, d)) = self.bvt.search_result(h) {
            self.lemma_element_casts_agree(*b as int, ls, solid);
        }
    }

    /// The casts of the `i`-th element agree.
    proof fn lemma_element_casts_agree(self, i: int, ls: Ray, solid: bool)
        requires
            self.wf(),
            0 <= i < self.elements@.len(),
        ensures
            self.elements@[i] == self.element_spec(i),
            self.element_spec(i).toi_and_normal_spec(&Isometry::identity_spec(), &ls, solid)
                == match self.triangle_impact(ls, solid, i) {
                Some((x, _)) => Some(x),
                None => None,
            },
            self.element_spec(i).toi_spec(&Isometry::identity_spec(), &ls, solid)
                == match self.triangle_impact(ls, solid, i) {
                Some((x, _)) => Some(x.toi),
                None => None,
            },
    {
        let idx = self.indices@[i];
        E::lemma_triangle_cast_agrees(
            self.vertices@[idx.0 as int],
            self.vertices@[idx.1 as int],
            self.vertices@[idx.2 as int],
            ls,
            solid,
        );
    }

    /// The impact of the ray of the mesh's frame on the `i`-th element
    /// taken as a triangle, with barycentric coordinates.
    pub open spec fn triangle_impact(self, ray: Ray, solid: bool, i: int) -> Option<(
        RayIntersection,
        Barycentric,
    )> {
        let idx = self.indices@[i];
        E::triangle_ray_intersection_spec(
            self.vertices@[idx.0 as int],
            self.vertices@[idx.1 as int],
            self.vertices@[idx.2 as int],
            ray,
            solid,
        )
    }

    /// As `impacts_in_boxes`, for the cast of the elements as triangles.
    pub open spec fn triangle_impacts_in_boxes(self, ray: Ray, solid: bool) -> bool {
        forall|i: int|
            0 <= i < self.elements@.len() ==> (#[trigger] self.triangle_impact(ray, solid, i) matches Some(
                x,
            ) ==> is_impact_time(x.0.toi) && self.element_box(i).ray_hits_at(
                ray,
                x.0.toi.num as int,
                x.0.toi.den as int,
            ))
    }

    /// The times of impact on the elements taken as triangles.
    pub open spec fn triangle_impact_tois(self, ray: Ray, solid: bool) -> Seq<Option<Scalar>> {
        Seq::new(
            self.elements@.len(),
            |i: int|
                match self.triangle_impact(ray, solid, i) {
                    Some(x) => Some(x.0.toi),
                    None => None,
                },
        )
    }

    /// What `toi_and_normal_and_uv_with_ray` returns for a mesh of
    /// triangles with texture coordinates: the shaded impact on some
    /// triangle; and, where the bounds of the boxes are lower bounds for
    /// the triangles, the earliest of all.
    pub open spec fn uv_outcome(
        self,
        m: Isometry,
        ls: Ray,
        solid: bool,
        r: Option<RayIntersection>,
    ) -> bool {
        &&& r matches Some(x) ==> exists|i: int|
            0 <= i < self.elements@.len() && (#[trigger] self.triangle_impact(ls, solid, i) matches Some(
                y,
            ) && y.0.wf() && y.1.wf() && x == self.shaded(m, ls, i, y))
        &&& is_least_of(
            self.triangle_impact_tois(ls, solid),
            match r {
                Some(x) => Some(x.toi),
                None => None,
            },
        )
    }

    /// What `toi_and_normal_and_uv_with_ray` returns for a mesh of
    /// triangles with texture coordinates: the impact that the search of
    /// the tree ends with, shaded.
    pub open spec fn cast_uv(self, m: Isometry, ls: Ray, solid: bool) -> Option<RayIntersection> {
        match self.bvt.search_result(
            BaseMeshRayToiAndNormalAndUVsCostFn { mesh: &self, ray: &ls, solid },
        ) {
            Some((best, x)) => Some(self.shaded(m, ls, *best as int, x)),
            None => None,
        }
    }

    /// The impact of `ray` on the mesh placed by `m`, with the normal and
    /// the texture coordinates at the impact.
    ///
    /// A mesh without texture coordinates, or of segments, is cast as
    /// `toi_and_normal_with_ray` casts it. Otherwise the elements are cast
    /// as triangles and the earliest impact is shaded (see `shade`).
    ///
    /// Only this cast interpolates the normals of the vertices. The casts
    /// without texture coordinates, and this one where it falls back to
    /// them, report the normal of the element that is hit.
    pub fn toi_and_normal_and_uv_with_ray(&self, m: &Isometry, ray: &Ray, solid: bool) -> (r: Option<
        RayIntersection,
    >)
        requires
            self.wf(),
            m.wf(),
            ray.can_inverse_transform_by(*m),
        ensures
            if self.uvs is None || self.kind != ElementKind::Triangle {
                r == self.cast_impact(*m, ray.inverse_transform_by_spec(*m), solid)
                    && self.impact_outcome(*m, ray.inverse_transform_by_spec(*m), solid, r)
            } else {
                r == self.cast_uv(*m, ray.inverse_transform_by_spec(*m), solid) && self.uv_outcome(
                    *m,
                    ray.inverse_transform_by_spec(*m),
                    solid,
                    r,
                )
            },
    {
        let flat = match self.kind {
            ElementKind::Triangle => false,
            ElementKind::Segment => true,
        };
        if self.uvs.is_none() || flat {
            return self.toi_and_normal_with_ray(m, ray, solid);
        }
        let ls_ray = ray.inverse_transform_by(m);
        let mut cost_fn = BaseMeshRayToiAndNormalAndUVsCostFn { mesh: self, ray: &ls_ray, solid };
        let ghost f0 = cost_fn;
        let ghost times = self.triangle_impact_tois(ls_ray, solid);
        proof {
            assert(self.elements.len() == times.len());
            assert(costs_are(f0, times));
            assert forall|i: int| 0 <= i < self.bvt.leaves().len() implies f0.accepts(
                &(#[trigger] self.bvt.leaves()[i]).0,
            ) by {
                let e = self.bvt.leaves()[i].0 as int;
                assert(index_ok(self.indices@[e], self.vertices@.len() as int));
            }
        }
        let cast = self.bvt.best_first_search(&mut cost_fn);
        proof {
            self.lemma_triangle_impacts_in_boxes_give_bounds(ls_ray, solid);
            lemma_cast_result(self.bvt, f0, times, cast);
        }
        match cast {
            None => None,
            Some((best, inter)) => {
                let out = self.shade(m, &ls_ray, *best, &inter);
                proof {
                    assert(self.triangle_impact(ls_ray, solid, *best as int) == Some(inter));
                }
                Some(out)
            },
        }
    }

    /// Every impact on a triangle happens inside the box of the triangle,
    /// so the bounds of the cast with texture coordinates are lower
    /// bounds, and the cast finds the earliest impact.
    pub proof fn lemma_triangle_impacts_in_boxes_give_bounds(self, ls: Ray, solid: bool)
        requires
            self.wf(),
        ensures
            self.triangle_impacts_in_boxes(ls, solid),
            self.bvt.monotone(BaseMeshRayToiAndNormalAndUVsCostFn { mesh: &self, ray: &ls, solid }),
    {
        assert forall|i: int| 0 <= i < self.elements@.len() implies (#[trigger] self.triangle_impact(
            ls,
            solid,
            i,
        ) matches Some(x) ==> is_impact_time(x.0.toi) && self.element_box(i).ray_hits_at(
            ls,
            x.0.toi.num as int,
            x.0.toi.den as int,
        )) by {
            self.lemma_element_casts_agree(i, ls, solid);
            self.elements@[i].lemma_impact_in_box(ls, solid);
        }
        let boxes = self.element_boxes();
        assert(self.elements.len() == self.elements@.len());
        if self.triangle_impacts_in_boxes(ls, solid) {
            let f = BaseMeshRayToiAndNormalAndUVsCostFn { mesh: &self, ray: &ls, solid };
            let times = self.triangle_impact_tois(ls, solid);
            assert forall|e: int| 0 <= e < times.len() implies (#[trigger] times[e] matches Some(t)
                ==> is_impact_time(t) && boxes[e].ray_hits_at(ls, t.num as int, t.den as int)) by {
                assert(self.triangle_impact(ls, solid, e) is Some ==> times[e] == Some(
                    self.triangle_impact(ls, solid, e)->Some_0.0.toi,
                ));
            }
            lemma_cast_is_monotone(self.bvt, f, ls, boxes, times);
        }
    }
}

} // verus!
