//! Ray casts against a compound shape, in the frame of the compound.
//!
//! Each part is cast with the `solid` flag of the caller. A part that is
//! not solid reports the far side of its boundary for a ray that starts
//! inside it, so a cast that is not solid may report an impact inside the
//! compound.
use crate::bounding_volume::HasAABB;
use crate::bounding_volume::aabb::AABB;
use crate::math::isometry::Isometry;
use crate::math::scalar::Scalar;
use crate::partitioning::bvt_search::BVTCostFn;
use crate::query::ray::{Ray, RayCast, RayIntersection};
use crate::query::ray_search::{
    costs_are, is_impact_time, is_least_of, lemma_cast_is_monotone, lemma_cast_result, rotated,
};
use crate::shape::compound::Compound;
use vstd::prelude::*;

verus! {

/// The cost function of the plain ray cast.
pub struct CompoundRayToiCostFn<'a, S> {
    pub compound: &'a Compound<S>,
    pub ray: &'a Ray,
    pub solid: bool,
}

/// The cost function of the ray cast with normals.
pub struct CompoundRayToiAndNormalCostFn<'a, S> {
    pub compound: &'a Compound<S>,
    pub ray: &'a Ray,
    pub solid: bool,
}

impl<'a, S: RayCast + HasAABB> BVTCostFn<usize, AABB> for CompoundRayToiCostFn<'a, S> {
    type Cost = Scalar;

    type UserData = Scalar;

    open spec fn result_ok(c: Scalar, d: Scalar) -> bool {
        d.wf()
    }

    open spec fn bv_cost(&self, bv: &AABB) -> Option<Scalar> {
        bv.toi_with_ray_spec(*self.ray, true)
    }

    open spec fn b_cost(&self, b: &usize) -> Option<(Scalar, Scalar)> {
        let elt = self.compound.shapes@[*b as int];
        match elt.1.toi_spec(&elt.0, self.ray, self.solid) {
            Some(toi) => Some((toi, toi)),
            None => None,
        }
    }

    open spec fn accepts(&self, b: &usize) -> bool {
        &&& *b < self.compound.shapes@.len()
        &&& self.compound.shapes@[*b as int].0.wf()
        &&& self.ray.can_inverse_transform_by(self.compound.shapes@[*b as int].0)
    }

    open spec fn stopped(&self) -> bool {
        false
    }

    /// The time at which the ray enters the box, taken as solid.
    fn compute_bv_cost(&mut self, aabb: &AABB) -> (r: Option<Scalar>)
        ensures
            *final(self) == *old(self),
            r == aabb.toi_with_ray_spec(*old(self).ray, true),
            r is None <==> aabb.ray_misses(*old(self).ray),
    {
        aabb.toi_with_local_ray(self.ray, true)
    }

    /// The impact of the ray on the part `b`, cast with the flag of the caller.
    fn compute_b_cost(&mut self, b: &usize) -> (r: Option<(Scalar, Scalar)>)
        ensures
            *final(self) == *old(self),
    {
        let elt = &self.compound.shapes()[*b];
        match elt.1.toi_with_ray(&elt.0, self.ray, self.solid) {
            Some(toi) => Some((toi, toi)),
            None => None,
        }
    }
}

impl<'a, S: RayCast + HasAABB> BVTCostFn<usize, AABB> for CompoundRayToiAndNormalCostFn<'a, S> {
    type Cost = Scalar;

    type UserData = RayIntersection;

    open spec fn result_ok(c: Scalar, d: RayIntersection) -> bool {
        d.wf()
    }

    open spec fn bv_cost(&self, bv: &AABB) -> Option<Scalar> {
        bv.toi_with_ray_spec(*self.ray, true)
    }

    open spec fn b_cost(&self, b: &usize) -> Option<(Scalar, RayIntersection)> {
        let elt = self.compound.shapes@[*b as int];
        match elt.1.toi_and_normal_spec(&elt.0, self.ray, self.solid) {
            Some(inter) => Some((inter.toi, inter)),
            None => None,
        }
    }

    open spec fn accepts(&self, b: &usize) -> bool {
        &&& *b < self.compound.shapes@.len()
        &&& self.compound.shapes@[*b as int].0.wf()
        &&& self.ray.can_inverse_transform_by(self.compound.shapes@[*b as int].0)
    }

    open spec fn stopped(&self) -> bool {
        false
    }

    /// The time at which the ray enters the box, taken as solid.
    fn compute_bv_cost(&mut self, aabb: &AABB) -> (r: Option<Scalar>)
        ensures
            *final(self) == *old(self),
            r == aabb.toi_with_ray_spec(*old(self).ray, true),
            r is None <==> aabb.ray_misses(*old(self).ray),
    {
        aabb.toi_with_local_ray(self.ray, true)
    }

    /// The impact of the ray on the part `b`, cast with the flag of the caller.
    fn compute_b_cost(&mut self, b: &usize) -> (r: Option<(Scalar, RayIntersection)>)
        ensures
            *final(self) == *old(self),
    {
        let elt = &self.compound.shapes()[*b];
        match elt.1.toi_and_normal_with_ray(&elt.0, self.ray, self.solid) {
            Some(inter) => Some((inter.toi, inter)),
            None => None,
        }
    }
}

impl<S: RayCast + HasAABB> Compound<S> {
    /// The ray, given in the frame of the compound, can be taken into the
    /// frame of every part.
    pub open spec fn can_cast(self, ray: Ray) -> bool {
        forall|i: int|
            0 <= i < self.shapes@.len() ==> ray.can_inverse_transform_by((#[trigger] self.shapes@[i]).0)
    }

    /// The time of impact of the ray on the `i`-th part.
    pub open spec fn part_toi(self, ray: Ray, solid: bool, i: int) -> Option<Scalar> {
        self.shapes@[i].1.toi_spec(&self.shapes@[i].0, &ray, solid)
    }

    /// The impact of the ray on the `i`-th part.
    pub open spec fn part_impact(self, ray: Ray, solid: bool, i: int) -> Option<RayIntersection> {
        self.shapes@[i].1.toi_and_normal_spec(&self.shapes@[i].0, &ray, solid)
    }

    pub open spec fn part_tois(self, ray: Ray, solid: bool) -> Seq<Option<Scalar>> {
        Seq::new(self.shapes@.len(), |i: int| self.part_toi(ray, solid, i))
    }

    pub open spec fn part_impact_tois(self, ray: Ray, solid: bool) -> Seq<Option<Scalar>> {
        Seq::new(
            self.shapes@.len(),
            |i: int|
                match self.part_impact(ray, solid, i) {
                    Some(x) => Some(x.toi),
                    None => None,
                },
        )
    }

    /// Every impact of the ray on a part happens inside the box of the
    /// part, at a time that is a number and not negative.
    pub open spec fn impacts_in_boxes(self, ray: Ray, solid: bool) -> bool {
        forall|i: int|
            0 <= i < self.shapes@.len() ==> (#[trigger] self.part_toi(ray, solid, i) matches Some(t)
                ==> is_impact_time(t) && self.part_box(i).ray_hits_at(ray, t.num as int, t.den as int))
    }

    /// As `impacts_in_boxes`, for the cast with normals.
    pub open spec fn normal_impacts_in_boxes(self, ray: Ray, solid: bool) -> bool {
        forall|i: int|
            0 <= i < self.shapes@.len() ==> (#[trigger] self.part_impact(ray, solid, i) matches Some(
                x,
            ) ==> is_impact_time(x.toi) && self.part_box(i).ray_hits_at(
                ray,
                x.toi.num as int,
                x.toi.den as int,
            ))
    }

    /// The boxes of the parts in the frame of the compound, in order.
    pub open spec fn part_boxes(self) -> Seq<AABB> {
        Seq::new(self.shapes@.len(), |i: int| self.part_box(i))
    }

    /// What `toi_with_ray` returns: the time of impact on some part; and,
    /// where the bounds of the boxes are lower bounds for the parts, the
    /// earliest of all.
    pub open spec fn toi_outcome(self, ray: Ray, solid: bool, r: Option<Scalar>) -> bool {
        &&& r matches Some(t) ==> t.wf() && exists|i: int|
            0 <= i < self.shapes@.len() && #[trigger] self.part_toi(ray, solid, i) == Some(t)
        &&& self.bvt.monotone(CompoundRayToiCostFn { compound: &self, ray: &ray, solid })
            ==> is_least_of(self.part_tois(ray, solid), r)
    }

    /// What `toi_and_normal_with_ray` returns: the impact on some part,
    /// with its normal rotated by `m`; and, where the bounds of the boxes
    /// are lower bounds for the parts, the earliest of all.
    pub open spec fn impact_outcome(
        self,
        m: Isometry,
        ray: Ray,
        solid: bool,
        r: Option<RayIntersection>,
    ) -> bool {
        &&& r matches Some(x) ==> exists|i: int|
            0 <= i < self.shapes@.len() && (#[trigger] self.part_impact(ray, solid, i) matches Some(
                y,
            ) && y.wf() && x == rotated(m, y))
        &&& self.bvt.monotone(CompoundRayToiAndNormalCostFn { compound: &self, ray: &ray, solid })
            ==> is_least_of(
            self.part_impact_tois(ray, solid),
            match r {
                Some(x) => Some(x.toi),
                None => None,
            },
        )
    }

    /// What `toi_with_ray` returns: the time that the search of the tree
    /// ends with.
    pub open spec fn cast_toi(self, ray: Ray, solid: bool) -> Option<Scalar> {
        match self.bvt.search_result(CompoundRayToiCostFn { compound: &self, ray: &ray, solid }) {
            Some((_, t)) => Some(t),
            None => None,
        }
    }

    /// What the casts with normals return: the impact that the search of
    /// the tree ends with, its normal rotated by `m`.
    pub open spec fn cast_impact(self, m: Isometry, ray: Ray, solid: bool) -> Option<RayIntersection> {
        match self.bvt.search_result(
            CompoundRayToiAndNormalCostFn { compound: &self, ray: &ray, solid },
        ) {
            Some((_, x)) => Some(rotated(m, x)),
            None => None,
        }
    }

    /// Where every impact on a part happens inside the box of the part,
    /// the bounds of the two casts are lower bounds, and each cast finds
    /// the earliest impact.
    pub proof fn lemma_impacts_in_boxes_give_bounds(self, ray: Ray, solid: bool)
        requires
            self.wf(),
        ensures
            self.impacts_in_boxes(ray, solid) ==> self.bvt.monotone(
                CompoundRayToiCostFn { compound: &self, ray: &ray, solid },
            ),
            self.normal_impacts_in_boxes(ray, solid) ==> self.bvt.monotone(
                CompoundRayToiAndNormalCostFn { compound: &self, ray: &ray, solid },
            ),
    {
        let boxes = self.part_boxes();
        assert(self.shapes.len() == self.shapes@.len());
        if self.impacts_in_boxes(ray, solid) {
            let f = CompoundRayToiCostFn { compound: &self, ray: &ray, solid };
            let times = self.part_tois(ray, solid);
            assert forall|e: int| 0 <= e < times.len() implies (#[trigger] times[e] matches Some(t)
                ==> is_impact_time(t) && boxes[e].ray_hits_at(ray, t.num as int, t.den as int)) by {
                assert(times[e] == self.part_toi(ray, solid, e));
            }
            lemma_cast_is_monotone(self.bvt, f, ray, boxes, times);
        }
        if self.normal_impacts_in_boxes(ray, solid) {
            let f = CompoundRayToiAndNormalCostFn { compound: &self, ray: &ray, solid };
            let times = self.part_impact_tois(ray, solid);
            assert forall|e: int| 0 <= e < times.len() implies (#[trigger] times[e] matches Some(t)
                ==> is_impact_time(t) && boxes[e].ray_hits_at(ray, t.num as int, t.den as int)) by {
                assert(self.part_impact(ray, solid, e) is Some ==> times[e] == Some(
                    self.part_impact(ray, solid, e)->Some_0.toi,
                ));
            }
            lemma_cast_is_monotone(self.bvt, f, ray, boxes, times);
        }
    }

    /// The time of impact of `ray`, given in the frame of the compound.
    pub fn toi_with_ray(&self, ray: &Ray, solid: bool) -> (r: Option<Scalar>)
        requires
            self.wf(),
            self.can_cast(*ray),
        ensures
            r == self.cast_toi(*ray, solid),
            self.toi_outcome(*ray, solid, r),
    {
        let mut cost_fn = CompoundRayToiCostFn { compound: self, ray, solid };
        let ghost f0 = cost_fn;
        let ghost times = self.part_tois(*ray, solid);
        proof {
            assert(self.shapes.len() == times.len());
            assert(costs_are(f0, times));
            assert forall|i: int| 0 <= i < self.bvt.leaves().len() implies f0.accepts(
                &(#[trigger] self.bvt.leaves()[i]).0,
            ) by {
                let e = self.bvt.leaves()[i].0 as int;
                assert(self.shapes@[e].0.wf());
            }
        }
        let res = self.bvt.best_first_search(&mut cost_fn);
        proof {
            lemma_cast_result(self.bvt, f0, times, res);
        }
        match res {
            Some((b, t)) => {
                proof {
                    assert(self.part_toi(*ray, solid, *b as int) == Some(t));
                }
                Some(t)
            },
            None => None,
        }
    }

    /// The impact of `ray`, given in the frame of the compound, with the
    /// normal at the impact in that frame.
    pub fn toi_and_normal_with_ray(&self, ray: &Ray, solid: bool) -> (r: Option<RayIntersection>)
        requires
            self.wf(),
            self.can_cast(*ray),
        ensures
            r == self.cast_impact(Isometry::identity_spec(), *ray, solid),
            self.impact_outcome(Isometry::identity_spec(), *ray, solid, r),
    {
        let mut cost_fn = CompoundRayToiAndNormalCostFn { compound: self, ray, solid };
        let ghost f0 = cost_fn;
        let ghost times = self.part_impact_tois(*ray, solid);
        proof {
            assert(self.shapes.len() == times.len());
            assert(costs_are(f0, times));
            assert forall|i: int| 0 <= i < self.bvt.leaves().len() implies f0.accepts(
                &(#[trigger] self.bvt.leaves()[i]).0,
            ) by {
                let e = self.bvt.leaves()[i].0 as int;
                assert(self.shapes@[e].0.wf());
            }
        }
        let res = self.bvt.best_first_search(&mut cost_fn);
        proof {
            lemma_cast_result(self.bvt, f0, times, res);
        }
        match res {
            Some((b, inter)) => {
                proof {
                    assert(self.part_impact(*ray, solid, *b as int) == Some(inter));
                    assert(inter == rotated(Isometry::identity_spec(), inter));
                }
                Some(inter)
            },
            None => None,
        }
    }

    /// The time of impact of `ray` on the compound placed by `m`.
    pub fn toi_with_transform_and_ray(&self, m: &Isometry, ray: &Ray, solid: bool) -> (r: Option<
        Scalar,
    >)
        requires
            self.wf(),
            m.wf(),
            ray.can_inverse_transform_by(*m),
            self.can_cast(ray.inverse_transform_by_spec(*m)),
        ensures
            r == self.cast_toi(ray.inverse_transform_by_spec(*m), solid),
            self.toi_outcome(ray.inverse_transform_by_spec(*m), solid, r),
    {
        let ls_ray = ray.inverse_transform_by(m);
        self.toi_with_ray(&ls_ray, solid)
    }

    /// The impact of `ray` on the compound placed by `m`, with the normal
    /// at the impact in the frame of the caller.
    pub fn toi_and_normal_with_transform_and_ray(&self, m: &Isometry, ray: &Ray, solid: bool) -> (r:
        Option<RayIntersection>)
        requires
            self.wf(),
            m.wf(),
            ray.can_inverse_transform_by(*m),
            self.can_cast(ray.inverse_transform_by_spec(*m)),
        ensures
            r == self.cast_impact(*m, ray.inverse_transform_by_spec(*m), solid),
            self.impact_outcome(*m, ray.inverse_transform_by_spec(*m), solid, r),
    {
        let ls_ray = ray.inverse_transform_by(m);
        match self.toi_and_normal_with_ray(&ls_ray, solid) {
            Some(inter) => {
                let mut out = inter;
                out.normal = m.rotate_wide(&inter.normal);
                proof {
                    let i = choose|i: int|
                        0 <= i < self.shapes@.len() && (#[trigger] self.part_impact(ls_ray, solid, i) matches Some(
                            y,
                        ) && y.wf() && inter == rotated(Isometry::identity_spec(), y));
                    let y = self.part_impact(ls_ray, solid, i)->Some_0;
                    assert(rotated(Isometry::identity_spec(), y) == y);
                    assert(out == rotated(*m, y));
                }
                Some(out)
            },
            None => None,
        }
    }
}

} // verus!
