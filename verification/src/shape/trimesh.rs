//! Triangle meshes and polylines: meshes of one kind of element.
use crate::math::isometry::Isometry;
use crate::math::scalar::Scalar;
use crate::math::{Point, Vector};
use crate::query::ray::{Ray, RayIntersection};
use crate::shape::mesh::{
    index_ok, BaseMesh, BaseMeshElement, ElementKind, TriangleMeshElement, Uv,
};
use vstd::prelude::*;

verus! {

/// A surface in space made of triangles.
pub struct TriMesh<E> {
    pub mesh: BaseMesh<E>,
}

/// A curve in the plane made of segments.
pub struct Polyline<E> {
    pub mesh: BaseMesh<E>,
}

impl<E: TriangleMeshElement> TriMesh<E> {
    pub open spec fn wf(self) -> bool {
        self.mesh.wf() && self.mesh.kind == ElementKind::Triangle
    }

    /// The mesh of the given triangles.
    pub fn new(
        vertices: Vec<Point>,
        indices: Vec<(usize, usize, usize)>,
        uvs: Option<Vec<Uv>>,
        normals: Option<Vec<Vector>>,
    ) -> (r: TriMesh<E>)
        requires
            forall|i: int|
                0 <= i < indices@.len() ==> index_ok(#[trigger] indices@[i], vertices@.len() as int),
            uvs matches Some(u) ==> u@.len() == vertices@.len(),
            normals matches Some(n) ==> n@.len() == vertices@.len(),
        ensures
            r.wf(),
            r.mesh.vertices@ == vertices@,
            r.mesh.indices@ == indices@,
            r.mesh.uvs == uvs,
            r.mesh.normals == normals,
    {
        TriMesh { mesh: BaseMesh::new(ElementKind::Triangle, vertices, indices, uvs, normals) }
    }

    /// The mesh underneath.
    pub fn base_mesh(&self) -> (r: &BaseMesh<E>)
        ensures
            *r == self.mesh,
    {
        &self.mesh
    }

    /// The time of impact of `ray` on the mesh placed by `m`.
    pub fn toi_with_ray(&self, m: &Isometry, ray: &Ray, solid: bool) -> (r: Option<Scalar>)
        requires
            self.wf(),
            m.wf(),
            ray.can_inverse_transform_by(*m),
        ensures
            r == self.mesh.cast_toi(ray.inverse_transform_by_spec(*m), solid),
            self.mesh.toi_outcome(ray.inverse_transform_by_spec(*m), solid, r),
    {
        self.base_mesh().toi_with_ray(m, ray, solid)
    }

    /// The impact of `ray` on the mesh placed by `m`, with the normal.
    pub fn toi_and_normal_with_ray(&self, m: &Isometry, ray: &Ray, solid: bool) -> (r: Option<
        RayIntersection,
    >)
        requires
            self.wf(),
            m.wf(),
            ray.can_inverse_transform_by(*m),
        ensures
            r == self.mesh.cast_impact(*m, ray.inverse_transform_by_spec(*m), solid),
            self.mesh.impact_outcome(*m, ray.inverse_transform_by_spec(*m), solid, r),
    {
        self.base_mesh().toi_and_normal_with_ray(m, ray, solid)
    }

    /// The impact of `ray` on the mesh placed by `m`, with the normal and
    /// the texture coordinates, if the mesh has any.
    pub fn toi_and_normal_and_uv_with_ray(&self, m: &Isometry, ray: &Ray, solid: bool) -> (r: Option<
        RayIntersection,
    >)
        requires
            self.wf(),
            m.wf(),
            ray.can_inverse_transform_by(*m),
        ensures
            if self.mesh.uvs is None {
                r == self.mesh.cast_impact(*m, ray.inverse_transform_by_spec(*m), solid)
                    && self.mesh.impact_outcome(*m, ray.inverse_transform_by_spec(*m), solid, r)
            } else {
                r == self.mesh.cast_uv(*m, ray.inverse_transform_by_spec(*m), solid)
                    && self.mesh.uv_outcome(*m, ray.inverse_transform_by_spec(*m), solid, r)
            },
    {
        self.base_mesh().toi_and_normal_and_uv_with_ray(m, ray, solid)
    }
}

impl<E: BaseMeshElement> Polyline<E> {
    pub open spec fn wf(self) -> bool {
        self.mesh.wf() && self.mesh.kind == ElementKind::Segment
    }

    /// The polyline through the given vertices; the segment `i` joins the
    /// vertices that the `i`-th pair of indices names.
    pub fn new(
        vertices: Vec<Point>,
        indices: Vec<(usize, usize)>,
        uvs: Option<Vec<Uv>>,
        normals: Option<Vec<Vector>>,
    ) -> (r: Polyline<E>)
        requires
            forall|i: int|
                0 <= i < indices@.len() ==> (#[trigger] indices@[i]).0 < vertices@.len()
                    && indices@[i].1 < vertices@.len(),
            uvs matches Some(u) ==> u@.len() == vertices@.len(),
            normals matches Some(n) ==> n@.len() == vertices@.len(),
        ensures
            r.wf(),
            r.mesh.vertices@ == vertices@,
            r.mesh.indices@.len() == indices@.len(),
            forall|i: int|
                0 <= i < indices@.len() ==> #[trigger] r.mesh.indices@[i] == (
                    indices@[i].0,
                    indices@[i].1,
                    indices@[i].1,
                ),
            r.mesh.uvs == uvs,
            r.mesh.normals == normals,
    {
        let mut triples: Vec<(usize, usize, usize)> = Vec::new();
        let mut i: usize = 0;
        while i < indices.len()
            invariant
                i <= indices.len(),
                triples@.len() == i,
                forall|k: int|
                    0 <= k < indices@.len() ==> (#[trigger] indices@[k]).0 < vertices@.len()
                        && indices@[k].1 < vertices@.len(),
                forall|k: int|
                    0 <= k < i ==> #[trigger] triples@[k] == (indices@[k].0, indices@[k].1, indices@[k].1),
            decreases indices.len() - i,
        {
            let s = indices[i];
            triples.push((s.0, s.1, s.1));
            i = i + 1;
        }
        assert forall|k: int| 0 <= k < triples@.len() implies index_ok(
            #[trigger] triples@[k],
            vertices@.len() as int,
        ) by {
            assert(indices@[k].0 < vertices@.len());
        }
        Polyline { mesh: BaseMesh::new(ElementKind::Segment, vertices, triples, uvs, normals) }
    }

    /// The mesh underneath.
    pub fn base_mesh(&self) -> (r: &BaseMesh<E>)
        ensures
            *r == self.mesh,
    {
        &self.mesh
    }

    /// The time of impact of `ray` on the polyline placed by `m`.
    pub fn toi_with_ray(&self, m: &Isometry, ray: &Ray, solid: bool) -> (r: Option<Scalar>)
        requires
            self.wf(),
            m.wf(),
            ray.can_inverse_transform_by(*m),
        ensures
            r == self.mesh.cast_toi(ray.inverse_transform_by_spec(*m), solid),
            self.mesh.toi_outcome(ray.inverse_transform_by_spec(*m), solid, r),
    {
        self.base_mesh().toi_with_ray(m, ray, solid)
    }

    /// The impact of `ray` on the polyline placed by `m`, with the normal.
    pub fn toi_and_normal_with_ray(&self, m: &Isometry, ray: &Ray, solid: bool) -> (r: Option<
        RayIntersection,
    >)
        requires
            self.wf(),
            m.wf(),
            ray.can_inverse_transform_by(*m),
        ensures
            r == self.mesh.cast_impact(*m, ray.inverse_transform_by_spec(*m), solid),
            self.mesh.impact_outcome(*m, ray.inverse_transform_by_spec(*m), solid, r),
    {
        self.base_mesh().toi_and_normal_with_ray(m, ray, solid)
    }

    /// The impact of `ray` on the polyline placed by `m`; a polyline has no
    /// texture coordinates to interpolate over a segment, so this is
    /// `toi_and_normal_with_ray`.
    pub fn toi_and_normal_and_uv_with_ray(&self, m: &Isometry, ray: &Ray, solid: bool) -> (r: Option<
        RayIntersection,
    >)
        requires
            self.wf(),
            m.wf(),
            ray.can_inverse_transform_by(*m),
        ensures
            r == self.mesh.cast_impact(*m, ray.inverse_transform_by_spec(*m), solid),
            self.mesh.impact_outcome(*m, ray.inverse_transform_by_spec(*m), solid, r),
    {
        self.base_mesh().toi_and_normal_with_ray(m, ray, solid)
    }
}

} // verus!
