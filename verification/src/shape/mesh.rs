//! Meshes of segments or triangles over shared vertices, with a
//! bounding-volume tree over their elements.
use crate::bounding_volume::HasAABB;
use crate::bounding_volume::aabb::AABB;
use crate::math::isometry::Isometry;
use crate::math::{Point, Vector};
use crate::partitioning::bvt::{
    balanced_tree, leaves_are_elements, lemma_indexed_leaves, BVT,
};
use crate::query::ray::{Ray, RayCast, RayIntersection};
use vstd::prelude::*;

verus! {

/// Texture coordinates of a vertex.
#[derive(Clone, Copy, Debug, PartialEq, Eq, Structural)]
pub struct Uv {
    pub u: i32,
    pub v: i32,
}

/// Barycentric coordinates of a point of a triangle, as three weights of
/// its vertices; the point is the weighted mean of the vertices.
#[derive(Clone, Copy, Debug, PartialEq, Eq, Structural)]
pub struct Barycentric {
    pub a: u32,
    pub b: u32,
    pub c: u32,
}

impl Barycentric {
    /// The weights do not all vanish, and their sum fits in 32 bits.
    pub open spec fn wf(self) -> bool {
        0 < self.a + self.b + self.c <= u32::MAX
    }

    pub open spec fn total(self) -> int {
        self.a + self.b + self.c
    }
}

/// What the elements of a mesh are.
#[derive(Clone, Copy, Debug, PartialEq, Eq, Structural)]
pub enum ElementKind {
    /// Segments of a planar polyline; the third index of an element repeats the second.
    Segment,
    /// Triangles of a surface in space.
    Triangle,
}

/// An element of a mesh: a segment or a triangle made from vertices of the mesh.
pub trait BaseMeshElement: RayCast + HasAABB + Sized {
    /// The element with the given vertices.
    spec fn from_vertices(a: Point, b: Point, c: Point) -> Self;

    /// The element with the given vertices; a segment takes the first two.
    fn new_with_vertices(a: &Point, b: &Point, c: &Point) -> (r: Self)
        ensures
            r == Self::from_vertices(*a, *b, *c),
            r.can_bound(&Isometry::identity_spec()),
    ;

    /// An impact on the element happens inside the box of the element: the
    /// time of the impact is a number, not negative, and at that time the
    /// ray is at a point of the box. This is what lets the search of a
    /// mesh find the earliest impact.
    proof fn lemma_impact_in_box(&self, ray: Ray, solid: bool)
        ensures
            self.toi_spec(&Isometry::identity_spec(), &ray, solid) matches Some(t) ==> t.den > 0
                && t.num >= 0 && self.aabb_spec(&Isometry::identity_spec()).ray_hits_at(
                ray,
                t.num as int,
                t.den as int,
            ),
            self.toi_and_normal_spec(&Isometry::identity_spec(), &ray, solid) matches Some(x)
                ==> x.toi.den > 0 && x.toi.num >= 0 && self.aabb_spec(
                &Isometry::identity_spec(),
            ).ray_hits_at(ray, x.toi.num as int, x.toi.den as int),
    ;
}

/// An element of a mesh of triangles: it can be cast with the barycentric
/// coordinates of the impact, which the texture coordinates and normals of
/// the vertices are interpolated by.
pub trait TriangleMeshElement: BaseMeshElement {
    /// What `triangle_ray_intersection` returns.
    spec fn triangle_ray_intersection_spec(
        a: Point,
        b: Point,
        c: Point,
        ray: Ray,
        solid: bool,
    ) -> Option<(RayIntersection, Barycentric)>;

    /// The impact of `ray` on the triangle `a`, `b`, `c`, with the
    /// barycentric coordinates of the point of impact. The flag of the
    /// caller is handed on, as to every primitive.
    fn triangle_ray_intersection(
        a: &Point,
        b: &Point,
        c: &Point,
        ray: &Ray,
        solid: bool,
    ) -> (r: Option<(RayIntersection, Barycentric)>)
        ensures
            r == Self::triangle_ray_intersection_spec(*a, *b, *c, *ray, solid),
            r matches Some((i, w)) ==> i.wf() && w.wf(),
    ;

    /// The cast with barycentric coordinates hits when and where the casts
    /// of the element with these vertices do: the impact is that of
    /// `toi_and_normal_with_ray`, and its time that of `toi_with_ray`.
    proof fn lemma_triangle_cast_agrees(a: Point, b: Point, c: Point, ray: Ray, solid: bool)
        ensures
            Self::from_vertices(a, b, c).toi_and_normal_spec(&Isometry::identity_spec(), &ray, solid)
                == match Self::triangle_ray_intersection_spec(a, b, c, ray, solid) {
                Some((i, _)) => Some(i),
                None => None,
            },
            Self::from_vertices(a, b, c).toi_spec(&Isometry::identity_spec(), &ray, solid)
                == match Self::triangle_ray_intersection_spec(a, b, c, ray, solid) {
                Some((i, _)) => Some(i.toi),
                None => None,
            },
    ;
}

/// A mesh: vertices, elements given by the indices of their vertices,
/// optional normals and texture coordinates per vertex, and a
/// bounding-volume tree over the indices of the elements.
pub struct BaseMesh<E> {
    pub kind: ElementKind,
    pub vertices: Vec<Point>,
    pub indices: Vec<(usize, usize, usize)>,
    pub uvs: Option<Vec<Uv>>,
    pub normals: Option<Vec<Vector>>,
    pub elements: Vec<E>,
    pub bvt: BVT<usize, AABB>,
}

/// The indices of an element are indices of vertices.
pub open spec fn index_ok(idx: (usize, usize, usize), n: int) -> bool {
    idx.0 < n && idx.1 < n && idx.2 < n
}

impl<E: BaseMeshElement> HasAABB for BaseMesh<E> {
    open spec fn aabb_spec(&self, m: &Isometry) -> AABB {
        match self.bvt.root {
            Some(n) => n.bv_spec().transform_by_spec(*m),
            None => AABB {
                mins: Point { x: i32::MAX, y: i32::MAX, z: i32::MAX },
                maxs: Point { x: -0x7fff_ffffi32, y: -0x7fff_ffffi32, z: -0x7fff_ffffi32 },
            },
        }
    }

    open spec fn can_bound(&self, m: &Isometry) -> bool {
        self.bvt.root matches Some(n) ==> n.bv_spec().can_transform_by(*m)
    }

    /// The box around all elements: the box at the root of the tree, placed
    /// by `m`; the invalid box for a mesh without elements.
    fn aabb(&self, m: &Isometry) -> (r: AABB) {
        match self.bvt.root() {
            Some(n) => n.bounding_volume().transform_by(m),
            None => AABB::new_invalid(),
        }
    }
}

impl<E: BaseMeshElement> BaseMesh<E> {
    /// The parts of the mesh fit together: every index names a vertex,
    /// attributes come one per vertex, every element is made from its
    /// vertices, and the tree has one leaf per element, with the box of
    /// that element.
    pub open spec fn wf(self) -> bool {
        &&& forall|i: int| 0 <= i < self.indices@.len() ==> index_ok(#[trigger] self.indices@[i], self.vertices@.len() as int)
        &&& self.uvs matches Some(u) ==> u@.len() == self.vertices@.len()
        &&& self.normals matches Some(n) ==> n@.len() == self.vertices@.len()
        &&& self.elements@.len() == self.indices@.len()
        &&& forall|i: int| 0 <= i < self.elements@.len() ==> #[trigger] self.elements@[i] == self.element_spec(i)
        &&& self.bvt.wf()
        &&& leaves_are_elements(self.bvt.leaves(), self.elements@.len() as int)
        &&& forall|i: int| 0 <= i < self.bvt.leaves().len() ==> (#[trigger] self.bvt.leaves()[i]).1 == self.elements@[self.bvt.leaves()[i].0 as int].aabb_spec(&Isometry::identity_spec())
    }

    /// The leaves that the tree is built over: the indices of the elements,
    /// each with the box of its element.
    pub open spec fn element_leaves(self) -> Seq<(usize, AABB)> {
        Seq::new(
            self.elements@.len(),
            |i: int| (i as usize, self.elements@[i].aabb_spec(&Isometry::identity_spec())),
        )
    }

    /// The element made from the vertices that the `i`-th index tuple names.
    pub open spec fn element_spec(self, i: int) -> E {
        let idx = self.indices@[i];
        E::from_vertices(
            self.vertices@[idx.0 as int],
            self.vertices@[idx.1 as int],
            self.vertices@[idx.2 as int],
        )
    }

    /// The vertices of the mesh.
    pub fn vertices(&self) -> (r: &Vec<Point>)
        ensures
            r@ == self.vertices@,
    {
        &self.vertices
    }

    /// The index tuples of the elements.
    pub fn indices(&self) -> (r: &Vec<(usize, usize, usize)>)
        ensures
            r@ == self.indices@,
    {
        &self.indices
    }

    /// The texture coordinates of the vertices, if the mesh has any.
    pub fn uvs(&self) -> (r: &Option<Vec<Uv>>)
        ensures
            *r == self.uvs,
    {
        &self.uvs
    }

    /// The normals at the vertices, if the mesh has any.
    pub fn normals(&self) -> (r: &Option<Vec<Vector>>)
        ensures
            *r == self.normals,
    {
        &self.normals
    }

    /// The tree over the elements.
    pub fn bvt(&self) -> (r: &BVT<usize, AABB>)
        ensures
            *r == self.bvt,
    {
        &self.bvt
    }

    /// The `i`-th element.
    pub fn element_at(&self, i: usize) -> (r: &E)
        requires
            i < self.elements@.len(),
        ensures
            *r == self.elements@[i as int],
    {
        &self.elements[i]
    }

    /// The mesh with the given vertices, elements and attributes.
    pub fn new(
        kind: ElementKind,
        vertices: Vec<Point>,
        indices: Vec<(usize, usize, usize)>,
        uvs: Option<Vec<Uv>>,
        normals: Option<Vec<Vector>>,
    ) -> (r: BaseMesh<E>)
        requires
            forall|i: int| 0 <= i < indices@.len() ==> index_ok(#[trigger] indices@[i], vertices@.len() as int),
            uvs matches Some(u) ==> u@.len() == vertices@.len(),
            normals matches Some(n) ==> n@.len() == vertices@.len(),
        ensures
            r.wf(),
            r.kind == kind,
            r.vertices@ == vertices@,
            r.indices@ == indices@,
            r.uvs == uvs,
            r.normals == normals,
            r.bvt.median_split(),
            r.bvt.root == if indices@.len() == 0 {
                None
            } else {
                Some(balanced_tree(r.element_leaves()))
            },
    {
        let mut elements: Vec<E> = Vec::new();
        let mut leaves: Vec<(usize, AABB)> = Vec::new();
        let id = Isometry::identity();
        let mut i: usize = 0;
        while i < indices.len()
            invariant
                i <= indices.len(),
                id == Isometry::identity_spec(),
                forall|k: int| 0 <= k < indices@.len() ==> index_ok(#[trigger] indices@[k], vertices@.len() as int),
                elements@.len() == i,
                leaves@.len() == i,
                forall|k: int|
                    0 <= k < i ==> #[trigger] elements@[k] == E::from_vertices(
                        vertices@[indices@[k].0 as int],
                        vertices@[indices@[k].1 as int],
                        vertices@[indices@[k].2 as int],
                    ),
                forall|k: int|
                    0 <= k < i ==> #[trigger] leaves@[k] == (
                        k as usize,
                        elements@[k].aabb_spec(&Isometry::identity_spec()),
                    ),
            decreases indices.len() - i,
        {
            let idx = indices[i];
            assert(index_ok(indices@[i as int], vertices@.len() as int));
            let e = E::new_with_vertices(&vertices[idx.0], &vertices[idx.1], &vertices[idx.2]);
            let bv = e.aabb(&id);
            elements.push(e);
            leaves.push((i, bv));
            i = i + 1;
        }
        let ghost leaf_seq = leaves@;
        let bvt = BVT::new_balanced(leaves);
        proof {
            assert(leaf_seq =~= Seq::new(
                elements@.len(),
                |i: int| (i as usize, elements@[i].aabb_spec(&Isometry::identity_spec())),
            ));
            lemma_indexed_leaves(leaf_seq, bvt.leaves());
        }
        BaseMesh { kind, vertices, indices, uvs, normals, elements, bvt }
    }
}

} // verus!
