//! Triangles.
use crate::math::Point;
use crate::procedural::TriMesh;
use vstd::prelude::*;

verus! {

/// The triangle with the vertices `a`, `b` and `c`.
#[derive(Clone, Copy, Debug, PartialEq, Eq, Structural)]
pub struct Triangle {
    pub a: Point,
    pub b: Point,
    pub c: Point,
}

impl Triangle {
    pub fn new(a: Point, b: Point, c: Point) -> (r: Triangle)
        ensures
            r == (Triangle { a, b, c }),
    {
        Triangle { a, b, c }
    }

    pub fn a(&self) -> (r: &Point)
        ensures
            *r == self.a,
    {
        &self.a
    }

    pub fn b(&self) -> (r: &Point)
        ensures
            *r == self.b,
    {
        &self.b
    }

    pub fn c(&self) -> (r: &Point)
        ensures
            *r == self.c,
    {
        &self.c
    }

    /// The mesh of this one triangle: its three vertices, no normals, no
    /// texture coordinates, and the one triangle `(0, 1, 2)`. A triangle
    /// needs no parameters to be made a mesh.
    pub fn to_trimesh(&self, _parameters: ()) -> (r: TriMesh)
        ensures
            r.coords@ == seq![self.a, self.b, self.c],
            r.normals is None,
            r.uvs is None,
            r.indices@ == seq![(0usize, 1usize, 2usize)],
            r.wf(),
    {
        let mut coords: Vec<Point> = Vec::new();
        coords.push(self.a);
        coords.push(self.b);
        coords.push(self.c);
        let r = TriMesh::new(coords, None, None, None);
        proof {
            assert(coords@ =~= seq![self.a, self.b, self.c]);
            assert(r.indices@ =~= seq![(0usize, 1usize, 2usize)]);
        }
        r
    }
}

} // verus!
