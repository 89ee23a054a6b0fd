//! Mesh descriptions: the data a triangle mesh is made from.
use crate::math::{Point, Vector};
use crate::shape::mesh::{index_ok, Uv};
use vstd::prelude::*;

verus! {

/// The description of a triangle mesh: vertices, optional normals and
/// texture coordinates per vertex, and the triangles as triples of indices
/// of vertices.
pub struct TriMesh {
    pub coords: Vec<Point>,
    pub normals: Option<Vec<Vector>>,
    pub uvs: Option<Vec<Uv>>,
    pub indices: Vec<(usize, usize, usize)>,
}

/// The triangles that take the vertices three by three, in order: the
/// `i`-th triangle has the vertices `3 i`, `3 i + 1` and `3 i + 2`.
pub open spec fn trivial_indices(n: int) -> Seq<(usize, usize, usize)> {
    Seq::new(
        (n / 3) as nat,
        |i: int| ((3 * i) as usize, (3 * i + 1) as usize, (3 * i + 2) as usize),
    )
}

impl TriMesh {
    /// Every index names a vertex, and attributes come one per vertex.
    pub open spec fn wf(self) -> bool {
        &&& forall|i: int|
            0 <= i < self.indices@.len() ==> index_ok(
                #[trigger] self.indices@[i],
                self.coords@.len() as int,
            )
        &&& self.normals matches Some(n) ==> n@.len() == self.coords@.len()
        &&& self.uvs matches Some(u) ==> u@.len() == self.coords@.len()
    }

    /// The description with the given parts. Without indices the vertices
    /// are taken three by three.
    pub fn new(
        coords: Vec<Point>,
        normals: Option<Vec<Vector>>,
        uvs: Option<Vec<Uv>>,
        indices: Option<Vec<(usize, usize, usize)>>,
    ) -> (r: TriMesh)
        ensures
            r.coords@ == coords@,
            r.normals == normals,
            r.uvs == uvs,
            r.indices@ == match indices {
                Some(idx) => idx@,
                None => trivial_indices(coords@.len() as int),
            },
    {
        let idx = match indices {
            Some(idx) => idx,
            None => {
                let mut out: Vec<(usize, usize, usize)> = Vec::new();
                let n: usize = coords.len() / 3;
                let mut i: usize = 0;
                while i < n
                    invariant
                        i <= n,
                        n == coords.len() / 3,
                        out@.len() == i,
                        forall|k: int|
                            0 <= k < i ==> #[trigger] out@[k] == (
                                (3 * k) as usize,
                                (3 * k + 1) as usize,
                                (3 * k + 2) as usize,
                            ),
                    decreases n - i,
                {
                    out.push((3 * i, 3 * i + 1, 3 * i + 2));
                    i = i + 1;
                }
                proof {
                    assert(out@ =~= trivial_indices(coords@.len() as int));
                }
                out
            },
        };
        TriMesh { coords, normals, uvs, indices: idx }
    }
}

} // verus!
