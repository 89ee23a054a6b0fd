//! Compound shapes: shapes placed rigidly in a common frame, with a
//! bounding-volume tree over the boxes of the parts.
use crate::bounding_volume::HasAABB;
use crate::bounding_volume::aabb::AABB;
use crate::math::Point;
use crate::math::isometry::Isometry;
use crate::partitioning::bvt::{
    balanced_tree, leaves_are_elements, lemma_indexed_leaves, BVT,
};
use vstd::prelude::*;

verus! {

/// A shape made of parts, each a shape with its placement in the frame of
/// the compound.
pub struct Compound<S> {
    pub shapes: Vec<(Isometry, S)>,
    pub bvt: BVT<usize, AABB>,
}

impl<S: HasAABB> HasAABB for Compound<S> {
    open spec fn aabb_spec(&self, m: &Isometry) -> AABB {
        match self.bvt.root {
            Some(n) => n.bv_spec().transform_by_spec(*m),
            None => AABB {
                mins: Point { x: i32::MAX, y: i32::MAX, z: i32::MAX },
                maxs: Point { x: -0x7fff_ffffi32, y: -0x7fff_ffffi32, z: -0x7fff_ffffi32 },
            },
        }
    }

    open spec fn can_bound(&self, m: &Isometry) -> bool {
        self.bvt.root matches Some(n) ==> n.bv_spec().can_transform_by(*m)
    }

    /// The box around all parts: the box at the root of the tree, placed
    /// by `m`; the invalid box for a compound without parts.
    fn aabb(&self, m: &Isometry) -> (r: AABB) {
        match self.bvt.root() {
            Some(n) => n.bounding_volume().transform_by(m),
            None => AABB::new_invalid(),
        }
    }
}

impl<S: HasAABB> Compound<S> {
    /// The box of the `i`-th part in the frame of the compound.
    pub open spec fn part_box(self, i: int) -> AABB {
        self.shapes@[i].1.aabb_spec(&self.shapes@[i].0)
    }

    /// The leaves that the tree is built over: the indices of the parts,
    /// each with the box of its part.
    pub open spec fn part_leaves(self) -> Seq<(usize, AABB)> {
        Seq::new(self.shapes@.len(), |i: int| (i as usize, self.part_box(i)))
    }

    /// Every placement is a rigid motion, and the tree has one leaf per
    /// part, with the box of that part.
    pub open spec fn wf(self) -> bool {
        &&& forall|i: int| 0 <= i < self.shapes@.len() ==> (#[trigger] self.shapes@[i]).0.wf()
        &&& self.bvt.wf()
        &&& leaves_are_elements(self.bvt.leaves(), self.shapes@.len() as int)
        &&& forall|i: int|
            0 <= i < self.bvt.leaves().len() ==> (#[trigger] self.bvt.leaves()[i]).1 == self.part_box(
                self.bvt.leaves()[i].0 as int,
            )
    }

    /// The compound of the given parts.
    pub fn new(shapes: Vec<(Isometry, S)>) -> (r: Compound<S>)
        requires
            forall|i: int|
                0 <= i < shapes@.len() ==> (#[trigger] shapes@[i]).0.wf() && shapes@[i].1.can_bound(
                    &shapes@[i].0,
                ),
        ensures
            r.wf(),
            r.shapes@ == shapes@,
            r.bvt.median_split(),
            r.bvt.root == if shapes@.len() == 0 {
                None
            } else {
                Some(balanced_tree(r.part_leaves()))
            },
    {
        let mut leaves: Vec<(usize, AABB)> = Vec::new();
        let mut i: usize = 0;
        while i < shapes.len()
            invariant
                i <= shapes.len(),
                leaves@.len() == i,
                forall|k: int|
                    0 <= k < shapes@.len() ==> (#[trigger] shapes@[k]).0.wf() && shapes@[k].1.can_bound(
                        &shapes@[k].0,
                    ),
                forall|k: int|
                    0 <= k < i ==> #[trigger] leaves@[k] == (
                        k as usize,
                        shapes@[k].1.aabb_spec(&shapes@[k].0),
                    ),
            decreases shapes.len() - i,
        {
            let part = &shapes[i];
            let bv = part.1.aabb(&part.0);
            leaves.push((i, bv));
            i = i + 1;
        }
        let ghost leaf_seq = leaves@;
        let bvt = BVT::new_balanced(leaves);
        proof {
            assert(leaf_seq =~= Seq::new(
                shapes@.len(),
                |i: int| (i as usize, shapes@[i].1.aabb_spec(&shapes@[i].0)),
            ));
            lemma_indexed_leaves(leaf_seq, bvt.leaves());
        }
        let r = Compound { shapes, bvt };
        proof {
            assert(r.part_leaves() =~= leaf_seq);
        }
        r
    }

    /// The parts with their placements.
    pub fn shapes(&self) -> (r: &Vec<(Isometry, S)>)
        ensures
            r@ == self.shapes@,
    {
        &self.shapes
    }

    /// The tree over the parts.
    pub fn bvt(&self) -> (r: &BVT<usize, AABB>)
        ensures
            *r == self.bvt,
    {
        &self.bvt
    }

    /// The `i`-th part with its placement in the frame that `m` places the
    /// compound in: the placement of the part followed by `m`.
    pub fn transformed_part_at(&self, i: usize, m: &Isometry) -> (r: (Isometry, &S))
        requires
            self.wf(),
            m.wf(),
            i < self.shapes@.len(),
            m.composed_translation(self.shapes@[i as int].0).fits(),
        ensures
            r.0 == m.compose_spec(self.shapes@[i as int].0),
            r.0.wf(),
            *r.1 == self.shapes@[i as int].1,
    {
        let part = &self.shapes[i];
        (m.compose(&part.0), &part.1)
    }

    /// Applies `f` to the `i`-th part and its placement in the frame that
    /// `m` places the compound in.
    pub fn map_transformed_part_at<R, F: FnOnce(usize, &Isometry, &S) -> R>(
        &self,
        i: usize,
        m: &Isometry,
        f: F,
    ) -> (r: R)
        requires
            self.wf(),
            m.wf(),
            i < self.shapes@.len(),
            m.composed_translation(self.shapes@[i as int].0).fits(),
            call_requires(f, (i, &m.compose_spec(self.shapes@[i as int].0), &self.shapes@[i as int].1)),
        ensures
            call_ensures(
                f,
                (i, &m.compose_spec(self.shapes@[i as int].0), &self.shapes@[i as int].1),
                r,
            ),
    {
        let part = &self.shapes[i];
        let placed = m.compose(&part.0);
        f(i, &placed, &part.1)
    }
}

} // verus!
