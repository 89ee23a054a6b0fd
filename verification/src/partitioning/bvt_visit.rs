//! Depth-first traversal of the bounding-volume tree by a visitor.
use crate::bounding_volume::BoundingVolume;
use crate::partitioning::bvt::{BVTNode, BVT};
use vstd::prelude::*;

verus! {

/// A visitor of the tree: it decides at each internal node whether to
/// descend, and at each leaf whether to go on.
///
/// The two `*_step` relations say what a call may do to the visitor and
/// what it may answer. They default to "anything"; a visitor that wants its
/// traversals specified states them.
pub trait BVTVisitor<B, BV>: Sized {
    /// `visit_internal` on `bv` may turn `self` into `after` and answer `descend`.
    open spec fn internal_step(self, bv: BV, after: Self, descend: bool) -> bool {
        true
    }

    /// `visit_leaf` on `(b, bv)` may turn `self` into `after` and answer `keep_going`.
    open spec fn leaf_step(self, b: B, bv: BV, after: Self, keep_going: bool) -> bool {
        true
    }

    /// Inspects the volume of an internal node; answers whether to visit its children.
    fn visit_internal(&mut self, bv: &BV) -> (descend: bool)
        ensures
            (*old(self)).internal_step(*bv, *final(self), descend),
    ;

    /// Inspects a leaf; answers whether the traversal goes on.
    fn visit_leaf(&mut self, b: &B, bv: &BV) -> (keep_going: bool)
        ensures
            (*old(self)).leaf_step(*b, *bv, *final(self), keep_going),
    ;
}

/// Names the two states between the three steps of a traversal of an
/// internal node: after the node itself, and after its left child.
pub open spec fn between<V>(mid: V, mid2: V) -> bool {
    true
}

impl<B, BV: BoundingVolume> BVTNode<B, BV> {
    /// A traversal of the node in pre-order, left child first, may turn
    /// `before` into `after`, and ends with `keep_going`.
    ///
    /// At a leaf the visitor sees the leaf once. At an internal node it sees
    /// the volume; if it descends, the left child is traversed, and the right
    /// one unless the left traversal asked to stop.
    pub open spec fn visited<V: BVTVisitor<B, BV>>(self, before: V, after: V, keep_going: bool) -> bool
        decreases self,
    {
        match self {
            BVTNode::Leaf { bv, b } => before.leaf_step(b, bv, after, keep_going),
            BVTNode::Internal { bv, left, right } => {
                ||| (keep_going && before.internal_step(bv, after, false))
                ||| (exists|mid: V, mid2: V|
                    {
                        &&& #[trigger] between(mid, mid2)
                        &&& before.internal_step(bv, mid, true)
                        &&& if keep_going {
                            left.visited(mid, mid2, true) && right.visited(mid2, after, true)
                        } else {
                            (left.visited(mid, mid2, false) && mid2 == after) || (left.visited(
                                mid,
                                mid2,
                                true,
                            ) && right.visited(mid2, after, false))
                        }
                    })
            },
        }
    }

    /// Traverses the node with `visitor`; answers whether the traversal may go on.
    pub fn visit<V: BVTVisitor<B, BV>>(&self, visitor: &mut V) -> (keep_going: bool)
        ensures
            self.visited(*old(visitor), *final(visitor), keep_going),
        decreases self,
    {
        match self {
            BVTNode::Leaf { bv, b } => visitor.visit_leaf(b, bv),
            BVTNode::Internal { bv, left, right } => {
                if visitor.visit_internal(bv) {
                    let ghost v1 = *visitor;
                    let k1 = left.visit(visitor);
                    let ghost v2 = *visitor;
                    proof {
                        assert(between(v1, v2));
                    }
                    if k1 {
                        right.visit(visitor)
                    } else {
                        false
                    }
                } else {
                    true
                }
            },
        }
    }
}

impl<B, BV: BoundingVolume> BVT<B, BV> {
    /// A traversal of the whole tree may turn `before` into `after`.
    pub open spec fn visited<V: BVTVisitor<B, BV>>(self, before: V, after: V) -> bool {
        match self.root {
            Some(n) => exists|keep_going: bool| #[trigger] n.visited(before, after, keep_going),
            None => after == before,
        }
    }

    /// Traverses the tree with `visitor`, in pre-order, left child first.
    /// An empty tree leaves the visitor as it is.
    pub fn visit<V: BVTVisitor<B, BV>>(&self, visitor: &mut V)
        ensures
            self.visited(*old(visitor), *final(visitor)),
    {
        match &self.root {
            Some(n) => {
                let k = n.visit(visitor);
                proof {
                    assert(n.visited(*old(visitor), *visitor, k));
                }
            },
            None => {},
        }
    }
}

} // verus!
