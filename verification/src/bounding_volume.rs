//! What a bounding volume can do, and what bounds a shape.
pub mod aabb;
pub mod bounding_sphere;

use crate::bounding_volume::aabb::AABB;
use crate::math::Axis;
use crate::math::isometry::Isometry;
use vstd::prelude::*;

verus! {

/// A volume that encloses a shape and is cheap to test.
///
/// `bv_contains` is a preorder, and a merge encloses both of its arguments:
/// an implementation proves both, and the tree of bounding volumes relies on them.
pub trait BoundingVolume: Sized {
    /// `self` and `other` have a point in common.
    spec fn bv_intersects(&self, other: &Self) -> bool;

    /// `self` encloses `other`.
    spec fn bv_contains(&self, other: &Self) -> bool;

    /// The key by which volumes are sorted along `a`: twice the coordinate
    /// of the center, which is a whole number and orders as the center does.
    spec fn bv_key(&self, a: Axis) -> int;

    /// The volume that `merged` gives for `self` and `other`.
    spec fn bv_merged(&self, other: &Self) -> Self;

    /// `amount` is a margin by which `self` can grow.
    spec fn can_loosen(&self, amount: i32) -> bool;

    /// `self` is `orig` grown by `amount` on every side.
    spec fn is_loosened_from(&self, orig: &Self, amount: i32) -> bool;

    /// `amount` is a margin by which `self` can shrink and stay a volume.
    spec fn can_tighten(&self, amount: i32) -> bool;

    /// `self` is `orig` shrunk by `amount` on every side.
    spec fn is_tightened_from(&self, orig: &Self, amount: i32) -> bool;

    proof fn lemma_contains_reflexive(a: &Self)
        ensures
            a.bv_contains(a),
    ;

    proof fn lemma_contains_transitive(a: &Self, b: &Self, c: &Self)
        requires
            a.bv_contains(b),
            b.bv_contains(c),
        ensures
            a.bv_contains(c),
    ;

    proof fn lemma_merge_contains(a: &Self, b: &Self)
        ensures
            a.bv_merged(b).bv_contains(a),
            a.bv_merged(b).bv_contains(b),
    ;

    proof fn lemma_intersects_enclosing(a: &Self, b: &Self, q: &Self)
        requires
            a.bv_contains(b),
            b.bv_intersects(q),
        ensures
            a.bv_intersects(q),
    ;

    proof fn lemma_loosened_contains(l: &Self, orig: &Self, amount: i32)
        requires
            orig.can_loosen(amount),
            l.is_loosened_from(orig, amount),
        ensures
            l.bv_contains(orig),
    ;

    proof fn lemma_tightened_contained(t: &Self, orig: &Self, amount: i32)
        requires
            orig.can_tighten(amount),
            t.is_tightened_from(orig, amount),
        ensures
            orig.bv_contains(t),
    ;

    /// Twice the coordinate of the center along `a`.
    fn key(&self, a: Axis) -> (r: i64)
        ensures
            r == self.bv_key(a),
    ;

    fn intersects(&self, other: &Self) -> (r: bool)
        ensures
            r == self.bv_intersects(other),
    ;

    fn contains(&self, other: &Self) -> (r: bool)
        ensures
            r == self.bv_contains(other),
    ;

    /// Grows `self` to enclose `other` as well.
    fn merge(&mut self, other: &Self)
        ensures
            *final(self) == old(self).bv_merged(other),
    ;

    /// The volume that encloses both `self` and `other`.
    fn merged(&self, other: &Self) -> (r: Self)
        ensures
            r == self.bv_merged(other),
    ;

    fn loosen(&mut self, amount: i32)
        requires
            old(self).can_loosen(amount),
        ensures
            final(self).is_loosened_from(old(self), amount),
    ;

    fn loosened(&self, amount: i32) -> (r: Self)
        requires
            self.can_loosen(amount),
        ensures
            r.is_loosened_from(self, amount),
    ;

    fn tighten(&mut self, amount: i32)
        requires
            old(self).can_tighten(amount),
        ensures
            final(self).is_tightened_from(old(self), amount),
    ;

    fn tightened(&self, amount: i32) -> (r: Self)
        requires
            self.can_tighten(amount),
        ensures
            r.is_tightened_from(self, amount),
    ;
}

/// An object that an axis-aligned box can bound.
pub trait HasAABB {
    /// The box that bounds the object placed by `m`.
    spec fn aabb_spec(&self, m: &Isometry) -> AABB;

    /// Whether the box of the object placed by `m` lies within the lattice.
    open spec fn can_bound(&self, m: &Isometry) -> bool {
        true
    }

    /// The object's box when the object is placed by `m`.
    fn aabb(&self, m: &Isometry) -> (r: AABB)
        requires
            m.wf(),
            self.can_bound(m),
        ensures
            r == self.aabb_spec(m),
    ;
}

} // verus!
