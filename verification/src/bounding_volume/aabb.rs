//! Axis-aligned bounding boxes.
use crate::bounding_volume::BoundingVolume;
use crate::math::isometry::{AxisDir, Int3, Isometry};
use crate::math::scalar::{Scalar, Scalar3};
use crate::math::{fits_i32, Axis, Point, Vector};
use vstd::prelude::*;

verus! {

/// The box of the points `p` with `mins <= p <= maxs` on every axis.
///
/// A box with `mins <= maxs` is valid. Other boxes hold no point; the box of
/// `new_invalid` is one of them, and is the neutral element of `merge`.
#[derive(Clone, Copy, Debug, PartialEq, Eq, Structural)]
pub struct AABB {
    pub mins: Point,
    pub maxs: Point,
}

impl AABB {
    /// `mins <= maxs` on every axis.
    pub open spec fn is_valid(self) -> bool {
        self.mins.le(self.maxs)
    }

    /// Whether the lattice point `p` lies in the box.
    pub open spec fn has_point(self, p: Point) -> bool {
        self.mins.le(p) && p.le(self.maxs)
    }

    pub open spec fn intersects_spec(self, o: AABB) -> bool {
        self.mins.le(o.maxs) && o.mins.le(self.maxs)
    }

    pub open spec fn contains_spec(self, o: AABB) -> bool {
        self.mins.le(o.mins) && o.maxs.le(self.maxs)
    }

    /// The smallest box that encloses both.
    pub open spec fn merged_spec(self, o: AABB) -> AABB {
        AABB {
            mins: Point {
                x: if self.mins.x <= o.mins.x { self.mins.x } else { o.mins.x },
                y: if self.mins.y <= o.mins.y { self.mins.y } else { o.mins.y },
                z: if self.mins.z <= o.mins.z { self.mins.z } else { o.mins.z },
            },
            maxs: Point {
                x: if self.maxs.x >= o.maxs.x { self.maxs.x } else { o.maxs.x },
                y: if self.maxs.y >= o.maxs.y { self.maxs.y } else { o.maxs.y },
                z: if self.maxs.z >= o.maxs.z { self.maxs.z } else { o.maxs.z },
            },
        }
    }

    /// `self` is `orig` with `amount` taken from `mins` and given to `maxs`.
    pub open spec fn grown_from(self, orig: AABB, amount: int) -> bool {
        &&& self.mins.x == orig.mins.x - amount
        &&& self.mins.y == orig.mins.y - amount
        &&& self.mins.z == orig.mins.z - amount
        &&& self.maxs.x == orig.maxs.x + amount
        &&& self.maxs.y == orig.maxs.y + amount
        &&& self.maxs.z == orig.maxs.z + amount
    }

    /// `self` is `orig` with both corners displaced by `(dx, dy, dz)`.
    pub open spec fn shifted_from(self, orig: AABB, dx: int, dy: int, dz: int) -> bool {
        &&& self.mins.x == orig.mins.x + dx
        &&& self.mins.y == orig.mins.y + dy
        &&& self.mins.z == orig.mins.z + dz
        &&& self.maxs.x == orig.maxs.x + dx
        &&& self.maxs.y == orig.maxs.y + dy
        &&& self.maxs.z == orig.maxs.z + dz
    }

    pub open spec fn can_shift(self, dx: int, dy: int, dz: int) -> bool {
        &&& fits_i32(self.mins.x + dx)
        &&& fits_i32(self.mins.y + dy)
        &&& fits_i32(self.mins.z + dz)
        &&& fits_i32(self.maxs.x + dx)
        &&& fits_i32(self.maxs.y + dy)
        &&& fits_i32(self.maxs.z + dz)
    }

    /// The center of the box: the mean of its corners, exactly.
    pub open spec fn center_spec(self) -> Scalar3 {
        Scalar3 {
            x: Scalar { num: (self.mins.x + self.maxs.x) as i64, den: 2 },
            y: Scalar { num: (self.mins.y + self.maxs.y) as i64, den: 2 },
            z: Scalar { num: (self.mins.z + self.maxs.z) as i64, den: 2 },
        }
    }

    /// The half-extents of the box: half of its diagonal, exactly.
    pub open spec fn half_extents_spec(self) -> Scalar3 {
        Scalar3 {
            x: Scalar { num: (self.maxs.x - self.mins.x) as i64, den: 2 },
            y: Scalar { num: (self.maxs.y - self.mins.y) as i64, den: 2 },
            z: Scalar { num: (self.maxs.z - self.mins.z) as i64, den: 2 },
        }
    }

    /// The center of the box is a point of the lattice.
    pub open spec fn center_in_lattice(self) -> bool {
        &&& (self.mins.x + self.maxs.x) % 2 == 0
        &&& (self.mins.y + self.maxs.y) % 2 == 0
        &&& (self.mins.z + self.maxs.z) % 2 == 0
    }

    /// The center of the box, where it is a point of the lattice.
    pub open spec fn lattice_center(self) -> (int, int, int) {
        (
            (self.mins.x + self.maxs.x) / 2,
            (self.mins.y + self.maxs.y) / 2,
            (self.mins.z + self.maxs.z) / 2,
        )
    }

    /// The center less the half-extents is the lower corner, the center
    /// plus the half-extents the upper one; the half-extents of a valid
    /// box are not negative.
    pub proof fn lemma_center_and_half_extents(self)
        ensures
            ({
                let c = self.center_spec();
                let h = self.half_extents_spec();
                &&& c.x.den == 2 && c.y.den == 2 && c.z.den == 2
                &&& h.x.den == 2 && h.y.den == 2 && h.z.den == 2
                &&& c.x.num - h.x.num == 2 * self.mins.x && c.x.num + h.x.num == 2 * self.maxs.x
                &&& c.y.num - h.y.num == 2 * self.mins.y && c.y.num + h.y.num == 2 * self.maxs.y
                &&& c.z.num - h.z.num == 2 * self.mins.z && c.z.num + h.z.num == 2 * self.maxs.z
                &&& self.is_valid() ==> h.x.num >= 0 && h.y.num >= 0 && h.z.num >= 0
            }),
    {
    }

    /// The box with the given corners.
    pub fn new(mins: Point, maxs: Point) -> (r: AABB)
        requires
            mins.le(maxs),
        ensures
            r == (AABB { mins, maxs }),
            r.is_valid(),
    {
        AABB { mins, maxs }
    }

    /// An invalid box, with `mins` at the greatest and `maxs` at the least
    /// symmetric coordinate. Merging it with a box of the symmetric range
    /// gives that box.
    pub fn new_invalid() -> (r: AABB)
        ensures
            r.mins == (Point { x: i32::MAX, y: i32::MAX, z: i32::MAX }),
            r.maxs == (Point { x: -0x7fff_ffffi32, y: -0x7fff_ffffi32, z: -0x7fff_ffffi32 }),
            !r.is_valid(),
    {
        AABB {
            mins: Point { x: i32::MAX, y: i32::MAX, z: i32::MAX },
            maxs: Point { x: -i32::MAX, y: -i32::MAX, z: -i32::MAX },
        }
    }

    /// The corner with the smallest coordinates.
    pub fn mins(&self) -> (r: &Point)
        ensures
            *r == self.mins,
    {
        &self.mins
    }

    /// The corner with the greatest coordinates.
    pub fn maxs(&self) -> (r: &Point)
        ensures
            *r == self.maxs,
    {
        &self.maxs
    }

    /// The center of the box: `(mins + maxs) / 2`, as exact fractions.
    pub fn center(&self) -> (r: Scalar3)
        ensures
            r == self.center_spec(),
            r.x.wf() && r.y.wf() && r.z.wf(),
    {
        Scalar3 {
            x: Scalar::new(self.mins.x as i64 + self.maxs.x as i64, 2),
            y: Scalar::new(self.mins.y as i64 + self.maxs.y as i64, 2),
            z: Scalar::new(self.mins.z as i64 + self.maxs.z as i64, 2),
        }
    }

    /// The half-extents of the box: `(maxs - mins) / 2`, as exact fractions.
    pub fn half_extents(&self) -> (r: Scalar3)
        ensures
            r == self.half_extents_spec(),
            r.x.wf() && r.y.wf() && r.z.wf(),
    {
        Scalar3 {
            x: Scalar::new(self.maxs.x as i64 - self.mins.x as i64, 2),
            y: Scalar::new(self.maxs.y as i64 - self.mins.y as i64, 2),
            z: Scalar::new(self.maxs.z as i64 - self.mins.z as i64, 2),
        }
    }

    /// The center, as a displacement from the origin.
    pub fn translation(&self) -> (r: Scalar3)
        ensures
            r == self.center_spec(),
    {
        self.center()
    }

    /// The opposite of `translation`.
    pub fn inv_translation(&self) -> (r: Scalar3)
        ensures
            r.x == (Scalar { num: (-(self.mins.x + self.maxs.x)) as i64, den: 2 }),
            r.y == (Scalar { num: (-(self.mins.y + self.maxs.y)) as i64, den: 2 }),
            r.z == (Scalar { num: (-(self.mins.z + self.maxs.z)) as i64, den: 2 }),
    {
        Scalar3 {
            x: Scalar::new(-(self.mins.x as i64 + self.maxs.x as i64), 2),
            y: Scalar::new(-(self.mins.y as i64 + self.maxs.y as i64), 2),
            z: Scalar::new(-(self.mins.z as i64 + self.maxs.z as i64), 2),
        }
    }

    /// Displaces the box by `dv`.
    pub fn append_translation_mut(&mut self, dv: &Vector)
        requires
            old(self).can_shift(dv.x as int, dv.y as int, dv.z as int),
        ensures
            final(self).shifted_from(*old(self), dv.x as int, dv.y as int, dv.z as int),
    {
        self.mins = self.mins.translated(dv);
        self.maxs = self.maxs.translated(dv);
    }

    /// The box displaced by `dv`.
    pub fn append_translation(&self, dv: &Vector) -> (r: AABB)
        requires
            self.is_valid(),
            self.can_shift(dv.x as int, dv.y as int, dv.z as int),
        ensures
            r.shifted_from(*self, dv.x as int, dv.y as int, dv.z as int),
            r.is_valid(),
    {
        AABB::new(self.mins.translated(dv), self.maxs.translated(dv))
    }

    /// Displaces the box by `dv`; a box has no orientation, so this is
    /// `append_translation_mut`.
    pub fn prepend_translation_mut(&mut self, dv: &Vector)
        requires
            old(self).can_shift(dv.x as int, dv.y as int, dv.z as int),
        ensures
            final(self).shifted_from(*old(self), dv.x as int, dv.y as int, dv.z as int),
    {
        self.append_translation_mut(dv)
    }

    /// The box displaced by `dv`; the same as `append_translation`.
    pub fn prepend_translation(&self, dv: &Vector) -> (r: AABB)
        requires
            self.is_valid(),
            self.can_shift(dv.x as int, dv.y as int, dv.z as int),
        ensures
            r.shifted_from(*self, dv.x as int, dv.y as int, dv.z as int),
            r.is_valid(),
    {
        self.append_translation(dv)
    }

    /// Displaces the box back by its center plus `v`. The center must be a
    /// point of the lattice, or the displaced box would not be a box of it.
    pub fn set_translation(&mut self, v: Vector)
        requires
            old(self).center_in_lattice(),
            old(self).can_shift(
                -(old(self).lattice_center().0 + v.x),
                -(old(self).lattice_center().1 + v.y),
                -(old(self).lattice_center().2 + v.z),
            ),
        ensures
            final(self).shifted_from(
                *old(self),
                -(old(self).lattice_center().0 + v.x),
                -(old(self).lattice_center().1 + v.y),
                -(old(self).lattice_center().2 + v.z),
            ),
    {
        let center = self.translation();
        let tx: i64 = center.x.num / 2 + v.x as i64;
        let ty: i64 = center.y.num / 2 + v.y as i64;
        let tz: i64 = center.z.num / 2 + v.z as i64;
        self.mins = Point {
            x: (self.mins.x as i64 - tx) as i32,
            y: (self.mins.y as i64 - ty) as i32,
            z: (self.mins.z as i64 - tz) as i32,
        };
        self.maxs = Point {
            x: (self.maxs.x as i64 - tx) as i32,
            y: (self.maxs.y as i64 - ty) as i32,
            z: (self.maxs.z as i64 - tz) as i32,
        };
    }

    /// Merging with the invalid box changes nothing, for boxes of the
    /// symmetric range.
    pub proof fn lemma_invalid_is_neutral(inv: AABB, b: AABB)
        requires
            inv.mins == (Point { x: i32::MAX, y: i32::MAX, z: i32::MAX }),
            inv.maxs == (Point { x: -0x7fff_ffffi32, y: -0x7fff_ffffi32, z: -0x7fff_ffffi32 }),
            b.maxs.x > i32::MIN,
            b.maxs.y > i32::MIN,
            b.maxs.z > i32::MIN,
        ensures
            inv.merged_spec(b) == b,
            b.merged_spec(inv) == b,
    {
    }

    /// A box encloses another exactly when it holds every point of it, for
    /// a valid inner box.
    pub proof fn lemma_contains_points(a: AABB, b: AABB)
        requires
            b.is_valid(),
        ensures
            a.contains_spec(b) <==> (forall|p: Point| #[trigger] b.has_point(p) ==> a.has_point(p)),
    {
        if forall|p: Point| #[trigger] b.has_point(p) ==> a.has_point(p) {
            assert(b.has_point(b.mins));
            assert(b.has_point(b.maxs));
        }
    }

    /// Two valid boxes intersect exactly when they share a lattice point.
    pub proof fn lemma_intersects_points(a: AABB, b: AABB)
        requires
            a.is_valid(),
            b.is_valid(),
        ensures
            a.intersects_spec(b) <==> (exists|p: Point| #[trigger] a.has_point(p) && b.has_point(p)),
    {
        if a.intersects_spec(b) {
            let p = Point {
                x: if a.mins.x >= b.mins.x { a.mins.x } else { b.mins.x },
                y: if a.mins.y >= b.mins.y { a.mins.y } else { b.mins.y },
                z: if a.mins.z >= b.mins.z { a.mins.z } else { b.mins.z },
            };
            assert(a.has_point(p) && b.has_point(p));
        }
    }

    /// The merge is the smallest box that encloses both.
    pub proof fn lemma_merged_is_smallest(a: AABB, b: AABB, c: AABB)
        requires
            c.contains_spec(a),
            c.contains_spec(b),
        ensures
            a.merged_spec(b).contains_spec(a),
            a.merged_spec(b).contains_spec(b),
            c.contains_spec(a.merged_spec(b)),
    {
    }
}

/// The least coordinate, along the axis that `d` selects, of the image of a
/// box with the corners `lo` and `hi` under a rotation with the row `d`.
pub open spec fn moved_low(d: AxisDir, lo: Int3, hi: Int3) -> int {
    if d.neg {
        -hi.at(d.axis)
    } else {
        lo.at(d.axis)
    }
}

/// The greatest coordinate of the image, as `moved_low` gives the least.
pub open spec fn moved_high(d: AxisDir, lo: Int3, hi: Int3) -> int {
    if d.neg {
        -lo.at(d.axis)
    } else {
        hi.at(d.axis)
    }
}

fn moved_interval(d: AxisDir, lo: &Point, hi: &Point, t: i32) -> (r: (i64, i64))
    ensures
        r.0 == moved_low(d, Int3::of_point(*lo), Int3::of_point(*hi)) + t,
        r.1 == moved_high(d, Int3::of_point(*lo), Int3::of_point(*hi)) + t,
{
    let l: i64 = lo.get(d.axis) as i64;
    let h: i64 = hi.get(d.axis) as i64;
    if d.neg {
        (-h + t as i64, -l + t as i64)
    } else {
        (l + t as i64, h + t as i64)
    }
}

fn in_range(v: i64) -> (r: bool)
    ensures
        r == fits_i32(v as int),
{
    -0x8000_0000 <= v && v <= 0x7fff_ffff
}

impl AABB {
    /// The corners of the image of the box under `m`: a rigid motion of the
    /// lattice takes a box to a box.
    pub open spec fn moved_corners(self, m: Isometry) -> (Int3, Int3) {
        let lo = Int3::of_point(self.mins);
        let hi = Int3::of_point(self.maxs);
        let t = m.translation;
        let r = m.rotation;
        (
            Int3 {
                x: moved_low(r.x, lo, hi) + t.x,
                y: moved_low(r.y, lo, hi) + t.y,
                z: moved_low(r.z, lo, hi) + t.z,
            },
            Int3 {
                x: moved_high(r.x, lo, hi) + t.x,
                y: moved_high(r.y, lo, hi) + t.y,
                z: moved_high(r.z, lo, hi) + t.z,
            },
        )
    }

    /// The image of the box under `m` is a box of the lattice.
    pub open spec fn can_transform_by(self, m: Isometry) -> bool {
        self.moved_corners(m).0.fits() && self.moved_corners(m).1.fits()
    }

    /// The image of the box under `m`, where it is a box of the lattice.
    pub open spec fn transform_by_spec(self, m: Isometry) -> AABB {
        let (lo, hi) = self.moved_corners(m);
        AABB {
            mins: Point { x: lo.x as i32, y: lo.y as i32, z: lo.z as i32 },
            maxs: Point { x: hi.x as i32, y: hi.y as i32, z: hi.z as i32 },
        }
    }

    /// The image of the box under `m`, if it is a box of the lattice.
    pub fn checked_transform_by(&self, m: &Isometry) -> (r: Option<AABB>)
        ensures
            r.is_some() == self.can_transform_by(*m),
            r matches Some(b) ==> b == self.transform_by_spec(*m),
    {
        let x = moved_interval(m.rotation.x, &self.mins, &self.maxs, m.translation.x);
        let y = moved_interval(m.rotation.y, &self.mins, &self.maxs, m.translation.y);
        let z = moved_interval(m.rotation.z, &self.mins, &self.maxs, m.translation.z);
        if in_range(x.0) && in_range(y.0) && in_range(z.0) && in_range(x.1) && in_range(y.1)
            && in_range(z.1) {
            Some(
                AABB {
                    mins: Point { x: x.0 as i32, y: y.0 as i32, z: z.0 as i32 },
                    maxs: Point { x: x.1 as i32, y: y.1 as i32, z: z.1 as i32 },
                },
            )
        } else {
            None
        }
    }

    /// The image of the box under `m`.
    pub fn transform_by(&self, m: &Isometry) -> (r: AABB)
        requires
            self.can_transform_by(*m),
        ensures
            r == self.transform_by_spec(*m),
    {
        let x = moved_interval(m.rotation.x, &self.mins, &self.maxs, m.translation.x);
        let y = moved_interval(m.rotation.y, &self.mins, &self.maxs, m.translation.y);
        let z = moved_interval(m.rotation.z, &self.mins, &self.maxs, m.translation.z);
        AABB {
            mins: Point { x: x.0 as i32, y: y.0 as i32, z: z.0 as i32 },
            maxs: Point { x: x.1 as i32, y: y.1 as i32, z: z.1 as i32 },
        }
    }

    /// The image of the box holds exactly the images of the points of the box.
    pub proof fn lemma_transform_by(self, m: Isometry, p: Point)
        requires
            m.wf(),
            self.can_transform_by(m),
            m.transform(Int3::of_point(p)).fits(),
        ensures
            ({
                let q = m.transform(Int3::of_point(p));
                self.has_point(p) <==> self.transform_by_spec(m).has_point(
                    Point { x: q.x as i32, y: q.y as i32, z: q.z as i32 },
                )
            }),
            self.is_valid() ==> self.transform_by_spec(m).is_valid(),
    {
    }
}

impl BoundingVolume for AABB {
    open spec fn bv_intersects(&self, other: &Self) -> bool {
        self.intersects_spec(*other)
    }

    open spec fn bv_contains(&self, other: &Self) -> bool {
        self.contains_spec(*other)
    }

    open spec fn bv_key(&self, a: Axis) -> int {
        self.mins.at(a) + self.maxs.at(a)
    }

    open spec fn bv_merged(&self, other: &Self) -> Self {
        self.merged_spec(*other)
    }

    open spec fn can_loosen(&self, amount: i32) -> bool {
        amount >= 0 && self.can_shift(-amount, -amount, -amount) && self.can_shift(
            amount as int,
            amount as int,
            amount as int,
        )
    }

    open spec fn is_loosened_from(&self, orig: &Self, amount: i32) -> bool {
        self.grown_from(*orig, amount as int)
    }

    open spec fn can_tighten(&self, amount: i32) -> bool {
        &&& amount >= 0
        &&& self.mins.x + amount <= self.maxs.x - amount
        &&& self.mins.y + amount <= self.maxs.y - amount
        &&& self.mins.z + amount <= self.maxs.z - amount
    }

    open spec fn is_tightened_from(&self, orig: &Self, amount: i32) -> bool {
        self.grown_from(*orig, -amount) && self.is_valid()
    }

    proof fn lemma_contains_reflexive(a: &Self) {
    }

    proof fn lemma_contains_transitive(a: &Self, b: &Self, c: &Self) {
    }

    proof fn lemma_merge_contains(a: &Self, b: &Self) {
    }

    proof fn lemma_intersects_enclosing(a: &Self, b: &Self, q: &Self) {
    }

    proof fn lemma_loosened_contains(l: &Self, orig: &Self, amount: i32) {
    }

    proof fn lemma_tightened_contained(t: &Self, orig: &Self, amount: i32) {
    }

    fn key(&self, a: Axis) -> (r: i64) {
        self.mins.get(a) as i64 + self.maxs.get(a) as i64
    }

    fn intersects(&self, other: &AABB) -> (r: bool) {
        self.mins.partial_le(&other.maxs) && self.maxs.partial_ge(&other.mins)
    }

    fn contains(&self, other: &AABB) -> (r: bool) {
        self.mins.partial_le(&other.mins) && self.maxs.partial_ge(&other.maxs)
    }

    fn merge(&mut self, other: &AABB) {
        self.mins = self.mins.inf(&other.mins);
        self.maxs = self.maxs.sup(&other.maxs);
    }

    fn merged(&self, other: &AABB) -> (r: AABB) {
        AABB { mins: self.mins.inf(&other.mins), maxs: self.maxs.sup(&other.maxs) }
    }

    fn loosen(&mut self, amount: i32) {
        self.mins = self.mins.translated(&Vector::repeat(-amount));
        self.maxs = self.maxs.translated(&Vector::repeat(amount));
    }

    fn loosened(&self, amount: i32) -> (r: AABB) {
        AABB {
            mins: self.mins.translated(&Vector::repeat(-amount)),
            maxs: self.maxs.translated(&Vector::repeat(amount)),
        }
    }

    fn tighten(&mut self, amount: i32) {
        self.mins = self.mins.translated(&Vector::repeat(amount));
        self.maxs = self.maxs.translated(&Vector::repeat(-amount));
    }

    fn tightened(&self, amount: i32) -> (r: AABB) {
        AABB::new(
            self.mins.translated(&Vector::repeat(amount)),
            self.maxs.translated(&Vector::repeat(-amount)),
        )
    }
}

} // verus!
