//! Rigid motions of the lattice: a signed permutation of the axes followed by
//! a translation.
use crate::math::{fits_i32, Axis, Point, Vector, WideVector};
use vstd::prelude::*;

verus! {

/// A triple of mathematical integers: a point or vector before it is
/// checked against the range of the lattice.
pub struct Int3 {
    pub x: int,
    pub y: int,
    pub z: int,
}

impl Int3 {
    pub open spec fn of_point(p: Point) -> Int3 {
        Int3 { x: p.x as int, y: p.y as int, z: p.z as int }
    }

    pub open spec fn of_vector(v: Vector) -> Int3 {
        Int3 { x: v.x as int, y: v.y as int, z: v.z as int }
    }

    pub open spec fn of_wide(v: WideVector) -> Int3 {
        Int3 { x: v.x as int, y: v.y as int, z: v.z as int }
    }

    pub open spec fn is_wide(self, v: WideVector) -> bool {
        self.x == v.x && self.y == v.y && self.z == v.z
    }

    pub open spec fn at(self, a: Axis) -> int {
        match a {
            Axis::X => self.x,
            Axis::Y => self.y,
            Axis::Z => self.z,
        }
    }

    pub open spec fn plus(self, o: Int3) -> Int3 {
        Int3 { x: self.x + o.x, y: self.y + o.y, z: self.z + o.z }
    }

    pub open spec fn minus(self, o: Int3) -> Int3 {
        Int3 { x: self.x - o.x, y: self.y - o.y, z: self.z - o.z }
    }

    pub open spec fn fits(self) -> bool {
        fits_i32(self.x) && fits_i32(self.y) && fits_i32(self.z)
    }

    pub open spec fn is_point(self, p: Point) -> bool {
        self.x == p.x && self.y == p.y && self.z == p.z
    }

    pub open spec fn is_vector(self, v: Vector) -> bool {
        self.x == v.x && self.y == v.y && self.z == v.z
    }
}

/// An axis with an orientation: where one axis of the frame is sent.
#[derive(Clone, Copy, Debug, PartialEq, Eq, Structural)]
pub struct AxisDir {
    pub axis: Axis,
    pub neg: bool,
}

impl AxisDir {
    /// The component of `v` that this signed axis selects.
    pub open spec fn pick(self, v: Int3) -> int {
        if self.neg {
            -v.at(self.axis)
        } else {
            v.at(self.axis)
        }
    }

    fn pick_exec(&self, x: i64, y: i64, z: i64) -> (r: i64)
        requires
            x > i64::MIN,
            y > i64::MIN,
            z > i64::MIN,
        ensures
            r == self.pick(Int3 { x: x as int, y: y as int, z: z as int }),
    {
        let c: i64 = match self.axis {
            Axis::X => x,
            Axis::Y => y,
            Axis::Z => z,
        };
        if self.neg {
            -c
        } else {
            c
        }
    }
}

/// A signed permutation of the axes. The rotated vector has, as its `x`
/// component, the component of the argument that `x` selects, and likewise
/// for `y` and `z`.
///
/// These are the maps of the lattice that keep lengths and angles: the
/// rotations by quarter turns, and the same followed by a mirror image.
/// `is_proper` tells the rotations from the mirror images.
#[derive(Clone, Copy, Debug, PartialEq, Eq, Structural)]
pub struct Rotation {
    pub x: AxisDir,
    pub y: AxisDir,
    pub z: AxisDir,
}

impl Rotation {
    /// The three rows select three different axes.
    pub open spec fn wf(self) -> bool {
        self.x.axis != self.y.axis && self.y.axis != self.z.axis && self.x.axis != self.z.axis
    }

    /// The number of rows that are turned around, by parity.
    pub open spec fn odd_signs(self) -> bool {
        (self.x.neg != self.y.neg) != self.z.neg
    }

    /// The permutation of the axes is odd: it exchanges two axes.
    pub open spec fn odd_permutation(self) -> bool {
        match (self.x.axis, self.y.axis, self.z.axis) {
            (Axis::X, Axis::Y, Axis::Z) => false,
            (Axis::Y, Axis::Z, Axis::X) => false,
            (Axis::Z, Axis::X, Axis::Y) => false,
            _ => true,
        }
    }

    /// The map is a rotation, not a mirror image: its determinant is one.
    pub open spec fn is_proper_spec(self) -> bool {
        self.odd_signs() == self.odd_permutation()
    }

    /// Whether the map is a rotation, not a mirror image.
    pub fn is_proper(&self) -> (r: bool)
        requires
            self.wf(),
        ensures
            r == self.is_proper_spec(),
    {
        let odd_signs = (self.x.neg != self.y.neg) != self.z.neg;
        let even_permutation = match (self.x.axis, self.y.axis, self.z.axis) {
            (Axis::X, Axis::Y, Axis::Z) => true,
            (Axis::Y, Axis::Z, Axis::X) => true,
            (Axis::Z, Axis::X, Axis::Y) => true,
            _ => false,
        };
        odd_signs != even_permutation
    }

    pub open spec fn identity_spec() -> Rotation {
        Rotation {
            x: AxisDir { axis: Axis::X, neg: false },
            y: AxisDir { axis: Axis::Y, neg: false },
            z: AxisDir { axis: Axis::Z, neg: false },
        }
    }

    /// The image of `v`.
    pub open spec fn apply(self, v: Int3) -> Int3 {
        Int3 { x: self.x.pick(v), y: self.y.pick(v), z: self.z.pick(v) }
    }

    pub open spec fn row(self, a: Axis) -> AxisDir {
        match a {
            Axis::X => self.x,
            Axis::Y => self.y,
            Axis::Z => self.z,
        }
    }

    /// The row of the inverse for axis `j`: the row of `self` that selects
    /// `j`, with its sign.
    pub open spec fn inverse_row(self, j: Axis) -> AxisDir {
        if self.x.axis == j {
            AxisDir { axis: Axis::X, neg: self.x.neg }
        } else if self.y.axis == j {
            AxisDir { axis: Axis::Y, neg: self.y.neg }
        } else {
            AxisDir { axis: Axis::Z, neg: self.z.neg }
        }
    }

    pub open spec fn inverse_spec(self) -> Rotation {
        Rotation {
            x: self.inverse_row(Axis::X),
            y: self.inverse_row(Axis::Y),
            z: self.inverse_row(Axis::Z),
        }
    }

    /// The row of `self` after `o`: `self` picks a row of `o`, and the signs
    /// combine.
    pub open spec fn then_row(d: AxisDir, o: Rotation) -> AxisDir {
        AxisDir { axis: o.row(d.axis).axis, neg: d.neg != o.row(d.axis).neg }
    }

    /// The rotation that applies `o` first and `self` second.
    pub open spec fn compose_spec(self, o: Rotation) -> Rotation {
        Rotation {
            x: Self::then_row(self.x, o),
            y: Self::then_row(self.y, o),
            z: Self::then_row(self.z, o),
        }
    }

    /// The inverse undoes the rotation, on either side.
    pub proof fn lemma_inverse(self, v: Int3)
        requires
            self.wf(),
        ensures
            self.inverse_spec().wf(),
            self.inverse_spec().apply(self.apply(v)) == v,
            self.apply(self.inverse_spec().apply(v)) == v,
    {
    }

    /// Composition applies the right-hand rotation first.
    pub proof fn lemma_compose(self, o: Rotation, v: Int3)
        requires
            self.wf(),
            o.wf(),
        ensures
            self.compose_spec(o).wf(),
            self.compose_spec(o).apply(v) == self.apply(o.apply(v)),
    {
    }

    /// A rotation preserves dot products, and so lengths and angles.
    pub proof fn lemma_preserves_dot(self, a: Int3, b: Int3)
        requires
            self.wf(),
        ensures
            ({
                let ra = self.apply(a);
                let rb = self.apply(b);
                ra.x * rb.x + ra.y * rb.y + ra.z * rb.z == a.x * b.x + a.y * b.y + a.z * b.z
            }),
    {
        assert(forall|p: int, q: int| #![trigger p * q] (-p) * (-q) == p * q) by (nonlinear_arith);
    }

    pub fn identity() -> (r: Rotation)
        ensures
            r == Self::identity_spec(),
            r.wf(),
    {
        Rotation {
            x: AxisDir { axis: Axis::X, neg: false },
            y: AxisDir { axis: Axis::Y, neg: false },
            z: AxisDir { axis: Axis::Z, neg: false },
        }
    }

    /// A rotation with the given rows, if they select three different axes.
    pub fn new(x: AxisDir, y: AxisDir, z: AxisDir) -> (r: Option<Rotation>)
        ensures
            r == if (Rotation { x, y, z }).wf() {
                Some(Rotation { x, y, z })
            } else {
                None
            },
    {
        if x.axis != y.axis && y.axis != z.axis && x.axis != z.axis {
            Some(Rotation { x, y, z })
        } else {
            None
        }
    }

    fn inverse_row_exec(&self, j: Axis) -> (r: AxisDir)
        ensures
            r == self.inverse_row(j),
    {
        if self.x.axis == j {
            AxisDir { axis: Axis::X, neg: self.x.neg }
        } else if self.y.axis == j {
            AxisDir { axis: Axis::Y, neg: self.y.neg }
        } else {
            AxisDir { axis: Axis::Z, neg: self.z.neg }
        }
    }

    pub fn inverse(&self) -> (r: Rotation)
        requires
            self.wf(),
        ensures
            r == self.inverse_spec(),
            r.wf(),
    {
        Rotation {
            x: self.inverse_row_exec(Axis::X),
            y: self.inverse_row_exec(Axis::Y),
            z: self.inverse_row_exec(Axis::Z),
        }
    }

    fn row_exec(&self, a: Axis) -> (r: AxisDir)
        ensures
            r == self.row(a),
    {
        match a {
            Axis::X => self.x,
            Axis::Y => self.y,
            Axis::Z => self.z,
        }
    }

    fn then_row_exec(d: AxisDir, o: &Rotation) -> (r: AxisDir)
        ensures
            r == Self::then_row(d, *o),
    {
        let t = o.row_exec(d.axis);
        AxisDir { axis: t.axis, neg: d.neg != t.neg }
    }

    /// The rotation that applies `o` first and `self` second.
    pub fn compose(&self, o: &Rotation) -> (r: Rotation)
        requires
            self.wf(),
            o.wf(),
        ensures
            r == self.compose_spec(*o),
            r.wf(),
    {
        Rotation {
            x: Self::then_row_exec(self.x, o),
            y: Self::then_row_exec(self.y, o),
            z: Self::then_row_exec(self.z, o),
        }
    }

    /// The image of a triple of 64-bit values.
    pub(crate) fn apply_exec(&self, x: i64, y: i64, z: i64) -> (r: (i64, i64, i64))
        requires
            x > i64::MIN,
            y > i64::MIN,
            z > i64::MIN,
        ensures
            (Int3 { x: r.0 as int, y: r.1 as int, z: r.2 as int }) == self.apply(
                Int3 { x: x as int, y: y as int, z: z as int },
            ),
    {
        (self.x.pick_exec(x, y, z), self.y.pick_exec(x, y, z), self.z.pick_exec(x, y, z))
    }
}

/// Whether `v` is a coordinate of the lattice.
fn in_lattice(v: i64) -> (r: bool)
    ensures
        r == fits_i32(v as int),
{
    -0x8000_0000 <= v && v <= 0x7fff_ffff
}

/// A rigid motion: `p` goes to `rotation(p) + translation`.
#[derive(Clone, Copy, Debug, PartialEq, Eq, Structural)]
pub struct Isometry {
    pub rotation: Rotation,
    pub translation: Vector,
}

impl Isometry {
    pub open spec fn wf(self) -> bool {
        self.rotation.wf()
    }

    pub open spec fn identity_spec() -> Isometry {
        Isometry { rotation: Rotation::identity_spec(), translation: Vector { x: 0, y: 0, z: 0 } }
    }

    /// The image of the point `p`.
    pub open spec fn transform(self, p: Int3) -> Int3 {
        self.rotation.apply(p).plus(Int3::of_vector(self.translation))
    }

    /// The point whose image is `p`.
    pub open spec fn inverse_transform(self, p: Int3) -> Int3 {
        self.rotation.inverse_spec().apply(p.minus(Int3::of_vector(self.translation)))
    }

    /// The image of the vector `v`: translations do not move vectors.
    pub open spec fn rotate(self, v: Int3) -> Int3 {
        self.rotation.apply(v)
    }

    /// The vector whose image is `v`.
    pub open spec fn inverse_rotate(self, v: Int3) -> Int3 {
        self.rotation.inverse_spec().apply(v)
    }

    /// The translation of the inverse motion.
    pub open spec fn inverse_translation(self) -> Int3 {
        self.rotation.inverse_spec().apply(
            Int3 { x: -self.translation.x, y: -self.translation.y, z: -self.translation.z },
        )
    }

    /// The translation of `self` after `o`.
    pub open spec fn composed_translation(self, o: Isometry) -> Int3 {
        self.transform(Int3::of_vector(o.translation))
    }

    /// The motion that applies `o` first and `self` second, where its
    /// translation is representable.
    pub open spec fn compose_spec(self, o: Isometry) -> Isometry {
        let t = self.composed_translation(o);
        Isometry {
            rotation: self.rotation.compose_spec(o.rotation),
            translation: Vector { x: t.x as i32, y: t.y as i32, z: t.z as i32 },
        }
    }

    /// The inverse motion, where its translation is representable.
    pub open spec fn inverse_spec(self) -> Isometry {
        let t = self.inverse_translation();
        Isometry {
            rotation: self.rotation.inverse_spec(),
            translation: Vector { x: t.x as i32, y: t.y as i32, z: t.z as i32 },
        }
    }

    /// Transforming and transforming back is the identity, on either side.
    pub proof fn lemma_round_trip(self, p: Int3)
        requires
            self.wf(),
        ensures
            self.inverse_transform(self.transform(p)) == p,
            self.transform(self.inverse_transform(p)) == p,
            self.inverse_rotate(self.rotate(p)) == p,
            self.rotate(self.inverse_rotate(p)) == p,
    {
        self.rotation.lemma_inverse(p);
        self.rotation.lemma_inverse(p.minus(Int3::of_vector(self.translation)));
        let q = self.rotation.apply(p).plus(Int3::of_vector(self.translation));
        assert(q.minus(Int3::of_vector(self.translation)) == self.rotation.apply(p));
    }

    /// The inverse motion transforms as `inverse_transform` does.
    pub proof fn lemma_inverse(self, p: Int3)
        requires
            self.wf(),
            self.inverse_translation().fits(),
        ensures
            self.inverse_spec().wf(),
            self.inverse_spec().transform(p) == self.inverse_transform(p),
            self.inverse_spec().rotate(p) == self.inverse_rotate(p),
    {
        self.rotation.lemma_inverse(p);
    }

    /// The composed motion applies the right-hand motion first.
    pub proof fn lemma_compose(self, o: Isometry, p: Int3)
        requires
            self.wf(),
            o.wf(),
            self.composed_translation(o).fits(),
        ensures
            self.compose_spec(o).wf(),
            self.compose_spec(o).transform(p) == self.transform(o.transform(p)),
            self.compose_spec(o).rotate(p) == self.rotate(o.rotate(p)),
    {
        self.rotation.lemma_compose(o.rotation, p);
    }

    /// A motion after its inverse after a second motion is the second motion.
    pub proof fn lemma_compose_inverse(self, o: Isometry)
        requires
            self.wf(),
            o.wf(),
            self.inverse_translation().fits(),
            self.inverse_spec().composed_translation(o).fits(),
        ensures
            self.composed_translation(self.inverse_spec().compose_spec(o)).fits(),
            self.compose_spec(self.inverse_spec().compose_spec(o)) == o,
    {
        let inv = self.inverse_spec();
        let rel = inv.compose_spec(o);
        self.lemma_inverse(Int3::of_vector(o.translation));
        self.lemma_round_trip(Int3::of_vector(o.translation));
        assert(Int3::of_vector(rel.translation) == self.inverse_transform(
            Int3::of_vector(o.translation),
        ));
    }

    pub fn identity() -> (r: Isometry)
        ensures
            r == Self::identity_spec(),
            r.wf(),
    {
        Isometry { rotation: Rotation::identity(), translation: Vector::zero() }
    }

    /// The pure translation by `t`.
    pub fn from_translation(t: Vector) -> (r: Isometry)
        ensures
            r == (Isometry { rotation: Rotation::identity_spec(), translation: t }),
            r.wf(),
    {
        Isometry { rotation: Rotation::identity(), translation: t }
    }

    /// The motion that rotates by `rotation` and then translates by `translation`.
    pub fn new(translation: Vector, rotation: Rotation) -> (r: Isometry)
        requires
            rotation.wf(),
        ensures
            r == (Isometry { rotation, translation }),
            r.wf(),
    {
        Isometry { rotation, translation }
    }

    /// The image of `p`.
    pub fn transform_point(&self, p: &Point) -> (r: Point)
        requires
            self.wf(),
            self.transform(Int3::of_point(*p)).fits(),
        ensures
            self.transform(Int3::of_point(*p)).is_point(r),
    {
        let q = self.rotation.apply_exec(p.x as i64, p.y as i64, p.z as i64);
        Point {
            x: (q.0 + self.translation.x as i64) as i32,
            y: (q.1 + self.translation.y as i64) as i32,
            z: (q.2 + self.translation.z as i64) as i32,
        }
    }

    /// The point whose image is `p`.
    pub fn inverse_transform_point(&self, p: &Point) -> (r: Point)
        requires
            self.wf(),
            self.inverse_transform(Int3::of_point(*p)).fits(),
        ensures
            self.inverse_transform(Int3::of_point(*p)).is_point(r),
    {
        let inv = self.rotation.inverse();
        let q = inv.apply_exec(
            p.x as i64 - self.translation.x as i64,
            p.y as i64 - self.translation.y as i64,
            p.z as i64 - self.translation.z as i64,
        );
        Point { x: q.0 as i32, y: q.1 as i32, z: q.2 as i32 }
    }

    /// The point whose image is `p`, if it is a point of the lattice.
    pub fn checked_inverse_transform_point(&self, p: &Point) -> (r: Option<Point>)
        requires
            self.wf(),
        ensures
            r.is_some() == self.inverse_transform(Int3::of_point(*p)).fits(),
            r matches Some(q) ==> self.inverse_transform(Int3::of_point(*p)).is_point(q),
    {
        let inv = self.rotation.inverse();
        let q = inv.apply_exec(
            p.x as i64 - self.translation.x as i64,
            p.y as i64 - self.translation.y as i64,
            p.z as i64 - self.translation.z as i64,
        );
        if in_lattice(q.0) && in_lattice(q.1) && in_lattice(q.2) {
            Some(Point { x: q.0 as i32, y: q.1 as i32, z: q.2 as i32 })
        } else {
            None
        }
    }

    /// The image of `p`, if it is a point of the lattice.
    pub fn checked_transform_point(&self, p: &Point) -> (r: Option<Point>)
        requires
            self.wf(),
        ensures
            r.is_some() == self.transform(Int3::of_point(*p)).fits(),
            r matches Some(q) ==> self.transform(Int3::of_point(*p)).is_point(q),
    {
        let q = self.rotation.apply_exec(p.x as i64, p.y as i64, p.z as i64);
        let x: i64 = q.0 + self.translation.x as i64;
        let y: i64 = q.1 + self.translation.y as i64;
        let z: i64 = q.2 + self.translation.z as i64;
        if in_lattice(x) && in_lattice(y) && in_lattice(z) {
            Some(Point { x: x as i32, y: y as i32, z: z as i32 })
        } else {
            None
        }
    }

    /// The vector whose image is `v`, if it is a vector of the lattice.
    pub fn checked_inverse_rotate_vector(&self, v: &Vector) -> (r: Option<Vector>)
        requires
            self.wf(),
        ensures
            r.is_some() == self.inverse_rotate(Int3::of_vector(*v)).fits(),
            r matches Some(q) ==> self.inverse_rotate(Int3::of_vector(*v)).is_vector(q),
    {
        let inv = self.rotation.inverse();
        let q = inv.apply_exec(v.x as i64, v.y as i64, v.z as i64);
        if in_lattice(q.0) && in_lattice(q.1) && in_lattice(q.2) {
            Some(Vector { x: q.0 as i32, y: q.1 as i32, z: q.2 as i32 })
        } else {
            None
        }
    }

    /// The inverse motion, if its translation is a vector of the lattice.
    pub fn checked_inverse(&self) -> (r: Option<Isometry>)
        requires
            self.wf(),
        ensures
            r.is_some() == self.inverse_translation().fits(),
            r matches Some(i) ==> i == self.inverse_spec() && i.wf(),
    {
        let inv = self.rotation.inverse();
        let q = inv.apply_exec(
            -(self.translation.x as i64),
            -(self.translation.y as i64),
            -(self.translation.z as i64),
        );
        if in_lattice(q.0) && in_lattice(q.1) && in_lattice(q.2) {
            Some(
                Isometry {
                    rotation: inv,
                    translation: Vector { x: q.0 as i32, y: q.1 as i32, z: q.2 as i32 },
                },
            )
        } else {
            None
        }
    }

    /// The image of the vector `v`.
    pub fn rotate_vector(&self, v: &Vector) -> (r: Vector)
        requires
            self.wf(),
            self.rotate(Int3::of_vector(*v)).fits(),
        ensures
            self.rotate(Int3::of_vector(*v)).is_vector(r),
    {
        let q = self.rotation.apply_exec(v.x as i64, v.y as i64, v.z as i64);
        Vector { x: q.0 as i32, y: q.1 as i32, z: q.2 as i32 }
    }

    /// The image of the direction `v`.
    pub fn rotate_wide(&self, v: &WideVector) -> (r: WideVector)
        requires
            self.wf(),
            v.negatable(),
        ensures
            self.rotate(Int3::of_wide(*v)).is_wide(r),
            r.negatable(),
    {
        let q = self.rotation.apply_exec(v.x, v.y, v.z);
        WideVector { x: q.0, y: q.1, z: q.2 }
    }

    /// The vector whose image is `v`.
    pub fn inverse_rotate_vector(&self, v: &Vector) -> (r: Vector)
        requires
            self.wf(),
            self.inverse_rotate(Int3::of_vector(*v)).fits(),
        ensures
            self.inverse_rotate(Int3::of_vector(*v)).is_vector(r),
    {
        let inv = self.rotation.inverse();
        let q = inv.apply_exec(v.x as i64, v.y as i64, v.z as i64);
        Vector { x: q.0 as i32, y: q.1 as i32, z: q.2 as i32 }
    }

    /// The inverse motion.
    pub fn inverse(&self) -> (r: Isometry)
        requires
            self.wf(),
            self.inverse_translation().fits(),
        ensures
            r == self.inverse_spec(),
            r.wf(),
            self.inverse_translation().is_vector(r.translation),
    {
        let inv = self.rotation.inverse();
        let q = inv.apply_exec(
            -(self.translation.x as i64),
            -(self.translation.y as i64),
            -(self.translation.z as i64),
        );
        Isometry { rotation: inv, translation: Vector { x: q.0 as i32, y: q.1 as i32, z: q.2 as i32 } }
    }

    /// The motion that applies `o` first and `self` second.
    pub fn compose(&self, o: &Isometry) -> (r: Isometry)
        requires
            self.wf(),
            o.wf(),
            self.composed_translation(*o).fits(),
        ensures
            r == self.compose_spec(*o),
            r.wf(),
            self.composed_translation(*o).is_vector(r.translation),
    {
        let q = self.rotation.apply_exec(
            o.translation.x as i64,
            o.translation.y as i64,
            o.translation.z as i64,
        );
        Isometry {
            rotation: self.rotation.compose(&o.rotation),
            translation: Vector {
                x: (q.0 + self.translation.x as i64) as i32,
                y: (q.1 + self.translation.y as i64) as i32,
                z: (q.2 + self.translation.z as i64) as i32,
            },
        }
    }

    /// Whether `self` after `o` is representable, and the composed motion if so.
    pub fn checked_compose(&self, o: &Isometry) -> (r: Option<Isometry>)
        requires
            self.wf(),
            o.wf(),
        ensures
            r.is_some() == self.composed_translation(*o).fits(),
            r matches Some(c) ==> c == self.compose_spec(*o) && c.wf(),
    {
        let q = self.rotation.apply_exec(
            o.translation.x as i64,
            o.translation.y as i64,
            o.translation.z as i64,
        );
        let x: i64 = q.0 + self.translation.x as i64;
        let y: i64 = q.1 + self.translation.y as i64;
        let z: i64 = q.2 + self.translation.z as i64;
        if !in_lattice(x) || !in_lattice(y) || !in_lattice(z) {
            None
        } else {
            Some(
                Isometry {
                    rotation: self.rotation.compose(&o.rotation),
                    translation: Vector { x: x as i32, y: y as i32, z: z as i32 },
                },
            )
        }
    }
}

} // verus!
