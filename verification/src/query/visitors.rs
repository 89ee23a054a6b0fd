//! The canonical visitors: they collect the payloads of the leaves whose
//! volume may interfere with a ray, a volume or a point.
use crate::bounding_volume::BoundingVolume;
use crate::bounding_volume::aabb::AABB;
use crate::math::Point;
use crate::partitioning::bvt::{BVTNode, BVT};
use crate::partitioning::bvt_visit::{between, BVTVisitor};
use crate::query::ray::Ray;
use vstd::prelude::*;

verus! {

/// A test on bounding volumes that an enclosing volume passes whenever an
/// enclosed one does, so that a whole subtree can be left out where its volume fails.
pub trait VolumeTest<BV: BoundingVolume>: Sized {
    /// Whether `bv` passes.
    spec fn passes(&self, bv: &BV) -> bool;

    proof fn lemma_enclosing_passes(&self, outer: &BV, inner: &BV)
        requires
            outer.bv_contains(inner),
            self.passes(inner),
        ensures
            self.passes(outer),
    ;

    fn test(&self, bv: &BV) -> (r: bool)
        ensures
            r == self.passes(bv),
    ;
}

/// Passes the boxes that a ray meets.
pub struct RayTest {
    pub ray: Ray,
}

/// Passes the volumes that intersect a given volume.
pub struct BoundingVolumeTest<BV> {
    pub bv: BV,
}

/// Passes the boxes that hold a point.
pub struct PointTest {
    pub point: Point,
}

impl VolumeTest<AABB> for RayTest {
    open spec fn passes(&self, bv: &AABB) -> bool {
        !bv.ray_misses(self.ray)
    }

    proof fn lemma_enclosing_passes(&self, outer: &AABB, inner: &AABB) {
        let (n, d) = choose|n: int, d: int|
            n >= 0 && d > 0 && #[trigger] inner.ray_hits_at(self.ray, n, d);
        outer.lemma_ray_hits_enclosing(*inner, self.ray, n, d);
    }

    fn test(&self, bv: &AABB) -> (r: bool) {
        bv.intersects_local_ray(&self.ray)
    }
}

impl<BV: BoundingVolume> VolumeTest<BV> for BoundingVolumeTest<BV> {
    open spec fn passes(&self, bv: &BV) -> bool {
        bv.bv_intersects(&self.bv)
    }

    proof fn lemma_enclosing_passes(&self, outer: &BV, inner: &BV) {
        BV::lemma_intersects_enclosing(outer, inner, &self.bv);
    }

    fn test(&self, bv: &BV) -> (r: bool) {
        bv.intersects(&self.bv)
    }
}

impl VolumeTest<AABB> for PointTest {
    open spec fn passes(&self, bv: &AABB) -> bool {
        bv.has_point(self.point)
    }

    proof fn lemma_enclosing_passes(&self, outer: &AABB, inner: &AABB) {
    }

    fn test(&self, bv: &AABB) -> (r: bool) {
        bv.mins.partial_le(&self.point) && self.point.partial_le(&bv.maxs)
    }
}

/// A visitor that descends where the volume passes its test and collects
/// the payload of every leaf whose volume passes.
pub struct InterferencesCollector<B, T> {
    pub test: T,
    pub collector: Vec<B>,
}

/// Collects the leaves whose box a ray meets.
pub type RayInterferencesCollector<B> = InterferencesCollector<B, RayTest>;

/// Collects the leaves whose volume intersects a given volume.
pub type BoundingVolumeInterferencesCollector<B, BV> = InterferencesCollector<
    B,
    BoundingVolumeTest<BV>,
>;

/// Collects the leaves whose box holds a point.
pub type PointInterferencesCollector<B> = InterferencesCollector<B, PointTest>;

/// The payloads of the leaves whose volume passes `test`, in the order of the leaves.
pub open spec fn passing<B, BV: BoundingVolume, T: VolumeTest<BV>>(
    leaves: Seq<(B, BV)>,
    test: T,
) -> Seq<B>
    decreases leaves.len(),
{
    if leaves.len() == 0 {
        Seq::empty()
    } else if test.passes(&leaves.last().1) {
        passing(leaves.drop_last(), test).push(leaves.last().0)
    } else {
        passing(leaves.drop_last(), test)
    }
}

/// The passing payloads of a concatenation are those of the parts, in order.
pub proof fn lemma_passing_concat<B, BV: BoundingVolume, T: VolumeTest<BV>>(
    a: Seq<(B, BV)>,
    b: Seq<(B, BV)>,
    test: T,
)
    ensures
        passing(a + b, test) == passing(a, test) + passing(b, test),
    decreases b.len(),
{
    if b.len() == 0 {
        assert(a + b =~= a);
        assert(passing(a, test) + passing(b, test) =~= passing(a, test));
    } else {
        assert((a + b).drop_last() =~= a + b.drop_last());
        assert((a + b).last() == b.last());
        lemma_passing_concat(a, b.drop_last(), test);
        if test.passes(&b.last().1) {
            assert(passing(a + b, test) =~= passing(a, test) + passing(b, test));
        }
    }
}

/// Where no volume passes, nothing is collected.
pub proof fn lemma_passing_none<B, BV: BoundingVolume, T: VolumeTest<BV>>(
    leaves: Seq<(B, BV)>,
    test: T,
)
    requires
        forall|i: int| 0 <= i < leaves.len() ==> !test.passes(&(#[trigger] leaves[i]).1),
    ensures
        passing(leaves, test) == Seq::<B>::empty(),
    decreases leaves.len(),
{
    if leaves.len() > 0 {
        assert forall|i: int| 0 <= i < leaves.drop_last().len() implies !test.passes(
            &(#[trigger] leaves.drop_last()[i]).1,
        ) by {
            assert(leaves.drop_last()[i] == leaves[i]);
        }
        lemma_passing_none(leaves.drop_last(), test);
        assert(!test.passes(&leaves[leaves.len() - 1].1));
    }
}

/// `b` is the payload of a leaf whose volume passes `test`.
pub open spec fn is_passing_payload<B, BV: BoundingVolume, T: VolumeTest<BV>>(
    leaves: Seq<(B, BV)>,
    test: T,
    b: B,
) -> bool {
    exists|i: int| 0 <= i < leaves.len() && test.passes(&(#[trigger] leaves[i]).1) && leaves[i].0 == b
}

/// The passing payloads are exactly the payloads of the leaves that pass.
pub proof fn lemma_passing_members<B, BV: BoundingVolume, T: VolumeTest<BV>>(
    leaves: Seq<(B, BV)>,
    test: T,
)
    ensures
        forall|i: int|
            0 <= i < leaves.len() && test.passes(&(#[trigger] leaves[i]).1) ==> passing(
                leaves,
                test,
            ).contains(leaves[i].0),
        forall|k: int|
            0 <= k < passing(leaves, test).len() ==> is_passing_payload(
                leaves,
                test,
                #[trigger] passing(leaves, test)[k],
            ),
    decreases leaves.len(),
{
    if leaves.len() > 0 {
        let init = leaves.drop_last();
        let n = leaves.len() - 1;
        lemma_passing_members(init, test);
        let out = passing(leaves, test);
        let prev = passing(init, test);
        assert forall|i: int| 0 <= i < leaves.len() && test.passes(
            &(#[trigger] leaves[i]).1,
        ) implies out.contains(leaves[i].0) by {
            if i < n {
                assert(init[i] == leaves[i]);
                let k = choose|k: int| 0 <= k < prev.len() && prev[k] == leaves[i].0;
                assert(out[k] == leaves[i].0);
            } else {
                assert(out[out.len() - 1] == leaves[i].0);
            }
        }
        assert forall|k: int| 0 <= k < out.len() implies is_passing_payload(
            leaves,
            test,
            #[trigger] out[k],
        ) by {
            if k < prev.len() {
                assert(out[k] == prev[k]);
                assert(is_passing_payload(init, test, prev[k]));
                let i = choose|i: int|
                    0 <= i < init.len() && test.passes(&(#[trigger] init[i]).1) && init[i].0
                        == prev[k];
                assert(leaves[i] == init[i]);
            } else {
                assert(leaves[n].0 == out[k]);
            }
        }
    }
}

impl<B: Copy, T> InterferencesCollector<B, T> {
    /// A collector with the given test that has collected nothing yet.
    pub fn new(test: T) -> (r: Self)
        ensures
            r.test == test,
            r.collector@ == Seq::<B>::empty(),
    {
        InterferencesCollector { test, collector: Vec::new() }
    }

    /// What has been collected.
    pub fn collected(&self) -> (r: &Vec<B>)
        ensures
            r@ == self.collector@,
    {
        &self.collector
    }
}

impl<B: Copy, BV: BoundingVolume, T: VolumeTest<BV>> BVTVisitor<B, BV> for InterferencesCollector<
    B,
    T,
> {
    open spec fn internal_step(self, bv: BV, after: Self, descend: bool) -> bool {
        &&& after.test == self.test
        &&& after.collector@ == self.collector@
        &&& descend == self.test.passes(&bv)
    }

    open spec fn leaf_step(self, b: B, bv: BV, after: Self, keep_going: bool) -> bool {
        &&& keep_going
        &&& after.test == self.test
        &&& after.collector@ == if self.test.passes(&bv) {
            self.collector@.push(b)
        } else {
            self.collector@
        }
    }

    fn visit_internal(&mut self, bv: &BV) -> (descend: bool) {
        self.test.test(bv)
    }

    fn visit_leaf(&mut self, b: &B, bv: &BV) -> (keep_going: bool) {
        if self.test.test(bv) {
            self.collector.push(*b);
        }
        true
    }
}

impl<B: Copy, BV: BoundingVolume> BVTNode<B, BV> {
    /// A traversal by a collector appends the payloads of the leaves whose
    /// volume passes the test, in the order of the leaves, and never stops early.
    pub proof fn lemma_collector_visit<T: VolumeTest<BV>>(
        self,
        before: InterferencesCollector<B, T>,
        after: InterferencesCollector<B, T>,
        keep_going: bool,
    )
        requires
            self.wf(),
            self.visited(before, after, keep_going),
        ensures
            keep_going,
            after.test == before.test,
            after.collector@ == before.collector@ + passing(self.leaves(), before.test),
        decreases self,
    {
        match self {
            BVTNode::Leaf { bv, b } => {
                let l = self.leaves();
                assert(l.drop_last() =~= Seq::empty());
                assert(passing(l.drop_last(), before.test) =~= Seq::<B>::empty());
                assert(l.last() == (b, bv));
                if before.test.passes(&bv) {
                    assert(passing(l, before.test) =~= seq![b]);
                    assert(before.collector@.push(b) =~= before.collector@ + seq![b]);
                } else {
                    assert(passing(l, before.test) =~= Seq::<B>::empty());
                    assert(before.collector@ =~= before.collector@ + Seq::<B>::empty());
                }
            },
            BVTNode::Internal { bv, left, right } => {
                if keep_going && before.internal_step(bv, after, false) {
                    assert forall|i: int| 0 <= i < self.leaves().len() implies !before.test.passes(
                        &(#[trigger] self.leaves()[i]).1,
                    ) by {
                        let x = self.leaves()[i];
                        self.lemma_leaf_is_node(i);
                        self.lemma_encloses_descendants(BVTNode::Leaf { bv: x.1, b: x.0 });
                        if before.test.passes(&x.1) {
                            before.test.lemma_enclosing_passes(&bv, &x.1);
                        }
                    }
                    lemma_passing_none(self.leaves(), before.test);
                    assert(before.collector@ =~= before.collector@ + Seq::<B>::empty());
                } else {
                    let (mid, mid2) = choose|
                        mid: InterferencesCollector<B, T>,
                        mid2: InterferencesCollector<B, T>,
                    |
                        {
                            &&& #[trigger] between(mid, mid2)
                            &&& before.internal_step(bv, mid, true)
                            &&& if keep_going {
                                left.visited(mid, mid2, true) && right.visited(mid2, after, true)
                            } else {
                                (left.visited(mid, mid2, false) && mid2 == after) || (left.visited(
                                    mid,
                                    mid2,
                                    true,
                                ) && right.visited(mid2, after, false))
                            }
                        };
                    if keep_going {
                        left.lemma_collector_visit(mid, mid2, true);
                        right.lemma_collector_visit(mid2, after, true);
                        lemma_passing_concat(left.leaves(), right.leaves(), before.test);
                        assert(after.collector@ =~= before.collector@ + passing(
                            self.leaves(),
                            before.test,
                        ));
                    } else {
                        if left.visited(mid, mid2, false) {
                            left.lemma_collector_visit(mid, mid2, false);
                        } else {
                            left.lemma_collector_visit(mid, mid2, true);
                            right.lemma_collector_visit(mid2, after, false);
                        }
                    }
                }
            },
        }
    }
}

impl<B: Copy, BV: BoundingVolume> BVT<B, BV> {
    /// A traversal of a well-formed tree by a collector appends exactly the
    /// payloads of the leaves whose volume passes the test, in the order of
    /// the leaves: every leaf that passes is collected, and nothing else is.
    pub proof fn lemma_collector_complete<T: VolumeTest<BV>>(
        self,
        before: InterferencesCollector<B, T>,
        after: InterferencesCollector<B, T>,
    )
        requires
            self.wf(),
            self.visited(before, after),
        ensures
            after.collector@ == before.collector@ + passing(self.leaves(), before.test),
            forall|i: int|
                0 <= i < self.leaves().len() && before.test.passes(&(#[trigger] self.leaves()[i]).1)
                    ==> after.collector@.contains(self.leaves()[i].0),
            forall|k: int|
                before.collector@.len() <= k < after.collector@.len() ==> is_passing_payload(
                    self.leaves(),
                    before.test,
                    #[trigger] after.collector@[k],
                ),
    {
        let p = passing(self.leaves(), before.test);
        assert(after.collector@ == before.collector@ + p) by {
            match self.root {
                Some(n) => {
                    let k = choose|k: bool| #[trigger] n.visited(before, after, k);
                    n.lemma_collector_visit(before, after, k);
                },
                None => {
                    assert(before.collector@ =~= before.collector@ + Seq::<B>::empty());
                },
            }
        }
        lemma_passing_members(self.leaves(), before.test);
        lemma_appended_members(self.leaves(), before.test, before.collector@, after.collector@);
    }
}

proof fn lemma_appended_members<B, BV: BoundingVolume, T: VolumeTest<BV>>(
    leaves: Seq<(B, BV)>,
    test: T,
    a: Seq<B>,
    c: Seq<B>,
)
    requires
        c == a + passing(leaves, test),
        forall|i: int|
            0 <= i < leaves.len() && test.passes(&(#[trigger] leaves[i]).1) ==> passing(
                leaves,
                test,
            ).contains(leaves[i].0),
        forall|k: int|
            0 <= k < passing(leaves, test).len() ==> is_passing_payload(
                leaves,
                test,
                #[trigger] passing(leaves, test)[k],
            ),
    ensures
        forall|i: int|
            0 <= i < leaves.len() && test.passes(&(#[trigger] leaves[i]).1) ==> c.contains(leaves[i].0),
        forall|k: int| a.len() <= k < c.len() ==> is_passing_payload(leaves, test, #[trigger] c[k]),
{
    let p = passing(leaves, test);
    assert forall|i: int| 0 <= i < leaves.len() && test.passes(
        &(#[trigger] leaves[i]).1,
    ) implies c.contains(leaves[i].0) by {
        assert(p.contains(leaves[i].0));
        let k = choose|k: int| 0 <= k < p.len() && p[k] == leaves[i].0;
        assert(c[a.len() + k] == leaves[i].0);
    }
    assert forall|k: int| a.len() <= k < c.len() implies is_passing_payload(
        leaves,
        test,
        #[trigger] c[k],
    ) by {
        assert(c[k] == p[k - a.len()]);
    }
}

} // verus!
