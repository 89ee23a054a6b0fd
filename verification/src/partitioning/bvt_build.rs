//! Balanced construction of the bounding-volume tree by median splits.
use crate::bounding_volume::BoundingVolume;
use crate::math::Axis;
use crate::partitioning::bvt::{
    balanced_tree, depth_bound, key_max, key_min, leaf_key, lemma_depth_bound_monotone,
    lemma_keys_of_permutation, lemma_sorted_concat, lemma_sorted_head, lemma_sorted_is_sorted,
    lemma_sorted_len, merged_by_axis, sorted_by_axis, sorted_by_key, widest_axis, BVTNode, BVT,
};
use vstd::prelude::*;
use vstd::seq_lib::lemma_multiset_commutative;

verus! {

/// The least and the greatest key of the leaves along `a`.
fn key_range<B, BV: BoundingVolume>(leaves: &Vec<(B, BV)>, a: Axis) -> (r: (i64, i64))
    requires
        leaves.len() >= 1,
    ensures
        r.0 == key_min(leaves@, a),
        r.1 == key_max(leaves@, a),
{
    let first: i64 = leaves[0].1.key(a);
    let mut lo: i64 = first;
    let mut hi: i64 = first;
    let mut i: usize = 1;
    assert(leaves@.take(1)[0] == leaves@[0]);
    while i < leaves.len()
        invariant
            1 <= i <= leaves.len(),
            lo == key_min(leaves@.take(i as int), a),
            hi == key_max(leaves@.take(i as int), a),
        decreases leaves.len() - i,
    {
        let k: i64 = leaves[i].1.key(a);
        proof {
            let t = leaves@.take(i as int + 1);
            assert(t.drop_last() =~= leaves@.take(i as int));
            assert(t.last() == leaves@[i as int]);
        }
        if k < lo {
            lo = k;
        }
        if k > hi {
            hi = k;
        }
        i = i + 1;
    }
    assert(leaves@.take(leaves.len() as int) =~= leaves@);
    (lo, hi)
}

/// The axis along which the centers of the leaves spread most.
fn choose_axis<B, BV: BoundingVolume>(leaves: &Vec<(B, BV)>) -> (r: Axis)
    requires
        leaves.len() >= 1,
    ensures
        r == widest_axis(leaves@),
{
    let rx = key_range(leaves, Axis::X);
    let ry = key_range(leaves, Axis::Y);
    let rz = key_range(leaves, Axis::Z);
    let sx: i128 = rx.1 as i128 - rx.0 as i128;
    let sy: i128 = ry.1 as i128 - ry.0 as i128;
    let sz: i128 = rz.1 as i128 - rz.0 as i128;
    if sx >= sy && sx >= sz {
        Axis::X
    } else if sy >= sz {
        Axis::Y
    } else {
        Axis::Z
    }
}

/// The sequence back to front.
spec fn reversed<T>(s: Seq<T>) -> Seq<T> {
    Seq::new(s.len(), |i: int| s[s.len() - 1 - i])
}

/// The vector back to front.
fn reverse<T>(v: Vec<T>) -> (r: Vec<T>)
    ensures
        r@ == reversed(v@),
{
    let ghost orig = v@;
    let mut v = v;
    let mut out: Vec<T> = Vec::new();
    while v.len() > 0
        invariant
            v@.len() + out@.len() == orig.len(),
            v@ == orig.take(v@.len() as int),
            forall|i: int| 0 <= i < out@.len() ==> #[trigger] out@[i] == orig[orig.len() - 1 - i],
        decreases v.len(),
    {
        let x = v.pop().unwrap();
        out.push(x);
    }
    proof {
        assert(out@ =~= reversed(orig));
    }
    out
}

/// Two sorted vectors of leaves merged in the order of their keys along
/// `a`; on a tie the leaf of `l` goes first.
fn merge<B, BV: BoundingVolume>(l: Vec<(B, BV)>, r: Vec<(B, BV)>, a: Axis) -> (out: Vec<(B, BV)>)
    ensures
        out@ == merged_by_axis(l@, r@, a),
{
    let ghost goal = merged_by_axis(l@, r@, a);
    // The front of a vector is the back of its reverse, and a vector gives up its back.
    let mut lr = reverse(l);
    let mut rr = reverse(r);
    let mut out: Vec<(B, BV)> = Vec::new();
    proof {
        assert(reversed(lr@) =~= l@);
        assert(reversed(rr@) =~= r@);
        assert(out@ + goal =~= goal);
    }
    while lr.len() > 0 && rr.len() > 0
        invariant
            out@ + merged_by_axis(reversed(lr@), reversed(rr@), a) == goal,
        decreases lr.len() + rr.len(),
    {
        let ghost fl = reversed(lr@);
        let ghost fr = reversed(rr@);
        let ghost before = out@;
        let kl: i64 = lr[lr.len() - 1].1.key(a);
        let kr: i64 = rr[rr.len() - 1].1.key(a);
        proof {
            assert(fl[0] == lr@[lr@.len() - 1]);
            assert(fr[0] == rr@[rr@.len() - 1]);
        }
        if kr < kl {
            let x = rr.pop().unwrap();
            out.push(x);
            proof {
                assert(reversed(rr@) =~= fr.drop_first());
                assert(out@ + merged_by_axis(fl, fr.drop_first(), a) =~= before + (seq![fr[0]]
                    + merged_by_axis(fl, fr.drop_first(), a)));
            }
        } else {
            let x = lr.pop().unwrap();
            out.push(x);
            proof {
                assert(reversed(lr@) =~= fl.drop_first());
                assert(out@ + merged_by_axis(fl.drop_first(), fr, a) =~= before + (seq![fl[0]]
                    + merged_by_axis(fl.drop_first(), fr, a)));
            }
        }
    }
    while lr.len() > 0
        invariant
            rr@.len() == 0 || lr@.len() == 0,
            out@ + merged_by_axis(reversed(lr@), reversed(rr@), a) == goal,
        decreases lr.len(),
    {
        let ghost fl = reversed(lr@);
        let ghost before = out@;
        let x = lr.pop().unwrap();
        out.push(x);
        proof {
            assert(fl[0] == x);
            assert(reversed(lr@) =~= fl.drop_first());
            assert(reversed(rr@).len() == 0);
            assert(merged_by_axis(fl, reversed(rr@), a) == fl);
            assert(out@ + fl.drop_first() =~= before + fl);
            assert(merged_by_axis(fl.drop_first(), reversed(rr@), a) =~= fl.drop_first());
        }
    }
    while rr.len() > 0
        invariant
            lr@.len() == 0,
            out@ + merged_by_axis(reversed(lr@), reversed(rr@), a) == goal,
        decreases rr.len(),
    {
        let ghost fr = reversed(rr@);
        let ghost before = out@;
        let x = rr.pop().unwrap();
        out.push(x);
        proof {
            assert(fr[0] == x);
            assert(reversed(rr@) =~= fr.drop_first());
            assert(reversed(lr@).len() == 0);
            assert(merged_by_axis(reversed(lr@), fr, a) == fr);
            assert(out@ + fr.drop_first() =~= before + fr);
        }
    }
    proof {
        assert(reversed(lr@).len() == 0 && reversed(rr@).len() == 0);
        assert(out@ + merged_by_axis(reversed(lr@), reversed(rr@), a) =~= out@);
    }
    out
}

/// The leaves in the order of their keys along `a`; leaves with equal keys
/// keep their order.
fn sort_by_axis<B, BV: BoundingVolume>(leaves: Vec<(B, BV)>, a: Axis) -> (r: Vec<(B, BV)>)
    ensures
        r@ == sorted_by_axis(leaves@, a),
        r@.to_multiset() == leaves@.to_multiset(),
        r@.len() == leaves@.len(),
        sorted_by_key(r@, a),
    decreases leaves.len(),
{
    let ghost orig = leaves@;
    proof {
        lemma_sorted_is_sorted(orig, a);
        lemma_sorted_len(orig, a);
    }
    if leaves.len() <= 1 {
        proof {
            if orig.len() == 1 {
                lemma_sorted_head(orig, a);
                assert(sorted_by_axis(orig, a) =~= orig);
            }
        }
        return leaves;
    }
    let mut lower = leaves;
    let mid: usize = lower.len() / 2;
    let upper = lower.split_off(mid);
    proof {
        assert(orig =~= lower@ + upper@);
        lemma_sorted_concat(lower@, upper@, a);
    }
    let l = sort_by_axis(lower, a);
    let r = sort_by_axis(upper, a);
    merge(l, r, a)
}

/// The balanced tree over a non-empty sequence of leaves.
fn build<B, BV: BoundingVolume>(leaves: Vec<(B, BV)>) -> (r: BVTNode<B, BV>)
    requires
        leaves.len() >= 1,
    ensures
        r == balanced_tree(leaves@),
        r.wf(),
        r.median_split(),
        r.leaves().to_multiset() == leaves@.to_multiset(),
        r.leaves().len() == leaves.len(),
        r.depth() <= depth_bound(leaves.len() as nat),
    decreases leaves.len(),
{
    let mut leaves = leaves;
    let ghost input = leaves@;
    if leaves.len() == 1 {
        let p = leaves.pop().unwrap();
        proof {
            assert(input =~= seq![p]);
            assert(input[0] == p);
        }
        return BVTNode::Leaf { bv: p.1, b: p.0 };
    }
    let axis = choose_axis(&leaves);
    let mut sorted = sort_by_axis(leaves, axis);
    let ghost all = sorted@;
    let n: usize = sorted.len();
    let upper = sorted.split_off(n / 2);
    let ghost lower_seq = sorted@;
    let ghost upper_seq = upper@;
    proof {
        assert(all =~= lower_seq + upper_seq);
        assert(lower_seq =~= all.take((n / 2) as int));
        assert(upper_seq =~= all.skip((n / 2) as int));
        lemma_multiset_commutative(lower_seq, upper_seq);
        lemma_depth_bound_monotone((n / 2) as nat, (n - n / 2) as nat);
    }
    let left = build(sorted);
    let right = build(upper);
    let bv = left.bounding_volume().merged(right.bounding_volume());
    proof {
        let ll = left.leaves();
        let rl = right.leaves();
        lemma_multiset_commutative(ll, rl);
        assert((ll + rl).to_multiset() == input.to_multiset());
        ll.to_multiset_ensures();
        rl.to_multiset_ensures();
        lower_seq.to_multiset_ensures();
        upper_seq.to_multiset_ensures();
        lemma_keys_of_permutation(input, ll + rl, Axis::X);
        lemma_keys_of_permutation(input, ll + rl, Axis::Y);
        lemma_keys_of_permutation(input, ll + rl, Axis::Z);
        assert(widest_axis(ll + rl) == axis);
        assert forall|i: int, j: int| 0 <= i < ll.len() && 0 <= j < rl.len() implies leaf_key(
            #[trigger] ll[i],
            axis,
        ) <= leaf_key(#[trigger] rl[j], axis) by {
            assert(ll.contains(ll[i]));
            assert(ll.to_multiset().count(ll[i]) > 0);
            assert(lower_seq.to_multiset().count(ll[i]) > 0);
            assert(lower_seq.contains(ll[i]));
            assert(rl.contains(rl[j]));
            assert(rl.to_multiset().count(rl[j]) > 0);
            assert(upper_seq.to_multiset().count(rl[j]) > 0);
            assert(upper_seq.contains(rl[j]));
            let i2 = choose|k: int| 0 <= k < lower_seq.len() && lower_seq[k] == ll[i];
            let j2 = choose|k: int| 0 <= k < upper_seq.len() && upper_seq[k] == rl[j];
            assert(all[i2] == lower_seq[i2]);
            assert(all[lower_seq.len() + j2] == upper_seq[j2]);
        }
    }
    BVTNode::Internal { bv, left: Box::new(left), right: Box::new(right) }
}

impl<B, BV: BoundingVolume> BVT<B, BV> {
    /// The leaves of the tree, from left to right.
    pub open spec fn leaves(self) -> Seq<(B, BV)> {
        match self.root {
            Some(n) => n.leaves(),
            None => Seq::empty(),
        }
    }

    /// The number of nodes on the longest path from the root to a leaf.
    pub open spec fn depth_spec(self) -> nat {
        match self.root {
            Some(n) => n.depth(),
            None => 0,
        }
    }

    /// Every internal node carries the merge of its children's volumes.
    pub open spec fn wf(self) -> bool {
        match self.root {
            Some(n) => n.wf(),
            None => true,
        }
    }

    /// Every internal node splits its leaves at the median of the widest axis.
    pub open spec fn median_split(self) -> bool {
        match self.root {
            Some(n) => n.median_split(),
            None => true,
        }
    }

    /// In a well-formed tree the volume of every node encloses the volumes
    /// of its children and the volume of every leaf below it.
    pub proof fn lemma_volumes_enclose(self, v: BVTNode<B, BV>, i: int)
        requires
            self.wf(),
            self.root matches Some(n) && n.has_node(v),
            0 <= i < v.leaves().len(),
        ensures
            v.bv_spec().bv_contains(&v.leaves()[i].1),
            v matches BVTNode::Internal { left, right, .. } ==> v.bv_spec().bv_contains(
                &left.bv_spec(),
            ) && v.bv_spec().bv_contains(&right.bv_spec()),
    {
        let n = self.root.unwrap();
        n.lemma_encloses_descendants(v);
        v.lemma_leaf_is_node(i);
        v.lemma_encloses_descendants(BVTNode::Leaf { bv: v.leaves()[i].1, b: v.leaves()[i].0 });
        match v {
            BVTNode::Internal { bv, left, right } => {
                BV::lemma_merge_contains(&left.bv_spec(), &right.bv_spec());
            },
            BVTNode::Leaf { .. } => {},
        }
    }

    /// The balanced tree over `leaves`.
    ///
    /// The tree holds exactly the given leaves. Each internal node splits its
    /// leaves at the median of their centers along the axis on which the
    /// centers spread most, and carries the merge of its children's volumes.
    /// Leaves with equal centers along that axis keep their order.
    pub fn new_balanced(leaves: Vec<(B, BV)>) -> (r: BVT<B, BV>)
        ensures
            r.root == if leaves@.len() == 0 {
                None
            } else {
                Some(balanced_tree(leaves@))
            },
            r.wf(),
            r.median_split(),
            r.root is None <==> leaves@.len() == 0,
            r.leaves().to_multiset() == leaves@.to_multiset(),
            r.leaves().len() == leaves@.len(),
            r.depth_spec() <= depth_bound(leaves@.len() as nat),
    {
        if leaves.len() == 0 {
            proof {
                assert(leaves@ =~= Seq::empty());
            }
            BVT { root: None }
        } else {
            BVT { root: Some(build(leaves)) }
        }
    }

    /// The root of the tree, if the tree has a leaf.
    pub fn root(&self) -> (r: Option<&BVTNode<B, BV>>)
        ensures
            r matches Some(n) ==> self.root == Some(*n),
            r is None ==> self.root is None,
    {
        self.root.as_ref()
    }

    pub fn is_empty(&self) -> (r: bool)
        ensures
            r == (self.root is None),
    {
        self.root.is_none()
    }
}

} // verus!
