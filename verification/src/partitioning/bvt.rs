//! The bounding-volume tree: a static binary tree of bounding volumes over
//! leaf payloads, built once and then only read.
use crate::bounding_volume::BoundingVolume;
use crate::math::Axis;
use vstd::prelude::*;

verus! {

/// A node of the tree. An internal node carries the merge of its children's
/// volumes; a leaf carries a payload and its own volume.
pub enum BVTNode<B, BV> {
    Internal { bv: BV, left: Box<BVTNode<B, BV>>, right: Box<BVTNode<B, BV>> },
    Leaf { bv: BV, b: B },
}

/// A bounding-volume tree; `root` is `None` for the tree over no leaf.
pub struct BVT<B, BV> {
    pub root: Option<BVTNode<B, BV>>,
}

/// Some leaf stands for the element `e`.
pub open spec fn has_leaf_for<BV>(leaves: Seq<(usize, BV)>, e: int) -> bool {
    exists|i: int| 0 <= i < leaves.len() && (#[trigger] leaves[i]).0 == e
}

/// The leaves stand for the elements `0` to `n - 1`, each once, in some order.
pub open spec fn leaves_are_elements<BV>(leaves: Seq<(usize, BV)>, n: int) -> bool {
    &&& leaves.len() == n
    &&& forall|i: int| 0 <= i < leaves.len() ==> (#[trigger] leaves[i]).0 < n
    &&& forall|e: int| 0 <= e < n ==> #[trigger] has_leaf_for(leaves, e)
}

/// Leaves that hold the same leaves as a sequence in which the `k`-th leaf
/// stands for the element `k` stand for the same elements, each once, and
/// each leaf is the leaf of the sequence for its element.
pub proof fn lemma_indexed_leaves<BV>(input: Seq<(usize, BV)>, out: Seq<(usize, BV)>)
    requires
        out.to_multiset() == input.to_multiset(),
        forall|k: int| 0 <= k < input.len() ==> (#[trigger] input[k]).0 == k,
    ensures
        leaves_are_elements(out, input.len() as int),
        forall|k: int| 0 <= k < out.len() ==> #[trigger] out[k] == input[out[k].0 as int],
{
    out.to_multiset_ensures();
    input.to_multiset_ensures();
    assert forall|k: int| 0 <= k < out.len() implies (#[trigger] out[k]).0 < input.len() && out[k]
        == input[out[k].0 as int] by {
        assert(out.contains(out[k]));
        assert(out.to_multiset().count(out[k]) > 0);
        assert(input.contains(out[k]));
        let j = choose|j: int| 0 <= j < input.len() && input[j] == out[k];
        assert(input[j].0 == j);
    }
    assert forall|e: int| 0 <= e < input.len() implies #[trigger] has_leaf_for(out, e) by {
        assert(input.contains(input[e]));
        assert(input.to_multiset().count(input[e]) > 0);
        assert(out.contains(input[e]));
        let k = choose|k: int| 0 <= k < out.len() && out[k] == input[e];
        assert(out[k].0 == e);
    }
}

/// The key of a leaf along `a`: twice the coordinate of the center of its
/// volume, so that leaves order as their centers do.
pub open spec fn leaf_key<B, BV: BoundingVolume>(l: (B, BV), a: Axis) -> int {
    l.1.bv_key(a)
}

/// The least key of a non-empty sequence of leaves.
pub open spec fn key_min<B, BV: BoundingVolume>(s: Seq<(B, BV)>, a: Axis) -> int
    decreases s.len(),
{
    if s.len() <= 1 {
        leaf_key(s[0], a)
    } else {
        let m = key_min(s.drop_last(), a);
        if leaf_key(s.last(), a) < m {
            leaf_key(s.last(), a)
        } else {
            m
        }
    }
}

/// The greatest key of a non-empty sequence of leaves.
pub open spec fn key_max<B, BV: BoundingVolume>(s: Seq<(B, BV)>, a: Axis) -> int
    decreases s.len(),
{
    if s.len() <= 1 {
        leaf_key(s[0], a)
    } else {
        let m = key_max(s.drop_last(), a);
        if leaf_key(s.last(), a) > m {
            leaf_key(s.last(), a)
        } else {
            m
        }
    }
}

/// How far the centers of the leaves spread along `a`.
pub open spec fn spread<B, BV: BoundingVolume>(s: Seq<(B, BV)>, a: Axis) -> int {
    key_max(s, a) - key_min(s, a)
}

/// The axis along which the centers spread most; on a tie the earlier axis.
pub open spec fn widest_axis<B, BV: BoundingVolume>(s: Seq<(B, BV)>) -> Axis {
    let sx = spread(s, Axis::X);
    let sy = spread(s, Axis::Y);
    let sz = spread(s, Axis::Z);
    if sx >= sy && sx >= sz {
        Axis::X
    } else if sy >= sz {
        Axis::Y
    } else {
        Axis::Z
    }
}

/// The index of the first leaf with the least key.
pub open spec fn first_min<B, BV: BoundingVolume>(s: Seq<(B, BV)>, a: Axis) -> int
    decreases s.len(),
{
    if s.len() <= 1 {
        0
    } else {
        let i = first_min(s.drop_last(), a);
        if leaf_key(s.last(), a) < leaf_key(s[i], a) {
            s.len() - 1
        } else {
            i
        }
    }
}

/// The first least key is a key of the sequence, and no key before it is as small.
pub proof fn lemma_first_min<B, BV: BoundingVolume>(s: Seq<(B, BV)>, a: Axis)
    requires
        s.len() >= 1,
    ensures
        0 <= first_min(s, a) < s.len(),
        forall|k: int| 0 <= k < s.len() ==> leaf_key(s[first_min(s, a)], a) <= leaf_key(#[trigger] s[k], a),
        forall|k: int|
            0 <= k < first_min(s, a) ==> leaf_key(s[first_min(s, a)], a) < leaf_key(#[trigger] s[k], a),
    decreases s.len(),
{
    if s.len() > 1 {
        let t = s.drop_last();
        lemma_first_min(t, a);
        assert(forall|k: int| 0 <= k < t.len() ==> t[k] == s[k]);
    }
}

/// The leaves in the order of their keys along `a`; leaves with equal keys
/// keep the order they have in `s`.
pub open spec fn sorted_by_axis<B, BV: BoundingVolume>(s: Seq<(B, BV)>, a: Axis) -> Seq<(B, BV)>
    decreases s.len(),
{
    if s.len() == 0 {
        Seq::empty()
    } else {
        let i = first_min(s, a);
        proof {
            lemma_first_min(s, a);
        }
        seq![s[i]] + sorted_by_axis(s.remove(i), a)
    }
}

/// Two sequences of leaves merged in the order of their keys along `a`: the
/// leaf with the lesser key goes first, and on a tie the leaf of `l`.
pub open spec fn merged_by_axis<B, BV: BoundingVolume>(
    l: Seq<(B, BV)>,
    r: Seq<(B, BV)>,
    a: Axis,
) -> Seq<(B, BV)>
    decreases l.len() + r.len(),
{
    if l.len() == 0 {
        r
    } else if r.len() == 0 {
        l
    } else if leaf_key(r[0], a) < leaf_key(l[0], a) {
        seq![r[0]] + merged_by_axis(l, r.drop_first(), a)
    } else {
        seq![l[0]] + merged_by_axis(l.drop_first(), r, a)
    }
}

/// The first least leaf of a concatenation is that of the first part,
/// unless the second part has a leaf with a lesser key.
pub proof fn lemma_first_min_concat<B, BV: BoundingVolume>(x: Seq<(B, BV)>, y: Seq<(B, BV)>, a: Axis)
    requires
        x.len() >= 1,
        y.len() >= 1,
    ensures
        first_min(x + y, a) == if leaf_key(y[first_min(y, a)], a) < leaf_key(x[first_min(x, a)], a) {
            x.len() + first_min(y, a)
        } else {
            first_min(x, a)
        },
    decreases y.len(),
{
    lemma_first_min(x, a);
    lemma_first_min(y, a);
    let z = x + y;
    let y1 = y.drop_last();
    assert(z.drop_last() =~= x + y1);
    assert(z.last() == y.last());
    if y.len() == 1 {
        assert(x + y1 =~= x);
        assert(z[first_min(x, a)] == x[first_min(x, a)]);
    } else {
        lemma_first_min_concat(x, y1, a);
        lemma_first_min(y1, a);
        let j1 = first_min(y1, a);
        let f1 = first_min(x + y1, a);
        assert(y[j1] == y1[j1]);
        if f1 < x.len() {
            assert((x + y1)[f1] == x[f1]);
        } else {
            assert((x + y1)[f1] == y1[f1 - x.len()]);
        }
    }
}

/// The first leaf of the sorted sequence is the first least leaf, and the
/// rest is the rest sorted.
pub proof fn lemma_sorted_head<B, BV: BoundingVolume>(s: Seq<(B, BV)>, a: Axis)
    requires
        s.len() >= 1,
    ensures
        sorted_by_axis(s, a).len() == s.len(),
        sorted_by_axis(s, a)[0] == s[first_min(s, a)],
        sorted_by_axis(s, a).drop_first() == sorted_by_axis(s.remove(first_min(s, a)), a),
{
    lemma_first_min(s, a);
    lemma_sorted_len(s, a);
    let i = first_min(s, a);
    assert(sorted_by_axis(s, a).drop_first() =~= sorted_by_axis(s.remove(i), a));
}

/// Sorting a concatenation is merging the sorted parts.
pub proof fn lemma_sorted_concat<B, BV: BoundingVolume>(x: Seq<(B, BV)>, y: Seq<(B, BV)>, a: Axis)
    ensures
        sorted_by_axis(x + y, a) == merged_by_axis(sorted_by_axis(x, a), sorted_by_axis(y, a), a),
    decreases x.len() + y.len(),
{
    lemma_sorted_len(x, a);
    lemma_sorted_len(y, a);
    if x.len() == 0 {
        assert(x + y =~= y);
    } else if y.len() == 0 {
        assert(x + y =~= x);
    } else {
        lemma_first_min(x, a);
        lemma_first_min(y, a);
        lemma_first_min_concat(x, y, a);
        lemma_sorted_head(x, a);
        lemma_sorted_head(y, a);
        lemma_sorted_head(x + y, a);
        let i = first_min(x, a);
        let j = first_min(y, a);
        let sx = sorted_by_axis(x, a);
        let sy = sorted_by_axis(y, a);
        if leaf_key(y[j], a) < leaf_key(x[i], a) {
            assert((x + y).remove(x.len() + j) =~= x + y.remove(j));
            assert((x + y)[x.len() + j] == y[j]);
            lemma_sorted_concat(x, y.remove(j), a);
            assert(sorted_by_axis(x + y, a) =~= seq![y[j]] + sorted_by_axis(x + y.remove(j), a));
        } else {
            assert((x + y).remove(i) =~= x.remove(i) + y);
            assert((x + y)[i] == x[i]);
            lemma_sorted_concat(x.remove(i), y, a);
            assert(sorted_by_axis(x + y, a) =~= seq![x[i]] + sorted_by_axis(x.remove(i) + y, a));
        }
    }
}

/// The sorted sequence holds the same leaves, in the order of their keys.
pub proof fn lemma_sorted_is_sorted<B, BV: BoundingVolume>(s: Seq<(B, BV)>, a: Axis)
    ensures
        sorted_by_axis(s, a).to_multiset() == s.to_multiset(),
        sorted_by_key(sorted_by_axis(s, a), a),
    decreases s.len(),
{
    let out = sorted_by_axis(s, a);
    if s.len() == 0 {
        assert(out =~= s);
    } else {
        lemma_first_min(s, a);
        let i = first_min(s, a);
        let rest = s.remove(i);
        let tail = sorted_by_axis(rest, a);
        lemma_sorted_is_sorted(rest, a);
        lemma_sorted_len(rest, a);
        vstd::seq_lib::to_multiset_remove(s, i);
        vstd::seq_lib::lemma_multiset_commutative(seq![s[i]], tail);
        s.to_multiset_ensures();
        rest.to_multiset_ensures();
        tail.to_multiset_ensures();
        assert(seq![s[i]].to_multiset() =~= vstd::multiset::Multiset::empty().insert(s[i])) by {
            vstd::seq_lib::to_multiset_build(Seq::<(B, BV)>::empty(), s[i]);
            assert(Seq::<(B, BV)>::empty().push(s[i]) =~= seq![s[i]]);
            Seq::<(B, BV)>::empty().to_multiset_ensures();
        }
        assert(s.contains(s[i]));
        assert(out.to_multiset() =~= s.to_multiset());
        assert forall|p: int, q: int| 0 <= p <= q < out.len() implies leaf_key(out[p], a) <= leaf_key(
            out[q],
            a,
        ) by {
            if p == 0 {
                if q > 0 {
                    assert(out[q] == tail[q - 1]);
                    assert(tail.contains(tail[q - 1]));
                    assert(tail.to_multiset().count(tail[q - 1]) > 0);
                    assert(rest.contains(tail[q - 1]));
                    let k = choose|k: int| 0 <= k < rest.len() && rest[k] == tail[q - 1];
                    let kk = if k < i { k } else { k + 1 };
                    assert(rest[k] == s[kk]);
                }
            } else {
                assert(out[p] == tail[p - 1] && out[q] == tail[q - 1]);
            }
        }
    }
}

/// Sorting keeps the number of leaves.
pub proof fn lemma_sorted_len<B, BV: BoundingVolume>(s: Seq<(B, BV)>, a: Axis)
    ensures
        sorted_by_axis(s, a).len() == s.len(),
    decreases s.len(),
{
    if s.len() > 0 {
        lemma_first_min(s, a);
        lemma_sorted_len(s.remove(first_min(s, a)), a);
    }
}

/// The balanced tree over a non-empty sequence of leaves: one leaf makes a
/// leaf; more are sorted along the axis on which their centers spread most
/// and split at the median, the left child taking the lower half (the
/// smaller one if the count is odd), and the node carries the merge of the
/// volumes of its children.
pub open spec fn balanced_tree<B, BV: BoundingVolume>(leaves: Seq<(B, BV)>) -> BVTNode<B, BV>
    decreases leaves.len(),
{
    if leaves.len() <= 1 {
        BVTNode::Leaf { bv: leaves[0].1, b: leaves[0].0 }
    } else {
        let s = sorted_by_axis(leaves, widest_axis(leaves));
        let n = leaves.len() as int;
        proof {
            lemma_sorted_len(leaves, widest_axis(leaves));
        }
        let left = balanced_tree(s.take(n / 2));
        let right = balanced_tree(s.skip(n / 2));
        BVTNode::Internal {
            bv: left.bv_spec().bv_merged(&right.bv_spec()),
            left: Box::new(left),
            right: Box::new(right),
        }
    }
}

/// The keys do not decrease along the sequence.
pub open spec fn sorted_by_key<B, BV: BoundingVolume>(s: Seq<(B, BV)>, a: Axis) -> bool {
    forall|i: int, j: int| 0 <= i <= j < s.len() ==> leaf_key(s[i], a) <= leaf_key(s[j], a)
}

/// No key of `l` exceeds a key of `r`.
pub open spec fn separated<B, BV: BoundingVolume>(
    l: Seq<(B, BV)>,
    r: Seq<(B, BV)>,
    a: Axis,
) -> bool {
    forall|i: int, j: int|
        0 <= i < l.len() && 0 <= j < r.len() ==> leaf_key(#[trigger] l[i], a) <= leaf_key(
            #[trigger] r[j],
            a,
        )
}

/// The depth of a balanced tree over `n` leaves: one more than the
/// logarithm of `n` to base two, rounded up.
pub open spec fn depth_bound(n: nat) -> nat
    decreases n,
{
    if n <= 1 {
        1
    } else {
        1 + depth_bound((n - n / 2) as nat)
    }
}

/// Two to the power `k`.
pub open spec fn pow2(k: nat) -> nat
    decreases k,
{
    if k == 0 {
        1
    } else {
        2 * pow2((k - 1) as nat)
    }
}

/// `depth_bound` does not decrease with the number of leaves.
pub proof fn lemma_depth_bound_monotone(m: nat, n: nat)
    requires
        m <= n,
    ensures
        depth_bound(m) <= depth_bound(n),
    decreases n,
{
    if n > 1 && m > 1 {
        lemma_depth_bound_monotone((m - m / 2) as nat, (n - n / 2) as nat);
    }
}

/// `depth_bound(n) - 1` is the logarithm of `n` to base two, rounded up:
/// the least `k` with `n <= 2^k`.
pub proof fn lemma_depth_bound_is_log(n: nat)
    requires
        n >= 1,
    ensures
        depth_bound(n) >= 1,
        n <= pow2((depth_bound(n) - 1) as nat),
        n > 1 ==> pow2((depth_bound(n) - 2) as nat) < n,
    decreases n,
{
    if n > 1 {
        let h = (n - n / 2) as nat;
        lemma_depth_bound_is_log(h);
        reveal_with_fuel(pow2, 2);
        if h > 1 {
        } else {
            assert(n == 2);
        }
    }
}

/// Every key lies between the least and the greatest, and both are keys.
pub proof fn lemma_key_bounds<B, BV: BoundingVolume>(s: Seq<(B, BV)>, a: Axis)
    requires
        s.len() >= 1,
    ensures
        forall|i: int| 0 <= i < s.len() ==> key_min(s, a) <= leaf_key(#[trigger] s[i], a) <= key_max(s, a),
        exists|i: int| 0 <= i < s.len() && leaf_key(#[trigger] s[i], a) == key_min(s, a),
        exists|i: int| 0 <= i < s.len() && leaf_key(#[trigger] s[i], a) == key_max(s, a),
    decreases s.len(),
{
    if s.len() <= 1 {
        assert(leaf_key(s[0], a) == key_min(s, a));
    } else {
        let t = s.drop_last();
        lemma_key_bounds(t, a);
        assert(forall|i: int| 0 <= i < t.len() ==> t[i] == s[i]);
        let i0 = choose|i: int| 0 <= i < t.len() && leaf_key(#[trigger] t[i], a) == key_min(t, a);
        let i1 = choose|i: int| 0 <= i < t.len() && leaf_key(#[trigger] t[i], a) == key_max(t, a);
        let n = s.len() - 1;
        if leaf_key(s.last(), a) < key_min(t, a) {
            assert(leaf_key(s[n], a) == key_min(s, a));
        } else {
            assert(leaf_key(s[i0], a) == key_min(s, a));
        }
        if leaf_key(s.last(), a) > key_max(t, a) {
            assert(leaf_key(s[n], a) == key_max(s, a));
        } else {
            assert(leaf_key(s[i1], a) == key_max(s, a));
        }
        assert forall|i: int| 0 <= i < s.len() implies key_min(s, a) <= leaf_key(
            #[trigger] s[i],
            a,
        ) <= key_max(s, a) by {
            if i < n {
                assert(t[i] == s[i]);
            }
        }
    }
}

/// The least and greatest keys, and so the spread and the widest axis,
/// depend on the leaves only, not on their order.
pub proof fn lemma_keys_of_permutation<B, BV: BoundingVolume>(
    s: Seq<(B, BV)>,
    t: Seq<(B, BV)>,
    a: Axis,
)
    requires
        s.len() >= 1,
        s.to_multiset() == t.to_multiset(),
    ensures
        key_min(s, a) == key_min(t, a),
        key_max(s, a) == key_max(t, a),
{
    s.to_multiset_ensures();
    t.to_multiset_ensures();
    lemma_key_bounds(s, a);
    lemma_key_bounds(t, a);
    let i0 = choose|i: int| 0 <= i < s.len() && leaf_key(#[trigger] s[i], a) == key_min(s, a);
    let i1 = choose|i: int| 0 <= i < s.len() && leaf_key(#[trigger] s[i], a) == key_max(s, a);
    let j0 = choose|i: int| 0 <= i < t.len() && leaf_key(#[trigger] t[i], a) == key_min(t, a);
    let j1 = choose|i: int| 0 <= i < t.len() && leaf_key(#[trigger] t[i], a) == key_max(t, a);
    assert(s.contains(s[i0]));
    assert(s.contains(s[i1]));
    assert(t.contains(t[j0]));
    assert(t.contains(t[j1]));
    assert(s.to_multiset().count(s[i0]) > 0);
    assert(s.to_multiset().count(s[i1]) > 0);
    assert(t.to_multiset().count(t[j0]) > 0);
    assert(t.to_multiset().count(t[j1]) > 0);
    assert(t.to_multiset().count(s[i0]) > 0);
    assert(t.to_multiset().count(s[i1]) > 0);
    assert(s.to_multiset().count(t[j0]) > 0);
    assert(s.to_multiset().count(t[j1]) > 0);
    assert(t.contains(s[i0]));
    assert(t.contains(s[i1]));
    assert(s.contains(t[j0]));
    assert(s.contains(t[j1]));
}

impl<B, BV: BoundingVolume> BVTNode<B, BV> {
    /// The volume of the node.
    pub open spec fn bv_spec(self) -> BV {
        match self {
            BVTNode::Internal { bv, .. } => bv,
            BVTNode::Leaf { bv, .. } => bv,
        }
    }

    /// The leaves below the node, from left to right.
    pub open spec fn leaves(self) -> Seq<(B, BV)>
        decreases self,
    {
        match self {
            BVTNode::Internal { left, right, .. } => left.leaves() + right.leaves(),
            BVTNode::Leaf { bv, b } => seq![(b, bv)],
        }
    }

    /// The number of nodes on the longest path from the node to a leaf.
    pub open spec fn depth(self) -> nat
        decreases self,
    {
        match self {
            BVTNode::Internal { left, right, .. } => {
                let l = left.depth();
                let r = right.depth();
                1 + if l >= r {
                    l
                } else {
                    r
                }
            },
            BVTNode::Leaf { .. } => 1,
        }
    }

    /// The number of nodes at and below the node.
    pub open spec fn size(self) -> nat
        decreases self,
    {
        match self {
            BVTNode::Internal { left, right, .. } => 1 + left.size() + right.size(),
            BVTNode::Leaf { .. } => 1,
        }
    }

    /// Whether `n` is the node or lies below it.
    pub open spec fn has_node(self, n: BVTNode<B, BV>) -> bool
        decreases self,
    {
        self == n || match self {
            BVTNode::Internal { left, right, .. } => left.has_node(n) || right.has_node(n),
            BVTNode::Leaf { .. } => false,
        }
    }

    /// Every internal node carries the merge of its children's volumes.
    pub open spec fn wf(self) -> bool
        decreases self,
    {
        match self {
            BVTNode::Internal { bv, left, right } => {
                &&& bv == left.bv_spec().bv_merged(&right.bv_spec())
                &&& left.wf()
                &&& right.wf()
            },
            BVTNode::Leaf { .. } => true,
        }
    }

    /// Every internal node splits its leaves at the median along the axis
    /// on which their centers spread most: the left child takes the lower
    /// half (the smaller one if the count is odd), the right child the rest.
    pub open spec fn median_split(self) -> bool
        decreases self,
    {
        match self {
            BVTNode::Internal { left, right, .. } => {
                let all = left.leaves() + right.leaves();
                &&& left.leaves().len() == all.len() / 2
                &&& separated(left.leaves(), right.leaves(), widest_axis(all))
                &&& left.median_split()
                &&& right.median_split()
            },
            BVTNode::Leaf { .. } => true,
        }
    }

    /// A node has at least one leaf, and as many nodes as twice its leaves less one.
    pub proof fn lemma_leaves_nonempty(self)
        ensures
            self.leaves().len() >= 1,
            self.size() == 2 * self.leaves().len() - 1,
        decreases self,
    {
        match self {
            BVTNode::Internal { left, right, .. } => {
                left.lemma_leaves_nonempty();
                right.lemma_leaves_nonempty();
            },
            BVTNode::Leaf { .. } => {},
        }
    }

    /// The volume of a node encloses the volume of every node below it, and
    /// so the volume of every leaf below it.
    pub proof fn lemma_encloses_descendants(self, n: BVTNode<B, BV>)
        requires
            self.wf(),
            self.has_node(n),
        ensures
            self.bv_spec().bv_contains(&n.bv_spec()),
            n.wf(),
        decreases self,
    {
        if self == n {
            BV::lemma_contains_reflexive(&self.bv_spec());
        } else {
            match self {
                BVTNode::Internal { bv, left, right } => {
                    BV::lemma_merge_contains(&left.bv_spec(), &right.bv_spec());
                    if left.has_node(n) {
                        left.lemma_encloses_descendants(n);
                        BV::lemma_contains_transitive(&bv, &left.bv_spec(), &n.bv_spec());
                    } else {
                        right.lemma_encloses_descendants(n);
                        BV::lemma_contains_transitive(&bv, &right.bv_spec(), &n.bv_spec());
                    }
                },
                BVTNode::Leaf { .. } => {},
            }
        }
    }

    /// A node below a node below the node is below the node.
    pub proof fn lemma_has_node_transitive(self, n: BVTNode<B, BV>, m: BVTNode<B, BV>)
        requires
            self.has_node(n),
            n.has_node(m),
        ensures
            self.has_node(m),
        decreases self,
    {
        if self != n {
            match self {
                BVTNode::Internal { left, right, .. } => {
                    if left.has_node(n) {
                        left.lemma_has_node_transitive(n, m);
                    } else {
                        right.lemma_has_node_transitive(n, m);
                    }
                },
                BVTNode::Leaf { .. } => {},
            }
        }
    }

    /// Every leaf of the sequence of leaves is a leaf node below the node.
    pub proof fn lemma_leaf_is_node(self, i: int)
        requires
            0 <= i < self.leaves().len(),
        ensures
            self.has_node(BVTNode::Leaf { bv: self.leaves()[i].1, b: self.leaves()[i].0 }),
        decreases self,
    {
        match self {
            BVTNode::Internal { left, right, .. } => {
                if i < left.leaves().len() {
                    left.lemma_leaf_is_node(i);
                } else {
                    right.lemma_leaf_is_node(i - left.leaves().len());
                }
            },
            BVTNode::Leaf { .. } => {},
        }
    }

    /// The leaves of a node below the node are leaves of the node.
    pub proof fn lemma_descendant_leaves(self, n: BVTNode<B, BV>, x: (B, BV))
        requires
            self.has_node(n),
            n.leaves().contains(x),
        ensures
            self.leaves().contains(x),
        decreases self,
    {
        if self != n {
            match self {
                BVTNode::Internal { left, right, .. } => {
                    if left.has_node(n) {
                        left.lemma_descendant_leaves(n, x);
                        let i = choose|i: int| 0 <= i < left.leaves().len() && left.leaves()[i] == x;
                        assert(self.leaves()[i] == x);
                    } else {
                        right.lemma_descendant_leaves(n, x);
                        let i = choose|i: int|
                            0 <= i < right.leaves().len() && right.leaves()[i] == x;
                        assert(self.leaves()[left.leaves().len() + i] == x);
                    }
                },
                BVTNode::Leaf { .. } => {},
            }
        }
    }

    /// The volume of the node.
    pub fn bounding_volume(&self) -> (r: &BV)
        ensures
            *r == self.bv_spec(),
    {
        match self {
            BVTNode::Internal { bv, .. } => bv,
            BVTNode::Leaf { bv, .. } => bv,
        }
    }

    pub fn is_leaf(&self) -> (r: bool)
        ensures
            r == (*self is Leaf),
    {
        match self {
            BVTNode::Internal { .. } => false,
            BVTNode::Leaf { .. } => true,
        }
    }
}

} // verus!
