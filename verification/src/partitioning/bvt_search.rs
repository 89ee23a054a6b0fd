//! Best-first search of the bounding-volume tree, driven by a cost function.
//!
//! A cost function names the type of its costs: exact fractions for the
//! times of impact of a ray, distances for closest points. The search asks
//! of costs only that they are totally ordered.
use crate::bounding_volume::BoundingVolume;
use crate::math::scalar::Scalar;
use crate::partitioning::bvt::{BVTNode, BVT};
use vstd::prelude::*;

verus! {

/// What a cost of the search is made of: values in a total order.
pub trait SearchCost: Sized + Copy {
    /// The value is one that the order holds of.
    spec fn cost_wf(self) -> bool;

    /// The value is not above `o`.
    spec fn cost_le(self, o: Self) -> bool;

    /// Whether the value is below `o`.
    fn cost_less(&self, o: &Self) -> (r: bool)
        requires
            self.cost_wf(),
            o.cost_wf(),
        ensures
            r == !o.cost_le(*self),
    ;

    /// Of two values, one is not above the other.
    proof fn lemma_cost_total(a: Self, b: Self)
        requires
            a.cost_wf(),
            b.cost_wf(),
        ensures
            a.cost_le(b) || b.cost_le(a),
    ;

    /// What is not above a value is not above what that value is not above.
    proof fn lemma_cost_trans(a: Self, b: Self, c: Self)
        requires
            a.cost_wf(),
            b.cost_wf(),
            c.cost_wf(),
            a.cost_le(b),
            b.cost_le(c),
        ensures
            a.cost_le(c),
    ;
}

/// The first value is below the second.
pub open spec fn cost_lt<C: SearchCost>(a: C, b: C) -> bool {
    !b.cost_le(a)
}

impl SearchCost for Scalar {
    open spec fn cost_wf(self) -> bool {
        self.wf()
    }

    open spec fn cost_le(self, o: Scalar) -> bool {
        self.le(o)
    }

    fn cost_less(&self, o: &Scalar) -> (r: bool) {
        self.less(o)
    }

    proof fn lemma_cost_total(a: Scalar, b: Scalar) {
    }

    proof fn lemma_cost_trans(a: Scalar, b: Scalar, c: Scalar) {
        Scalar::lemma_le_trans(a, b, c);
    }
}

/// A cost function for the best-first search: a lower bound for each
/// volume, and an exact cost with a result for each leaf.
///
/// `bv_cost` and `b_cost` are the costs as mathematical functions; calls may
/// change the cost function's state, but not these. A cost function may stop
/// the search early: once a leaf has been given a cost that no leaf can
/// beat, it may answer `None` for every volume.
pub trait BVTCostFn<B, BV>: Sized {
    /// What costs and bounds are made of.
    type Cost: SearchCost;

    /// What the search returns with the best leaf.
    type UserData;

    /// The lower bound for the leaves inside `bv`; `None` if none of them can have a cost.
    spec fn bv_cost(&self, bv: &BV) -> Option<Self::Cost>;

    /// The cost of the leaf `b` and the result that goes with it; `None` if the leaf has none.
    spec fn b_cost(&self, b: &B) -> Option<(Self::Cost, Self::UserData)>;

    /// Whether `b` is a leaf that this cost function can be asked about.
    open spec fn accepts(&self, b: &B) -> bool {
        true
    }

    /// Whether the cost function has stopped the search.
    open spec fn stopped(&self) -> bool {
        false
    }

    /// Whether giving the leaf `b` its cost stops the search.
    open spec fn stops_at(&self, b: &B) -> bool {
        false
    }

    /// What holds of every cost and result that `compute_b_cost` returns.
    open spec fn result_ok(c: Self::Cost, d: Self::UserData) -> bool {
        true
    }

    /// The bound of the volume `bv`; `None` where no leaf inside can have a
    /// cost, and always once the search has been stopped.
    fn compute_bv_cost(&mut self, bv: &BV) -> (r: Option<Self::Cost>)
        ensures
            forall|v: BV| #[trigger] final(self).bv_cost(&v) == old(self).bv_cost(&v),
            forall|x: B| #[trigger] final(self).b_cost(&x) == old(self).b_cost(&x),
            forall|x: B| #[trigger] final(self).accepts(&x) == old(self).accepts(&x),
            forall|x: B| #[trigger] final(self).stops_at(&x) == old(self).stops_at(&x),
            final(self).stopped() == old(self).stopped(),
            r == if old(self).stopped() {
                None
            } else {
                old(self).bv_cost(bv)
            },
            r matches Some(c) ==> c.cost_wf(),
    ;

    /// The cost of the leaf `b` with its result. The call may stop the
    /// search if no leaf whatever has a cost below the one it returns.
    fn compute_b_cost(&mut self, b: &B) -> (r: Option<(Self::Cost, Self::UserData)>)
        requires
            old(self).accepts(b),
        ensures
            forall|v: BV| #[trigger] final(self).bv_cost(&v) == old(self).bv_cost(&v),
            forall|x: B| #[trigger] final(self).b_cost(&x) == old(self).b_cost(&x),
            forall|x: B| #[trigger] final(self).accepts(&x) == old(self).accepts(&x),
            forall|x: B| #[trigger] final(self).stops_at(&x) == old(self).stops_at(&x),
            r == old(self).b_cost(b),
            r matches Some((c, d)) ==> c.cost_wf() && Self::result_ok(c, d),
            final(self).stopped() == (old(self).stopped() || old(self).stops_at(b)),
            old(self).stops_at(b) ==> (r matches Some((c, _)) && forall|x: B|
                (#[trigger] old(self).b_cost(&x)) matches Some((d, _)) ==> d.cost_wf() && c.cost_le(d)),
    ;
}

/// The two states of a cost function give the same costs and accept the same leaves.
pub open spec fn same_costs<B, BV, F: BVTCostFn<B, BV>>(f: F, g: F) -> bool {
    &&& forall|bv: BV| #[trigger] f.bv_cost(&bv) == g.bv_cost(&bv)
    &&& forall|b: B| #[trigger] f.b_cost(&b) == g.b_cost(&b)
    &&& forall|b: B| #[trigger] f.accepts(&b) == g.accepts(&b)
    &&& forall|b: B| #[trigger] f.stops_at(&b) == g.stops_at(&b)
}

/// No leaf whatever has a cost below `c`.
pub open spec fn is_least_cost<B, BV, F: BVTCostFn<B, BV>>(f: F, c: F::Cost) -> bool {
    forall|b: B| (#[trigger] f.b_cost(&b)) matches Some((d, _)) ==> d.cost_wf() && c.cost_le(d)
}

/// The cost of the leaf `b`, without the result.
pub open spec fn leaf_cost<B, BV, F: BVTCostFn<B, BV>>(f: F, b: B) -> Option<F::Cost> {
    match f.b_cost(&b) {
        Some((c, _)) => Some(c),
        None => None,
    }
}

/// No leaf of the tree below `root` has a cost above `c`.
pub open spec fn is_max_cost<B, BV: BoundingVolume, F: BVTCostFn<B, BV>>(
    f: F,
    root: BVTNode<B, BV>,
    c: F::Cost,
) -> bool {
    forall|j: int|
        0 <= j < root.leaves().len() ==> (leaf_cost(f, (#[trigger] root.leaves()[j]).0) matches Some(
            d,
        ) ==> d.cost_le(c))
}

/// The bound of the volume `bv` is in order for the leaf `x` below it: if
/// the leaf has a cost, the volume has a bound, and the bound does not
/// exceed the cost unless no leaf of the tree costs more than `x`.
pub open spec fn bound_ok<B, BV: BoundingVolume, F: BVTCostFn<B, BV>>(
    f: F,
    bv: BV,
    x: (B, BV),
    root: BVTNode<B, BV>,
) -> bool {
    leaf_cost(f, x.0) matches Some(c) ==> {
        &&& c.cost_wf()
        &&& f.bv_cost(&bv) matches Some(l)
        &&& l.cost_wf()
        &&& (l.cost_le(c) || is_max_cost(f, root, c))
    }
}

/// The bound of the volume `bv` is a lower bound for the leaf `x`: if the
/// leaf has a cost, the volume has a bound that does not exceed it.
pub open spec fn lower_bound_ok<B, BV: BoundingVolume, F: BVTCostFn<B, BV>>(
    f: F,
    bv: BV,
    x: (B, BV),
) -> bool {
    leaf_cost(f, x.0) matches Some(c) ==> {
        &&& c.cost_wf()
        &&& f.bv_cost(&bv) matches Some(l)
        &&& l.cost_wf()
        &&& l.cost_le(c)
    }
}

/// The cost `best` settles the leaf `x`: the leaf has no cost, or one that
/// `best` does not exceed.
spec fn settled<B, BV, F: BVTCostFn<B, BV>>(f: F, best: Option<F::Cost>, x: (B, BV)) -> bool {
    leaf_cost(f, x.0) matches Some(c) ==> (best matches Some(bc) && bc.cost_le(c))
}

/// The entry of the queue holds `x` among the leaves of its node.
spec fn covers<B, BV: BoundingVolume, C: SearchCost>(e: (C, &BVTNode<B, BV>), x: (B, BV)) -> bool {
    e.1.leaves().contains(x)
}

/// Some entry of the queue holds `x` among the leaves of its node.
spec fn in_queue<B, BV: BoundingVolume, C: SearchCost>(
    q: Seq<(C, &BVTNode<B, BV>)>,
    x: (B, BV),
) -> bool {
    exists|k: int| 0 <= k < q.len() && covers(#[trigger] q[k], x)
}

/// The entry is a node of the tree with its bound.
spec fn entry_ok<B, BV: BoundingVolume, F: BVTCostFn<B, BV>>(
    f: F,
    root: BVTNode<B, BV>,
    e: (F::Cost, &BVTNode<B, BV>),
) -> bool {
    &&& root.has_node(*e.1)
    &&& e.0.cost_wf()
    &&& f.bv_cost(&e.1.bv_spec()) == Some(e.0)
}

/// The bounds do not increase along the queue, so that the least is last.
spec fn queue_sorted<B, BV, C: SearchCost>(q: Seq<(C, &BVTNode<B, BV>)>) -> bool {
    forall|i: int, j: int| 0 <= i <= j < q.len() ==> (#[trigger] q[j]).0.cost_le((#[trigger] q[i]).0)
}

/// The number of nodes at and below the nodes of the queue.
pub open spec fn queue_size<B, BV: BoundingVolume, C: SearchCost>(q: Seq<(C, &BVTNode<B, BV>)>) -> nat
    decreases q.len(),
{
    if q.len() == 0 {
        0
    } else {
        q.last().1.size() + queue_size(q.drop_last())
    }
}

pub proof fn lemma_queue_size_insert<B, BV: BoundingVolume, C: SearchCost>(
    q: Seq<(C, &BVTNode<B, BV>)>,
    i: int,
    e: (C, &BVTNode<B, BV>),
)
    requires
        0 <= i <= q.len(),
    ensures
        queue_size(q.insert(i, e)) == queue_size(q) + e.1.size(),
    decreases q.len(),
{
    let r = q.insert(i, e);
    if i == q.len() {
        assert(r.drop_last() =~= q);
        assert(r.last() == e);
    } else {
        assert(r.last() == q.last());
        assert(r.drop_last() =~= q.drop_last().insert(i, e));
        lemma_queue_size_insert(q.drop_last(), i, e);
    }
}

impl<B, BV: BoundingVolume> BVTNode<B, BV> {
    /// At the node and at every node below it, the bound of the volume is in
    /// order for every leaf below that node.
    pub open spec fn leaf_costs_bounded<F: BVTCostFn<B, BV>>(self, f: F, root: BVTNode<B, BV>) -> bool
        decreases self,
    {
        &&& forall|i: int|
            0 <= i < self.leaves().len() ==> bound_ok(f, self.bv_spec(), #[trigger] self.leaves()[i], root)
        &&& match self {
            BVTNode::Internal { left, right, .. } => left.leaf_costs_bounded(f, root)
                && right.leaf_costs_bounded(f, root),
            BVTNode::Leaf { .. } => true,
        }
    }

    /// At the node and at every node below it, the bound of the volume is a
    /// lower bound for the cost of every leaf below that node.
    pub open spec fn lower_bounded<F: BVTCostFn<B, BV>>(self, f: F) -> bool
        decreases self,
    {
        &&& forall|i: int|
            0 <= i < self.leaves().len() ==> lower_bound_ok(f, self.bv_spec(), #[trigger] self.leaves()[i])
        &&& match self {
            BVTNode::Internal { left, right, .. } => left.lower_bounded(f) && right.lower_bounded(f),
            BVTNode::Leaf { .. } => true,
        }
    }

    /// Lower bounds are bounds in order, whatever the tree around the node.
    pub proof fn lemma_lower_bounded_is_bounded<F: BVTCostFn<B, BV>>(self, f: F, root: BVTNode<B, BV>)
        requires
            self.lower_bounded(f),
        ensures
            self.leaf_costs_bounded(f, root),
        decreases self,
    {
        match self {
            BVTNode::Internal { left, right, .. } => {
                left.lemma_lower_bounded_is_bounded(f, root);
                right.lemma_lower_bounded_is_bounded(f, root);
            },
            BVTNode::Leaf { .. } => {},
        }
    }

    /// What holds of the bounds at a node holds at every node below it.
    pub proof fn lemma_bounded_descendant<F: BVTCostFn<B, BV>>(
        self,
        n: BVTNode<B, BV>,
        f: F,
        root: BVTNode<B, BV>,
    )
        requires
            self.leaf_costs_bounded(f, root),
            self.has_node(n),
        ensures
            n.leaf_costs_bounded(f, root),
        decreases self,
    {
        if self != n {
            match self {
                BVTNode::Internal { left, right, .. } => {
                    if left.has_node(n) {
                        left.lemma_bounded_descendant(n, f, root);
                    } else {
                        right.lemma_bounded_descendant(n, f, root);
                    }
                },
                BVTNode::Leaf { .. } => {},
            }
        }
    }
}

/// Where an entry with the bound `key` goes into the queue: behind the
/// entries with greater bounds and before all others, so that of entries
/// with equal bounds the one that came first leaves first.
pub open spec fn insert_pos<B, BV, C: SearchCost>(q: Seq<(C, &BVTNode<B, BV>)>, key: C) -> int
    decreases q.len(),
{
    if q.len() == 0 || !cost_lt(key, q[0].0) {
        0
    } else {
        1 + insert_pos(q.drop_first(), key)
    }
}

pub proof fn lemma_insert_pos_range<B, BV, C: SearchCost>(q: Seq<(C, &BVTNode<B, BV>)>, key: C)
    ensures
        0 <= insert_pos(q, key) <= q.len(),
    decreases q.len(),
{
    if q.len() > 0 && cost_lt(key, q[0].0) {
        lemma_insert_pos_range(q.drop_first(), key);
    }
}

/// The queue after the child of a node has been looked at: the child is
/// queued with its bound if the search has not been stopped, the child has
/// a bound, and the bound beats the best cost so far.
pub open spec fn pushed<'a, B, BV: BoundingVolume, F: BVTCostFn<B, BV>>(
    f: F,
    q: Seq<(F::Cost, &'a BVTNode<B, BV>)>,
    child: &'a BVTNode<B, BV>,
    best: Option<F::Cost>,
    stopped: bool,
) -> Seq<(F::Cost, &'a BVTNode<B, BV>)> {
    if stopped {
        q
    } else {
        match f.bv_cost(&child.bv_spec()) {
            Some(l) => if best is None || cost_lt(l, best->Some_0) {
                q.insert(insert_pos(q, l), (l, child))
            } else {
                q
            },
            None => q,
        }
    }
}

pub proof fn lemma_pushed_size<'a, B, BV: BoundingVolume, F: BVTCostFn<B, BV>>(
    f: F,
    q: Seq<(F::Cost, &'a BVTNode<B, BV>)>,
    child: &'a BVTNode<B, BV>,
    best: Option<F::Cost>,
    stopped: bool,
)
    ensures
        queue_size(pushed(f, q, child, best, stopped)) <= queue_size(q) + child.size(),
{
    if !stopped {
        if let Some(l) = f.bv_cost(&child.bv_spec()) {
            lemma_insert_pos_range(q, l);
            lemma_queue_size_insert(q, insert_pos(q, l), (l, child));
        }
    }
}

/// The best leaf after one more leaf has been given its cost: the leaf, if
/// it has a cost that beats the best so far.
pub open spec fn bettered<'a, B, D, C: SearchCost>(
    best: Option<(C, &'a B, D)>,
    b: &'a B,
    cost: Option<(C, D)>,
) -> Option<(C, &'a B, D)> {
    match cost {
        Some((c, d)) => if best is None || cost_lt(c, best->Some_0.0) {
            Some((c, b, d))
        } else {
            best
        },
        None => best,
    }
}

/// The search from a state on: the queue, the best leaf so far, and
/// whether the search has been stopped. The entry with the least bound is
/// the last of the queue. If its bound does not beat the best cost, the
/// search ends. Else a leaf is given its cost, and an internal node has its
/// left child and then its right child looked at.
pub open spec fn search_from<'a, B, BV: BoundingVolume, F: BVTCostFn<B, BV>>(
    f: F,
    q: Seq<(F::Cost, &'a BVTNode<B, BV>)>,
    best: Option<(F::Cost, &'a B, F::UserData)>,
    stopped: bool,
) -> Option<(F::Cost, &'a B, F::UserData)>
    decreases queue_size(q),
{
    if q.len() == 0 {
        best
    } else {
        let e = q.last();
        let rest = q.drop_last();
        if best is Some && !cost_lt(e.0, best->Some_0.0) {
            best
        } else {
            match e.1 {
                BVTNode::Leaf { b, .. } => {
                    proof {
                        e.1.lemma_leaves_nonempty();
                    }
                    search_from(f, rest, bettered(best, b, f.b_cost(b)), stopped || f.stops_at(b))
                },
                BVTNode::Internal { left, right, .. } => {
                    let with_left = pushed(f, rest, &**left, best_cost(best), stopped);
                    proof {
                        lemma_pushed_size(f, rest, &**left, best_cost(best), stopped);
                        lemma_pushed_size(f, with_left, &**right, best_cost(best), stopped);
                    }
                    search_from(
                        f,
                        pushed(f, with_left, &**right, best_cost(best), stopped),
                        best,
                        stopped,
                    )
                },
            }
        }
    }
}

/// What the search has chosen: the best leaf with its cost, without the result.
pub open spec fn chosen<'a, B, D, C: SearchCost>(best: Option<(C, &'a B, D)>) -> Option<
    (C, &'a B),
> {
    match best {
        Some((c, b, _)) => Some((c, b)),
        None => None,
    }
}

/// Two cost functions give every volume the same bound, and every leaf
/// that the first accepts the same cost, and stop at the same leaves.
pub open spec fn costs_agree<
    B,
    BV,
    C: SearchCost,
    F: BVTCostFn<B, BV, Cost = C>,
    G: BVTCostFn<B, BV, Cost = C>,
>(f: F, g: G) -> bool {
    &&& forall|bv: BV| #[trigger] f.bv_cost(&bv) == g.bv_cost(&bv)
    &&& forall|b: B| #[trigger]
        f.accepts(&b) ==> leaf_cost(f, b) == leaf_cost(g, b) && f.stops_at(&b) == g.stops_at(&b)
}

/// The cost function accepts every leaf below the node.
pub open spec fn accepts_below<B, BV: BoundingVolume, F: BVTCostFn<B, BV>>(
    f: F,
    n: BVTNode<B, BV>,
) -> bool {
    forall|j: int| 0 <= j < n.leaves().len() ==> f.accepts(&(#[trigger] n.leaves()[j]).0)
}

/// The cost function accepts every leaf below the nodes of the queue.
pub open spec fn accepts_queue<B, BV: BoundingVolume, F: BVTCostFn<B, BV>>(
    f: F,
    q: Seq<(F::Cost, &BVTNode<B, BV>)>,
) -> bool {
    forall|k: int| 0 <= k < q.len() ==> accepts_below(f, *(#[trigger] q[k]).1)
}

/// Cost functions that agree have the search choose the same leaf: from
/// the same queue and the same choice so far, the searches with the two
/// end with the same leaf at the same cost, a leaf that the first accepts.
pub proof fn lemma_search_agrees<
    'a,
    B,
    BV: BoundingVolume,
    C: SearchCost,
    F: BVTCostFn<B, BV, Cost = C>,
    G: BVTCostFn<B, BV, Cost = C>,
>(
    f: F,
    g: G,
    q: Seq<(C, &'a BVTNode<B, BV>)>,
    bf: Option<(C, &'a B, F::UserData)>,
    bg: Option<(C, &'a B, G::UserData)>,
    stopped: bool,
)
    requires
        costs_agree(f, g),
        accepts_queue(f, q),
        chosen(bf) == chosen(bg),
        bf matches Some((_, b, _)) ==> f.accepts(b),
    ensures
        chosen(search_from(f, q, bf, stopped)) == chosen(search_from(g, q, bg, stopped)),
        search_from(f, q, bf, stopped) matches Some((_, b, _)) ==> f.accepts(b),
    decreases queue_size(q),
{
    if q.len() > 0 {
        let e = q.last();
        let rest = q.drop_last();
        assert(accepts_below(f, *q[q.len() - 1].1));
        assert forall|k: int| 0 <= k < rest.len() implies accepts_below(f, *(#[trigger] rest[k]).1) by {
            assert(rest[k] == q[k]);
        }
        if bf is Some && !cost_lt(e.0, bf->Some_0.0) {
        } else {
            match e.1 {
                BVTNode::Leaf { b, bv } => {
                    e.1.lemma_leaves_nonempty();
                    assert(e.1.leaves()[0] == (*b, *bv));
                    assert(f.accepts(b));
                    lemma_search_agrees(
                        f,
                        g,
                        rest,
                        bettered(bf, b, f.b_cost(b)),
                        bettered(bg, b, g.b_cost(b)),
                        stopped || f.stops_at(b),
                    );
                },
                BVTNode::Internal { left, right, .. } => {
                    let bc = best_cost(bf);
                    assert(best_cost(bg) == bc);
                    let with_left = pushed(f, rest, &**left, bc, stopped);
                    let both = pushed(f, with_left, &**right, bc, stopped);
                    lemma_pushed_size(f, rest, &**left, bc, stopped);
                    lemma_pushed_size(f, with_left, &**right, bc, stopped);
                    assert(with_left == pushed(g, rest, &**left, bc, stopped));
                    assert(both == pushed(g, with_left, &**right, bc, stopped));
                    assert(accepts_below(f, **left)) by {
                        assert forall|j: int| 0 <= j < left.leaves().len() implies f.accepts(
                            &(#[trigger] left.leaves()[j]).0,
                        ) by {
                            assert(e.1.leaves()[j] == left.leaves()[j]);
                        }
                    }
                    assert(accepts_below(f, **right)) by {
                        assert forall|j: int| 0 <= j < right.leaves().len() implies f.accepts(
                            &(#[trigger] right.leaves()[j]).0,
                        ) by {
                            assert(e.1.leaves()[left.leaves().len() + j] == right.leaves()[j]);
                        }
                    }
                    lemma_pushed_accepts(f, rest, &**left, bc, stopped);
                    lemma_pushed_accepts(f, with_left, &**right, bc, stopped);
                    lemma_search_agrees(f, g, both, bf, bg, stopped);
                },
            }
        }
    }
}

/// A queue whose leaves the cost function accepts stays one when a child
/// with such leaves has been looked at.
proof fn lemma_pushed_accepts<'a, B, BV: BoundingVolume, F: BVTCostFn<B, BV>>(
    f: F,
    q: Seq<(F::Cost, &'a BVTNode<B, BV>)>,
    child: &'a BVTNode<B, BV>,
    best: Option<F::Cost>,
    stopped: bool,
)
    requires
        accepts_queue(f, q),
        accepts_below(f, *child),
    ensures
        accepts_queue(f, pushed(f, q, child, best, stopped)),
{
    let p = pushed(f, q, child, best, stopped);
    if p != q {
        let l = f.bv_cost(&child.bv_spec())->Some_0;
        let pos = insert_pos(q, l);
        lemma_insert_pos_range(q, l);
        assert forall|k: int| 0 <= k < p.len() implies accepts_below(f, *(#[trigger] p[k]).1) by {
            if k < pos {
                assert(p[k] == q[k]);
            } else if k > pos {
                assert(p[k] == q[k - 1]);
            }
        }
    }
}

/// The leaf that the search ends with has the cost and the result that
/// the search holds for it, if the leaf that it starts with has.
pub proof fn lemma_search_cost<'a, B, BV: BoundingVolume, F: BVTCostFn<B, BV>>(
    f: F,
    q: Seq<(F::Cost, &'a BVTNode<B, BV>)>,
    best: Option<(F::Cost, &'a B, F::UserData)>,
    stopped: bool,
)
    requires
        best matches Some((c, b, d)) ==> f.b_cost(b) == Some((c, d)),
    ensures
        search_from(f, q, best, stopped) matches Some((c, b, d)) ==> f.b_cost(b) == Some((c, d)),
    decreases queue_size(q),
{
    if q.len() > 0 {
        let e = q.last();
        let rest = q.drop_last();
        if best is Some && !cost_lt(e.0, best->Some_0.0) {
        } else {
            match e.1 {
                BVTNode::Leaf { b, .. } => {
                    e.1.lemma_leaves_nonempty();
                    lemma_search_cost(f, rest, bettered(best, b, f.b_cost(b)), stopped || f.stops_at(b));
                },
                BVTNode::Internal { left, right, .. } => {
                    let with_left = pushed(f, rest, &**left, best_cost(best), stopped);
                    lemma_pushed_size(f, rest, &**left, best_cost(best), stopped);
                    lemma_pushed_size(f, with_left, &**right, best_cost(best), stopped);
                    lemma_search_cost(
                        f,
                        pushed(f, with_left, &**right, best_cost(best), stopped),
                        best,
                        stopped,
                    );
                },
            }
        }
    }
}

/// Every volume has a bound.
pub open spec fn bounds_total<B, BV, F: BVTCostFn<B, BV>>(f: F) -> bool {
    forall|bv: BV| (#[trigger] f.bv_cost(&bv)) is Some
}

/// The cost of the best leaf so far.
pub open spec fn best_cost<B, D, C: SearchCost>(best: Option<(C, &B, D)>) -> Option<C> {
    match best {
        Some((c, _, _)) => Some(c),
        None => None,
    }
}

/// The best leaf so far is a leaf of the tree, with its cost and result.
spec fn best_ok<B, BV: BoundingVolume, F: BVTCostFn<B, BV>>(
    f: F,
    root: BVTNode<B, BV>,
    best: Option<(F::Cost, &B, F::UserData)>,
) -> bool {
    best matches Some((c, b, d)) ==> {
        &&& c.cost_wf()
        &&& F::result_ok(c, d)
        &&& f.b_cost(b) == Some((c, d))
        &&& exists|i: int| 0 <= i < root.leaves().len() && (#[trigger] root.leaves()[i]).0 == *b
    }
}

/// Every leaf of the tree is settled by the best cost or still in the queue.
spec fn all_settled_or_queued<B, BV: BoundingVolume, F: BVTCostFn<B, BV>>(
    f: F,
    root: BVTNode<B, BV>,
    best: Option<F::Cost>,
    q: Seq<(F::Cost, &BVTNode<B, BV>)>,
) -> bool {
    forall|j: int|
        0 <= j < root.leaves().len() ==> settled(f, best, #[trigger] root.leaves()[j]) || in_queue(
            q,
            root.leaves()[j],
        )
}

/// Every entry of the queue is a node of the tree with its bound.
spec fn queue_ok<B, BV: BoundingVolume, F: BVTCostFn<B, BV>>(
    f: F,
    root: BVTNode<B, BV>,
    q: Seq<(F::Cost, &BVTNode<B, BV>)>,
) -> bool {
    &&& queue_sorted(q)
    &&& forall|k: int| 0 <= k < q.len() ==> entry_ok(f, root, #[trigger] q[k])
}

/// A cost that does not exceed the bound of a node settles every leaf
/// below the node, if it is the cost of a leaf of the tree.
proof fn lemma_settle_node<B, BV: BoundingVolume, F: BVTCostFn<B, BV>>(
    f: F,
    root: BVTNode<B, BV>,
    n: BVTNode<B, BV>,
    bc: F::Cost,
    x: (B, BV),
)
    requires
        n.leaf_costs_bounded(f, root),
        n.leaves().contains(x),
        bc.cost_wf(),
        f.bv_cost(&n.bv_spec()) matches Some(l) ==> bc.cost_le(l),
        exists|i: int|
            0 <= i < root.leaves().len() && leaf_cost(f, (#[trigger] root.leaves()[i]).0) == Some(bc),
    ensures
        settled(f, Some(bc), x),
{
    let i = choose|i: int| 0 <= i < n.leaves().len() && n.leaves()[i] == x;
    assert(bound_ok(f, n.bv_spec(), n.leaves()[i], root));
    if let Some(c) = leaf_cost(f, x.0) {
        let l = f.bv_cost(&n.bv_spec()).unwrap();
        if l.cost_le(c) {
            F::Cost::lemma_cost_trans(bc, l, c);
        } else {
            let j = choose|j: int|
                0 <= j < root.leaves().len() && leaf_cost(f, (#[trigger] root.leaves()[j]).0) == Some(
                    bc,
                );
            assert(leaf_cost(f, root.leaves()[j].0) == Some(bc));
        }
    }
}

/// Puts the entry into the queue, before the entries whose bound it does
/// not exceed, so that among equal bounds the older entry leaves first.
fn queue_insert<'a, B, BV: BoundingVolume, C: SearchCost>(
    queue: &mut Vec<(C, &'a BVTNode<B, BV>)>,
    key: C,
    node: &'a BVTNode<B, BV>,
) -> (p: usize)
    requires
        queue_sorted(old(queue)@),
        forall|k: int| 0 <= k < old(queue)@.len() ==> (#[trigger] old(queue)@[k]).0.cost_wf(),
        key.cost_wf(),
    ensures
        p <= old(queue)@.len(),
        p == insert_pos(old(queue)@, key),
        final(queue)@ == old(queue)@.insert(p as int, (key, node)),
        queue_sorted(final(queue)@),
{
    let ghost q0 = queue@;
    let mut i: usize = 0;
    proof {
        assert(q0.skip(0) =~= q0);
    }
    while i < queue.len() && key.cost_less(&queue[i].0)
        invariant
            i <= queue.len(),
            queue@ == q0,
            key.cost_wf(),
            forall|k: int| 0 <= k < q0.len() ==> (#[trigger] q0[k]).0.cost_wf(),
            forall|k: int| 0 <= k < i ==> cost_lt(key, (#[trigger] q0[k]).0),
            insert_pos(q0, key) == i + insert_pos(q0.skip(i as int), key),
        decreases queue.len() - i,
    {
        proof {
            assert(q0.skip(i as int)[0] == q0[i as int]);
            assert(q0.skip(i as int).drop_first() =~= q0.skip(i as int + 1));
        }
        i = i + 1;
    }
    proof {
        if i < q0.len() {
            assert(q0.skip(i as int)[0] == q0[i as int]);
        }
    }
    queue.insert(i, (key, node));
    proof {
        let q1 = queue@;
        assert forall|a: int, b: int| 0 <= a <= b < q1.len() implies (#[trigger] q1[b]).0.cost_le(
            (#[trigger] q1[a]).0,
        ) by {
            if b < i {
                assert(q1[a] == q0[a] && q1[b] == q0[b]);
            } else if b == i {
                if a < i {
                    assert(q1[a] == q0[a]);
                    C::lemma_cost_total(key, q0[a].0);
                } else {
                    C::lemma_cost_total(key, key);
                }
            } else {
                assert(q1[b] == q0[b - 1]);
                if a < i {
                    assert(q1[a] == q0[a]);
                } else if a == i {
                    assert(q0[i as int].0.cost_le(key));
                    assert(q0[b - 1].0.cost_le(q0[i as int].0));
                    C::lemma_cost_trans(q0[b - 1].0, q0[i as int].0, key);
                } else {
                    assert(q1[a] == q0[a - 1]);
                }
            }
        }
    }
    i
}

/// Asks for the bound of `child` and puts the child into the queue if the
/// bound can still beat the best cost.
fn push_child<'a, B, BV: BoundingVolume, F: BVTCostFn<B, BV>>(
    cost_fn: &mut F,
    queue: &mut Vec<(F::Cost, &'a BVTNode<B, BV>)>,
    child: &'a BVTNode<B, BV>,
    best: &Option<(F::Cost, &'a B, F::UserData)>,
    Ghost(f0): Ghost<F>,
    Ghost(root): Ghost<BVTNode<B, BV>>,
)
    requires
        same_costs(*old(cost_fn), f0),
        queue_ok(f0, root, old(queue)@),
        best_ok(f0, root, *best),
        root.has_node(*child),
        root.leaf_costs_bounded(f0, root) && !f0.stopped() && old(cost_fn).stopped() ==> (best_cost(
            *best,
        ) matches Some(c) && is_least_cost(f0, c)),
        old(cost_fn).stopped() && !f0.stopped() ==> *best is Some,
    ensures
        final(queue)@ == pushed(f0, old(queue)@, child, best_cost(*best), old(cost_fn).stopped()),
        bounds_total(f0) && !f0.stopped() && *best is None ==> final(queue)@.len() > 0,
        same_costs(*final(cost_fn), f0),
        final(cost_fn).stopped() == old(cost_fn).stopped(),
        queue_ok(f0, root, final(queue)@),
        queue_size(final(queue)@) <= queue_size(old(queue)@) + child.size(),
        forall|x: (B, BV)| in_queue(old(queue)@, x) ==> in_queue(final(queue)@, x),
        root.leaf_costs_bounded(f0, root) && !f0.stopped() ==> forall|x: (B, BV)|
            #[trigger] child.leaves().contains(x) ==> settled(f0, best_cost(*best), x) || in_queue(
                final(queue)@,
                x,
            ),
{
    let ghost q0 = queue@;
    let ghost f1 = *cost_fn;
    let ghost adm = root.leaf_costs_bounded(f0, root) && !f0.stopped();
    let r = cost_fn.compute_bv_cost(child.bounding_volume());
    proof {
        assert(f1.bv_cost(&child.bv_spec()) == f0.bv_cost(&child.bv_spec()));
        if adm {
            root.lemma_bounded_descendant(*child, f0, root);
        }
    }
    match r {
        Some(l) => {
            let push = match best {
                Some(bst) => l.cost_less(&bst.0),
                None => true,
            };
            if push {
                let p = queue_insert(queue, l, child);
                proof {
                    let q1 = queue@;
                    let e = (l, child);
                    lemma_queue_size_insert(q0, p as int, e);
                    assert forall|k: int| 0 <= k < q1.len() implies entry_ok(f0, root, #[trigger] q1[k]) by {
                        if k < p {
                            assert(q1[k] == q0[k]);
                        } else if k > p {
                            assert(q1[k] == q0[k - 1]);
                        }
                    }
                    assert forall|x: (B, BV)| in_queue(q0, x) implies in_queue(q1, x) by {
                        let k = choose|k: int| 0 <= k < q0.len() && covers(#[trigger] q0[k], x);
                        if k < p {
                            assert(q1[k] == q0[k]);
                            assert(covers(q1[k], x));
                        } else {
                            assert(q1[k + 1] == q0[k]);
                            assert(covers(q1[k + 1], x));
                        }
                    }
                    assert forall|x: (B, BV)| #[trigger] child.leaves().contains(x) implies in_queue(
                        q1,
                        x,
                    ) by {
                        assert(q1[p as int] == e);
                        assert(covers(q1[p as int], x));
                    }
                }
            } else {
                proof {
                    if adm {
                        let bst = best->0;
                        assert forall|x: (B, BV)| #[trigger] child.leaves().contains(x) implies settled(
                            f0,
                            best_cost(*best),
                            x,
                        ) by {
                            let i = choose|i: int|
                                0 <= i < root.leaves().len() && (#[trigger] root.leaves()[i]).0 == *bst.1;
                            assert(leaf_cost(f0, root.leaves()[i].0) == Some(bst.0));
                            lemma_settle_node(f0, root, *child, bst.0, x);
                        }
                    }
                }
            }
        },
        None => {
            proof {
                if adm {
                    assert forall|x: (B, BV)| #[trigger] child.leaves().contains(x) implies settled(
                        f0,
                        best_cost(*best),
                        x,
                    ) by {
                        if f1.stopped() {
                            // The search was stopped at a cost that no leaf can beat.
                            let bc = best_cost(*best)->Some_0;
                            assert(f0.b_cost(&x.0) matches Some((d, _)) ==> bc.cost_le(d));
                        } else {
                            let i = choose|i: int|
                                0 <= i < child.leaves().len() && child.leaves()[i] == x;
                            assert(bound_ok(f0, child.bv_spec(), child.leaves()[i], root));
                        }
                    }
                }
            }
        },
    }
}

impl<B, BV: BoundingVolume> BVT<B, BV> {
    /// The bounds of the cost function are in order throughout the tree:
    /// wherever a leaf has a cost, every volume above it has a bound, and
    /// the bound does not exceed the cost unless no leaf of the tree costs
    /// more than this one. The cost function has not stopped the search.
    pub open spec fn admissible<F: BVTCostFn<B, BV>>(self, f: F) -> bool {
        match self.root {
            Some(n) => n.leaf_costs_bounded(f, n) && !f.stopped(),
            None => true,
        }
    }

    /// The bounds of the cost function are lower bounds throughout the
    /// tree: wherever a leaf has a cost, every volume above it has a bound
    /// that does not exceed the cost. The cost function has not stopped the search.
    pub open spec fn monotone<F: BVTCostFn<B, BV>>(self, f: F) -> bool {
        match self.root {
            Some(n) => n.lower_bounded(f) && !f.stopped(),
            None => true,
        }
    }

    /// Lower bounds throughout the tree are bounds in order.
    pub proof fn lemma_monotone_is_admissible<F: BVTCostFn<B, BV>>(self, f: F)
        requires
            self.monotone(f),
        ensures
            self.admissible(f),
    {
        if let Some(n) = self.root {
            n.lemma_lower_bounded_is_bounded(f, n);
        }
    }

    /// The cost function has not stopped the search, every volume has a
    /// bound and every leaf of the tree a cost.
    pub open spec fn always_costs<F: BVTCostFn<B, BV>>(self, f: F) -> bool {
        &&& !f.stopped()
        &&& bounds_total(f)
        &&& forall|i: int|
            0 <= i < self.leaves().len() ==> leaf_cost(f, (#[trigger] self.leaves()[i]).0) is Some
    }

    /// What the search returns: nothing for the empty tree, for a cost
    /// function that has stopped the search, and for a root without a
    /// bound; else the best leaf of the search that starts with the root in
    /// the queue.
    pub open spec fn search_result<'a, F: BVTCostFn<B, BV>>(&'a self, f: F) -> Option<
        (&'a B, F::UserData),
    > {
        match &self.root {
            None => None,
            Some(n) => if f.stopped() {
                None
            } else {
                match f.bv_cost(&n.bv_spec()) {
                    None => None,
                    Some(c) => match search_from(f, seq![(c, n)], None, false) {
                        Some((_, b, d)) => Some((b, d)),
                        None => None,
                    },
                }
            },
        }
    }

    /// Cost functions that agree have the search return the same leaf.
    pub proof fn lemma_search_result_agrees<
        C: SearchCost,
        F: BVTCostFn<B, BV, Cost = C>,
        G: BVTCostFn<B, BV, Cost = C>,
    >(&self, f: F, g: G)
        requires
            costs_agree(f, g),
            f.stopped() == g.stopped(),
            forall|j: int| 0 <= j < self.leaves().len() ==> f.accepts(&(#[trigger] self.leaves()[j]).0),
        ensures
            match (self.search_result(f), self.search_result(g)) {
                (Some((b, d)), Some((c, e))) => {
                    &&& b == c
                    &&& f.accepts(b)
                    &&& leaf_cost(f, *b) == leaf_cost(g, *c)
                    &&& f.b_cost(b) matches Some((_, x)) && x == d
                    &&& g.b_cost(c) matches Some((_, y)) && y == e
                },
                (None, None) => true,
                _ => false,
            },
    {
        if let Some(n) = &self.root {
            if !f.stopped() {
                if let Some(c) = f.bv_cost(&n.bv_spec()) {
                    let q = seq![(c, &*n)];
                    assert(self.leaves() == n.leaves());
                    assert(accepts_queue(f, q)) by {
                        assert forall|k: int| 0 <= k < q.len() implies accepts_below(
                            f,
                            *(#[trigger] q[k]).1,
                        ) by {
                            assert(q[k].1 == n);
                        }
                    }
                    lemma_search_agrees(
                        f,
                        g,
                        q,
                        None::<(C, &B, F::UserData)>,
                        None::<(C, &B, G::UserData)>,
                        false,
                    );
                    lemma_search_cost(f, q, None::<(C, &B, F::UserData)>, false);
                    lemma_search_cost(g, q, None::<(C, &B, G::UserData)>, false);
                }
            }
        }
    }

    /// The result, if any, is a leaf of the tree with what the cost function
    /// gives for it.
    pub open spec fn search_sound<F: BVTCostFn<B, BV>>(
        self,
        f: F,
        r: Option<(&B, F::UserData)>,
    ) -> bool {
        r matches Some((b, d)) ==> {
            &&& exists|i: int| 0 <= i < self.leaves().len() && (#[trigger] self.leaves()[i]).0 == *b
            &&& f.b_cost(b) matches Some((c, dd)) && dd == d && c.cost_wf() && F::result_ok(c, d)
        }
    }

    /// There is a result exactly if some leaf has a cost, and no leaf has a
    /// cost below that of the result.
    pub open spec fn search_optimal<F: BVTCostFn<B, BV>>(
        self,
        f: F,
        r: Option<(&B, F::UserData)>,
    ) -> bool {
        &&& r is None <==> forall|i: int|
            0 <= i < self.leaves().len() ==> leaf_cost(f, (#[trigger] self.leaves()[i]).0) is None
        &&& r matches Some((b, _)) ==> leaf_cost(f, *b) matches Some(c) && forall|i: int|
            0 <= i < self.leaves().len() ==> (leaf_cost(f, (#[trigger] self.leaves()[i]).0) matches Some(
                d,
            ) ==> c.cost_le(d))
    }

    /// Searches the tree for the leaf of least cost.
    ///
    /// The search keeps a queue of nodes ordered by their bounds, starting
    /// with the root. It takes the node of least bound; a leaf is given its
    /// cost and kept if it beats the best so far, an internal node has its
    /// children queued. The search ends when the queue is empty or the least
    /// bound does not beat the best cost.
    ///
    /// The result is a leaf of the tree with its result. Where the bounds are
    /// in order (`admissible`), it is a leaf of least cost, and there is a
    /// result exactly if some leaf has a cost.
    pub fn best_first_search<'a, F: BVTCostFn<B, BV>>(&'a self, cost_fn: &mut F) -> (r: Option<
        (&'a B, F::UserData),
    >)
        requires
            forall|i: int|
                0 <= i < self.leaves().len() ==> old(cost_fn).accepts(&(#[trigger] self.leaves()[i]).0),
        ensures
            r == self.search_result(*old(cost_fn)),
            same_costs(*final(cost_fn), *old(cost_fn)),
            self.search_sound(*old(cost_fn), r),
            self.admissible(*old(cost_fn)) ==> self.search_optimal(*old(cost_fn), r),
            self.monotone(*old(cost_fn)) ==> self.search_optimal(*old(cost_fn), r),
            self.root is Some && self.always_costs(*old(cost_fn)) ==> r is Some,
    {
        let ghost f0 = *cost_fn;
        proof {
            if self.monotone(f0) {
                self.lemma_monotone_is_admissible(f0);
            }
        }
        let root: &'a BVTNode<B, BV> = match &self.root {
            None => {
                return None;
            },
            Some(n) => n,
        };
        let ghost adm = root.leaf_costs_bounded(f0, *root) && !f0.stopped();
        let ghost tot = self.always_costs(f0);
        assert(self.leaves() == root.leaves());
        let mut queue: Vec<(F::Cost, &'a BVTNode<B, BV>)> = Vec::new();
        let mut best: Option<(F::Cost, &'a B, F::UserData)> = None;
        match cost_fn.compute_bv_cost(root.bounding_volume()) {
            Some(c) => {
                queue.push((c, root));
                proof {
                    F::Cost::lemma_cost_total(c, c);
                    assert(queue@[0] == (c, root));
                    assert forall|j: int| 0 <= j < root.leaves().len() implies in_queue(
                        queue@,
                        #[trigger] root.leaves()[j],
                    ) by {
                        assert(covers(queue@[0], root.leaves()[j]));
                    }
                    assert(queue@.drop_last() =~= Seq::empty());
                    assert(queue_size(queue@.drop_last()) == 0);
                    assert(queue@ =~= seq![(c, root)]);
                }
            },
            None => {
                proof {
                    if adm {
                        assert forall|i: int| 0 <= i < root.leaves().len() implies leaf_cost(
                            f0,
                            (#[trigger] root.leaves()[i]).0,
                        ) is None by {
                            assert(bound_ok(f0, root.bv_spec(), root.leaves()[i], *root));
                        }
                    }
                }
                return None;
            },
        }
        let ghost goal = search_from(f0, queue@, None, false);
        let mut done = false;
        while !done
            invariant
                self.root == Some(*root),
                goal == (if done {
                    best
                } else {
                    search_from(f0, queue@, best, cost_fn.stopped())
                }),
                adm == (root.leaf_costs_bounded(f0, *root) && !f0.stopped()),
                same_costs(*cost_fn, f0),
                queue_ok(f0, *root, queue@),
                best_ok(f0, *root, best),
                forall|i: int|
                    0 <= i < root.leaves().len() ==> f0.accepts(&(#[trigger] root.leaves()[i]).0),
                adm && cost_fn.stopped() ==> (best_cost(best) matches Some(c) && is_least_cost(f0, c)),
                tot == self.always_costs(f0),
                cost_fn.stopped() && !f0.stopped() ==> best is Some,
                tot ==> best is Some || (!done && queue@.len() > 0),
                adm ==> all_settled_or_queued(
                    f0,
                    *root,
                    best_cost(best),
                    if done {
                        Seq::empty()
                    } else {
                        queue@
                    },
                ),
            decreases
                    if done {
                        0
                    } else {
                        1 + queue_size(queue@)
                    },
        {
            let ghost q0 = queue@;
            let ghost best0 = best;
            let ghost stopped0 = cost_fn.stopped();
            match queue.pop() {
                None => {
                    done = true;
                },
                Some(entry) => {
                    let key = entry.0;
                    let node = entry.1;
                    let ghost q1 = queue@;
                    proof {
                        assert(q1 =~= q0.drop_last());
                        assert(q0.last() == entry);
                        assert(entry_ok(f0, *root, q0[q0.len() - 1]));
                        assert forall|k: int| 0 <= k < q1.len() implies entry_ok(
                            f0,
                            *root,
                            #[trigger] q1[k],
                        ) by {
                            assert(q1[k] == q0[k]);
                        }
                        assert forall|i: int, j: int| 0 <= i <= j < q1.len() implies (#[trigger] q1[j]).0.cost_le(
                            (#[trigger] q1[i]).0,
                        ) by {
                            assert(q1[i] == q0[i] && q1[j] == q0[j]);
                        }
                        if adm {
                            root.lemma_bounded_descendant(*node, f0, *root);
                        }
                    }
                    let cut = match &best {
                        Some(bst) => !key.cost_less(&bst.0),
                        None => false,
                    };
                    if cut {
                        done = true;
                        proof {
                            if adm {
                                let bst = best->0;
                                let bi = choose|i: int|
                                    0 <= i < root.leaves().len() && (#[trigger] root.leaves()[i]).0
                                        == *bst.1;
                                assert(leaf_cost(f0, root.leaves()[bi].0) == Some(bst.0));
                                assert forall|j: int| 0 <= j < root.leaves().len() implies settled(
                                    f0,
                                    best_cost(best),
                                    #[trigger] root.leaves()[j],
                                ) by {
                                    let x = root.leaves()[j];
                                    if !settled(f0, best_cost(best), x) {
                                        let k = choose|k: int|
                                            0 <= k < q0.len() && covers(#[trigger] q0[k], x);
                                        assert(entry_ok(f0, *root, q0[k]));
                                        assert(q0[q0.len() - 1].0.cost_le(q0[k].0));
                                        F::Cost::lemma_cost_trans(bst.0, key, q0[k].0);
                                        root.lemma_bounded_descendant(*q0[k].1, f0, *root);
                                        lemma_settle_node(f0, *root, *q0[k].1, bst.0, x);
                                    }
                                }
                            }
                        }
                    } else {
                        match node {
                            BVTNode::Internal { left, right, .. } => {
                                proof {
                                    assert(left.has_node(**left));
                                    assert(right.has_node(**right));
                                    assert(node.has_node(**left));
                                    assert(node.has_node(**right));
                                    root.lemma_has_node_transitive(*node, **left);
                                    root.lemma_has_node_transitive(*node, **right);
                                }
                                push_child(cost_fn, &mut queue, left, &best, Ghost(f0), Ghost(*root));
                                let ghost q2 = queue@;
                                push_child(cost_fn, &mut queue, right, &best, Ghost(f0), Ghost(*root));
                                proof {
                                    let q3 = queue@;
                                    if adm {
                                        assert forall|j: int|
                                            0 <= j < root.leaves().len() implies settled(
                                            f0,
                                            best_cost(best),
                                            #[trigger] root.leaves()[j],
                                        ) || in_queue(q3, root.leaves()[j]) by {
                                            let x = root.leaves()[j];
                                            if !settled(f0, best_cost(best), x) {
                                                let k = choose|k: int|
                                                    0 <= k < q0.len() && covers(#[trigger] q0[k], x);
                                                if k < q1.len() {
                                                    assert(q1[k] == q0[k]);
                                                    assert(covers(q1[k], x));
                                                    assert(in_queue(q1, x));
                                                    assert(in_queue(q2, x));
                                                } else {
                                                    let i = choose|i: int|
                                                        0 <= i < node.leaves().len() && node.leaves()[i]
                                                            == x;
                                                    if i < left.leaves().len() {
                                                        assert(left.leaves()[i] == x);
                                                        assert(left.leaves().contains(x));
                                                        assert(in_queue(q2, x));
                                                    } else {
                                                        assert(right.leaves()[i - left.leaves().len()]
                                                            == x);
                                                        assert(right.leaves().contains(x));
                                                    }
                                                }
                                            }
                                        }
                                    }
                                }
                            },
                            BVTNode::Leaf { b, bv } => {
                                let ghost f1 = *cost_fn;
                                let ghost old_best = best_cost(best);
                                proof {
                                    assert(node.leaves()[0] == (*b, *bv));
                                    root.lemma_descendant_leaves(*node, (*b, *bv));
                                    let i = choose|i: int|
                                        0 <= i < root.leaves().len() && root.leaves()[i] == (*b, *bv);
                                    assert(f0.accepts(&root.leaves()[i].0));
                                    assert(f1.accepts(b) == f0.accepts(b));
                                }
                                let r = cost_fn.compute_b_cost(b);
                                proof {
                                    assert(f1.b_cost(b) == f0.b_cost(b));
                                }
                                match r {
                                    Some((c, d)) => {
                                        let better = match &best {
                                            Some(bst) => c.cost_less(&bst.0),
                                            None => true,
                                        };
                                        if better {
                                            best = Some((c, b, d));
                                        }
                                        proof {
                                            let i = choose|i: int|
                                                0 <= i < root.leaves().len() && root.leaves()[i] == (
                                                    *b,
                                                    *bv,
                                                );
                                            assert(root.leaves()[i].0 == *b);
                                            let nb = best_cost(best)->0;
                                            F::Cost::lemma_cost_total(c, c);
                                            if let Some(bst) = best0 {
                                                F::Cost::lemma_cost_total(c, bst.0);
                                            }
                                            assert(nb.cost_le(c));
                                            if adm {
                                                assert forall|j: int|
                                                    0 <= j < root.leaves().len() implies settled(
                                                    f0,
                                                    best_cost(best),
                                                    #[trigger] root.leaves()[j],
                                                ) || in_queue(q1, root.leaves()[j]) by {
                                                    let x = root.leaves()[j];
                                                    if settled(f0, old_best, x) {
                                                        if let Some(cx) = leaf_cost(f0, x.0) {
                                                            let ob = old_best->0;
                                                            assert(bound_ok(
                                                                f0,
                                                                root.bv_spec(),
                                                                root.leaves()[j],
                                                                *root,
                                                            ));
                                                            if better {
                                                                F::Cost::lemma_cost_trans(nb, ob, cx);
                                                            }
                                                        }
                                                    } else {
                                                        let k = choose|k: int|
                                                            0 <= k < q0.len() && covers(
                                                                #[trigger] q0[k],
                                                                x,
                                                            );
                                                        if k < q1.len() {
                                                            assert(q1[k] == q0[k]);
                                                            assert(covers(q1[k], x));
                                                        } else {
                                                            assert(x == (*b, *bv));
                                                        }
                                                    }
                                                }
                                                if cost_fn.stopped() {
                                                    if f1.stopped() {
                                                        let ob = old_best->0;
                                                        assert(f0.b_cost(b) == Some((c, d)));
                                                        assert(ob.cost_le(c));
                                                    } else {
                                                        assert forall|y: B|
                                                            (#[trigger] f0.b_cost(&y)) is Some implies ({
                                                            let dy = f0.b_cost(&y).unwrap().0;
                                                            dy.cost_wf() && nb.cost_le(dy)
                                                        }) by {
                                                            assert(f1.b_cost(&y) == f0.b_cost(&y));
                                                            let dy = f0.b_cost(&y).unwrap().0;
                                                            F::Cost::lemma_cost_trans(nb, c, dy);
                                                        }
                                                        assert(is_least_cost(f0, nb));
                                                    }
                                                }
                                            }
                                        }
                                    },
                                    None => {
                                        proof {
                                            if adm {
                                                assert forall|j: int|
                                                    0 <= j < root.leaves().len() implies settled(
                                                    f0,
                                                    best_cost(best),
                                                    #[trigger] root.leaves()[j],
                                                ) || in_queue(q1, root.leaves()[j]) by {
                                                    let x = root.leaves()[j];
                                                    if !settled(f0, old_best, x) {
                                                        let k = choose|k: int|
                                                            0 <= k < q0.len() && covers(
                                                                #[trigger] q0[k],
                                                                x,
                                                            );
                                                        if k < q1.len() {
                                                            assert(q1[k] == q0[k]);
                                                            assert(covers(q1[k], x));
                                                        } else {
                                                            assert(x == (*b, *bv));
                                                        }
                                                    }
                                                }
                                            }
                                        }
                                    },
                                }
                            },
                        }
                    }
                },
            }
        }
        proof {
            if adm {
                assert forall|j: int| 0 <= j < root.leaves().len() implies settled(
                    f0,
                    best_cost(best),
                    #[trigger] root.leaves()[j],
                ) by {
                    let x = root.leaves()[j];
                    if in_queue(Seq::<(F::Cost, &BVTNode<B, BV>)>::empty(), x) {
                    }
                }
            }
        }
        match best {
            None => None,
            Some((c, b, d)) => {
                proof {
                    let i = choose|i: int|
                        0 <= i < root.leaves().len() && (#[trigger] root.leaves()[i]).0 == *b;
                    assert(self.leaves()[i].0 == *b);
                    assert(leaf_cost(f0, root.leaves()[i].0) == Some(c));
                }
                Some((b, d))
            },
        }
    }
}

} // verus!
