//! A two-dimensional k-d tree that answers nearest-neighbour queries.

use vstd::prelude::*;
use vstd::multiset::Multiset;
use vstd::arithmetic::power2::{pow2, lemma2_to64, lemma_pow2_unfold};

verus! {

broadcast use vstd::seq_lib::group_to_multiset_ensures, vstd::multiset::group_multiset_axioms;

/// A point in the plane, seen through its two integer coordinates.
pub trait VectorObject: Sized {
    /// The coordinate along `axis` (0 or 1).
    spec fn spec_coordinate(&self, axis: int) -> int;

    /// The number of axes: always two.
    fn num_dimensions(&self) -> (r: usize)
        ensures
            r == 2,
    ;

    /// The coordinate along `axis`.
    fn coordinate(&self, axis: usize) -> (r: i64)
        requires
            axis < 2,
        ensures
            r == self.spec_coordinate(axis as int),
    ;

    /// The squared Euclidean distance to `other`.
    fn dist_sqr(&self, other: &Self) -> (r: u128)
        ensures
            r == (self.spec_coordinate(0) - other.spec_coordinate(0)) * (self.spec_coordinate(0)
                - other.spec_coordinate(0)) + (self.spec_coordinate(1) - other.spec_coordinate(1)) * (
            self.spec_coordinate(1) - other.spec_coordinate(1)),
    ;

    /// The squared distance to `other` along `axis` alone.
    fn dist_axis(&self, other: &Self, axis: usize) -> (r: u128)
        requires
            axis < 2,
        ensures
            r == (self.spec_coordinate(axis as int) - other.spec_coordinate(axis as int)) * (
            self.spec_coordinate(axis as int) - other.spec_coordinate(axis as int)),
    ;
}

/// The squared distance between `a` and `b` along one axis.
pub open spec fn axis_sq_dist<T: VectorObject>(a: T, b: T, axis: int) -> int {
    (a.spec_coordinate(axis) - b.spec_coordinate(axis)) * (a.spec_coordinate(axis) - b.spec_coordinate(
        axis,
    ))
}

/// The squared Euclidean distance between `a` and `b`.
pub open spec fn sq_dist<T: VectorObject>(a: T, b: T) -> int {
    axis_sq_dist(a, b, 0) + axis_sq_dist(a, b, 1)
}

/// Grid coordinates `(x, y)`.
impl VectorObject for (i32, i32) {
    open spec fn spec_coordinate(&self, axis: int) -> int {
        if axis == 0 {
            self.0 as int
        } else {
            self.1 as int
        }
    }

    fn num_dimensions(&self) -> (r: usize) {
        2
    }

    fn coordinate(&self, axis: usize) -> (r: i64) {
        if axis == 0 {
            self.0 as i64
        } else {
            self.1 as i64
        }
    }

    fn dist_sqr(&self, other: &Self) -> (r: u128) {
        let a = self.dist_axis(other, 0);
        let b = self.dist_axis(other, 1);
        assert(a < 0x1_0000_0000_0000_0000 && b < 0x1_0000_0000_0000_0000) by (nonlinear_arith)
            requires
                a == (self.0 - other.0) * (self.0 - other.0),
                b == (self.1 - other.1) * (self.1 - other.1),
                -0x1_0000_0000 < self.0 - other.0 < 0x1_0000_0000,
                -0x1_0000_0000 < self.1 - other.1 < 0x1_0000_0000,
        ;
        a + b
    }

    fn dist_axis(&self, other: &Self, axis: usize) -> (r: u128) {
        let d: i128 = (self.coordinate(axis) as i128) - (other.coordinate(axis) as i128);
        assert(0 <= d * d < 0x1_0000_0000_0000_0000) by (nonlinear_arith)
            requires
                -0x1_0000_0000 < d < 0x1_0000_0000,
        ;
        (d * d) as u128
    }
}

/// `p` is at least as close to `query` as every item of `points`.
pub open spec fn is_nearest_in<T: VectorObject>(p: T, query: T, points: Multiset<T>) -> bool {
    forall|o: T| points.count(o) > 0 ==> sq_dist(p, query) <= #[trigger] sq_dist(o, query)
}

/// The smallest squared distance to `query` over `s`, found by scanning it;
/// meaningful for a non-empty `s`.
pub open spec fn scan_min_sq_dist<T: VectorObject>(s: Seq<T>, query: T) -> int
    decreases s.len(),
{
    if s.len() <= 1 {
        sq_dist(s[0], query)
    } else {
        let rest = scan_min_sq_dist(s.drop_last(), query);
        let last = sq_dist(s.last(), query);
        if last < rest {
            last
        } else {
            rest
        }
    }
}

/// The linear scan's minimum is attained by an item of `s` and bounds all of them.
proof fn lemma_scan_min<T: VectorObject>(s: Seq<T>, query: T)
    requires
        s.len() > 0,
    ensures
        exists|i: int| 0 <= i < s.len() && sq_dist(s[i], query) == scan_min_sq_dist(s, query),
        forall|i: int| 0 <= i < s.len() ==> scan_min_sq_dist(s, query) <= #[trigger] sq_dist(s[i], query),
    decreases s.len(),
{
    if s.len() > 1 {
        lemma_scan_min(s.drop_last(), query);
        let i = choose|i: int|
            0 <= i < s.drop_last().len() && sq_dist(s.drop_last()[i], query) == scan_min_sq_dist(
                s.drop_last(),
                query,
            );
        if sq_dist(s.last(), query) < scan_min_sq_dist(s.drop_last(), query) {
            assert(sq_dist(s[s.len() - 1], query) == scan_min_sq_dist(s, query));
        } else {
            assert(sq_dist(s[i], query) == scan_min_sq_dist(s, query));
        }
        assert forall|j: int| 0 <= j < s.len() implies scan_min_sq_dist(s, query) <= #[trigger] sq_dist(
            s[j],
            query,
        ) by {
            if j < s.len() - 1 {
                assert(s[j] == s.drop_last()[j]);
            }
        }
    } else {
        assert(sq_dist(s[0], query) == scan_min_sq_dist(s, query));
    }
}

/// A nearest point, as `find_nearest` promises one, is exactly as far from the
/// query as a brute-force scan over all the points finds.
pub proof fn lemma_nearest_matches_scan<T: VectorObject>(s: Seq<T>, query: T, p: T)
    requires
        s.to_multiset().count(p) > 0,
        is_nearest_in(p, query, s.to_multiset()),
    ensures
        sq_dist(p, query) == scan_min_sq_dist(s, query),
{
    lemma_scan_min(s, query);
    let i = choose|i: int| 0 <= i < s.len() && sq_dist(s[i], query) == scan_min_sq_dist(s, query);
    assert(s.contains(s[i]));
    assert(s.to_multiset().count(s[i]) > 0);
    assert(s.contains(p));
    let k = choose|k: int| 0 <= k < s.len() && s[k] == p;
    assert(scan_min_sq_dist(s, query) <= sq_dist(s[k], query));
}

/// Squares grow with the gap: a point beyond the splitting value is at least
/// as far from the query as the splitting plane is.
proof fn lemma_far_side<T: VectorObject>(split: T, query: T, o: T, axis: int)
    requires
        0 <= axis < 2,
        (query.spec_coordinate(axis) < split.spec_coordinate(axis) && split.spec_coordinate(axis)
            <= o.spec_coordinate(axis)) || (o.spec_coordinate(axis) <= split.spec_coordinate(axis)
            && split.spec_coordinate(axis) <= query.spec_coordinate(axis)),
    ensures
        axis_sq_dist(split, query, axis) <= sq_dist(o, query),
{
    let q = query.spec_coordinate(axis);
    let s = split.spec_coordinate(axis);
    let v = o.spec_coordinate(axis);
    assert((s - q) * (s - q) <= (v - q) * (v - q)) by (nonlinear_arith)
        requires
            (q < s && s <= v) || (v <= s && s <= q),
    ;
    let q0 = query.spec_coordinate(0);
    let v0 = o.spec_coordinate(0);
    let q1 = query.spec_coordinate(1);
    let v1 = o.spec_coordinate(1);
    assert(0 <= (v0 - q0) * (v0 - q0)) by (nonlinear_arith);
    assert(0 <= (v1 - q1) * (v1 - q1)) by (nonlinear_arith);
}

/// Sorts `objects` along `axis`.
///
/// Relies on `<[T]>::sort_by_key`: afterwards the slice holds the same items,
/// in non-decreasing order of the key.
#[verifier::external_body]
fn sort_along<T: VectorObject>(objects: &mut [T], axis: usize)
    requires
        axis < 2,
    ensures
        final(objects)@.to_multiset() == old(objects)@.to_multiset(),
        forall|i: int, j: int|
            0 <= i <= j < final(objects)@.len() ==> (#[trigger] final(objects)@[i]).spec_coordinate(
                axis as int,
            ) <= (#[trigger] final(objects)@[j]).spec_coordinate(axis as int),
{
    objects.sort_by_key(|p| p.coordinate(axis));
}

/// Picks the better of two optional candidates: `a` where `cmp(a, b)` holds, else `b`.
fn min_option_by<T, F>(a: Option<T>, b: Option<T>, cmp: F) -> (r: Option<T>)
    where
        F: FnOnce(&T, &T) -> bool,
    requires
        a is Some && b is Some ==> cmp.requires((&a->0, &b->0)),
    ensures
        match (a, b) {
            (Some(x), Some(y)) => exists|c: bool|
                cmp.ensures((&x, &y), c) && r == (if c {
                    Some(x)
                } else {
                    Some(y)
                }),
            (Some(x), None) => r == Some(x),
            (None, Some(y)) => r == Some(y),
            (None, None) => r is None,
        },
{
    match (a, b) {
        (Some(a), Some(b)) => {
            if cmp(&a, &b) {
                Some(a)
            } else {
                Some(b)
            }
        },
        (Some(a), None) => Some(a),
        (None, Some(b)) => Some(b),
        (None, None) => None,
    }
}

/// A subtree: a branch that splits the plane, or a leaf with at most one point.
enum KdTreeNode<T> {
    Branch(Box<Branch<T>>),
    Leaf(Option<T>),
}

/// A split along `split_axis` at the median point `split_val`, which the branch
/// holds itself: `left` holds the points before it in that order, `right` those
/// after it.
struct Branch<T> {
    split_axis: usize,
    split_val: T,
    left: KdTreeNode<T>,
    right: KdTreeNode<T>,
}

impl<T: VectorObject> KdTreeNode<T> {
    /// The points stored under this node.
    spec fn points(&self) -> Multiset<T>
        decreases self,
    {
        match self {
            KdTreeNode::Branch(b) => b.left.points().add(b.right.points()).insert(b.split_val),
            KdTreeNode::Leaf(Some(p)) => Multiset::singleton(*p),
            KdTreeNode::Leaf(None) => Multiset::empty(),
        }
    }

    /// Each branch splits on axis 0 or 1, with its left points no greater and its
    /// right points no smaller than the splitting value along that axis.
    spec fn wf(&self) -> bool
        decreases self,
    {
        match self {
            KdTreeNode::Branch(b) => {
                &&& b.split_axis < 2
                &&& b.left.wf()
                &&& b.right.wf()
                &&& forall|p: T|
                    b.left.points().count(p) > 0 ==> #[trigger] p.spec_coordinate(b.split_axis as int)
                        <= b.split_val.spec_coordinate(b.split_axis as int)
                &&& forall|p: T|
                    b.right.points().count(p) > 0 ==> #[trigger] p.spec_coordinate(b.split_axis as int)
                        >= b.split_val.spec_coordinate(b.split_axis as int)
            },
            KdTreeNode::Leaf(_) => true,
        }
    }

    /// The shape that building gives: each branch over `m` points splits on
    /// `axis` at its median, with `m / 2` points on the left and the other
    /// `m - m / 2 - 1` on the right, and the branches below it split on the
    /// other axis in turn.
    spec fn balanced_from(&self, axis: int) -> bool
        decreases self,
    {
        match self {
            KdTreeNode::Branch(b) => {
                &&& b.split_axis == axis
                &&& self.points().len() >= 2
                &&& b.left.points().len() == self.points().len() / 2
                &&& b.right.points().len() == self.points().len() - self.points().len() / 2 - 1
                &&& b.left.balanced_from((axis + 1) % 2)
                &&& b.right.balanced_from((axis + 1) % 2)
            },
            KdTreeNode::Leaf(_) => true,
        }
    }

    /// The number of branches on the longest path from this node to a leaf.
    spec fn depth(&self) -> nat
        decreases self,
    {
        match self {
            KdTreeNode::Branch(b) => {
                let l = b.left.depth();
                let r = b.right.depth();
                1 + if l >= r {
                    l
                } else {
                    r
                }
            },
            KdTreeNode::Leaf(_) => 0,
        }
    }

    /// A balanced subtree over `n >= 1` points is at most `log2(n)` branches deep.
    proof fn lemma_depth_bound(&self, axis: int)
        requires
            self.balanced_from(axis),
        ensures
            self.points().len() == 0 ==> self.depth() == 0,
            self.points().len() >= 1 ==> pow2(self.depth()) <= self.points().len(),
        decreases self,
    {
        match self {
            KdTreeNode::Branch(b) => {
                b.left.lemma_depth_bound((axis + 1) % 2);
                b.right.lemma_depth_bound((axis + 1) % 2);
                let n = self.points().len();
                let d = if b.left.depth() >= b.right.depth() {
                    b.left.depth()
                } else {
                    b.right.depth()
                };
                lemma_pow2_unfold(d + 1);
                lemma2_to64();
                assert(pow2(d) <= n / 2) by {
                    if d == 0 {
                    } else if b.left.depth() >= b.right.depth() {
                        assert(b.left.points().len() >= 1);
                    } else {
                        assert(b.right.points().len() >= 1);
                    }
                }
                assert(pow2((d + 1) as nat) == 2 * pow2(d));
                assert(self.depth() == d + 1);
            },
            KdTreeNode::Leaf(Some(p)) => {
                lemma2_to64();
            },
            KdTreeNode::Leaf(None) => {},
        }
    }

    /// Branch and bound: searches the side of the query first, and the other
    /// side only where it could hold a point closer than the best so far.
    fn find_nearest(&self, query: &T, best: Option<T>) -> (r: Option<T>)
        where
            T: Copy,
        requires
            self.wf(),
        ensures
            r is None <==> (best is None && self.points().len() == 0),
            r matches Some(p) ==> self.points().count(p) > 0 || best == Some(p),
            r matches Some(p) ==> is_nearest_in(p, *query, self.points()),
            r matches Some(p) ==> (best matches Some(b) ==> sq_dist(p, *query) <= sq_dist(b, *query)),
        decreases self,
    {
        match self {
            KdTreeNode::Branch(branch) => {
                let axis = branch.split_axis;
                let go_left = query.coordinate(axis) < branch.split_val.coordinate(axis);
                let (near, far) = if go_left {
                    (&branch.left, &branch.right)
                } else {
                    (&branch.right, &branch.left)
                };
                let best = near.find_nearest(query, best);
                let best = nearer(best, Some(branch.split_val), query);
                let lower_bound = branch.split_val.dist_axis(query, axis);
                let visit_far = match &best {
                    Some(b) => lower_bound < b.dist_sqr(query),
                    None => true,
                };
                if visit_far {
                    far.find_nearest(query, best)
                } else {
                    proof {
                        let b = best->0;
                        assert forall|o: T| far.points().count(o) > 0 implies sq_dist(b, *query)
                            <= #[trigger] sq_dist(o, *query) by {
                            lemma_far_side(branch.split_val, *query, o, axis as int);
                        }
                    }
                    best
                }
            },
            KdTreeNode::Leaf(leaf) => nearer(best, *leaf, query),
        }
    }
}

/// The nearer to `query` of two optional candidates; on a tie, `candidate`.
fn nearer<T: VectorObject + Copy>(best: Option<T>, candidate: Option<T>, query: &T) -> (r: Option<T>)
    ensures
        r is None <==> (best is None && candidate is None),
        r matches Some(p) ==> (best == Some(p) || candidate == Some(p)),
        r matches Some(p) ==> (best matches Some(b) ==> sq_dist(p, *query) <= sq_dist(b, *query)),
        r matches Some(p) ==> (candidate matches Some(c) ==> sq_dist(p, *query) <= sq_dist(c, *query)),
        best is Some && candidate is Some ==> r == (if sq_dist(best->0, *query) < sq_dist(
            candidate->0,
            *query,
        ) {
            best
        } else {
            candidate
        }),
{
    let cmp = |a: &T, b: &T| -> (c: bool)
        ensures
            c == (sq_dist(*a, *query) < sq_dist(*b, *query)),
        { a.dist_sqr(query) < b.dist_sqr(query) };
    min_option_by(best, candidate, cmp)
}

/// Builds a subtree over `objects`, splitting on `axis` and then on the other
/// axis in turn; reorders `objects`.
fn kd_tree_builder<T: VectorObject + Copy>(objects: &mut [T], axis: usize, num_dims: usize) -> (r:
    KdTreeNode<T>)
    requires
        axis < 2,
        num_dims == 2,
    ensures
        r.wf(),
        r.points() == old(objects)@.to_multiset(),
        r.balanced_from(axis as int),
        old(objects)@.len() == 0 ==> r == KdTreeNode::<T>::Leaf(None),
        old(objects)@.len() == 1 ==> r == KdTreeNode::<T>::Leaf(Some(old(objects)@[0])),
        final(objects)@.to_multiset() == old(objects)@.to_multiset(),
    decreases old(objects)@.len(),
{
    let n = objects.len();
    if n == 0 {
        assert(objects@ =~= Seq::<T>::empty());
        return KdTreeNode::Leaf(None);
    }
    if n == 1 {
        assert(objects@ =~= seq![objects@[0]]);
        return KdTreeNode::Leaf(Some(objects[0]));
    }
    sort_along(objects, axis);
    let ghost sorted = objects@;
    assert(sorted.len() == sorted.to_multiset().len());
    let median = n / 2;
    let split_val = objects[median];
    let next = (axis + 1) % num_dims;
    let (left, rest) = objects.split_at_mut(median);
    let (middle, right) = rest.split_at_mut(1);
    let ghost (left0, right0) = (left@, right@);
    proof {
        assert(sorted =~= left0 + (seq![split_val] + right0));
        vstd::seq_lib::lemma_multiset_commutative(left0, seq![split_val] + right0);
        vstd::seq_lib::lemma_multiset_commutative(seq![split_val], right0);
    }
    let left_node = kd_tree_builder(left, next, num_dims);
    let right_node = kd_tree_builder(right, next, num_dims);
    proof {
        assert forall|p: T| left0.to_multiset().count(p) > 0 implies #[trigger] p.spec_coordinate(
            axis as int,
        ) <= split_val.spec_coordinate(axis as int) by {
            assert(left0.contains(p));
            let k = choose|k: int| 0 <= k < left0.len() && left0[k] == p;
            assert(sorted[k] == p);
        }
        assert forall|p: T| right0.to_multiset().count(p) > 0 implies #[trigger] p.spec_coordinate(
            axis as int,
        ) >= split_val.spec_coordinate(axis as int) by {
            assert(right0.contains(p));
            let k = choose|k: int| 0 <= k < right0.len() && right0[k] == p;
            assert(sorted[k + median + 1] == p);
        }
        assert(left_node.points().add(right_node.points()).insert(split_val) =~= sorted.to_multiset());
        vstd::seq_lib::lemma_multiset_commutative(left@, middle@ + right@);
        vstd::seq_lib::lemma_multiset_commutative(middle@, right@);
        assert(middle@ =~= seq![split_val]);
    }
    KdTreeNode::Branch(
        Box::new(Branch { split_axis: axis, split_val, left: left_node, right: right_node }),
    )
}

/// A k-d tree over points in the plane, for nearest-neighbour queries.
pub struct KdTree<T> {
    root: KdTreeNode<T>,
}

impl<T: VectorObject + Copy> KdTree<T> {
    /// The points held by the tree.
    pub closed spec fn points(&self) -> Multiset<T> {
        self.root.points()
    }

    /// The tree's ordering invariant.
    pub closed spec fn wf(&self) -> bool {
        self.root.wf()
    }

    /// The tree splits at the median on alternating axes, x first (see
    /// `KdTreeNode::balanced_from`).
    pub closed spec fn balanced(&self) -> bool {
        self.root.balanced_from(0)
    }

    /// The number of branches on the longest path from the root to a leaf.
    pub closed spec fn depth(&self) -> nat {
        self.root.depth()
    }

    /// A balanced tree over `n >= 1` points is at most `log2(n)` branches deep.
    pub proof fn lemma_depth_logarithmic(&self)
        requires
            self.balanced(),
            self.points().len() >= 1,
        ensures
            pow2(self.depth()) <= self.points().len(),
    {
        self.root.lemma_depth_bound(0);
    }

    /// Builds a tree over `objects`, or `None` where there are none; reorders
    /// `objects` but keeps the same items.
    pub fn new(objects: &mut [T]) -> (r: Option<KdTree<T>>)
        ensures
            r is None <==> old(objects)@.len() == 0,
            r matches Some(t) ==> t.wf() && t.balanced() && t.points() == old(objects)@.to_multiset(),
            final(objects)@.to_multiset() == old(objects)@.to_multiset(),
    {
        if objects.len() == 0 {
            return None;
        }
        let num_dims = objects[0].num_dimensions();
        Some(KdTree { root: kd_tree_builder(objects, 0, num_dims) })
    }

    /// A point of the tree nearest to `query`; `None` only for an empty tree.
    pub fn find_nearest(&self, query: &T) -> (r: Option<T>)
        requires
            self.wf(),
        ensures
            r is None <==> self.points().len() == 0,
            r matches Some(p) ==> self.points().count(p) > 0 && is_nearest_in(p, *query, self.points()),
    {
        self.root.find_nearest(query, None)
    }
}

} // verus!
