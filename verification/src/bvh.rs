//! A bounding volume hierarchy: a static, bulk-built binary tree over
//! axis-aligned boxes supporting range (overlap) queries and nearest-point
//! queries.
//!
//! The tree is rebuilt from scratch by [`Bvh::build`]; there is no
//! incremental insertion or removal.  Entries are recursively partitioned
//! along the axis of greatest extent at the midpoint of the current bounds
//! (falling back to an even split when all entries land on one side), and a
//! branch becomes a leaf once it holds at most [`LEAF_CAPACITY`] entries.
//! Every node's box is the minimal box enclosing everything beneath it.

use vstd::prelude::*;
use vstd::seq_lib::lemma_multiset_commutative;

use crate::aabb::Aabb;
use crate::vec3::Vec3Fix;

verus! {

/// Most entries a leaf may hold; bounds the cost of scanning one leaf.
pub const LEAF_CAPACITY: usize = 4;

/// One indexed element: an opaque payload (for instance a body identifier)
/// together with the box it is indexed under.  The index never alters
/// payloads; it only reorders entries.
#[derive(Clone, Copy, Debug, PartialEq, Eq, Structural)]
pub struct BvhEntry {
    pub payload: u64,
    pub aabb: Aabb,
}

impl BvhEntry {
    /// An entry the tree can hold: a well-formed box within coordinate
    /// range.
    pub open spec fn wf(self) -> bool {
        self.aabb.wf() && self.aabb.in_range()
    }
}

/// A node of the hierarchy: either a leaf holding a small inline list of
/// entries, or an internal node whose box encloses both children.
pub enum BvhTree {
    Leaf { aabb: Aabb, items: Vec<BvhEntry> },
    Node { aabb: Aabb, left: Box<BvhTree>, right: Box<BvhTree> },
}

/// The bounding box stored at the root of a subtree.
pub open spec fn box_of(t: BvhTree) -> Aabb {
    match t {
        BvhTree::Leaf { aabb, .. } => aabb,
        BvhTree::Node { aabb, .. } => aabb,
    }
}

/// The smallest box enclosing the boxes of a nonempty entry sequence.
pub open spec fn union_box(s: Seq<BvhEntry>) -> Aabb
    recommends
        s.len() >= 1,
    decreases s.len(),
{
    if s.len() <= 1 {
        s[0].aabb
    } else {
        union_box(s.drop_last()).spec_join(s.last().aabb)
    }
}

impl BvhTree {
    /// The entries beneath this node, leaves left to right.
    pub open spec fn entries(self) -> Seq<BvhEntry>
        decreases self,
    {
        match self {
            BvhTree::Leaf { items, .. } => items@,
            BvhTree::Node { left, right, .. } => left.entries() + right.entries(),
        }
    }

    /// Structural invariant: leaves hold between one and [`LEAF_CAPACITY`]
    /// well-formed entries and carry exactly the union of their boxes;
    /// internal nodes carry exactly the join of their children's boxes.
    pub open spec fn wf(self) -> bool
        decreases self,
    {
        match self {
            BvhTree::Leaf { aabb, items } => {
                &&& 1 <= items@.len() <= LEAF_CAPACITY
                &&& forall|i: int| 0 <= i < items@.len() ==> (#[trigger] items@[i]).wf()
                &&& aabb == union_box(items@)
            },
            BvhTree::Node { aabb, left, right } => {
                &&& left.wf()
                &&& right.wf()
                &&& aabb == box_of(*left).spec_join(box_of(*right))
            },
        }
    }
}

/// The union box of a nonempty sequence of well-formed entries contains
/// each of their boxes and is itself well-formed and in range.
pub proof fn lemma_union_box_contains(s: Seq<BvhEntry>)
    requires
        s.len() >= 1,
        forall|i: int| 0 <= i < s.len() ==> (#[trigger] s[i]).wf(),
    ensures
        forall|i: int|
            0 <= i < s.len() ==> union_box(s).spec_contains_box((#[trigger] s[i]).aabb),
        union_box(s).wf(),
        union_box(s).in_range(),
    decreases s.len(),
{
    if s.len() > 1 {
        lemma_union_box_contains(s.drop_last());
        let u = union_box(s);
        let v = union_box(s.drop_last());
        crate::aabb::lemma_join_contains(v, s.last().aabb);
        assert forall|i: int| 0 <= i < s.len() implies u.spec_contains_box(
            (#[trigger] s[i]).aabb,
        ) by {
            if i < s.len() - 1 {
                assert(v.spec_contains_box(s.drop_last()[i].aabb));
                crate::aabb::lemma_contains_trans(u, v, s[i].aabb);
            }
        }
    }
}

/// In a well-formed tree, the root box contains every entry's box, and
/// every entry is well-formed.
pub proof fn lemma_tree_box_contains(t: BvhTree)
    requires
        t.wf(),
    ensures
        forall|i: int|
            0 <= i < t.entries().len() ==> box_of(t).spec_contains_box(
                (#[trigger] t.entries()[i]).aabb,
            ),
        forall|i: int| 0 <= i < t.entries().len() ==> (#[trigger] t.entries()[i]).wf(),
        t.entries().len() >= 1,
        box_of(t).wf(),
        box_of(t).in_range(),
    decreases t,
{
    match t {
        BvhTree::Leaf { aabb, items } => {
            lemma_union_box_contains(items@);
        },
        BvhTree::Node { aabb, left, right } => {
            lemma_tree_box_contains(*left);
            lemma_tree_box_contains(*right);
            crate::aabb::lemma_join_contains(box_of(*left), box_of(*right));
            let es = t.entries();
            assert forall|i: int| 0 <= i < es.len() implies aabb.spec_contains_box(
                (#[trigger] es[i]).aabb,
            ) && es[i].wf() by {
                let le = left.entries();
                let re = right.entries();
                if i < le.len() {
                    assert(es[i] == le[i]);
                    crate::aabb::lemma_contains_trans(aabb, box_of(*left), le[i].aabb);
                } else {
                    assert(es[i] == re[i - le.len()]);
                    crate::aabb::lemma_contains_trans(aabb, box_of(*right), re[
                        i - le.len()].aabb);
                }
            }
        },
    }
}

/// The bounding box stored at a subtree root; exactly [`box_of`].
fn tree_box(t: &BvhTree) -> (r: Aabb)
    ensures
        r == box_of(*t),
{
    match t {
        BvhTree::Leaf { aabb, .. } => *aabb,
        BvhTree::Node { aabb, .. } => *aabb,
    }
}

/// The union box of a nonempty entry list; exactly [`union_box`].
fn bounds_of(v: &Vec<BvhEntry>) -> (r: Aabb)
    requires
        v@.len() >= 1,
    ensures
        r == union_box(v@),
{
    let mut bb = v[0].aabb;
    let mut i: usize = 1;
    while i < v.len()
        invariant
            1 <= i <= v@.len(),
            bb == union_box(v@.subrange(0, i as int)),
        decreases v@.len() - i,
    {
        proof {
            assert(v@.subrange(0, i + 1 as int).drop_last() =~= v@.subrange(0, i as int));
            assert(v@.subrange(0, i + 1 as int).last() == v@[i as int]);
        }
        bb = bb.join(&v[i].aabb);
        i += 1;
    }
    proof {
        assert(v@.subrange(0, v@.len() as int) =~= v@);
    }
    bb
}

/// Splits `v` into the entries whose doubled centroid along `axis` lies
/// below `mid2` and the rest, preserving the collection of entries.
fn partition_entries(v: &Vec<BvhEntry>, axis: u8, mid2: i64) -> (r: (
    Vec<BvhEntry>,
    Vec<BvhEntry>,
))
    requires
        forall|i: int| 0 <= i < v@.len() ==> (#[trigger] v@[i]).wf(),
    ensures
        r.0@.to_multiset().add(r.1@.to_multiset()) == v@.to_multiset(),
        r.0@.len() + r.1@.len() == v@.len(),
        forall|i: int| 0 <= i < r.0@.len() ==> (#[trigger] r.0@[i]).wf(),
        forall|i: int| 0 <= i < r.1@.len() ==> (#[trigger] r.1@[i]).wf(),
{
    broadcast use vstd::seq_lib::group_to_multiset_ensures;
    broadcast use vstd::multiset::group_multiset_axioms;

    let mut left_v: Vec<BvhEntry> = Vec::new();
    let mut right_v: Vec<BvhEntry> = Vec::new();
    let mut i: usize = 0;
    while i < v.len()
        invariant
            0 <= i <= v@.len(),
            forall|k: int| 0 <= k < v@.len() ==> (#[trigger] v@[k]).wf(),
            left_v@.to_multiset().add(right_v@.to_multiset()) == v@.subrange(
                0,
                i as int,
            ).to_multiset(),
            forall|k: int| 0 <= k < left_v@.len() ==> (#[trigger] left_v@[k]).wf(),
            forall|k: int| 0 <= k < right_v@.len() ==> (#[trigger] right_v@[k]).wf(),
            left_v@.len() + right_v@.len() == i,
        decreases v@.len() - i,
    {
        broadcast use vstd::seq_lib::group_to_multiset_ensures;
        broadcast use vstd::multiset::group_multiset_axioms;

        let e = v[i];
        let key2: i64 = if axis == 0 {
            e.aabb.min.x + e.aabb.max.x
        } else if axis == 1 {
            e.aabb.min.y + e.aabb.max.y
        } else {
            e.aabb.min.z + e.aabb.max.z
        };
        proof {
            assert(v@.subrange(0, i + 1 as int) =~= v@.subrange(0, i as int).push(
                v@[i as int]));
            assert(v@.subrange(0, i + 1 as int).to_multiset() =~= v@.subrange(
                0,
                i as int,
            ).to_multiset().insert(e));
        }
        let ghost lpre = left_v@;
        let ghost rpre = right_v@;
        if key2 < mid2 {
            left_v.push(e);
        } else {
            right_v.push(e);
        }
        proof {
            if key2 < mid2 {
                assert(left_v@ == lpre.push(e));
                assert(left_v@.to_multiset() =~= lpre.to_multiset().insert(e));
            } else {
                assert(right_v@ == rpre.push(e));
                assert(right_v@.to_multiset() =~= rpre.to_multiset().insert(e));
            }
            assert(left_v@.to_multiset().add(right_v@.to_multiset()) =~= v@.subrange(
                0,
                i + 1 as int,
            ).to_multiset());
        }
        i += 1;
    }
    proof {
        assert(v@.subrange(0, v@.len() as int) =~= v@);
        assert(left_v@.to_multiset().len() == left_v@.len());
        assert(right_v@.to_multiset().len() == right_v@.len());
        assert(v@.to_multiset().len() == v@.len());
        assert(left_v@.to_multiset().add(right_v@.to_multiset()).len()
            == left_v@.to_multiset().len() + right_v@.to_multiset().len());
    }
    (left_v, right_v)
}

/// Splits `v` in half by position, preserving the collection of entries.
fn split_even(v: &Vec<BvhEntry>) -> (r: (Vec<BvhEntry>, Vec<BvhEntry>))
    requires
        2 <= v@.len(),
        forall|i: int| 0 <= i < v@.len() ==> (#[trigger] v@[i]).wf(),
    ensures
        r.0@.to_multiset().add(r.1@.to_multiset()) == v@.to_multiset(),
        r.0@.len() + r.1@.len() == v@.len(),
        1 <= r.0@.len() < v@.len(),
        1 <= r.1@.len() < v@.len(),
        forall|i: int| 0 <= i < r.0@.len() ==> (#[trigger] r.0@[i]).wf(),
        forall|i: int| 0 <= i < r.1@.len() ==> (#[trigger] r.1@[i]).wf(),
{
    let mid = v.len() / 2;
    let mut left_v: Vec<BvhEntry> = Vec::new();
    let mut right_v: Vec<BvhEntry> = Vec::new();
    let mut j: usize = 0;
    while j < mid
        invariant
            0 <= j <= mid,
            mid == v@.len() / 2,
            1 <= v@.len(),
            left_v@ =~= v@.subrange(0, j as int),
        decreases mid - j,
    {
        left_v.push(v[j]);
        j += 1;
    }
    let mut j2: usize = mid;
    while j2 < v.len()
        invariant
            mid <= j2 <= v@.len(),
            mid == v@.len() / 2,
            left_v@ =~= v@.subrange(0, mid as int),
            right_v@ =~= v@.subrange(mid as int, j2 as int),
        decreases v@.len() - j2,
    {
        right_v.push(v[j2]);
        j2 += 1;
    }
    proof {
        assert(left_v@ + right_v@ =~= v@);
        lemma_multiset_commutative(left_v@, right_v@);
        assert(forall|k: int| 0 <= k < left_v@.len() ==> (#[trigger] left_v@[k]) == v@[k]);
        assert(forall|k: int|
            0 <= k < right_v@.len() ==> (#[trigger] right_v@[k]) == v@[k + v@.len() / 2]);
    }
    (left_v, right_v)
}

/// Builds a subtree over a nonempty list of entries.
fn build_tree(v: Vec<BvhEntry>) -> (t: BvhTree)
    requires
        1 <= v@.len(),
        forall|i: int| 0 <= i < v@.len() ==> (#[trigger] v@[i]).wf(),
    ensures
        t.wf(),
        t.entries().to_multiset() == v@.to_multiset(),
    decreases v@.len(),
{
    broadcast use vstd::seq_lib::group_to_multiset_ensures;

    if v.len() <= LEAF_CAPACITY {
        let aabb = bounds_of(&v);
        BvhTree::Leaf { aabb, items: v }
    } else {
        let bb = bounds_of(&v);
        proof {
            lemma_union_box_contains(v@);
        }
        // Partition along the axis of greatest extent, at the midpoint of
        // the bounds (comparisons use doubled centroids to stay exact).
        let wx = bb.max.x - bb.min.x;
        let wy = bb.max.y - bb.min.y;
        let wz = bb.max.z - bb.min.z;
        let axis: u8 = if wx >= wy && wx >= wz {
            0
        } else if wy >= wz {
            1
        } else {
            2
        };
        let mid2: i64 = if axis == 0 {
            bb.min.x + bb.max.x
        } else if axis == 1 {
            bb.min.y + bb.max.y
        } else {
            bb.min.z + bb.max.z
        };
        let (mut left_v, mut right_v) = partition_entries(&v, axis, mid2);
        if left_v.len() == 0 || right_v.len() == 0 {
            let halves = split_even(&v);
            left_v = halves.0;
            right_v = halves.1;
        }
        proof {
            assert(left_v@.to_multiset().len() == left_v@.len());
            assert(right_v@.to_multiset().len() == right_v@.len());
            assert(v@.to_multiset().len() == v@.len());
            assert(left_v@.to_multiset().add(right_v@.to_multiset()).len()
                == left_v@.to_multiset().len() + right_v@.to_multiset().len());
        }
        let lt = build_tree(left_v);
        let rt = build_tree(right_v);
        let lb = tree_box(&lt);
        let rb = tree_box(&rt);
        let t = BvhTree::Node { aabb: lb.join(&rb), left: Box::new(lt), right: Box::new(rt) };
        proof {
            lemma_multiset_commutative(lt.entries(), rt.entries());
            assert(t.entries().to_multiset() =~= v@.to_multiset());
        }
        t
    }
}

/// The predicate a range query filters entries with: overlap with the
/// query box.
pub open spec fn overlap_pred(target: Aabb) -> spec_fn(BvhEntry) -> bool {
    |e: BvhEntry| target.spec_overlaps(e.aabb)
}

/// A bulk-built bounding volume hierarchy.  Empty until [`Bvh::build`] is
/// called with entries; read-only afterwards until the next rebuild.
pub struct Bvh {
    pub root: Option<BvhTree>,
}

impl Bvh {
    /// The indexed entries, in tree order (a rebuild may reorder them).
    pub open spec fn entries(self) -> Seq<BvhEntry> {
        match self.root {
            None => Seq::empty(),
            Some(t) => t.entries(),
        }
    }

    pub open spec fn wf(self) -> bool {
        match self.root {
            None => true,
            Some(t) => t.wf(),
        }
    }

    /// An empty index: every query answers empty.
    pub fn new() -> (r: Bvh)
        ensures
            r.wf(),
            r.entries() == Seq::<BvhEntry>::empty(),
    {
        Bvh { root: None }
    }

    /// Clears the index; every query answers empty until the next build.
    pub fn clear(&mut self)
        ensures
            final(self).wf(),
            final(self).entries() == Seq::<BvhEntry>::empty(),
    {
        self.root = None;
    }

    /// Discards the previous tree and rebuilds from `entries`.  The new
    /// index holds exactly the given entries; building from zero entries
    /// yields an empty index.
    pub fn build(&mut self, entries: Vec<BvhEntry>)
        requires
            forall|i: int| 0 <= i < entries@.len() ==> (#[trigger] entries@[i]).wf(),
        ensures
            final(self).wf(),
            final(self).entries().to_multiset() == entries@.to_multiset(),
            final(self).entries().len() == entries@.len(),
    {
        broadcast use vstd::seq_lib::group_to_multiset_ensures;

        if entries.len() == 0 {
            self.root = None;
            proof {
                assert(Seq::<BvhEntry>::empty().to_multiset() =~= entries@.to_multiset());
            }
        } else {
            let t = build_tree(entries);
            proof {
                assert(t.entries().to_multiset().len() == t.entries().len());
                assert(entries@.to_multiset().len() == entries@.len());
            }
            self.root = Some(t);
        }
    }

    /// Range query: every indexed entry whose box overlaps `target`, in
    /// tree order.  Subtrees whose bounding box misses `target` are pruned;
    /// entries of surviving leaves are tested individually.  Answers empty
    /// for an empty index or a degenerate query box.
    pub fn get_in_range(&self, target: &Aabb) -> (res: Vec<BvhEntry>)
        requires
            self.wf(),
        ensures
            res@ == self.entries().filter(overlap_pred(*target)),
    {
        let mut out: Vec<BvhEntry> = Vec::new();
        match &self.root {
            None => {
                proof {
                    Seq::<BvhEntry>::empty().lemma_all_neg_filter_empty(overlap_pred(*target));
                    assert(self.entries().filter(overlap_pred(*target)) =~= Seq::empty());
                }
            },
            Some(t) => {
                range_into(t, target, &mut out);
                proof {
                    assert(out@ =~= self.entries().filter(overlap_pred(*target)));
                }
            },
        }
        out
    }
}

/// Number of nodes of a subtree; the variant of the best-first search.
pub open spec fn tree_size(t: BvhTree) -> nat
    decreases t,
{
    match t {
        BvhTree::Leaf { .. } => 1,
        BvhTree::Node { left, right, .. } => 1 + tree_size(*left) + tree_size(*right),
    }
}

/// Total size of the subtrees held by a search frontier.
spec fn frontier_size<'a>(s: Seq<(i128, &'a BvhTree)>) -> nat
    decreases s.len(),
{
    if s.len() == 0 {
        0
    } else {
        frontier_size(s.drop_last()) + tree_size(*s.last().1)
    }
}

proof fn lemma_frontier_size_push<'a>(s: Seq<(i128, &'a BvhTree)>, x: (i128, &'a BvhTree))
    ensures
        frontier_size(s.push(x)) == frontier_size(s) + tree_size(*x.1),
{
    assert(s.push(x).drop_last() =~= s);
}

proof fn lemma_frontier_size_update<'a>(
    s: Seq<(i128, &'a BvhTree)>,
    i: int,
    x: (i128, &'a BvhTree),
)
    requires
        0 <= i < s.len(),
    ensures
        frontier_size(s.update(i, x)) + tree_size(*s[i].1) == frontier_size(s) + tree_size(
            *x.1,
        ),
    decreases s.len(),
{
    let u = s.update(i, x);
    if i == s.len() - 1 {
        assert(u.drop_last() =~= s.drop_last());
        assert(u.last() == x);
    } else {
        assert(u.drop_last() =~= s.drop_last().update(i, x));
        assert(u.last() == s.last());
        lemma_frontier_size_update(s.drop_last(), i, x);
    }
}

/// Removing index `i` by a swap with the last element lowers the frontier
/// size by exactly the removed subtree.
proof fn lemma_frontier_size_swap_remove<'a>(s: Seq<(i128, &'a BvhTree)>, i: int)
    requires
        0 <= i < s.len(),
    ensures
        frontier_size(s.update(i, s.last()).drop_last()) + tree_size(*s[i].1)
            == frontier_size(s),
{
    let u = s.update(i, s.last());
    lemma_frontier_size_update(s, i, s.last());
    assert(u.last() == s.last());
    assert(frontier_size(u) == frontier_size(u.drop_last()) + tree_size(*u.last().1));
}

/// In a well-formed subtree, the root box's distance to a point is a lower
/// bound for the distance of every entry beneath.
pub proof fn lemma_subtree_dist_lower(t: BvhTree, target: Vec3Fix)
    requires
        t.wf(),
    ensures
        forall|j: int|
            0 <= j < t.entries().len() ==> box_of(t).spec_dist2(target) <= (
            #[trigger] t.entries()[j]).aabb.spec_dist2(target),
{
    lemma_tree_box_contains(t);
    assert forall|j: int| 0 <= j < t.entries().len() implies box_of(t).spec_dist2(target)
        <= (#[trigger] t.entries()[j]).aabb.spec_dist2(target) by {
        crate::aabb::lemma_dist2_monotone(target, t.entries()[j].aabb, box_of(t));
    }
}

/// The frontier's bookkeeping: each held subtree is well-formed, is paired
/// with the exact distance of its box to the query point, and indexes only
/// entries of the queried tree.
spec fn frontier_wf<'a>(
    es: Seq<BvhEntry>,
    fr: Seq<(i128, &'a BvhTree)>,
    target: Vec3Fix,
) -> bool {
    forall|k: int|
        0 <= k < fr.len() ==> {
            &&& (#[trigger] fr[k]).1.wf()
            &&& fr[k].0 == box_of(*fr[k].1).spec_dist2(target)
            &&& forall|j: int|
                0 <= j < fr[k].1.entries().len() ==> es.contains(
                    #[trigger] fr[k].1.entries()[j],
                )
        }
}

proof fn lemma_frontier_wf_swap_remove<'a>(
    es: Seq<BvhEntry>,
    pre: Seq<(i128, &'a BvhTree)>,
    target: Vec3Fix,
    i: int,
)
    requires
        frontier_wf(es, pre, target),
        0 <= i < pre.len(),
    ensures
        frontier_wf(es, pre.update(i, pre.last()).drop_last(), target),
{
    let post = pre.update(i, pre.last()).drop_last();
    assert forall|k: int| 0 <= k < post.len() implies {
        &&& (#[trigger] post[k]).1.wf()
        &&& post[k].0 == box_of(*post[k].1).spec_dist2(target)
        &&& forall|j: int|
            0 <= j < post[k].1.entries().len() ==> es.contains(
                #[trigger] post[k].1.entries()[j],
            )
    } by {
        if k == i {
            assert(post[k] == pre[pre.len() - 1]);
        } else {
            assert(post[k] == pre[k]);
        }
    }
}

proof fn lemma_frontier_wf_push<'a>(
    es: Seq<BvhEntry>,
    s: Seq<(i128, &'a BvhTree)>,
    x: (i128, &'a BvhTree),
    target: Vec3Fix,
)
    requires
        frontier_wf(es, s, target),
        x.1.wf(),
        x.0 == box_of(*x.1).spec_dist2(target),
        forall|j: int| 0 <= j < x.1.entries().len() ==> es.contains(#[trigger] x.1.entries()[j]),
    ensures
        frontier_wf(es, s.push(x), target),
{
    let post = s.push(x);
    assert forall|k: int| 0 <= k < post.len() implies {
        &&& (#[trigger] post[k]).1.wf()
        &&& post[k].0 == box_of(*post[k].1).spec_dist2(target)
        &&& forall|j: int|
            0 <= j < post[k].1.entries().len() ==> es.contains(
                #[trigger] post[k].1.entries()[j],
            )
    } by {
        if k == s.len() {
            assert(post[k] == x);
        } else {
            assert(post[k] == s[k]);
        }
    }
}

/// A candidate answer is sound: it is an indexed entry with its exact
/// distance.
spec fn best_ok(es: Seq<BvhEntry>, best: Option<(BvhEntry, i128)>, target: Vec3Fix) -> bool {
    match best {
        None => true,
        Some(p) => es.contains(p.0) && p.1 == p.0.aabb.spec_dist2(target),
    }
}

/// Entry `es[i]` is accounted for: it still sits under a frontier subtree,
/// or the candidate answer is already at least as close.
spec fn accounted<'a>(
    es: Seq<BvhEntry>,
    fr: Seq<(i128, &'a BvhTree)>,
    best: Option<(BvhEntry, i128)>,
    target: Vec3Fix,
    i: int,
) -> bool {
    (exists|k: int| 0 <= k < fr.len() && (#[trigger] fr[k]).1.entries().contains(es[i])) || (
    best matches Some(p) && p.1 <= es[i].aabb.spec_dist2(target))
}

/// The candidate answer is the true minimum: no entry is closer.
spec fn best_is_min(es: Seq<BvhEntry>, best: Option<(BvhEntry, i128)>, target: Vec3Fix) -> bool {
    best matches Some(p) && (forall|i: int|
        0 <= i < es.len() ==> p.1 <= (#[trigger] es[i]).aabb.spec_dist2(target))
}

/// The closest entry of a nonempty list, by linear scan; on ties the first
/// encountered wins.
fn closest_in_items(items: &Vec<BvhEntry>, target: Vec3Fix) -> (r: (BvhEntry, i128))
    requires
        items@.len() >= 1,
        forall|i: int| 0 <= i < items@.len() ==> (#[trigger] items@[i]).wf(),
        target.in_range(),
    ensures
        items@.contains(r.0),
        r.1 == r.0.aabb.spec_dist2(target),
        forall|j: int|
            0 <= j < items@.len() ==> r.1 <= (#[trigger] items@[j]).aabb.spec_dist2(target),
{
    let first = items[0];
    let mut best: (BvhEntry, i128) = (first, first.aabb.dist2(target));
    let mut j: usize = 1;
    while j < items.len()
        invariant
            1 <= j <= items@.len(),
            forall|i: int| 0 <= i < items@.len() ==> (#[trigger] items@[i]).wf(),
            target.in_range(),
            items@.contains(best.0),
            best.1 == best.0.aabb.spec_dist2(target),
            forall|i: int|
                0 <= i < j ==> best.1 <= (#[trigger] items@[i]).aabb.spec_dist2(target),
        decreases items@.len() - j,
    {
        let d2 = items[j].aabb.dist2(target);
        if d2 < best.1 {
            best = (items[j], d2);
        }
        j += 1;
    }
    best
}

impl Bvh {
    /// Nearest-point query: an entry of minimal squared distance to
    /// `target`, with that distance, or `None` exactly when the index is
    /// empty.
    ///
    /// Best-first search: a frontier ordered by each subtree's distance
    /// lower bound is expanded until the closest candidate found is at
    /// least as close as every remaining bound.  A tree that is a single
    /// leaf is scanned directly instead.  Among entries at equal distance
    /// the result is deterministic (the first one met in traversal order),
    /// but the contract pins only the distance, which equals the
    /// brute-force minimum.
    pub fn get_closest(&self, target: Vec3Fix) -> (res: Option<(BvhEntry, i128)>)
        requires
            self.wf(),
            target.in_range(),
        ensures
            match res {
                None => self.entries().len() == 0,
                Some(p) => {
                    &&& self.entries().contains(p.0)
                    &&& p.1 == p.0.aabb.spec_dist2(target)
                    &&& forall|i: int|
                        0 <= i < self.entries().len() ==> p.1 <= (
                        #[trigger] self.entries()[i]).aabb.spec_dist2(target)
                },
            },
    {
        let root = match &self.root {
            None => {
                return None;
            },
            Some(t) => t,
        };
        if let BvhTree::Leaf { items, .. } = root {
            proof {
                lemma_tree_box_contains(*root);
            }
            let r = closest_in_items(items, target);
            return Some(r);
        }
        let ghost es = self.entries();
        proof {
            lemma_tree_box_contains(*root);
        }
        let root_box = tree_box(root);
        let mut frontier: Vec<(i128, &BvhTree)> = Vec::new();
        frontier.push((root_box.dist2(target), root));
        let mut best: Option<(BvhEntry, i128)> = None;
        let mut done: bool = false;
        proof {
            assert(frontier@.drop_last() =~= Seq::<(i128, &BvhTree)>::empty());
            assert(frontier@[0].1 == root && es == root.entries());
            assert forall|i: int| 0 <= i < es.len() implies accounted(
                es,
                frontier@,
                best,
                target,
                i,
            ) by {
                assert(frontier@[0].1.entries()[i] == es[i]);
                assert(frontier@[0].1.entries().contains(es[i]));
            }
            assert forall|j: int| 0 <= j < root.entries().len() implies es.contains(
                #[trigger] root.entries()[j],
            ) by {
                assert(es[j] == root.entries()[j]);
            }
        }
        while !done && frontier.len() > 0
            invariant
                target.in_range(),
                es == self.entries(),
                frontier_wf(es, frontier@, target),
                best_ok(es, best, target),
                forall|i: int| 0 <= i < es.len() ==> accounted(es, frontier@, best, target, i),
                done ==> best_is_min(es, best, target),
            decreases frontier_size(frontier@),
        {
            // Scan for the frontier element with the least bound.
            let mut mi: usize = 0;
            let mut k: usize = 1;
            while k < frontier.len()
                invariant
                    0 <= mi < frontier@.len(),
                    1 <= k <= frontier@.len(),
                    forall|j: int| 0 <= j < k ==> frontier@[mi as int].0 <= frontier@[j].0,
                decreases frontier@.len() - k,
            {
                if frontier[k].0 < frontier[mi].0 {
                    mi = k;
                }
                k += 1;
            }
            let ghost pre = frontier@;
            let popped = frontier.swap_remove(mi);
            let bound = popped.0;
            let node = popped.1;
            proof {
                lemma_frontier_size_swap_remove(pre, mi as int);
                lemma_frontier_wf_swap_remove(es, pre, target, mi as int);
                lemma_subtree_dist_lower(*node, target);
            }
            let stop = match &best {
                None => false,
                Some(bp) => bound > bp.1,
            };
            if stop {
                proof {
                    let bp = best->Some_0;
                    assert forall|i: int| 0 <= i < es.len() implies bp.1 <= (
                    #[trigger] es[i]).aabb.spec_dist2(target) by {
                        assert(accounted(es, pre, best, target, i));
                        if !(best matches Some(p) && p.1 <= es[i].aabb.spec_dist2(target)) {
                            let k0 = choose|k0: int|
                                0 <= k0 < pre.len() && (#[trigger] pre[k0]).1.entries().contains(
                                    es[i],
                                );
                            assert(pre[k0].1.wf());
                            lemma_subtree_dist_lower(*pre[k0].1, target);
                            let ents = pre[k0].1.entries();
                            let j0 = choose|j0: int| 0 <= j0 < ents.len() && ents[j0] == es[i];
                            assert(box_of(*pre[k0].1).spec_dist2(target) <= ents[
                                j0].aabb.spec_dist2(target));
                            assert(pre[k0].0 == box_of(*pre[k0].1).spec_dist2(target));
                            assert(pre[mi as int].0 <= pre[k0].0);
                            assert(bound == pre[mi as int].0);
                        }
                    }
                    assert(best_is_min(es, best, target));
                    assert forall|i: int| 0 <= i < es.len() implies accounted(
                        es,
                        frontier@,
                        best,
                        target,
                        i,
                    ) by {
                        assert(bp.1 <= es[i].aabb.spec_dist2(target));
                    }
                }
                done = true;
            } else {
                match node {
                    BvhTree::Leaf { items, .. } => {
                        proof {
                            assert(node.entries() == items@);
                            assert(node.wf());
                        }
                        let lm = closest_in_items(items, target);
                        let replace = match &best {
                            None => true,
                            Some(bp) => lm.1 < bp.1,
                        };
                        let ghost old_best = best;
                        if replace {
                            best = Some(lm);
                        }
                        proof {
                            // The new candidate is a real indexed entry.
                            let jw = choose|jw: int|
                                0 <= jw < items@.len() && items@[jw] == lm.0;
                            assert(pre[mi as int].1.entries()[jw] == lm.0);
                            assert(es.contains(pre[mi as int].1.entries()[jw]));
                            assert(best_ok(es, best, target));
                            // Every entry stays accounted for: the popped
                            // leaf's entries are now covered by the
                            // candidate, the others keep their subtree.
                            assert forall|i: int| 0 <= i < es.len() implies accounted(
                                es,
                                frontier@,
                                best,
                                target,
                                i,
                            ) by {
                                assert(accounted(es, pre, old_best, target, i));
                                if old_best is Some && old_best->Some_0.1
                                    <= es[i].aabb.spec_dist2(target) {
                                    assert(best is Some && best->Some_0.1
                                        <= old_best->Some_0.1);
                                } else {
                                    let k0 = choose|k0: int|
                                        0 <= k0 < pre.len() && (
                                        #[trigger] pre[k0]).1.entries().contains(es[i]);
                                    if k0 == mi {
                                        let ents = pre[k0].1.entries();
                                        let j0 = choose|j0: int|
                                            0 <= j0 < ents.len() && ents[j0] == es[i];
                                        assert(lm.1 <= items@[j0].aabb.spec_dist2(target));
                                        assert(best is Some && best->Some_0.1 <= lm.1);
                                    } else if k0 == pre.len() - 1 {
                                        assert(frontier@[mi as int] == pre[k0]);
                                        assert(frontier@[mi as int].1.entries().contains(
                                            es[i]));
                                    } else {
                                        assert(frontier@[k0] == pre[k0]);
                                        assert(frontier@[k0].1.entries().contains(es[i]));
                                    }
                                }
                            }
                        }
                    },
                    BvhTree::Node { left, right, .. } => {
                        let ghost fr1 = frontier@;
                        proof {
                            lemma_tree_box_contains(**left);
                            lemma_tree_box_contains(**right);
                        }
                        let lb = tree_box(left);
                        let rb = tree_box(right);
                        let lpair = (lb.dist2(target), &**left);
                        let rpair = (rb.dist2(target), &**right);
                        frontier.push(lpair);
                        let ghost fr2 = frontier@;
                        frontier.push(rpair);
                        proof {
                            lemma_frontier_size_push(fr1, lpair);
                            lemma_frontier_size_push(fr2, rpair);
                            let le = left.entries();
                            let re = right.entries();
                            assert(node.entries() == le + re);
                            assert forall|j: int| 0 <= j < le.len() implies es.contains(
                                #[trigger] le[j],
                            ) by {
                                assert(le[j] == pre[mi as int].1.entries()[j]);
                                assert(es.contains(pre[mi as int].1.entries()[j]));
                            }
                            assert forall|j: int| 0 <= j < re.len() implies es.contains(
                                #[trigger] re[j],
                            ) by {
                                assert(re[j] == pre[mi as int].1.entries()[le.len() + j]);
                                assert(es.contains(pre[mi as int].1.entries()[le.len() + j]));
                            }
                            lemma_frontier_wf_push(es, fr1, lpair, target);
                            lemma_frontier_wf_push(es, fr2, rpair, target);
                            assert forall|i: int| 0 <= i < es.len() implies accounted(
                                es,
                                frontier@,
                                best,
                                target,
                                i,
                            ) by {
                                assert(accounted(es, pre, best, target, i));
                                if !(best matches Some(p) && p.1 <= es[i].aabb.spec_dist2(
                                    target,
                                )) {
                                    let k0 = choose|k0: int|
                                        0 <= k0 < pre.len() && (
                                        #[trigger] pre[k0]).1.entries().contains(es[i]);
                                    if k0 == mi {
                                        // The popped node's entries are split
                                        // between the two pushed children.
                                        let le = left.entries();
                                        let re = right.entries();
                                        let ents = pre[k0].1.entries();
                                        let j0 = choose|j0: int|
                                            0 <= j0 < ents.len() && ents[j0] == es[i];
                                        assert(ents == le + re);
                                        if j0 < le.len() {
                                            assert(le[j0] == es[i]);
                                            assert(frontier@[frontier@.len() - 2].1.entries()
                                                .contains(es[i]));
                                        } else {
                                            assert(re[j0 - le.len()] == es[i]);
                                            assert(frontier@[frontier@.len() - 1].1.entries()
                                                .contains(es[i]));
                                        }
                                    } else if k0 == pre.len() - 1 {
                                        assert(frontier@[mi as int] == pre[k0]);
                                        assert(frontier@[mi as int].1.entries().contains(
                                            es[i]));
                                    } else {
                                        assert(frontier@[k0] == pre[k0]);
                                        assert(frontier@[k0].1.entries().contains(es[i]));
                                    }
                                }
                            }
                        }
                    },
                }
            }
        }
        proof {
            if !done {
                if best is None {
                    if es.len() > 0 {
                        assert(accounted(es, frontier@, best, target, 0));
                        assert(false);
                    }
                } else {
                    assert forall|i: int| 0 <= i < es.len() implies best->Some_0.1 <= (
                    #[trigger] es[i]).aabb.spec_dist2(target) by {
                        assert(accounted(es, frontier@, best, target, i));
                    }
                }
            } else {
                assert(best_is_min(es, best, target));
            }
        }
        best
    }
}

/// Depth-first range traversal, appending the matching entries of the
/// subtree `t` to `out`.
fn range_into(t: &BvhTree, target: &Aabb, out: &mut Vec<BvhEntry>)
    requires
        t.wf(),
    ensures
        final(out)@ == old(out)@ + t.entries().filter(overlap_pred(*target)),
    decreases t,
{
    let tb = tree_box(t);
    let pred = Ghost(overlap_pred(*target));
    if !target.overlaps(&tb) {
        proof {
            lemma_tree_box_contains(*t);
            let es = t.entries();
            assert forall|i: int| 0 <= i < es.len() implies !(pred@)(#[trigger] es[i]) by {
                if (pred@)(es[i]) {
                    crate::aabb::lemma_overlap_monotone(*target, es[i].aabb, box_of(*t));
                }
            }
            assert(es.all(|e: BvhEntry| !(pred@)(e)));
            es.lemma_all_neg_filter_empty(pred@);
            assert(es.filter(pred@) =~= Seq::empty());
            assert(out@ =~= old(out)@ + es.filter(pred@));
        }
        return ;
    }
    match t {
        BvhTree::Leaf { items, .. } => {
            let mut i: usize = 0;
            while i < items.len()
                invariant
                    0 <= i <= items@.len(),
                    out@ == old(out)@ + items@.subrange(0, i as int).filter(pred@),
                    pred@ == overlap_pred(*target),
                decreases items@.len() - i,
            {
                proof {
                    let sub0 = items@.subrange(0, i as int);
                    let sub1 = items@.subrange(0, i + 1 as int);
                    assert(sub1.drop_last() =~= sub0);
                    assert(sub1.last() == items@[i as int]);
                    reveal(Seq::filter);
                    if (pred@)(items@[i as int]) {
                        assert(sub1.filter(pred@) =~= sub0.filter(pred@).push(
                            items@[i as int]));
                        assert((old(out)@ + sub0.filter(pred@)).push(items@[i as int])
                            =~= old(out)@ + sub1.filter(pred@));
                    } else {
                        assert(sub1.filter(pred@) =~= sub0.filter(pred@));
                    }
                }
                if target.overlaps(&items[i].aabb) {
                    let e = items[i];
                    out.push(e);
                }
                i += 1;
            }
            proof {
                assert(items@.subrange(0, items@.len() as int) =~= items@);
            }
        },
        BvhTree::Node { left, right, .. } => {
            range_into(left, target, out);
            range_into(right, target, out);
            proof {
                Seq::filter_distributes_over_add(left.entries(), right.entries(), pred@);
                assert((old(out)@ + left.entries().filter(pred@)) + right.entries().filter(
                    pred@,
                ) =~= old(out)@ + t.entries().filter(pred@));
            }
        },
    }
}

} // verus!
