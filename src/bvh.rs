//! Index-linked layout of the bounding-volume hierarchy.
//!
//! The hierarchy over `n` objects is a binary tree stored in an arena of
//! `2n - 1` slots in pre-order. Every slot covers a half-open range
//! `[start, end)` of positions in the object list: the root covers `[0, n)`,
//! a range of one position is a leaf, and a longer range is split at its
//! midpoint index `start + (end - start) / 2` into a left and a right child.
//! Since a parent always precedes its children, a forward pass over the
//! slots visits every node before its descendants (where the builder orders
//! the objects of a node), and a backward pass visits every node after them
//! (where bounding boxes are merged upward).
use vstd::arithmetic::power2::{lemma2_to64, lemma_pow2_unfold, pow2};
use vstd::prelude::*;

verus! {

/// The kind of a node of the hierarchy.
#[derive(Debug, Clone, Copy, PartialEq, Eq, Structural)]
pub enum BvhNode {
    /// A leaf holding the object at the given position of the object list.
    Leaf(usize),
    /// An interior node, with the arena indices of its two children.
    Node { left: usize, right: usize },
}

/// One arena slot: a node and the range of object positions beneath it.
#[derive(Debug, Clone, Copy, PartialEq, Eq, Structural)]
pub struct BvhSlot {
    pub node: BvhNode,
    pub start: usize,
    pub end: usize,
}

/// Where a range of object positions is split between the two children.
pub open spec fn split_point(start: int, end: int) -> int {
    start + (end - start) / 2
}

/// The number of arena slots taken by the subtree over `len` objects.
pub open spec fn subtree_slots(len: int) -> int {
    2 * len - 1
}

/// The slots from index `k` on hold, in pre-order, the subtree over the
/// object positions `[start, end)`.
pub open spec fn subtree_ok(s: Seq<BvhSlot>, k: int, start: int, end: int) -> bool
    decreases end - start,
{
    &&& 0 <= start < end
    &&& 0 <= k
    &&& k + subtree_slots(end - start) <= s.len()
    &&& s[k].start == start
    &&& s[k].end == end
    &&& if end - start == 1 {
        s[k].node == BvhNode::Leaf(start as usize)
    } else {
        let mid = split_point(start, end);
        let right = k + 1 + subtree_slots(mid - start);
        &&& s[k].node == (BvhNode::Node { left: (k + 1) as usize, right: right as usize })
        &&& subtree_ok(s, k + 1, start, mid)
        &&& subtree_ok(s, right, mid, end)
    }
}

/// The object positions held by the leaves among the slots `[lo, hi)`, in
/// slot order.
pub open spec fn leaf_positions(s: Seq<BvhSlot>, lo: int, hi: int) -> Seq<usize>
    decreases hi - lo,
{
    if hi <= lo {
        Seq::empty()
    } else {
        let rest = leaf_positions(s, lo, hi - 1);
        match s[hi - 1].node {
            BvhNode::Leaf(p) => rest.push(p),
            BvhNode::Node { .. } => rest,
        }
    }
}

/// The positions `start, start + 1, ..., end - 1`.
pub open spec fn position_range(start: int, end: int) -> Seq<usize> {
    Seq::new((end - start) as nat, |i: int| (start + i) as usize)
}

/// The arena of a hierarchy over a nonempty list of objects.
#[derive(Debug)]
pub struct BvhLayout {
    slots: Vec<BvhSlot>,
    objects: usize,
}

impl View for BvhLayout {
    type V = Seq<BvhSlot>;

    closed spec fn view(&self) -> Seq<BvhSlot> {
        self.slots@
    }
}

impl Clone for BvhLayout {
    fn clone(&self) -> (r: Self)
        ensures
            r@ == self@,
            r.objects() == self.objects(),
    {
        BvhLayout { slots: self.slots.clone(), objects: self.objects }
    }
}

impl BvhLayout {
    /// The number of objects that the hierarchy is built over.
    pub closed spec fn objects(&self) -> nat {
        self.objects as nat
    }

    /// The arena holds, in pre-order from slot 0, the tree over all objects.
    pub open spec fn wf(&self) -> bool {
        &&& self.objects() >= 1
        &&& self@.len() == subtree_slots(self.objects() as int)
        &&& self@.len() <= usize::MAX
        &&& subtree_ok(self@, 0, 0, self.objects() as int)
    }

    /// Lays out the hierarchy over `object_count` objects.
    pub fn new(object_count: usize) -> (r: Self)
        requires
            1 <= object_count <= usize::MAX / 2,
        ensures
            r.wf(),
            r.objects() == object_count,
    {
        let mut slots: Vec<BvhSlot> = Vec::new();
        build(&mut slots, 0, object_count);
        BvhLayout { slots, objects: object_count }
    }

    /// The number of slots of the arena.
    pub fn slot_count(&self) -> (r: usize)
        ensures
            r == self@.len(),
    {
        self.slots.len()
    }

    /// The slot at arena index `k`.
    pub fn slot(&self, k: usize) -> (r: BvhSlot)
        requires
            k < self@.len(),
        ensures
            r == self@[k as int],
    {
        self.slots[k]
    }

    /// The number of objects reachable from the root: one per leaf.
    pub fn count(&self) -> (r: usize)
        requires
            self.wf(),
        ensures
            r == self.objects(),
    {
        let mut n: usize = 0;
        let mut i: usize = 0;
        while i < self.slots.len()
            invariant
                i <= self.slots@.len(),
                n <= i,
                n == leaf_positions(self@, 0, i as int).len(),
            decreases self.slots@.len() - i,
        {
            if let BvhNode::Leaf(_) = self.slots[i].node {
                n = n + 1;
            }
            i = i + 1;
        }
        proof {
            lemma_leaves_in_order(self);
        }
        n
    }
}

/// Appends to `slots` the subtree over the object positions `[start, end)`.
fn build(slots: &mut Vec<BvhSlot>, start: usize, end: usize)
    requires
        start < end,
        old(slots)@.len() + 2 * (end - start) <= usize::MAX,
    ensures
        final(slots)@.len() == old(slots)@.len() + subtree_slots(end - start),
        forall|i: int| 0 <= i < old(slots)@.len() ==> final(slots)@[i] == old(slots)@[i],
        subtree_ok(final(slots)@, old(slots)@.len() as int, start as int, end as int),
    decreases end - start,
{
    let k = slots.len();
    if end - start == 1 {
        slots.push(BvhSlot { node: BvhNode::Leaf(start), start, end });
    } else {
        let mid = start + (end - start) / 2;
        let right = k + 1 + (2 * (mid - start) - 1);
        slots.push(BvhSlot { node: BvhNode::Node { left: k + 1, right }, start, end });
        build(slots, start, mid);
        let ghost s1 = slots@;
        build(slots, mid, end);
        proof {
            lemma_subtree_stable(s1, slots@, k + 1, start as int, mid as int);
        }
    }
}

/// A subtree stays in place when the slots that hold it are unchanged.
proof fn lemma_subtree_stable(s: Seq<BvhSlot>, t: Seq<BvhSlot>, k: int, start: int, end: int)
    requires
        subtree_ok(s, k, start, end),
        k + subtree_slots(end - start) <= t.len(),
        forall|i: int| k <= i < k + subtree_slots(end - start) ==> t[i] == s[i],
    ensures
        subtree_ok(t, k, start, end),
    decreases end - start,
{
    if end - start > 1 {
        let mid = split_point(start, end);
        let right = k + 1 + subtree_slots(mid - start);
        lemma_subtree_stable(s, t, k + 1, start, mid);
        lemma_subtree_stable(s, t, right, mid, end);
    }
}

/// The leaves of a run of slots are those of its two parts, one after the other.
proof fn lemma_leaf_positions_split(s: Seq<BvhSlot>, lo: int, mid: int, hi: int)
    requires
        lo <= mid <= hi,
    ensures
        leaf_positions(s, lo, hi) == leaf_positions(s, lo, mid) + leaf_positions(s, mid, hi),
    decreases hi - mid,
{
    if hi == mid {
        assert(leaf_positions(s, mid, hi) =~= Seq::empty());
        assert(leaf_positions(s, lo, mid) + leaf_positions(s, mid, hi) =~= leaf_positions(s, lo, mid));
    } else {
        lemma_leaf_positions_split(s, lo, mid, hi - 1);
        match s[hi - 1].node {
            BvhNode::Leaf(p) => {
                assert(leaf_positions(s, lo, hi) =~= leaf_positions(s, lo, mid) + leaf_positions(s, mid, hi));
            },
            BvhNode::Node { .. } => {},
        }
    }
}

/// The leaves of the subtree over `[start, end)` hold those positions, in order.
proof fn lemma_subtree_leaves(s: Seq<BvhSlot>, k: int, start: int, end: int)
    requires
        subtree_ok(s, k, start, end),
    ensures
        leaf_positions(s, k, k + subtree_slots(end - start)) == position_range(start, end),
    decreases end - start,
{
    let hi = k + subtree_slots(end - start);
    assert(leaf_positions(s, k, k) =~= Seq::<usize>::empty());
    if end - start == 1 {
        assert(leaf_positions(s, k, hi) =~= position_range(start, end));
    } else {
        let mid = split_point(start, end);
        let right = k + 1 + subtree_slots(mid - start);
        lemma_subtree_leaves(s, k + 1, start, mid);
        lemma_subtree_leaves(s, right, mid, end);
        lemma_leaf_positions_split(s, k, k + 1, hi);
        lemma_leaf_positions_split(s, k + 1, right, hi);
        assert(leaf_positions(s, k, k + 1) =~= Seq::<usize>::empty());
        assert(position_range(start, mid) + position_range(mid, end) =~= position_range(start, end));
    }
}

/// Every object is held by exactly one leaf: read in arena order, the leaves
/// hold the positions `0, 1, ..., n - 1` of the object list.
pub proof fn lemma_leaves_in_order(layout: &BvhLayout)
    requires
        layout.wf(),
    ensures
        leaf_positions(layout@, 0, layout@.len() as int) == position_range(0, layout.objects() as int),
{
    lemma_subtree_leaves(layout@, 0, 0, layout.objects() as int);
}

/// The shape of slot `i` seen from the slot alone: a nonempty range within
/// the `n` objects; a leaf holds the one position of its range; an interior
/// node's children come after it and split its range at the midpoint.
pub open spec fn slot_shape_ok(s: Seq<BvhSlot>, i: int, n: int) -> bool {
    let sl = s[i];
    &&& sl.start < sl.end <= n
    &&& match sl.node {
        BvhNode::Leaf(p) => p == sl.start && sl.end == sl.start + 1,
        BvhNode::Node { left, right } => {
            let mid = split_point(sl.start as int, sl.end as int);
            &&& i < left < right < s.len()
            &&& s[left as int].start == sl.start
            &&& s[left as int].end == mid
            &&& s[right as int].start == mid
            &&& s[right as int].end == sl.end
        },
    }
}

proof fn lemma_subtree_shape(s: Seq<BvhSlot>, k: int, start: int, end: int, n: int)
    requires
        subtree_ok(s, k, start, end),
        end <= n <= usize::MAX,
        s.len() <= usize::MAX,
    ensures
        forall|i: int| k <= i < k + subtree_slots(end - start) ==> slot_shape_ok(s, i, n),
    decreases end - start,
{
    if end - start > 1 {
        let mid = split_point(start, end);
        let right = k + 1 + subtree_slots(mid - start);
        lemma_subtree_shape(s, k + 1, start, mid, n);
        lemma_subtree_shape(s, right, mid, end, n);
        reveal_with_fuel(subtree_ok, 2);
        assert(slot_shape_ok(s, k, n));
    }
}

/// Every slot of a laid-out hierarchy has the shape that `slot_shape_ok`
/// describes; in particular a parent always precedes its children.
pub proof fn lemma_slot_shape(layout: &BvhLayout, k: int)
    requires
        layout.wf(),
        0 <= k < layout@.len(),
    ensures
        slot_shape_ok(layout@, k, layout.objects() as int),
{
    lemma_subtree_shape(layout@, 0, 0, layout.objects() as int, layout.objects() as int);
}

/// The number of nodes on the longest root-to-leaf path of the subtree over
/// `len` objects. `subtree_ok` gives the left child `len / 2` of them and the
/// right child the other `len - len / 2`.
pub open spec fn subtree_depth(len: int) -> nat
    decreases len,
{
    if len <= 1 {
        1
    } else {
        let l = subtree_depth(len / 2);
        let r = subtree_depth(len - len / 2);
        1 + if l >= r {
            l
        } else {
            r
        }
    }
}

/// The midpoint split keeps the hierarchy balanced: over at most `2^k`
/// objects, no root-to-leaf path has more than `k + 1` nodes, whatever the
/// objects are.
pub proof fn lemma_depth_bound(len: int, k: nat)
    requires
        1 <= len <= pow2(k),
    ensures
        subtree_depth(len) <= k + 1,
    decreases len,
{
    lemma2_to64();
    if len > 1 {
        lemma_pow2_unfold(k);
        let h = pow2((k - 1) as nat);
        assert(len / 2 <= h && len - len / 2 <= h);
        lemma_depth_bound(len / 2, (k - 1) as nat);
        lemma_depth_bound(len - len / 2, (k - 1) as nat);
    }
}

} // verus!
