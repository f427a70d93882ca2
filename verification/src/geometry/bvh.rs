//! The integer side of the bounding volume hierarchy: the primitive-index
//! array and the node layout.
//!
//! Each node owns a contiguous range of the primitive-index array; splitting
//! a node partitions its range in place, so the ranges of its two children
//! are disjoint and together hold exactly the primitives of the parent.
//!
//! Nodes are emitted in depth-first order, so the left child of an interior
//! node is always at `self_index + 1`; the right child's index is stored in
//! `offset`. The renderer decides, from centroids and surface areas, whether
//! a range becomes a leaf and where it is split; this module moves the
//! indices and lays out the nodes.

use vstd::prelude::*;

verus! {

broadcast use {vstd::seq_lib::group_to_multiset_ensures, vstd::multiset::group_multiset_axioms};

/// The primitives of the range starting at `start`, each with its side:
/// `sides[k]` belongs to `items[start + k]`.
pub open spec fn tagged(items: Seq<u32>, sides: Seq<bool>, start: int) -> Seq<(u32, bool)> {
    Seq::new(sides.len(), |k: int| (items[start + k], sides[k]))
}

/// Exchanging two elements keeps the multiset of a sequence.
pub proof fn lemma_swap_to_multiset<A>(s: Seq<A>, i: int, j: int)
    requires
        0 <= i < s.len(),
        0 <= j < s.len(),
    ensures
        s.update(i, s[j]).update(j, s[i]).to_multiset() == s.to_multiset(),
{
    let s1 = s.update(i, s[j]);
    if i == j {
        assert(s1.update(j, s[i]) =~= s);
    } else {
        assert(s1[j] == s[j]);
        assert(s.to_multiset().count(s[i]) > 0);
        assert(s1.update(j, s[i]).to_multiset() =~= s.to_multiset());
    }
}

/// Partitions the range of `items` that starts at `start` and has one
/// entry in `sides` per element, moving each side with its element: the
/// elements marked `true` come first. Returns the index where the elements
/// marked `false` begin. Elements outside the range stay where they are.
pub fn partition_by_side(items: &mut Vec<u32>, sides: &mut Vec<bool>, start: usize) -> (mid: usize)
    requires
        start + old(sides).len() <= old(items).len(),
    ensures
        final(items).len() == old(items).len(),
        final(sides).len() == old(sides).len(),
        start <= mid <= start + old(sides).len(),
        tagged(final(items)@, final(sides)@, start as int).to_multiset() == tagged(
            old(items)@,
            old(sides)@,
            start as int,
        ).to_multiset(),
        forall|i: int|
            0 <= i < old(items).len() && !(start <= i < start + old(sides).len())
                ==> final(items)@[i] == old(items)@[i],
        forall|k: int| 0 <= k < mid - start ==> final(sides)@[k],
        forall|k: int| mid - start <= k < old(sides).len() ==> !final(sides)@[k],
{
    let ghost items0 = items@;
    let ghost sides0 = sides@;
    let n = sides.len();
    let mut lo: usize = 0;
    let mut hi: usize = n;
    while lo < hi
        invariant
            items@.len() == items0.len(),
            sides@.len() == n,
            n == sides0.len(),
            start + n <= items0.len() <= usize::MAX,
            lo <= hi <= n,
            tagged(items@, sides@, start as int).to_multiset() == tagged(
                items0,
                sides0,
                start as int,
            ).to_multiset(),
            forall|i: int|
                0 <= i < items0.len() && !(start <= i < start + n) ==> items@[i] == items0[i],
            forall|k: int| 0 <= k < lo ==> sides@[k],
            forall|k: int| hi <= k < n ==> !sides@[k],
        decreases hi - lo,
    {
        if sides[lo] {
            lo = lo + 1;
        } else {
            hi = hi - 1;
            let ghost t = tagged(items@, sides@, start as int);
            let a = items[start + lo];
            let b = items[start + hi];
            items.set(start + lo, b);
            items.set(start + hi, a);
            let sa = sides[lo];
            let sb = sides[hi];
            sides.set(lo, sb);
            sides.set(hi, sa);
            proof {
                assert(tagged(items@, sides@, start as int) =~= t.update(lo as int, t[hi as int]).update(
                    hi as int,
                    t[lo as int],
                ));
                lemma_swap_to_multiset(t, lo as int, hi as int);
            }
        }
    }
    start + lo
}

// ---------------------------------------------------------------------------
// Node layout
// ---------------------------------------------------------------------------

/// A node of the hierarchy without its bounding box.
#[derive(Debug, Clone, Copy, PartialEq, Eq, Structural)]
pub struct LayoutNode {
    /// Interior: index of the right (second) child node. Leaf: starting index
    /// into the primitive index array.
    pub offset: u32,
    /// 0 for an interior node; for a leaf, how many primitives it stores
    /// contiguously at `offset` in the primitive index array.
    pub n_primitives: u16,
    /// Split axis (0, 1 or 2) of an interior node; 0 for a leaf.
    pub axis: u8,
}

/// How the renderer decided to handle the pending range of primitives.
#[derive(Debug, Clone, Copy, PartialEq, Eq, Structural)]
pub enum SplitChoice {
    /// Store the whole range in one leaf.
    Leaf,
    /// Split the range at `mid` along `axis`: `[start, mid)` goes left,
    /// `[mid, end)` right.
    Split { axis: u8, mid: u32 },
}

/// What the renderer does next while laying out the hierarchy.
#[derive(Debug, Clone, Copy, PartialEq, Eq, Structural)]
pub enum LayoutStep {
    /// Decide how to handle the primitives at `[start, end)` of the index
    /// array; they become the next node.
    Decide { start: u32, end: u32 },
    /// Every range has a node.
    Done,
}

/// An interior node whose right subtree has not been started yet.
#[derive(Debug, Clone, Copy)]
struct Frame {
    parent: u32,
    mid: u32,
    end: u32,
}

/// A hierarchy being laid out in depth-first order.
pub struct BvhLayout {
    nodes: Vec<LayoutNode>,
    stack: Vec<Frame>,
    start: u32,
    end: u32,
    done: bool,
    n: u32,
    ranges: Ghost<Seq<(int, int)>>,
    mids: Ghost<Seq<int>>,
}

/// The nodes laid out so far, with the range of primitives each covers and,
/// for an interior node, where that range was split.
pub struct LayoutView {
    pub nodes: Seq<LayoutNode>,
    pub ranges: Seq<(int, int)>,
    pub mids: Seq<int>,
    pub n: int,
}

impl View for BvhLayout {
    type V = LayoutView;

    closed spec fn view(&self) -> LayoutView {
        LayoutView { nodes: self.nodes@, ranges: self.ranges@, mids: self.mids@, n: self.n as int }
    }
}

pub open spec fn is_leaf(x: LayoutNode) -> bool {
    x.n_primitives > 0
}

/// The primitive count a leaf over `[s, e)` stores: the range's length,
/// saturated at the largest `u16`.
pub open spec fn leaf_count_of(s: int, e: int) -> int {
    if e - s <= 0xFFFF {
        e - s
    } else {
        0xFFFF
    }
}

/// The number of leaves among `nodes`.
pub open spec fn leaf_total(nodes: Seq<LayoutNode>) -> int
    decreases nodes.len(),
{
    if nodes.len() == 0 {
        0
    } else {
        leaf_total(nodes.drop_last()) + if is_leaf(nodes.last()) {
            1int
        } else {
            0int
        }
    }
}

/// The range of primitives the step asks the renderer to decide on.
pub open spec fn step_range(step: LayoutStep) -> Option<(u32, u32)> {
    match step {
        LayoutStep::Decide { start, end } => Some((start, end)),
        LayoutStep::Done => None,
    }
}

/// A choice the pending range `[s, e)` admits: a split strictly inside it,
/// on one of the three axes.
pub open spec fn choice_fits(choice: SplitChoice, s: u32, e: u32) -> bool {
    match choice {
        SplitChoice::Leaf => true,
        SplitChoice::Split { axis, mid } => s < mid < e && axis <= 2,
    }
}

/// Primitive `x` lies in the range of some leaf.
pub open spec fn covered_by_leaf(nodes: Seq<LayoutNode>, ranges: Seq<(int, int)>, x: int) -> bool {
    exists|i: int|
        0 <= i < nodes.len() && is_leaf(#[trigger] nodes[i]) && ranges[i].0 <= x < ranges[i].1
}

/// The layout of a finished hierarchy over `n` primitives: node 0 covers
/// them all; a leaf stores its range's start and length; an interior node's
/// left child follows it, its right child is at `offset` further on, and
/// the two split its range; the leaves' ranges are disjoint, cover every
/// primitive, and number one more than the interior nodes.
pub open spec fn layout_law(v: LayoutView) -> bool {
    let len = v.nodes.len();
    &&& v.ranges.len() == len
    &&& v.mids.len() == len
    &&& (v.n == 0 <==> len == 0)
    &&& v.n > 0 ==> v.ranges[0] == (0int, v.n)
    &&& forall|i: int|
        0 <= i < len ==> 0 <= (#[trigger] v.ranges[i]).0 < v.ranges[i].1 <= v.n
    &&& forall|i: int|
        0 <= i < len && is_leaf(#[trigger] v.nodes[i]) ==> v.nodes[i].offset == v.ranges[i].0
            && v.nodes[i].n_primitives == leaf_count_of(v.ranges[i].0, v.ranges[i].1)
    &&& forall|i: int|
        0 <= i < len && !is_leaf(#[trigger] v.nodes[i]) ==> {
            &&& v.nodes[i].axis <= 2
            &&& i + 1 < v.nodes[i].offset < len
            &&& v.ranges[i].0 < v.mids[i] < v.ranges[i].1
            &&& v.ranges[i + 1] == (v.ranges[i].0, v.mids[i])
            &&& v.ranges[v.nodes[i].offset as int] == (v.mids[i], v.ranges[i].1)
        }
    &&& forall|i: int, j: int|
        0 <= i < j < len && is_leaf(#[trigger] v.nodes[i]) && is_leaf(#[trigger] v.nodes[j])
            ==> v.ranges[i].1 <= v.ranges[j].0
    &&& forall|x: int| 0 <= x < v.n ==> #[trigger] covered_by_leaf(v.nodes, v.ranges, x)
    &&& v.n > 0 ==> len == 2 * leaf_total(v.nodes) - 1
}

proof fn lemma_leaf_total_push(s: Seq<LayoutNode>, x: LayoutNode)
    ensures
        leaf_total(s.push(x)) == leaf_total(s) + if is_leaf(x) {
            1int
        } else {
            0int
        },
{
    assert(s.push(x).drop_last() =~= s);
}

proof fn lemma_leaf_total_update(s: Seq<LayoutNode>, p: int, x: LayoutNode)
    requires
        0 <= p < s.len(),
        is_leaf(x) == is_leaf(s[p]),
    ensures
        leaf_total(s.update(p, x)) == leaf_total(s),
    decreases s.len(),
{
    if p == s.len() - 1 {
        assert(s.update(p, x).drop_last() =~= s.drop_last());
    } else {
        assert(s.update(p, x).drop_last() =~= s.drop_last().update(p, x));
        lemma_leaf_total_update(s.drop_last(), p, x);
    }
}

proof fn lemma_leaf_total_bounds(s: Seq<LayoutNode>)
    ensures
        0 <= leaf_total(s) <= s.len(),
    decreases s.len(),
{
    if s.len() > 0 {
        lemma_leaf_total_bounds(s.drop_last());
    }
}

/// The layout while it is being built. `cursor` is where the pending range
/// starts (`n` once done): the leaves so far cover `[0, cursor)`; the pending
/// range and the right halves of the open interior nodes, innermost first,
/// cover `[cursor, n)`.
spec fn state_wf(v: LayoutView, stack: Seq<Frame>, start: int, end: int, done: bool) -> bool {
    let len = v.nodes.len();
    let st = stack.len();
    let cursor = if done {
        v.n
    } else {
        start
    };
    &&& 0 <= v.n <= 0x7FFF_FFFF
    &&& v.ranges.len() == len
    &&& v.mids.len() == len
    &&& done ==> st == 0
    &&& v.n == 0 ==> done && len == 0
    &&& !done ==> 0 <= start < end <= v.n
    &&& len == 0 && !done ==> start == 0 && end == v.n
    &&& len > 0 ==> v.ranges[0] == (0int, v.n)
    &&& forall|i: int|
        0 <= i < len ==> 0 <= (#[trigger] v.ranges[i]).0 < v.ranges[i].1 <= v.n
    &&& forall|i: int|
        0 <= i < len && is_leaf(#[trigger] v.nodes[i]) ==> v.nodes[i].offset == v.ranges[i].0
            && v.nodes[i].n_primitives == leaf_count_of(v.ranges[i].0, v.ranges[i].1)
            && v.ranges[i].1 <= cursor
    &&& forall|i: int|
        0 <= i < len && !is_leaf(#[trigger] v.nodes[i]) ==> {
            &&& v.nodes[i].axis <= 2
            &&& v.ranges[i].0 < v.mids[i] < v.ranges[i].1
            &&& i + 1 <= len
            &&& i + 1 < len ==> v.ranges[i + 1] == (v.ranges[i].0, v.mids[i])
            &&& v.nodes[i].offset != 0 ==> {
                &&& i + 1 < v.nodes[i].offset <= len
                &&& v.nodes[i].offset < len ==> v.ranges[v.nodes[i].offset as int] == (
                    v.mids[i],
                    v.ranges[i].1,
                )
                &&& v.nodes[i].offset == len ==> !done && start == v.mids[i] && end
                    == v.ranges[i].1
            }
            &&& v.nodes[i].offset == 0 ==> exists|k: int|
                0 <= k < st && (#[trigger] stack[k]).parent == i
        }
    &&& len > 0 && !is_leaf(v.nodes[len - 1]) && !done ==> start == v.ranges[len - 1].0 && end
        == v.mids[len - 1]
    &&& forall|k: int|
        0 <= k < st ==> {
            &&& (#[trigger] stack[k]).parent < len
            &&& !is_leaf(v.nodes[stack[k].parent as int])
            &&& v.nodes[stack[k].parent as int].offset == 0
            &&& stack[k].mid == v.mids[stack[k].parent as int]
            &&& stack[k].end == v.ranges[stack[k].parent as int].1
        }
    &&& st > 0 && !done ==> stack[st - 1].mid == end
    &&& forall|k: int| 0 <= k < st - 1 ==> (#[trigger] stack[k]).mid == stack[k + 1].end
    &&& st > 0 ==> stack[0].end == v.n
    &&& st == 0 && !done ==> end == v.n
    &&& forall|j: int, k: int|
        0 <= j < k < st ==> (#[trigger] stack[k]).end + (k - j) <= (#[trigger] stack[j]).end
    &&& !done ==> end + st <= v.n
    &&& forall|i: int, j: int|
        0 <= i < j < len && is_leaf(#[trigger] v.nodes[i]) && is_leaf(#[trigger] v.nodes[j])
            ==> v.ranges[i].1 <= v.ranges[j].0
    &&& forall|x: int| 0 <= x < cursor ==> #[trigger] covered_by_leaf(v.nodes, v.ranges, x)
    &&& 0 <= leaf_total(v.nodes) <= cursor
    &&& !done ==> len == 2 * leaf_total(v.nodes) + st
    &&& done && v.n > 0 ==> len == 2 * leaf_total(v.nodes) - 1
}

impl BvhLayout {
    /// The layout is consistent: what `layout_law` states of a finished
    /// hierarchy holds of the nodes laid out so far.
    pub closed spec fn wf(&self) -> bool {
        state_wf(self@, self.stack@, self.start as int, self.end as int, self.done)
    }

    /// The range of primitives waiting for a decision, if any.
    pub closed spec fn pending(&self) -> Option<(u32, u32)> {
        if self.done {
            None
        } else {
            Some((self.start, self.end))
        }
    }

    /// The nodes, in depth-first order.
    pub fn into_nodes(self) -> (nodes: Vec<LayoutNode>)
        ensures
            nodes@ == self@.nodes,
    {
        self.nodes
    }
}

proof fn lemma_done_law(v: LayoutView, stack: Seq<Frame>, start: int, end: int)
    requires
        state_wf(v, stack, start, end, true),
    ensures
        layout_law(v),
{
    let len = v.nodes.len();
    assert forall|i: int| 0 <= i < len && !is_leaf(#[trigger] v.nodes[i]) implies {
        &&& v.nodes[i].axis <= 2
        &&& i + 1 < v.nodes[i].offset < len
        &&& v.ranges[i].0 < v.mids[i] < v.ranges[i].1
        &&& v.ranges[i + 1] == (v.ranges[i].0, v.mids[i])
        &&& v.ranges[v.nodes[i].offset as int] == (v.mids[i], v.ranges[i].1)
    } by {
        if v.nodes[i].offset == 0 {
            let k = choose|k: int| 0 <= k < stack.len() && (#[trigger] stack[k]).parent == i;
        }
    }
}

/// Starts the layout of a hierarchy over `n` primitives.
pub fn start_layout(n: u32) -> (r: (BvhLayout, LayoutStep))
    requires
        n <= 0x7FFF_FFFF,
    ensures
        r.0.wf(),
        r.0@.n == n,
        r.0@.nodes.len() == 0,
        r.0.pending() == step_range(r.1),
        n == 0 ==> r.1 == LayoutStep::Done && layout_law(r.0@),
        n > 0 ==> r.1 == (LayoutStep::Decide { start: 0, end: n }),
{
    let layout = BvhLayout {
        nodes: Vec::new(),
        stack: Vec::new(),
        start: 0,
        end: n,
        done: n == 0,
        n,
        ranges: Ghost(Seq::empty()),
        mids: Ghost(Seq::empty()),
    };
    proof {
        if n == 0 {
            lemma_done_law(layout@, layout.stack@, 0, n as int);
        }
    }
    if n == 0 {
        (layout, LayoutStep::Done)
    } else {
        (layout, LayoutStep::Decide { start: 0, end: n })
    }
}

spec fn leaf_node(s: u32, e: u32) -> LayoutNode {
    LayoutNode { offset: s, n_primitives: leaf_count_of(s as int, e as int) as u16, axis: 0 }
}

spec fn with_leaf(v: LayoutView, s: u32, e: u32) -> LayoutView {
    LayoutView {
        nodes: v.nodes.push(leaf_node(s, e)),
        ranges: v.ranges.push((s as int, e as int)),
        mids: v.mids.push(0int),
        n: v.n,
    }
}

spec fn with_split(v: LayoutView, s: u32, e: u32, axis: u8, mid: u32) -> LayoutView {
    LayoutView {
        nodes: v.nodes.push(LayoutNode { offset: 0, n_primitives: 0, axis }),
        ranges: v.ranges.push((s as int, e as int)),
        mids: v.mids.push(mid as int),
        n: v.n,
    }
}

proof fn lemma_split_wf(v: LayoutView, stack: Seq<Frame>, s: u32, e: u32, axis: u8, mid: u32)
    requires
        state_wf(v, stack, s as int, e as int, false),
        s < mid < e,
        axis <= 2,
    ensures
        v.nodes.len() < u32::MAX,
        state_wf(
            with_split(v, s, e, axis, mid),
            stack.push(Frame { parent: v.nodes.len() as u32, mid, end: e }),
            s as int,
            mid as int,
            false,
        ),
{
    lemma_leaf_total_bounds(v.nodes);
    let x = LayoutNode { offset: 0, n_primitives: 0, axis };
    lemma_leaf_total_push(v.nodes, x);
    let v1 = with_split(v, s, e, axis, mid);
    let len = v.nodes.len();
    let st1 = stack.push(Frame { parent: len as u32, mid, end: e });
    assert forall|i: int| 0 <= i < len + 1 && !is_leaf(#[trigger] v1.nodes[i])
        && v1.nodes[i].offset == 0 implies exists|k: int|
        0 <= k < st1.len() && (#[trigger] st1[k]).parent == i by {
        if i == len {
            assert(st1[stack.len() as int].parent == i);
        } else {
            let k = choose|k: int| 0 <= k < stack.len() && (#[trigger] stack[k]).parent == i;
            assert(st1[k].parent == i);
        }
    }
    assert forall|x: int| 0 <= x < s implies covered_by_leaf(v1.nodes, v1.ranges, x) by {
        assert(covered_by_leaf(v.nodes, v.ranges, x));
        let i = choose|i: int|
            0 <= i < len && is_leaf(#[trigger] v.nodes[i]) && v.ranges[i].0 <= x < v.ranges[i].1;
        assert(v1.nodes[i] == v.nodes[i]);
    }
    assert forall|j: int, k: int| 0 <= j < k < st1.len() implies (#[trigger] st1[k]).end + (k - j)
        <= (#[trigger] st1[j]).end by {
        if k == stack.len() {
            if j < stack.len() - 1 {
                assert(stack[stack.len() - 1].end + (stack.len() - 1 - j) <= stack[j].end);
            }
        }
    }
}

proof fn lemma_leaf_done(v: LayoutView, stack: Seq<Frame>, s: u32, e: u32)
    requires
        state_wf(v, stack, s as int, e as int, false),
        stack.len() == 0,
    ensures
        state_wf(with_leaf(v, s, e), stack, s as int, e as int, true),
{
    lemma_leaf_total_bounds(v.nodes);
    lemma_leaf_total_push(v.nodes, leaf_node(s, e));
    let v1 = with_leaf(v, s, e);
    let len = v.nodes.len();
    assert forall|x: int| 0 <= x < v.n implies covered_by_leaf(v1.nodes, v1.ranges, x) by {
        if x < s {
            assert(covered_by_leaf(v.nodes, v.ranges, x));
            let i = choose|i: int|
                0 <= i < len && is_leaf(#[trigger] v.nodes[i]) && v.ranges[i].0 <= x < v.ranges[i].1;
            assert(v1.nodes[i] == v.nodes[i]);
        } else {
            assert(is_leaf(v1.nodes[len as int]));
        }
    }
}

#[verifier::rlimit(80)]
#[verifier::spinoff_prover]
proof fn lemma_leaf_pop(v: LayoutView, stack: Seq<Frame>, s: u32, e: u32)
    requires
        state_wf(v, stack, s as int, e as int, false),
        stack.len() > 0,
    ensures
        v.nodes.len() + 1 <= u32::MAX,
        ({
            let f = stack.last();
            let v1 = with_leaf(v, s, e);
            let p = f.parent as int;
            let v2 = LayoutView {
                nodes: v1.nodes.update(p, LayoutNode { offset: (v.nodes.len() + 1) as u32, ..v1.nodes[p] }),
                ..v1
            };
            state_wf(v2, stack.drop_last(), f.mid as int, f.end as int, false)
        }),
{
    lemma_leaf_total_bounds(v.nodes);
    lemma_leaf_total_push(v.nodes, leaf_node(s, e));
    let len = v.nodes.len();
    let f = stack.last();
    let v1 = with_leaf(v, s, e);
    let p = f.parent as int;
    let newp = LayoutNode { offset: (len + 1) as u32, ..v1.nodes[p] };
    lemma_leaf_total_update(v1.nodes, p, newp);
    let v2 = LayoutView { nodes: v1.nodes.update(p, newp), ..v1 };
    let st2 = stack.drop_last();
    assert(stack[stack.len() - 1] == f);
    assert forall|i: int| 0 <= i < len + 1 && !is_leaf(#[trigger] v2.nodes[i])
        && v2.nodes[i].offset == 0 implies exists|k: int|
        0 <= k < st2.len() && (#[trigger] st2[k]).parent == i by {
        assert(i != p);
        assert(v2.nodes[i] == v.nodes[i]);
        let k = choose|k: int| 0 <= k < stack.len() && (#[trigger] stack[k]).parent == i;
        assert(k != stack.len() - 1);
        assert(st2[k] == stack[k]);
    }
    assert forall|x: int| 0 <= x < f.mid implies covered_by_leaf(v2.nodes, v2.ranges, x) by {
        if x < s {
            assert(covered_by_leaf(v.nodes, v.ranges, x));
            let i = choose|i: int|
                0 <= i < len && is_leaf(#[trigger] v.nodes[i]) && v.ranges[i].0 <= x < v.ranges[i].1;
            assert(v2.nodes[i] == v.nodes[i] || i == p);
        } else {
            assert(v2.nodes[len as int] == leaf_node(s, e));
        }
    }
}

/// Lays out the pending range as `choice` says: appends its node, then
/// moves on to the next range in depth-first order. A leaf stores the range
/// start and its length (saturated at the largest `u16`); an interior node
/// stores its axis, and once its left subtree is complete, the index of its
/// right child in `offset`.
pub fn next_layout_step(layout: &mut BvhLayout, choice: SplitChoice) -> (step: LayoutStep)
    requires
        old(layout).wf(),
        old(layout).pending() matches Some((s, e)) && choice_fits(choice, s, e),
    ensures
        final(layout).wf(),
        final(layout).pending() == step_range(step),
        final(layout)@.n == old(layout)@.n,
        ({
            let (s, e) = old(layout).pending().unwrap();
            let len = old(layout)@.nodes.len();
            &&& final(layout)@.nodes.len() == len + 1
            &&& final(layout)@.ranges == old(layout)@.ranges.push((s as int, e as int))
            &&& final(layout)@.nodes[len as int] == match choice {
                SplitChoice::Leaf => LayoutNode {
                    offset: s,
                    n_primitives: leaf_count_of(s as int, e as int) as u16,
                    axis: 0,
                },
                SplitChoice::Split { axis, mid } => LayoutNode { offset: 0, n_primitives: 0, axis },
            }
            &&& choice matches SplitChoice::Split { mid, .. } ==> final(layout)@.mids[len as int]
                == mid && step == (LayoutStep::Decide { start: s, end: mid })
            &&& forall|i: int|
                0 <= i < len ==> final(layout)@.mids[i] == old(layout)@.mids[i]
                    && (#[trigger] final(layout)@.nodes[i]).n_primitives
                    == old(layout)@.nodes[i].n_primitives && final(layout)@.nodes[i].axis
                    == old(layout)@.nodes[i].axis
            &&& forall|i: int|
                0 <= i < len && (#[trigger] final(layout)@.nodes[i]).offset
                    != old(layout)@.nodes[i].offset ==> {
                    &&& choice is Leaf
                    &&& !is_leaf(old(layout)@.nodes[i])
                    &&& old(layout)@.nodes[i].offset == 0
                    &&& final(layout)@.nodes[i].offset == len + 1
                    &&& step == (LayoutStep::Decide {
                        start: old(layout)@.mids[i] as u32,
                        end: old(layout)@.ranges[i].1 as u32,
                    })
                }
        }),
        step is Done ==> layout_law(final(layout)@),
{
    let ghost v0 = layout@;
    let ghost st0 = layout.stack@;
    let s = layout.start;
    let e = layout.end;
    let idx = layout.nodes.len();
    proof {
        lemma_leaf_total_bounds(v0.nodes);
    }
    match choice {
        SplitChoice::Split { axis, mid } => {
            layout.nodes.push(LayoutNode { offset: 0, n_primitives: 0, axis });
            layout.ranges = Ghost(layout.ranges@.push((s as int, e as int)));
            layout.mids = Ghost(layout.mids@.push(mid as int));
            layout.stack.push(Frame { parent: idx as u32, mid, end: e });
            layout.end = mid;
            proof {
                lemma_split_wf(v0, st0, s, e, axis, mid);
            }
            LayoutStep::Decide { start: s, end: mid }
        },
        SplitChoice::Leaf => {
            let count = e - s;
            let np: u16 = if count <= 0xFFFF {
                count as u16
            } else {
                0xFFFF
            };
            layout.nodes.push(LayoutNode { offset: s, n_primitives: np, axis: 0 });
            layout.ranges = Ghost(layout.ranges@.push((s as int, e as int)));
            layout.mids = Ghost(layout.mids@.push(0int));
            let ghost v1 = layout@;
            match layout.stack.pop() {
                None => {
                    layout.done = true;
                    proof {
                        lemma_leaf_done(v0, st0, s, e);
                        lemma_done_law(layout@, layout.stack@, s as int, e as int);
                    }
                    LayoutStep::Done
                },
                Some(f) => {
                    let right = layout.nodes.len() as u32;
                    let p = f.parent as usize;
                    let old_node = layout.nodes[p];
                    layout.nodes.set(p, LayoutNode { offset: right, ..old_node });
                    layout.start = f.mid;
                    layout.end = f.end;
                    proof {
                        lemma_leaf_pop(v0, st0, s, e);
                    }
                    LayoutStep::Decide { start: f.mid, end: f.end }
                },
            }
        },
    }
}

} // verus!
