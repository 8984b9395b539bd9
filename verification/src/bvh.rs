use vstd::prelude::*;
use vstd::arithmetic::power::lemma_pow0;
use vstd::arithmetic::power2::{pow2, lemma_pow2_unfold};

verus! {

/// The consecutive object positions `start, start + 1, ..., end - 1`.
pub open spec fn positions(start: int, end: int) -> Seq<usize> {
    Seq::new((end - start) as nat, |i: int| (start + i) as usize)
}

/// The shape of a bounding volume hierarchy over the positions of a list of
/// objects.
///
/// A `Leaf` holds one object (both children at the same position) or two
/// neighbouring objects. A `Split` covers the positions `start..end`; before its
/// children are built, those positions of the list are sorted along the longest
/// axis of their common bounding box, and the first half goes left.
pub enum BvhLayout {
    Leaf { first: usize, second: usize },
    Split { start: usize, end: usize, left: Box<BvhLayout>, right: Box<BvhLayout> },
}

impl BvhLayout {
    /// The layout over the positions `start..end`: one position sits in a leaf
    /// alone, two share a leaf, and longer spans are split after their first
    /// `span / 2` positions.
    pub open spec fn span_layout(start: nat, end: nat) -> BvhLayout
        decreases end - start,
    {
        if end - start <= 1 {
            BvhLayout::Leaf { first: start as usize, second: start as usize }
        } else if end - start == 2 {
            BvhLayout::Leaf { first: start as usize, second: (start + 1) as usize }
        } else {
            let mid = (start + (end - start) / 2) as nat;
            BvhLayout::Split {
                start: start as usize,
                end: end as usize,
                left: Box::new(Self::span_layout(start, mid)),
                right: Box::new(Self::span_layout(mid, end)),
            }
        }
    }

    /// The positions of the objects in the leaves, from left to right, each leaf
    /// counted once per object it holds.
    pub open spec fn objects(self) -> Seq<usize>
        decreases self,
    {
        match self {
            BvhLayout::Leaf { first, second } => {
                if first == second {
                    seq![first]
                } else {
                    seq![first, second]
                }
            },
            BvhLayout::Split { left, right, .. } => left.objects() + right.objects(),
        }
    }

    /// Every leaf holds one object or two neighbouring ones, and every split halves
    /// a span of at least three positions: its first `span / 2` positions go left,
    /// the rest go right.
    pub open spec fn well_formed(self) -> bool
        decreases self,
    {
        match self {
            BvhLayout::Leaf { first, second } => second == first || second == first + 1,
            BvhLayout::Split { start, end, left, right } => {
                let mid = start + (end - start) / 2;
                &&& end - start >= 3
                &&& left.well_formed()
                &&& right.well_formed()
                &&& left.objects() == positions(start as int, mid)
                &&& right.objects() == positions(mid, end as int)
            },
        }
    }

    /// The number of levels of nodes from the root down to the deepest leaf.
    pub open spec fn depth(self) -> nat
        decreases self,
    {
        match self {
            BvhLayout::Leaf { .. } => 1,
            BvhLayout::Split { left, right, .. } => {
                let l = left.depth();
                let r = right.depth();
                1 + if l >= r {
                    l
                } else {
                    r
                }
            },
        }
    }

    /// The layout of the hierarchy over the positions `start..end`: one object
    /// sits in a leaf alone, two objects share a leaf, and more are split in half.
    pub fn new_span(start: usize, end: usize) -> (layout: BvhLayout)
        requires
            start < end,
        ensures
            layout == Self::span_layout(start as nat, end as nat),
            layout.well_formed(),
            layout.objects() == positions(start as int, end as int),
            end - start == 1 ==> layout == (BvhLayout::Leaf { first: start, second: start }),
            end - start == 2 ==> layout == (BvhLayout::Leaf { first: start, second: (start + 1) as usize }),
            end - start == 1 ==> layout.depth() == 1,
            end - start >= 2 ==> pow2((layout.depth() - 1) as nat) < end - start,
            end - start >= 3 ==> (layout matches BvhLayout::Split { start: s, end: e, .. } && s == start
                && e == end),
        decreases end - start,
    {
        let span = end - start;
        proof {
            lemma_pow0(2);
        }
        if span == 1 {
            let layout = BvhLayout::Leaf { first: start, second: start };
            assert(layout.objects() =~= positions(start as int, end as int));
            layout
        } else if span == 2 {
            let layout = BvhLayout::Leaf { first: start, second: start + 1 };
            assert(layout.objects() =~= positions(start as int, end as int));
            layout
        } else {
            let mid = start + span / 2;
            let left = Self::new_span(start, mid);
            let right = Self::new_span(mid, end);
            assert(left.objects() + right.objects() =~= positions(start as int, end as int));
            let layout = BvhLayout::Split { start, end, left: Box::new(left), right: Box::new(right) };
            proof {
                let d = layout.depth();
                let (deeper, size) = if left.depth() >= right.depth() {
                    (left.depth(), mid - start)
                } else {
                    (right.depth(), end - mid)
                };
                assert(d == 1 + deeper);
                lemma_pow2_unfold(deeper);
                assert(pow2((deeper - 1) as nat) <= size);
                assert(size >= 2 ==> pow2((deeper - 1) as nat) < size);
            }
            layout
        }
    }

    /// The layout of the hierarchy over all `num_objects` objects of a list: every
    /// object sits in exactly one leaf, in list order, and the hierarchy is
    /// balanced.
    pub fn new(num_objects: usize) -> (layout: BvhLayout)
        requires
            num_objects > 0,
        ensures
            layout == Self::span_layout(0, num_objects as nat),
            layout.well_formed(),
            layout.objects() == positions(0, num_objects as int),
            num_objects == 1 ==> layout.depth() == 1,
            num_objects >= 2 ==> pow2((layout.depth() - 1) as nat) < num_objects,
    {
        Self::new_span(0, num_objects)
    }
}


/// The leaves of the layout over `start..end` hold each position of the span
/// once, in order.
pub proof fn lemma_span_layout_objects(start: nat, end: nat)
    requires
        start < end <= usize::MAX,
    ensures
        BvhLayout::span_layout(start, end).objects() =~= positions(start as int, end as int),
    decreases end - start,
{
    if end - start >= 3 {
        let mid = (start + (end - start) / 2) as nat;
        lemma_span_layout_objects(start, mid);
        lemma_span_layout_objects(mid, end);
        assert(BvhLayout::span_layout(start, end).objects() == BvhLayout::span_layout(start, mid).objects()
            + BvhLayout::span_layout(mid, end).objects());
    } else if end - start == 2 {
        assert(BvhLayout::span_layout(start, end).objects() == seq![start as usize, (start + 1) as usize]);
    } else {
        assert(BvhLayout::span_layout(start, end).objects() == seq![start as usize]);
    }
}

/// A span of three or more objects is split so that the left subtree holds the
/// first half of the span, rounded down, and the right subtree the rest.
pub proof fn lemma_span_layout_halves(start: nat, end: nat)
    requires
        start + 3 <= end <= usize::MAX,
    ensures
        BvhLayout::span_layout(start, end) matches BvhLayout::Split { left, right, .. } && left.objects()
            =~= positions(start as int, start + (end - start) / 2) && right.objects() =~= positions(
            start + (end - start) / 2,
            end as int,
        ),
{
    let mid = (start + (end - start) / 2) as nat;
    lemma_span_layout_objects(start, mid);
    lemma_span_layout_objects(mid, end);
}

} // verus!
