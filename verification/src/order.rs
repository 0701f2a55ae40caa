//! The total order on anchors within one document snapshot: primary key is
//! the position of the anchor's excerpt in the excerpt sequence, secondary
//! key is the offset inside that excerpt's buffer. Two anchors in the same
//! excerpt at the same offset are equal regardless of other metadata.

use vstd::prelude::*;

use crate::document::{excerpt_index, excerpt_ids_unique, has_excerpt, Anchor, Excerpt};

verus! {

/// The outcome of comparing two anchors.
#[derive(Clone, Copy, PartialEq, Eq, Structural, Debug)]
pub enum AnchorOrdering {
    Less,
    Equal,
    Greater,
}

impl AnchorOrdering {
    /// True for `Less`.
    pub fn is_lt(&self) -> (r: bool)
        ensures
            r == (*self == AnchorOrdering::Less),
    {
        match self {
            AnchorOrdering::Less => true,
            _ => false,
        }
    }

    /// True for `Greater`.
    pub fn is_gt(&self) -> (r: bool)
        ensures
            r == (*self == AnchorOrdering::Greater),
    {
        match self {
            AnchorOrdering::Greater => true,
            _ => false,
        }
    }

    /// True for `Equal`.
    pub fn is_eq(&self) -> (r: bool)
        ensures
            r == (*self == AnchorOrdering::Equal),
    {
        match self {
            AnchorOrdering::Equal => true,
            _ => false,
        }
    }
}

/// How `a` compares to `b` within the excerpt sequence `s`: by the position
/// of their excerpts, then by offset. A pure function of its arguments, so
/// that sorting, binary search, and well-formedness checks all agree.
pub open spec fn anchor_cmp_spec(s: Seq<Excerpt>, a: Anchor, b: Anchor) -> AnchorOrdering {
    let ia = excerpt_index(s, a.excerpt_id.id);
    let ib = excerpt_index(s, b.excerpt_id.id);
    if ia < ib {
        AnchorOrdering::Less
    } else if ib < ia {
        AnchorOrdering::Greater
    } else if a.text_anchor.offset < b.text_anchor.offset {
        AnchorOrdering::Less
    } else if b.text_anchor.offset < a.text_anchor.offset {
        AnchorOrdering::Greater
    } else {
        AnchorOrdering::Equal
    }
}

/// Compares two anchors within the excerpt sequence `excerpts`.
pub fn anchor_cmp(excerpts: &Vec<Excerpt>, a: &Anchor, b: &Anchor) -> (r: AnchorOrdering)
    requires
        excerpt_ids_unique(excerpts@),
        has_excerpt(excerpts@, a.excerpt_id.id),
        has_excerpt(excerpts@, b.excerpt_id.id),
    ensures
        r == anchor_cmp_spec(excerpts@, *a, *b),
{
    let ia = position_of(excerpts, a.excerpt_id.id);
    let ib = position_of(excerpts, b.excerpt_id.id);
    if ia < ib {
        AnchorOrdering::Less
    } else if ib < ia {
        AnchorOrdering::Greater
    } else if a.text_anchor.offset < b.text_anchor.offset {
        AnchorOrdering::Less
    } else if b.text_anchor.offset < a.text_anchor.offset {
        AnchorOrdering::Greater
    } else {
        AnchorOrdering::Equal
    }
}

/// The position of the excerpt carrying `id`, for an `id` known to be
/// present.
fn position_of(excerpts: &Vec<Excerpt>, id: u64) -> (r: usize)
    requires
        excerpt_ids_unique(excerpts@),
        has_excerpt(excerpts@, id),
    ensures
        r == excerpt_index(excerpts@, id),
        r < excerpts@.len(),
        excerpts@[r as int].id.id == id,
{
    let n = excerpts.len();
    let mut i: usize = 0;
    while i < n
        invariant
            n == excerpts@.len(),
            i <= n,
            excerpt_ids_unique(excerpts@),
            has_excerpt(excerpts@, id),
            forall|j: int| 0 <= j < i ==> (#[trigger] excerpts@[j]).id.id != id,
        decreases n - i,
    {
        if excerpts[i].id.id == id {
            proof {
                let w = excerpt_index(excerpts@, id);
                assert(0 <= w < excerpts@.len() && excerpts@[w].id.id == id);
            }
            return i;
        }
        i += 1;
    }
    proof {
        let w = excerpt_index(excerpts@, id);
        assert(0 <= w < excerpts@.len() && excerpts@[w].id.id == id);
    }
    unreached()
}

/// The comparison never depends on hidden state: anchors in distinct
/// excerpts order by excerpt position, anchors in one excerpt by offset, and
/// equality means exactly "same excerpt, same offset" — other anchor
/// metadata never matters.
pub proof fn lemma_anchor_order_positional(s: Seq<Excerpt>, a: Anchor, b: Anchor)
    requires
        excerpt_ids_unique(s),
        has_excerpt(s, a.excerpt_id.id),
        has_excerpt(s, b.excerpt_id.id),
    ensures
        anchor_cmp_spec(s, a, b) == AnchorOrdering::Less <==> (excerpt_index(s, a.excerpt_id.id)
            < excerpt_index(s, b.excerpt_id.id) || (a.excerpt_id == b.excerpt_id
            && a.text_anchor.offset < b.text_anchor.offset)),
        anchor_cmp_spec(s, a, b) == AnchorOrdering::Equal <==> (a.excerpt_id == b.excerpt_id
            && a.text_anchor.offset == b.text_anchor.offset),
{
    let ia = excerpt_index(s, a.excerpt_id.id);
    let ib = excerpt_index(s, b.excerpt_id.id);
    assert(0 <= ia < s.len() && s[ia].id.id == a.excerpt_id.id);
    assert(0 <= ib < s.len() && s[ib].id.id == b.excerpt_id.id);
    if ia == ib {
        assert(a.excerpt_id.id == b.excerpt_id.id);
    }
    if a.excerpt_id.id == b.excerpt_id.id {
        assert(ia == ib);
    }
}

/// Exchanging the two anchors reverses the outcome: the order is
/// antisymmetric, and equality is symmetric.
pub proof fn lemma_anchor_order_antisymmetric(s: Seq<Excerpt>, a: Anchor, b: Anchor)
    requires
        excerpt_ids_unique(s),
        has_excerpt(s, a.excerpt_id.id),
        has_excerpt(s, b.excerpt_id.id),
    ensures
        (anchor_cmp_spec(s, a, b) == AnchorOrdering::Less) <==> (anchor_cmp_spec(s, b, a)
            == AnchorOrdering::Greater),
        (anchor_cmp_spec(s, a, b) == AnchorOrdering::Equal) <==> (anchor_cmp_spec(s, b, a)
            == AnchorOrdering::Equal),
{
}

/// The order is transitive, across `Less` and `Equal` alike.
pub proof fn lemma_anchor_order_transitive(s: Seq<Excerpt>, a: Anchor, b: Anchor, c: Anchor)
    requires
        excerpt_ids_unique(s),
        has_excerpt(s, a.excerpt_id.id),
        has_excerpt(s, b.excerpt_id.id),
        has_excerpt(s, c.excerpt_id.id),
        anchor_cmp_spec(s, a, b) != AnchorOrdering::Greater,
        anchor_cmp_spec(s, b, c) != AnchorOrdering::Greater,
    ensures
        anchor_cmp_spec(s, a, c) != AnchorOrdering::Greater,
        anchor_cmp_spec(s, a, b) == AnchorOrdering::Less && anchor_cmp_spec(s, b, c)
            != AnchorOrdering::Greater ==> anchor_cmp_spec(s, a, c) == AnchorOrdering::Less,
        anchor_cmp_spec(s, a, b) != AnchorOrdering::Greater && anchor_cmp_spec(s, b, c)
            == AnchorOrdering::Less ==> anchor_cmp_spec(s, a, c) == AnchorOrdering::Less,
{
}

} // verus!
