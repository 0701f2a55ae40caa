use view_sync::document::{
    Anchor, AnchorSpan, Excerpt, ExcerptId, ExcerptRange, TextAnchor,
};
use view_sync::order::{anchor_cmp, AnchorOrdering};
use view_sync::wire::{
    deserialize_excerpt_range, serialize_anchor, serialize_excerpt, WireExcerpt,
};

fn ta(offset: u64, version: u64) -> TextAnchor {
    TextAnchor { offset, version }
}

fn excerpt(id: u64, buffer_id: u64, start: u64, end: u64) -> Excerpt {
    Excerpt {
        id: ExcerptId { id },
        buffer_id,
        range: ExcerptRange {
            context: AnchorSpan { start: ta(start, 0), end: ta(end, 0) },
            primary: None,
        },
    }
}

fn excerpts() -> Vec<Excerpt> {
    // excerpt 7 is listed first, so it precedes excerpt 3 whatever the
    // identifier values say
    vec![excerpt(7, 10, 0, 10), excerpt(3, 20, 0, 10)]
}

fn anchor(excerpt_id: u64, offset: u64, version: u64, buffer_id: Option<u64>) -> Anchor {
    Anchor {
        excerpt_id: ExcerptId { id: excerpt_id },
        text_anchor: ta(offset, version),
        buffer_id,
    }
}

// The primary key is the excerpt's position in the sequence, not the
// identifier's numeric value.
#[test]
fn order_follows_excerpt_sequence() {
    let ex = excerpts();
    let a = anchor(7, 9, 0, None);
    let b = anchor(3, 0, 0, None);
    assert_eq!(anchor_cmp(&ex, &a, &b), AnchorOrdering::Less);
    assert_eq!(anchor_cmp(&ex, &b, &a), AnchorOrdering::Greater);
}

// Within one excerpt the offset decides.
#[test]
fn order_within_excerpt_by_offset() {
    let ex = excerpts();
    let a = anchor(3, 2, 0, None);
    let b = anchor(3, 5, 0, None);
    assert_eq!(anchor_cmp(&ex, &a, &b), AnchorOrdering::Less);
    assert_eq!(anchor_cmp(&ex, &b, &a), AnchorOrdering::Greater);
    assert_eq!(anchor_cmp(&ex, &a, &a), AnchorOrdering::Equal);
}

// Two anchors at the same excerpt and offset are equal regardless of any
// other metadata they carry.
#[test]
fn order_ignores_metadata() {
    let ex = excerpts();
    let a = anchor(7, 4, 11, Some(10));
    let b = anchor(7, 4, 99, None);
    assert_eq!(anchor_cmp(&ex, &a, &b), AnchorOrdering::Equal);
}

// The excerpt codec: a full excerpt survives the wire; decoding fails —
// yields nothing, not an error — when a context bound is missing, and the
// primary sub-range survives only when both of its bounds are present.
#[test]
fn excerpt_codec() {
    let mut e = excerpt(5, 10, 2, 8);
    e.range.primary = Some(AnchorSpan { start: ta(3, 0), end: ta(6, 0) });
    let w = serialize_excerpt(e.buffer_id, &e.id, &e.range).unwrap();
    assert_eq!(w.id, 5);
    assert_eq!(w.buffer_id, 10);
    assert_eq!(w.context_start, Some(ta(2, 0)));
    assert_eq!(w.primary_end, Some(ta(6, 0)));
    assert_eq!(deserialize_excerpt_range(&w), Some(e.range));

    let mut missing_context = w;
    missing_context.context_start = None;
    assert!(deserialize_excerpt_range(&missing_context).is_none());

    let mut half_primary = w;
    half_primary.primary_end = None;
    let decoded = deserialize_excerpt_range(&half_primary).unwrap();
    assert!(decoded.primary.is_none());
    assert_eq!(decoded.context, e.range.context);

    let bare = WireExcerpt {
        id: 1,
        buffer_id: 2,
        context_start: Some(ta(0, 0)),
        context_end: Some(ta(1, 0)),
        primary_start: None,
        primary_end: None,
    };
    let decoded = deserialize_excerpt_range(&bare).unwrap();
    assert!(decoded.primary.is_none());
}

// The anchor codec keeps the excerpt identifier and the buffer-relative
// part.
#[test]
fn anchor_codec() {
    let a = anchor(7, 4, 2, Some(10));
    let w = serialize_anchor(&a);
    assert_eq!(w.excerpt_id, 7);
    assert_eq!(w.anchor, Some(ta(4, 2)));
}
