//! The wire shapes exchanged between session participants, and the pure
//! translation between them and the document's own types. Optional fields
//! model a message whose sender omitted them; decoding an item with a
//! missing required field yields `None`, never an error.

use vstd::prelude::*;

use crate::document::{
    excerpt_ids_unique, has_excerpt, excerpt_index, Anchor, AnchorSpan, DocumentState, Excerpt,
    ExcerptId, ExcerptRange, TextAnchor,
};
use crate::editor::{Selection, SelectionGoal};

verus! {

/// One excerpt as described on the wire: identifiers plus four optional
/// position-anchor fields. The primary fields are meaningful only jointly.
#[derive(Clone, Copy, PartialEq, Eq, Structural, Debug)]
pub struct WireExcerpt {
    pub id: u64,
    pub buffer_id: u64,
    pub context_start: Option<TextAnchor>,
    pub context_end: Option<TextAnchor>,
    pub primary_start: Option<TextAnchor>,
    pub primary_end: Option<TextAnchor>,
}

/// One excerpt insertion in a delta. Only the first entry of a contiguous
/// run carries the excerpt it must be inserted after; later entries of the
/// run carry `None`, meaning "immediately after the previous entry of this
/// delta".
#[derive(Clone, Copy, PartialEq, Eq, Structural, Debug)]
pub struct WireInsertion {
    pub previous_excerpt_id: Option<u64>,
    pub excerpt: Option<WireExcerpt>,
}

/// A composite-document anchor on the wire.
#[derive(Clone, Copy, PartialEq, Eq, Structural, Debug)]
pub struct WireAnchor {
    pub excerpt_id: u64,
    pub anchor: Option<TextAnchor>,
}

/// One selection on the wire.
#[derive(Clone, Copy, PartialEq, Eq, Structural, Debug)]
pub struct WireSelection {
    pub id: u64,
    pub start: Option<WireAnchor>,
    pub end: Option<WireAnchor>,
    pub reversed: bool,
}

/// What `serialize_excerpt` produces for a given excerpt, stated at the
/// specification level.
pub open spec fn wire_excerpt_of(e: Excerpt) -> WireExcerpt {
    WireExcerpt {
        id: e.id.id,
        buffer_id: e.buffer_id,
        context_start: Some(e.range.context.start),
        context_end: Some(e.range.context.end),
        primary_start: match e.range.primary {
            Some(p) => Some(p.start),
            None => None,
        },
        primary_end: match e.range.primary {
            Some(p) => Some(p.end),
            None => None,
        },
    }
}

/// Describes one excerpt of the document for the wire.
pub fn serialize_excerpt(buffer_id: u64, id: &ExcerptId, range: &ExcerptRange) -> (r: Option<
    WireExcerpt,
>)
    ensures
        r == Some(
            wire_excerpt_of(Excerpt { id: *id, buffer_id, range: *range }),
        ),
{
    Some(
        WireExcerpt {
            id: id.to_wire(),
            buffer_id,
            context_start: Some(range.context.start),
            context_end: Some(range.context.end),
            primary_start: match range.primary {
                Some(p) => Some(p.start),
                None => None,
            },
            primary_end: match range.primary {
                Some(p) => Some(p.end),
                None => None,
            },
        },
    )
}

/// The range a wire excerpt decodes to: `None` when either context bound is
/// missing; the primary sub-range survives only when both of its bounds are
/// present.
pub open spec fn decoded_excerpt_range(e: WireExcerpt) -> Option<ExcerptRange> {
    match (e.context_start, e.context_end) {
        (Some(cs), Some(ce)) => Some(
            ExcerptRange {
                context: AnchorSpan { start: cs, end: ce },
                primary: match (e.primary_start, e.primary_end) {
                    (Some(ps), Some(pe)) => Some(AnchorSpan { start: ps, end: pe }),
                    _ => None,
                },
            },
        ),
        _ => None,
    }
}

/// The excerpt a wire excerpt decodes to, id and buffer included.
pub open spec fn decoded_excerpt(e: WireExcerpt) -> Option<Excerpt> {
    match decoded_excerpt_range(e) {
        Some(range) => Some(
            Excerpt { id: ExcerptId { id: e.id }, buffer_id: e.buffer_id, range },
        ),
        None => None,
    }
}

/// Reads an excerpt's range back from the wire, or `None` when the context
/// bounds cannot both be read.
pub fn deserialize_excerpt_range(excerpt: &WireExcerpt) -> (r: Option<ExcerptRange>)
    ensures
        r == decoded_excerpt_range(*excerpt),
{
    match (excerpt.context_start, excerpt.context_end) {
        (Some(cs), Some(ce)) => {
            let primary = match (excerpt.primary_start, excerpt.primary_end) {
                (Some(ps), Some(pe)) => Some(AnchorSpan { start: ps, end: pe }),
                _ => None,
            };
            Some(ExcerptRange { context: AnchorSpan { start: cs, end: ce }, primary })
        },
        _ => None,
    }
}

/// What `serialize_anchor` produces, stated at the specification level.
pub open spec fn wire_anchor_of(a: Anchor) -> WireAnchor {
    WireAnchor { excerpt_id: a.excerpt_id.id, anchor: Some(a.text_anchor) }
}

/// Describes a composite-document anchor for the wire.
pub fn serialize_anchor(anchor: &Anchor) -> (r: WireAnchor)
    ensures
        r == wire_anchor_of(*anchor),
{
    WireAnchor { excerpt_id: anchor.excerpt_id.to_wire(), anchor: Some(anchor.text_anchor) }
}

/// The anchor a wire anchor decodes to against a given excerpt sequence:
/// `None` when the buffer-relative part is missing. The decoded anchor
/// remembers which buffer its excerpt currently draws from, when the excerpt
/// is present locally.
pub open spec fn decoded_anchor(s: Seq<Excerpt>, a: WireAnchor) -> Option<Anchor> {
    match a.anchor {
        Some(text_anchor) => Some(
            Anchor {
                excerpt_id: ExcerptId { id: a.excerpt_id },
                text_anchor,
                buffer_id: if has_excerpt(s, a.excerpt_id) {
                    Some(s[excerpt_index(s, a.excerpt_id)].buffer_id)
                } else {
                    None
                },
            },
        ),
        None => None,
    }
}

/// Reads a composite-document anchor back from the wire.
pub fn deserialize_anchor(buffer: &DocumentState, anchor: &WireAnchor) -> (r: Option<Anchor>)
    requires
        excerpt_ids_unique(buffer.excerpts@),
    ensures
        r == decoded_anchor(buffer.excerpts@, *anchor),
{
    match anchor.anchor {
        Some(text_anchor) => Some(
            Anchor {
                excerpt_id: ExcerptId::from_wire(anchor.excerpt_id),
                text_anchor,
                buffer_id: buffer.buffer_id_for_excerpt(anchor.excerpt_id),
            },
        ),
        None => None,
    }
}

/// What `serialize_selection` produces, stated at the specification level.
pub open spec fn wire_selection_of(s: Selection) -> WireSelection {
    WireSelection {
        id: s.id,
        start: Some(wire_anchor_of(s.start)),
        end: Some(wire_anchor_of(s.end)),
        reversed: s.reversed,
    }
}

/// Describes one selection for the wire. The transient navigation goal never
/// travels.
pub fn serialize_selection(selection: &Selection) -> (r: WireSelection)
    ensures
        r == wire_selection_of(*selection),
{
    WireSelection {
        id: selection.id,
        start: Some(serialize_anchor(&selection.start)),
        end: Some(serialize_anchor(&selection.end)),
        reversed: selection.reversed,
    }
}

/// The selection a wire selection decodes to against a given excerpt
/// sequence: `None` when either endpoint is missing or fails to decode.
pub open spec fn decoded_selection(s: Seq<Excerpt>, w: WireSelection) -> Option<Selection> {
    match (w.start, w.end) {
        (Some(ws), Some(we)) => match (decoded_anchor(s, ws), decoded_anchor(s, we)) {
            (Some(start), Some(end)) => Some(
                Selection { id: w.id, start, end, reversed: w.reversed, goal: SelectionGoal::Unset },
            ),
            _ => None,
        },
        _ => None,
    }
}

/// Reads one selection back from the wire.
pub fn deserialize_selection(buffer: &DocumentState, selection: &WireSelection) -> (r: Option<
    Selection,
>)
    requires
        excerpt_ids_unique(buffer.excerpts@),
    ensures
        r == decoded_selection(buffer.excerpts@, *selection),
{
    match (selection.start, selection.end) {
        (Some(ws), Some(we)) => {
            match (deserialize_anchor(buffer, &ws), deserialize_anchor(buffer, &we)) {
                (Some(start), Some(end)) => Some(
                    Selection {
                        id: selection.id,
                        start,
                        end,
                        reversed: selection.reversed,
                        goal: SelectionGoal::Unset,
                    },
                ),
                _ => None,
            }
        },
        _ => None,
    }
}

} // verus!
