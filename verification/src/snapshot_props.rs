//! The round-trip law of full-state synchronization: materializing the
//! snapshot a view emits reproduces that view's excerpt list, selection
//! set, and scroll anchor.

use vstd::prelude::*;

use crate::delta::{decoded_pending, decoded_scroll, decoded_selection_list};
use crate::document::{
    anchor_consistent, buffer_ids_unique, buffer_index, excerpts_wf, has_buffer, has_excerpt,
    Anchor, BufferReplica, Excerpt,
};
use crate::editor::{with_unset_goal, Editor, Selection};
use crate::snapshot::{
    materialized_doc_excerpts, materialized_excerpts, whole_buffer_excerpt, ViewSnapshot,
};
use crate::wire::{
    decoded_anchor, decoded_excerpt, decoded_selection, wire_anchor_of, wire_excerpt_of,
    wire_selection_of,
};

verus! {

/// Encoding one excerpt for the wire loses nothing: decoding gives the
/// excerpt back.
pub proof fn lemma_wire_excerpt_round_trip(e: Excerpt)
    ensures
        decoded_excerpt(wire_excerpt_of(e)) == Some(e),
{
}

/// Materializing the encoded excerpt list of a well-formed document gives
/// the excerpt list back, identifiers, buffers and ranges included.
pub proof fn lemma_excerpts_round_trip(ex: Seq<Excerpt>)
    requires
        excerpts_wf(ex),
    ensures
        materialized_excerpts(ex.map_values(|e: Excerpt| wire_excerpt_of(e))) == ex,
    decreases ex.len(),
{
    let ws = ex.map_values(|e: Excerpt| wire_excerpt_of(e));
    if ex.len() == 0 {
        assert(materialized_excerpts(ws) =~= ex);
    } else {
        assert(excerpts_wf(ex.drop_last())) by {
            assert(forall|i: int|
                0 <= i < ex.drop_last().len() ==> ex.drop_last()[i] == (#[trigger] ex[i]));
        }
        lemma_excerpts_round_trip(ex.drop_last());
        assert(ws.drop_last() =~= ex.drop_last().map_values(|e: Excerpt| wire_excerpt_of(e)));
        assert(ws.last() == wire_excerpt_of(ex.last()));
        lemma_wire_excerpt_round_trip(ex.last());
        let rest = materialized_excerpts(ws.drop_last());
        assert(rest == ex.drop_last());
        assert(ex.last().id.id != crate::document::ROOT_EXCERPT_ID) by {
            assert(ex[ex.len() - 1].id.id != crate::document::ROOT_EXCERPT_ID);
        }
        assert(!has_excerpt(rest, ex.last().id.id)) by {
            if has_excerpt(rest, ex.last().id.id) {
                let i = choose|i: int|
                    0 <= i < rest.len() && (#[trigger] rest[i]).id.id == ex.last().id.id;
                assert(ex[i].id.id == ex[ex.len() - 1].id.id);
            }
        }
        assert(materialized_excerpts(ws) == rest.push(ex.last()));
        assert(rest.push(ex.last()) =~= ex);
    }
}

/// Encoding an anchor and decoding it against the same document gives the
/// anchor back, provided its cached buffer identifier agrees with the
/// document — as it does for any anchor the document handed out.
pub proof fn lemma_anchor_round_trip(ex: Seq<Excerpt>, a: Anchor)
    requires
        anchor_consistent(ex, a),
    ensures
        decoded_anchor(ex, wire_anchor_of(a)) == Some(a),
{
}

/// Encoding one selection and decoding it against the same document gives
/// the selection back, with only its transient navigation goal cleared.
pub proof fn lemma_selection_round_trip(ex: Seq<Excerpt>, s: Selection)
    requires
        anchor_consistent(ex, s.start),
        anchor_consistent(ex, s.end),
    ensures
        decoded_selection(ex, wire_selection_of(s)) == Some(with_unset_goal(s)),
{
    lemma_anchor_round_trip(ex, s.start);
    lemma_anchor_round_trip(ex, s.end);
}

/// Encoding a whole selection list and decoding it back drops nothing and
/// keeps the order: the result is the original list with navigation goals
/// cleared.
pub proof fn lemma_selection_list_round_trip(ex: Seq<Excerpt>, sels: Seq<Selection>)
    requires
        forall|i: int|
            0 <= i < sels.len() ==> anchor_consistent(ex, (#[trigger] sels[i]).start)
                && anchor_consistent(ex, sels[i].end),
    ensures
        decoded_selection_list(ex, sels.map_values(|s: Selection| wire_selection_of(s)))
            == sels.map_values(|s: Selection| with_unset_goal(s)),
    decreases sels.len(),
{
    let ws = sels.map_values(|s: Selection| wire_selection_of(s));
    let out = sels.map_values(|s: Selection| with_unset_goal(s));
    if sels.len() == 0 {
        assert(decoded_selection_list(ex, ws) =~= out);
    } else {
        assert(forall|i: int|
            0 <= i < sels.drop_last().len() ==> sels.drop_last()[i] == (#[trigger] sels[i]));
        lemma_selection_list_round_trip(ex, sels.drop_last());
        assert(ws.drop_last() =~= sels.drop_last().map_values(
            |s: Selection| wire_selection_of(s),
        ));
        assert(ws.last() == wire_selection_of(sels.last()));
        lemma_selection_round_trip(ex, sels.last());
        assert(decoded_selection_list(ex, ws) == sels.drop_last().map_values(
            |s: Selection| with_unset_goal(s),
        ).push(with_unset_goal(sels.last())));
        assert(sels.drop_last().map_values(|s: Selection| with_unset_goal(s)).push(
            with_unset_goal(sels.last()),
        ) =~= out);
    }
}

/// Round trip of a full view description: materializing the snapshot a
/// view emits — against a buffer pool that holds, for a singleton view,
/// the same replica the view wraps — reproduces the view's excerpt list
/// exactly, and decoding the embedded state against it reproduces the
/// selection set up to cleared navigation goals, the pending selection,
/// and the scroll anchor.
pub proof fn lemma_snapshot_round_trip(
    view: Editor,
    s: ViewSnapshot,
    pool: Seq<BufferReplica>,
)
    requires
        view.doc.wf(),
        // what `to_state_proto` emits for `view`:
        s.singleton == view.doc.singleton,
        s.excerpts@ == view.doc.excerpts@.map_values(|e: Excerpt| wire_excerpt_of(e)),
        s.selections@ == view.selections@.map_values(|x: Selection| wire_selection_of(x)),
        s.pending_selection == match view.pending_selection {
            Some(p) => Some(wire_selection_of(p)),
            None => None,
        },
        s.scroll_top_anchor == Some(wire_anchor_of(view.scroll.anchor)),
        // the consumer's pool, with the same replica behind a singleton:
        buffer_ids_unique(pool),
        view.doc.singleton ==> exists|b: BufferReplica|
            #[trigger] pool.contains(b) && view.doc.excerpts@ == seq![whole_buffer_excerpt(b)],
        // the anchors the view hands out agree with its own document:
        forall|i: int|
            0 <= i < view.selections@.len() ==> anchor_consistent(
                view.doc.excerpts@,
                (#[trigger] view.selections@[i]).start,
            ) && anchor_consistent(view.doc.excerpts@, view.selections@[i].end),
        match view.pending_selection {
            Some(p) => anchor_consistent(view.doc.excerpts@, p.start) && anchor_consistent(
                view.doc.excerpts@,
                p.end,
            ),
            None => true,
        },
        anchor_consistent(view.doc.excerpts@, view.scroll.anchor),
    ensures
        materialized_doc_excerpts(s, pool) == view.doc.excerpts@,
        decoded_selection_list(view.doc.excerpts@, s.selections@) == view.selections@.map_values(
            |x: Selection| with_unset_goal(x),
        ),
        decoded_pending(view.doc.excerpts@, s.pending_selection) == match view.pending_selection {
            Some(p) => Some(with_unset_goal(p)),
            None => None,
        },
        decoded_scroll(view.doc.excerpts@, s.scroll_top_anchor) == Some(view.scroll.anchor),
{
    let ex = view.doc.excerpts@;
    if view.doc.singleton {
        let b = choose|b: BufferReplica|
            #[trigger] pool.contains(b) && view.doc.excerpts@ == seq![whole_buffer_excerpt(b)];
        assert(ex.len() == 1);
        assert(s.excerpts@.len() == 1);
        assert(s.excerpts@[0] == wire_excerpt_of(ex[0]));
        assert(s.excerpts@[0].buffer_id == b.id);
        assert(has_buffer(pool, b.id)) by {
            let i = choose|i: int| 0 <= i < pool.len() && pool[i] == b;
            assert(pool[i].id == b.id);
        }
        let bi = buffer_index(pool, b.id);
        assert(0 <= bi < pool.len() && pool[bi].id == b.id);
        assert(pool[bi] == b) by {
            let i = choose|i: int| 0 <= i < pool.len() && pool[i] == b;
            if i != bi {
                assert(pool[i].id == pool[bi].id);
            }
        }
        assert(materialized_doc_excerpts(s, pool) == seq![whole_buffer_excerpt(b)]);
        assert(seq![whole_buffer_excerpt(b)] =~= ex);
    } else {
        lemma_excerpts_round_trip(ex);
    }
    lemma_selection_list_round_trip(ex, view.selections@);
    match view.pending_selection {
        Some(p) => {
            lemma_selection_round_trip(ex, p);
        },
        None => {},
    }
    lemma_anchor_round_trip(ex, view.scroll.anchor);
}

} // verus!
