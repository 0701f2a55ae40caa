use view_sync::delta::{
    add_event_to_delta, apply_delta_structure, apply_update, decode_delta_state,
    inserted_buffer_ids, remote_state_resolvable, ViewDelta,
};
use view_sync::document::{
    Anchor, AnchorSpan, BufferReplica, DocumentState, Excerpt, ExcerptId, ExcerptRange, TextAnchor,
};
use view_sync::editor::{Editor, Event, ScrollAnchorState, Selection, SelectionGoal, ViewId};
use view_sync::wire::{WireAnchor, WireExcerpt, WireInsertion, WireSelection};

fn ta(offset: u64, version: u64) -> TextAnchor {
    TextAnchor { offset, version }
}

fn excerpt(id: u64, buffer_id: u64, start: u64, end: u64) -> Excerpt {
    Excerpt {
        id: ExcerptId { id },
        buffer_id,
        range: ExcerptRange {
            context: AnchorSpan { start: ta(start, 0), end: ta(end, 0) },
            primary: None,
        },
    }
}

fn wire_excerpt(id: u64, buffer_id: u64, start: u64, end: u64) -> WireExcerpt {
    WireExcerpt {
        id,
        buffer_id,
        context_start: Some(ta(start, 0)),
        context_end: Some(ta(end, 0)),
        primary_start: None,
        primary_end: None,
    }
}

fn buffer(id: u64, version: u64, len: u64) -> BufferReplica {
    BufferReplica { id, version, len }
}

fn doc_two_excerpts() -> DocumentState {
    DocumentState {
        excerpts: vec![excerpt(1, 10, 0, 10), excerpt(2, 20, 0, 5)],
        singleton: false,
        title: String::from("shared"),
        buffers: vec![buffer(10, 0, 100), buffer(20, 0, 100)],
    }
}

fn anchor(excerpt_id: u64, offset: u64, buffer_id: Option<u64>) -> Anchor {
    Anchor { excerpt_id: ExcerptId { id: excerpt_id }, text_anchor: ta(offset, 0), buffer_id }
}

fn editor_with_doc(doc: DocumentState) -> Editor {
    Editor {
        remote_id: None,
        leader_peer: None,
        doc,
        selections: Vec::new(),
        pending_selection: None,
        scroll: ScrollAnchorState {
            anchor: anchor(1, 0, Some(10)),
            offset_x: 0,
            offset_y: 0,
        },
    }
}

fn ids_of(doc: &DocumentState) -> Vec<u64> {
    doc.excerpts.iter().map(|e| e.id.id).collect()
}

// A delta inserting one excerpt after excerpt 1 and deleting excerpt 2
// yields exactly the old first excerpt followed by the new one.
#[test]
fn insert_after_and_delete() {
    let mut doc = doc_two_excerpts();
    let delta = ViewDelta {
        inserted_excerpts: vec![WireInsertion {
            previous_excerpt_id: Some(1),
            excerpt: Some(wire_excerpt(3, 10, 10, 20)),
        }],
        deleted_excerpts: vec![2],
        scroll_top_anchor: None,
        scroll_x: 0,
        scroll_y: 0,
        selections: Vec::new(),
        pending_selection: None,
    };
    apply_delta_structure(&mut doc, &delta);
    assert_eq!(ids_of(&doc), vec![1, 3]);
    assert_eq!(doc.excerpts[1].buffer_id, 10);
    assert_eq!(doc.excerpts[1].range.context.end.offset, 20);
}

// Applying the same delta twice leaves the document exactly where one
// application left it, even though the delta deletes an excerpt it also
// references.
#[test]
fn apply_twice_is_apply_once() {
    let delta = ViewDelta {
        inserted_excerpts: vec![
            WireInsertion {
                previous_excerpt_id: Some(1),
                excerpt: Some(wire_excerpt(3, 10, 10, 20)),
            },
            WireInsertion { previous_excerpt_id: None, excerpt: Some(wire_excerpt(4, 10, 20, 30)) },
        ],
        deleted_excerpts: vec![2, 3],
        scroll_top_anchor: None,
        scroll_x: 0,
        scroll_y: 0,
        selections: Vec::new(),
        pending_selection: None,
    };
    let mut once = doc_two_excerpts();
    apply_delta_structure(&mut once, &delta);
    let mut twice = doc_two_excerpts();
    apply_delta_structure(&mut twice, &delta);
    apply_delta_structure(&mut twice, &delta);
    assert_eq!(ids_of(&once), vec![1, 4]);
    assert_eq!(ids_of(&twice), ids_of(&once));
}

// Listing the deleted identifiers in another order changes nothing.
#[test]
fn deletion_order_does_not_matter() {
    let make = |deleted: Vec<u64>| ViewDelta {
        inserted_excerpts: vec![WireInsertion {
            previous_excerpt_id: Some(0),
            excerpt: Some(wire_excerpt(3, 10, 0, 1)),
        }],
        deleted_excerpts: deleted,
        scroll_top_anchor: None,
        scroll_x: 0,
        scroll_y: 0,
        selections: Vec::new(),
        pending_selection: None,
    };
    let mut a = doc_two_excerpts();
    apply_delta_structure(&mut a, &make(vec![1, 2]));
    let mut b = doc_two_excerpts();
    apply_delta_structure(&mut b, &make(vec![2, 1]));
    assert_eq!(ids_of(&a), vec![3]);
    assert_eq!(ids_of(&a), ids_of(&b));
}

// An insertion whose predecessor is the reserved root identifier goes to
// the front of the document.
#[test]
fn insert_at_front() {
    let mut doc = doc_two_excerpts();
    let delta = ViewDelta {
        inserted_excerpts: vec![WireInsertion {
            previous_excerpt_id: Some(0),
            excerpt: Some(wire_excerpt(7, 20, 0, 2)),
        }],
        deleted_excerpts: Vec::new(),
        scroll_top_anchor: None,
        scroll_x: 0,
        scroll_y: 0,
        selections: Vec::new(),
        pending_selection: None,
    };
    apply_delta_structure(&mut doc, &delta);
    assert_eq!(ids_of(&doc), vec![7, 1, 2]);
}

// An insertion run whose buffer is not open locally, or whose predecessor
// does not exist, is dropped without failing the delta.
#[test]
fn unavailable_runs_are_dropped() {
    let mut doc = doc_two_excerpts();
    let delta = ViewDelta {
        inserted_excerpts: vec![
            WireInsertion {
                previous_excerpt_id: Some(1),
                excerpt: Some(wire_excerpt(3, 99, 0, 1)),
            },
            WireInsertion {
                previous_excerpt_id: Some(42),
                excerpt: Some(wire_excerpt(4, 10, 0, 1)),
            },
        ],
        deleted_excerpts: Vec::new(),
        scroll_top_anchor: None,
        scroll_x: 0,
        scroll_y: 0,
        selections: Vec::new(),
        pending_selection: None,
    };
    apply_delta_structure(&mut doc, &delta);
    assert_eq!(ids_of(&doc), vec![1, 2]);
}

// An entry continuing a run is dropped once the run was broken by a
// buffer change, and a wire excerpt missing a context bound is dropped.
#[test]
fn broken_runs_and_undecodable_entries() {
    let mut doc = doc_two_excerpts();
    let mut undecodable = wire_excerpt(9, 10, 0, 1);
    undecodable.context_end = None;
    let delta = ViewDelta {
        inserted_excerpts: vec![
            WireInsertion {
                previous_excerpt_id: Some(1),
                excerpt: Some(undecodable),
            },
            // same run, decodable: still inserted right after excerpt 1
            WireInsertion { previous_excerpt_id: None, excerpt: Some(wire_excerpt(3, 10, 0, 1)) },
            // different buffer breaks the run: dropped
            WireInsertion { previous_excerpt_id: None, excerpt: Some(wire_excerpt(4, 20, 0, 1)) },
            // still no new leader: dropped too
            WireInsertion { previous_excerpt_id: None, excerpt: Some(wire_excerpt(5, 10, 0, 1)) },
        ],
        deleted_excerpts: Vec::new(),
        scroll_top_anchor: None,
        scroll_x: 0,
        scroll_y: 0,
        selections: Vec::new(),
        pending_selection: None,
    };
    apply_delta_structure(&mut doc, &delta);
    assert_eq!(ids_of(&doc), vec![1, 3, 2]);
}

// The buffers a delta's insertions reference are listed once each.
#[test]
fn referenced_buffers_listed_once() {
    let delta = ViewDelta {
        inserted_excerpts: vec![
            WireInsertion { previous_excerpt_id: Some(1), excerpt: Some(wire_excerpt(3, 10, 0, 1)) },
            WireInsertion { previous_excerpt_id: None, excerpt: Some(wire_excerpt(4, 10, 0, 1)) },
            WireInsertion { previous_excerpt_id: Some(2), excerpt: Some(wire_excerpt(5, 20, 0, 1)) },
            WireInsertion { previous_excerpt_id: None, excerpt: None },
        ],
        deleted_excerpts: Vec::new(),
        scroll_top_anchor: None,
        scroll_x: 0,
        scroll_y: 0,
        selections: Vec::new(),
        pending_selection: None,
    };
    let ids = inserted_buffer_ids(&delta);
    assert_eq!(ids, vec![10, 20]);
}

// A delta carrying a selection in a not-yet-present excerpt: the excerpt
// insertion is processed first, the state stays unresolvable until the
// referenced operations arrive, and only then is the selection installed.
#[test]
fn selection_waits_for_operations() {
    let mut view = editor_with_doc(doc_two_excerpts());
    let delta = ViewDelta {
        inserted_excerpts: vec![WireInsertion {
            previous_excerpt_id: Some(2),
            excerpt: Some(wire_excerpt(3, 10, 10, 20)),
        }],
        deleted_excerpts: Vec::new(),
        scroll_top_anchor: None,
        scroll_x: 0,
        scroll_y: 0,
        selections: vec![WireSelection {
            id: 1,
            start: Some(WireAnchor { excerpt_id: 3, anchor: Some(ta(12, 7)) }),
            end: Some(WireAnchor { excerpt_id: 3, anchor: Some(ta(15, 7)) }),
            reversed: false,
        }],
        pending_selection: None,
    };
    // Stage 1: the document structure is updated first.
    apply_delta_structure(&mut view.doc, &delta);
    assert_eq!(ids_of(&view.doc), vec![1, 2, 3]);
    // Stage 2: the selection decodes against the updated document and now
    // knows its buffer.
    let (selections, pending, scroll) = decode_delta_state(&view.doc, &delta);
    assert_eq!(selections.len(), 1);
    assert_eq!(selections[0].start.buffer_id, Some(10));
    // Stage 3: the anchors depend on operation 7, which buffer 10 has not
    // received; applying must keep waiting.
    assert!(!remote_state_resolvable(&view.doc, &selections, &pending, &scroll));
    assert!(view.selections.is_empty());
    // The operations arrive; the state becomes resolvable and is installed.
    view.doc.note_buffer_open(10, 7, 100);
    assert!(remote_state_resolvable(&view.doc, &selections, &pending, &scroll));
    let autoscroll = view_sync::delta::install_remote_state(
        &mut view, selections, pending, scroll, 0, 0,
    );
    assert!(autoscroll);
    assert_eq!(view.selections.len(), 1);
    assert_eq!(view.selections[0].start.text_anchor.offset, 12);
}

// A delta that carries only a scroll anchor moves the viewport and asks
// for no autoscroll; one that carries selections wins over the scroll.
#[test]
fn scroll_and_selection_outcomes_exclusive() {
    let mut view = editor_with_doc(doc_two_excerpts());
    let scroll_only = ViewDelta {
        inserted_excerpts: Vec::new(),
        deleted_excerpts: Vec::new(),
        scroll_top_anchor: Some(WireAnchor { excerpt_id: 2, anchor: Some(ta(3, 0)) }),
        scroll_x: 11,
        scroll_y: 22,
        selections: Vec::new(),
        pending_selection: None,
    };
    let autoscroll = apply_update(&mut view, &scroll_only);
    assert!(!autoscroll);
    assert_eq!(view.scroll.anchor.excerpt_id.id, 2);
    assert_eq!(view.scroll.offset_x, 11);
    assert_eq!(view.scroll.offset_y, 22);

    let with_selection = ViewDelta {
        inserted_excerpts: Vec::new(),
        deleted_excerpts: Vec::new(),
        scroll_top_anchor: Some(WireAnchor { excerpt_id: 1, anchor: Some(ta(9, 0)) }),
        scroll_x: 99,
        scroll_y: 99,
        selections: vec![WireSelection {
            id: 4,
            start: Some(WireAnchor { excerpt_id: 1, anchor: Some(ta(1, 0)) }),
            end: Some(WireAnchor { excerpt_id: 1, anchor: Some(ta(2, 0)) }),
            reversed: true,
        }],
        pending_selection: None,
    };
    let autoscroll = apply_update(&mut view, &with_selection);
    assert!(autoscroll);
    assert_eq!(view.selections.len(), 1);
    assert_eq!(view.selections[0].id, 4);
    assert!(view.selections[0].reversed);
    // the scroll anchor of the same delta was suppressed
    assert_eq!(view.scroll.anchor.excerpt_id.id, 2);
    assert_eq!(view.scroll.offset_x, 11);
}

// A wire selection missing an endpoint is dropped, not fatal.
#[test]
fn undecodable_selection_dropped() {
    let view = editor_with_doc(doc_two_excerpts());
    let delta = ViewDelta {
        inserted_excerpts: Vec::new(),
        deleted_excerpts: Vec::new(),
        scroll_top_anchor: Some(WireAnchor { excerpt_id: 1, anchor: None }),
        scroll_x: 0,
        scroll_y: 0,
        selections: vec![
            WireSelection {
                id: 1,
                start: None,
                end: Some(WireAnchor { excerpt_id: 1, anchor: Some(ta(2, 0)) }),
                reversed: false,
            },
            WireSelection {
                id: 2,
                start: Some(WireAnchor { excerpt_id: 1, anchor: Some(ta(3, 0)) }),
                end: Some(WireAnchor { excerpt_id: 1, anchor: Some(ta(4, 0)) }),
                reversed: false,
            },
        ],
        pending_selection: None,
    };
    let (selections, pending, scroll) = decode_delta_state(&view.doc, &delta);
    assert_eq!(selections.len(), 1);
    assert_eq!(selections[0].id, 2);
    assert!(pending.is_none());
    // the scroll anchor lacked its buffer-relative part
    assert!(scroll.is_none());
}

// The event coalescer: an excerpt-insertion event appends one entry per
// excerpt, only the first naming the predecessor.
#[test]
fn coalesce_excerpts_added() {
    let view = editor_with_doc(doc_two_excerpts());
    let mut update: Option<ViewDelta> = None;
    let event = Event::ExcerptsAdded {
        buffer_id: 10,
        predecessor: ExcerptId { id: 1 },
        excerpts: vec![
            (ExcerptId { id: 3 }, excerpt(3, 10, 10, 20).range),
            (ExcerptId { id: 4 }, excerpt(4, 10, 20, 30).range),
        ],
    };
    assert!(add_event_to_delta(&view, &event, &mut update));
    let delta = update.unwrap();
    assert_eq!(delta.inserted_excerpts.len(), 2);
    assert_eq!(delta.inserted_excerpts[0].previous_excerpt_id, Some(1));
    assert_eq!(delta.inserted_excerpts[1].previous_excerpt_id, None);
    assert_eq!(delta.inserted_excerpts[0].excerpt.unwrap().id, 3);
    assert_eq!(delta.inserted_excerpts[1].excerpt.unwrap().id, 4);
}

// Removal events accumulate; scroll and selection events overwrite, last
// write wins; an event the protocol ignores reports nothing to send.
#[test]
fn coalesce_other_events() {
    let mut view = editor_with_doc(doc_two_excerpts());
    view.selections = vec![Selection {
        id: 9,
        start: anchor(1, 4, Some(10)),
        end: anchor(1, 6, Some(10)),
        reversed: false,
        goal: SelectionGoal::Unset,
    }];
    view.scroll = ScrollAnchorState { anchor: anchor(2, 1, Some(20)), offset_x: 5, offset_y: 6 };

    let mut update: Option<ViewDelta> = None;
    assert!(add_event_to_delta(
        &view,
        &Event::ExcerptsRemoved { ids: vec![ExcerptId { id: 2 }] },
        &mut update,
    ));
    assert!(add_event_to_delta(
        &view,
        &Event::ExcerptsRemoved { ids: vec![ExcerptId { id: 5 }] },
        &mut update,
    ));
    assert!(add_event_to_delta(
        &view,
        &Event::ScrollPositionChanged { local: false },
        &mut update,
    ));
    assert!(add_event_to_delta(
        &view,
        &Event::SelectionsChanged { local: false },
        &mut update,
    ));
    assert!(!add_event_to_delta(&view, &Event::Closed, &mut update));
    let delta = update.unwrap();
    assert_eq!(delta.deleted_excerpts, vec![2, 5]);
    assert_eq!(delta.scroll_top_anchor.unwrap().excerpt_id, 2);
    assert_eq!(delta.scroll_x, 5);
    assert_eq!(delta.scroll_y, 6);
    assert_eq!(delta.selections.len(), 1);
    assert_eq!(delta.selections[0].id, 9);
    assert!(delta.pending_selection.is_none());
}

// A content edit always breaks the follow relationship; selection and
// scroll changes only when locally originated.
#[test]
fn unfollow_rules() {
    assert!(Editor::should_unfollow_on_event(&Event::Edited));
    assert!(Editor::should_unfollow_on_event(&Event::SelectionsChanged { local: true }));
    assert!(!Editor::should_unfollow_on_event(&Event::SelectionsChanged { local: false }));
    assert!(Editor::should_unfollow_on_event(&Event::ScrollPositionChanged { local: true }));
    assert!(!Editor::should_unfollow_on_event(&Event::ScrollPositionChanged { local: false }));
    assert!(!Editor::should_unfollow_on_event(&Event::BufferEdited));
    assert!(!Editor::should_unfollow_on_event(&Event::Closed));
}

// Following state on the view itself.
#[test]
fn leader_and_identity() {
    let mut view = editor_with_doc(doc_two_excerpts());
    assert_eq!(view.remote_id(), None);
    assert!(!view.is_singleton());
    view.set_leader_peer_id(Some(12));
    assert_eq!(view.leader_peer, Some(12));
    view.remote_id = Some(ViewId { creator: 1, id: 2 });
    assert_eq!(view.remote_id(), Some(ViewId { creator: 1, id: 2 }));
}

// An empty delta is a no-op: nothing structural, nothing installed, no
// autoscroll requested.
#[test]
fn empty_delta_changes_nothing() {
    let mut view = editor_with_doc(doc_two_excerpts());
    let before_sel = view.selections.clone();
    let before_scroll = view.scroll;
    let autoscroll = apply_update(&mut view, &ViewDelta::new());
    assert!(!autoscroll);
    assert_eq!(ids_of(&view.doc), vec![1, 2]);
    assert_eq!(view.selections, before_sel);
    assert_eq!(view.scroll, before_scroll);
}

// An excerpt-insertion event over an empty excerpt list still counts as
// one the session must flush, but contributes no entries.
#[test]
fn coalesce_empty_insertion_event() {
    let view = editor_with_doc(doc_two_excerpts());
    let mut update: Option<ViewDelta> = None;
    let event = Event::ExcerptsAdded {
        buffer_id: 10,
        predecessor: ExcerptId { id: 1 },
        excerpts: Vec::new(),
    };
    assert!(add_event_to_delta(&view, &event, &mut update));
    assert!(update.unwrap().inserted_excerpts.is_empty());
}

// The local replica bookkeeping: a completed fetch adds a replica, newly
// arrived operations replace it, and resolvability follows the versions.
#[test]
fn replica_versions_gate_resolvability() {
    let mut doc = doc_two_excerpts();
    let a = Anchor {
        excerpt_id: ExcerptId { id: 1 },
        text_anchor: ta(3, 9),
        buffer_id: Some(10),
    };
    // buffer 10 is open but has only received up to operation 0
    assert!(!doc.can_resolve(&a));
    doc.note_buffer_open(10, 9, 100);
    assert!(doc.can_resolve(&a));
    // an anchor into an excerpt the document does not have never resolves
    let missing = Anchor { excerpt_id: ExcerptId { id: 77 }, text_anchor: ta(0, 0), buffer_id: None };
    assert!(!doc.can_resolve(&missing));
    // a fetch of a new buffer grows the pool
    assert!(!doc.has_open_buffer(30));
    doc.note_buffer_open(30, 0, 5);
    assert!(doc.has_open_buffer(30));
    assert_eq!(doc.buffer_replica(30).unwrap().len, 5);
    assert_eq!(doc.buffer_id_for_excerpt(2), Some(20));
    assert_eq!(doc.buffer_id_for_excerpt(77), None);
    assert_eq!(doc.excerpt_position(2), Some(1));
}
