use view_sync::document::{
    Anchor, AnchorSpan, BufferReplica, DocumentState, Excerpt, ExcerptId, ExcerptRange, TextAnchor,
};
use view_sync::editor::{Editor, ScrollAnchorState, Selection, SelectionGoal, ViewId};
use view_sync::snapshot::{
    find_reusable_view, from_state_proto, should_reuse_view, snapshot_buffer_ids,
    SINGLETON_EXCERPT_ID,
};

fn ta(offset: u64, version: u64) -> TextAnchor {
    TextAnchor { offset, version }
}

fn excerpt(id: u64, buffer_id: u64, start: u64, end: u64) -> Excerpt {
    Excerpt {
        id: ExcerptId { id },
        buffer_id,
        range: ExcerptRange {
            context: AnchorSpan { start: ta(start, 0), end: ta(end, 0) },
            primary: None,
        },
    }
}

fn buffer(id: u64, version: u64, len: u64) -> BufferReplica {
    BufferReplica { id, version, len }
}

fn anchor(excerpt_id: u64, offset: u64, buffer_id: Option<u64>) -> Anchor {
    Anchor { excerpt_id: ExcerptId { id: excerpt_id }, text_anchor: ta(offset, 0), buffer_id }
}

fn leader_view() -> Editor {
    Editor {
        remote_id: None,
        leader_peer: None,
        doc: DocumentState {
            excerpts: vec![excerpt(1, 10, 0, 10), excerpt(2, 20, 0, 5)],
            singleton: false,
            title: String::from("shared"),
            buffers: vec![buffer(10, 0, 100), buffer(20, 0, 100)],
        },
        selections: vec![Selection {
            id: 3,
            start: anchor(1, 4, Some(10)),
            end: anchor(2, 2, Some(20)),
            reversed: false,
            goal: SelectionGoal::TargetColumn(7),
        }],
        pending_selection: None,
        scroll: ScrollAnchorState { anchor: anchor(2, 1, Some(20)), offset_x: 8, offset_y: 9 },
    }
}

// Encoding a view and materializing the snapshot on the other side
// reproduces the excerpt list, the selection set (with the transient goal
// cleared), and the scroll anchor.
#[test]
fn snapshot_round_trip() {
    let view = leader_view();
    let snapshot = view.to_state_proto();
    assert!(!snapshot.singleton);
    assert_eq!(snapshot.title.as_deref(), Some("shared"));
    assert_eq!(snapshot.excerpts.len(), 2);
    assert_eq!(snapshot.scroll_x, 8);
    assert_eq!(snapshot.scroll_y, 9);

    let pool = vec![buffer(10, 0, 100), buffer(20, 0, 100)];
    let remote = ViewId { creator: 5, id: 6 };
    let follower = from_state_proto(&snapshot, pool, remote).unwrap();
    assert_eq!(follower.remote_id, Some(remote));
    assert_eq!(follower.doc.excerpts, view.doc.excerpts);
    assert_eq!(follower.doc.title, view.doc.title);
    assert_eq!(follower.selections.len(), 1);
    let s = follower.selections[0];
    assert_eq!(s.id, 3);
    assert_eq!(s.start, view.selections[0].start);
    assert_eq!(s.end, view.selections[0].end);
    assert_eq!(s.reversed, false);
    // the navigation goal never travels
    assert_eq!(s.goal, SelectionGoal::Unset);
    // a selection was present, so the viewport stays at the top and the
    // caller is asked to autoscroll instead
    assert_eq!(follower.scroll.offset_x, 0);
}

// A snapshot that carries no selection installs the scroll anchor itself.
#[test]
fn snapshot_installs_scroll_without_selection() {
    let mut view = leader_view();
    view.selections = Vec::new();
    let snapshot = view.to_state_proto();
    let pool = vec![buffer(10, 0, 100), buffer(20, 0, 100)];
    let follower = from_state_proto(&snapshot, pool, ViewId { creator: 5, id: 7 }).unwrap();
    assert_eq!(follower.scroll.anchor.excerpt_id.id, 2);
    assert_eq!(follower.scroll.anchor.text_anchor.offset, 1);
    assert_eq!(follower.scroll.offset_x, 8);
    assert_eq!(follower.scroll.offset_y, 9);
}

// Materialization aborts when a referenced buffer was not fetched.
#[test]
fn snapshot_aborts_on_missing_buffer() {
    let view = leader_view();
    let snapshot = view.to_state_proto();
    let pool = vec![buffer(10, 0, 100)];
    assert!(from_state_proto(&snapshot, pool, ViewId { creator: 5, id: 8 }).is_none());
}

// A singleton snapshot materializes as one whole-buffer excerpt.
#[test]
fn singleton_snapshot_wraps_buffer() {
    let view = Editor {
        remote_id: None,
        leader_peer: None,
        doc: DocumentState {
            excerpts: vec![excerpt(SINGLETON_EXCERPT_ID, 10, 0, 64)],
            singleton: true,
            title: String::new(),
            buffers: vec![buffer(10, 0, 64)],
        },
        selections: Vec::new(),
        pending_selection: None,
        scroll: ScrollAnchorState {
            anchor: anchor(SINGLETON_EXCERPT_ID, 0, Some(10)),
            offset_x: 0,
            offset_y: 0,
        },
    };
    let snapshot = view.to_state_proto();
    assert!(snapshot.singleton);
    assert!(snapshot.title.is_none());
    let follower =
        from_state_proto(&snapshot, vec![buffer(10, 0, 64)], ViewId { creator: 1, id: 1 })
            .unwrap();
    assert!(follower.doc.singleton);
    assert_eq!(follower.doc.excerpts, view.doc.excerpts);
}

// Materializing where a local view already shows the same sole buffer
// must reuse that view rather than build a duplicate; a matching remote
// identity is reused too.
#[test]
fn singleton_view_is_reused() {
    let local = Editor {
        remote_id: None,
        leader_peer: None,
        doc: DocumentState {
            excerpts: vec![excerpt(SINGLETON_EXCERPT_ID, 10, 0, 64)],
            singleton: true,
            title: String::new(),
            buffers: vec![buffer(10, 0, 64)],
        },
        selections: Vec::new(),
        pending_selection: None,
        scroll: ScrollAnchorState {
            anchor: anchor(SINGLETON_EXCERPT_ID, 0, Some(10)),
            offset_x: 0,
            offset_y: 0,
        },
    };
    let remote = ViewId { creator: 4, id: 4 };
    let snapshot = local.to_state_proto();
    // same sole buffer: reuse
    assert!(should_reuse_view(&local, &snapshot, remote));

    // another buffer: no reuse
    let mut other = snapshot;
    for e in &mut other.excerpts {
        e.buffer_id = 99;
    }
    assert!(!should_reuse_view(&local, &other, remote));

    // but a matching remote identity is always reused
    let mut followed = local;
    followed.remote_id = Some(remote);
    assert!(should_reuse_view(&followed, &other, remote));

    // a non-singleton snapshot over the same buffer is not a duplicate
    let multi = leader_view().to_state_proto();
    let plain = Editor { remote_id: None, ..followed };
    assert!(!should_reuse_view(&plain, &multi, remote));
}

// The buffers a snapshot references are listed once each.
#[test]
fn snapshot_buffers_listed_once() {
    let mut view = leader_view();
    view.doc.excerpts.push(excerpt(3, 10, 20, 30));
    let snapshot = view.to_state_proto();
    assert_eq!(snapshot_buffer_ids(&snapshot), vec![10, 20]);
}

// The registry lookup returns the first view that already represents the
// snapshot, and nothing when none does.
#[test]
fn registry_finds_first_reusable_view() {
    let remote = ViewId { creator: 9, id: 1 };
    let mut followed = leader_view();
    followed.remote_id = Some(remote);
    let plain = leader_view();
    let views = vec![plain, followed];
    let snapshot = leader_view().to_state_proto();
    assert_eq!(find_reusable_view(&views, &snapshot, remote), Some(1));
    let other = ViewId { creator: 9, id: 2 };
    assert_eq!(find_reusable_view(&views, &snapshot, other), None);
}

// A snapshot that claims to be a singleton but references two buffers is
// stitched excerpt by excerpt instead of wrapping one buffer whole.
#[test]
fn lying_singleton_is_stitched() {
    let mut snapshot = leader_view().to_state_proto();
    snapshot.singleton = true;
    let pool = vec![buffer(10, 0, 100), buffer(20, 0, 100)];
    let follower = from_state_proto(&snapshot, pool, ViewId { creator: 2, id: 2 }).unwrap();
    assert!(!follower.doc.singleton);
    assert_eq!(follower.doc.excerpts.len(), 2);
    assert_eq!(follower.doc.excerpts[0].id.id, 1);
}
