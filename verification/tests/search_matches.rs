use view_sync::cursor::{CursorPosition, OffsetSelection, Point};
use view_sync::document::{
    Anchor, AnchorSpan, BufferReplica, DocumentState, Excerpt, ExcerptId, ExcerptRange, TextAnchor,
};
use view_sync::editor::{Editor, Event, ScrollAnchorState, Selection, SelectionGoal};
use view_sync::search::{
    active_match_index, match_index_for_direction, AnchorRange, Direction, SearchEvent,
};

fn ta(offset: u64, version: u64) -> TextAnchor {
    TextAnchor { offset, version }
}

fn excerpt(id: u64, buffer_id: u64, start: u64, end: u64) -> Excerpt {
    Excerpt {
        id: ExcerptId { id },
        buffer_id,
        range: ExcerptRange {
            context: AnchorSpan { start: ta(start, 0), end: ta(end, 0) },
            primary: None,
        },
    }
}

fn doc() -> DocumentState {
    DocumentState {
        excerpts: vec![excerpt(1, 10, 0, 100), excerpt(2, 20, 0, 100)],
        singleton: false,
        title: String::new(),
        buffers: vec![BufferReplica { id: 10, version: 0, len: 100 }, BufferReplica {
            id: 20,
            version: 0,
            len: 100,
        }],
    }
}

fn anchor(excerpt_id: u64, offset: u64) -> Anchor {
    Anchor { excerpt_id: ExcerptId { id: excerpt_id }, text_anchor: ta(offset, 0), buffer_id: None }
}

fn matches_five() -> Vec<AnchorRange> {
    // five disjoint matches in document order, spanning both excerpts
    vec![
        AnchorRange { start: anchor(1, 0), end: anchor(1, 4) },
        AnchorRange { start: anchor(1, 10), end: anchor(1, 14) },
        AnchorRange { start: anchor(1, 20), end: anchor(1, 24) },
        AnchorRange { start: anchor(2, 5), end: anchor(2, 9) },
        AnchorRange { start: anchor(2, 15), end: anchor(2, 19) },
    ]
}

#[test]
fn no_matches_no_active_index() {
    assert_eq!(active_match_index(&Vec::new(), &anchor(1, 3), &doc()), None);
}

#[test]
fn active_index_is_containing_match() {
    let ms = matches_five();
    let d = doc();
    assert_eq!(active_match_index(&ms, &anchor(1, 12), &d), Some(1));
    // boundaries count as inside
    assert_eq!(active_match_index(&ms, &anchor(1, 20), &d), Some(2));
    assert_eq!(active_match_index(&ms, &anchor(1, 24), &d), Some(2));
    // a match in the second excerpt
    assert_eq!(active_match_index(&ms, &anchor(2, 7), &d), Some(3));
}

#[test]
fn active_index_between_matches_is_next() {
    let ms = matches_five();
    let d = doc();
    assert_eq!(active_match_index(&ms, &anchor(1, 7), &d), Some(1));
    assert_eq!(active_match_index(&ms, &anchor(1, 30), &d), Some(3));
}

#[test]
fn active_index_clamps_at_ends() {
    let ms = matches_five();
    let d = doc();
    // after the last match: clamped to the last index
    assert_eq!(active_match_index(&ms, &anchor(2, 50), &d), Some(4));
}

// Cursor exactly on a match's end boundary: stepping forward by one moves
// to the next match, not back onto the same one.
#[test]
fn next_from_end_boundary() {
    let ms = matches_five();
    let d = doc();
    let cursor = anchor(1, 24);
    assert_eq!(active_match_index(&ms, &cursor, &d), Some(2));
    let r = match_index_for_direction(&ms, &cursor, 2, Direction::Next, 1, &d);
    assert_eq!(r, 3);
}

#[test]
fn stepping_wraps_around() {
    let ms = matches_five();
    let d = doc();
    // from the last match forward
    let r = match_index_for_direction(&ms, &anchor(2, 17), 4, Direction::Next, 1, &d);
    assert_eq!(r, 0);
    // from the first match backward
    let r = match_index_for_direction(&ms, &anchor(1, 2), 0, Direction::Prev, 1, &d);
    assert_eq!(r, 4);
    // a zero count, and a count that is a multiple of the match count,
    // stay put
    assert_eq!(match_index_for_direction(&ms, &anchor(1, 2), 0, Direction::Next, 0, &d), 0);
    assert_eq!(match_index_for_direction(&ms, &anchor(1, 2), 0, Direction::Next, 5, &d), 0);
}

// When the cursor is strictly before the current match, reaching that
// match itself costs the first forward step; symmetrically backward.
#[test]
fn boundary_adjustment_costs_a_step() {
    let ms = matches_five();
    let d = doc();
    // cursor before match 2's start: "next 1" lands on match 2 itself
    let r = match_index_for_direction(&ms, &anchor(1, 16), 2, Direction::Next, 1, &d);
    assert_eq!(r, 2);
    // cursor past match 2's end: "prev 1" lands on match 2 itself
    let r = match_index_for_direction(&ms, &anchor(1, 26), 2, Direction::Prev, 1, &d);
    assert_eq!(r, 2);
}

// Stepping forward a count and then backward the same count returns to
// the start, when the cursor rides along with the active match.
#[test]
fn step_round_trip() {
    let ms = matches_five();
    let d = doc();
    let start: usize = 1;
    let cursor1 = anchor(1, 12);
    for count in 1..5usize {
        let j = match_index_for_direction(&ms, &cursor1, start, Direction::Next, count, &d);
        let cursor2 = ms[j].start;
        let back = match_index_for_direction(&ms, &cursor2, j, Direction::Prev, count, &d);
        assert_eq!(back, start);
    }
}

fn editor_with_selection(sel: Option<Selection>) -> Editor {
    Editor {
        remote_id: None,
        leader_peer: None,
        doc: doc(),
        selections: sel.into_iter().collect(),
        pending_selection: None,
        scroll: ScrollAnchorState { anchor: anchor(1, 0), offset_x: 0, offset_y: 0 },
    }
}

#[test]
fn view_level_active_match_uses_cursor() {
    let sel = Selection {
        id: 1,
        start: anchor(1, 11),
        end: anchor(1, 12),
        reversed: false,
        goal: SelectionGoal::Unset,
    };
    let view = editor_with_selection(Some(sel));
    assert_eq!(view.active_match_index(&matches_five()), Some(1));
}

// With several selections active the remembered match's own start is the
// reference point, so stepping is pure index arithmetic.
#[test]
fn view_level_stepping_with_multiple_selections() {
    let mut view = editor_with_selection(Some(Selection {
        id: 1,
        start: anchor(1, 11),
        end: anchor(1, 12),
        reversed: false,
        goal: SelectionGoal::Unset,
    }));
    view.selections.push(Selection {
        id: 2,
        start: anchor(2, 1),
        end: anchor(2, 2),
        reversed: false,
        goal: SelectionGoal::Unset,
    });
    let r = view.match_index_for_direction(&matches_five(), 2, Direction::Next, 2,
    );
    assert_eq!(r, 4);
}

#[test]
fn search_event_classification() {
    let one = editor_with_selection(Some(Selection {
        id: 1,
        start: anchor(1, 0),
        end: anchor(1, 1),
        reversed: false,
        goal: SelectionGoal::Unset,
    }));
    assert_eq!(
        one.to_search_event(&Event::BufferEdited),
        Some(SearchEvent::MatchesInvalidated)
    );
    assert_eq!(
        one.to_search_event(&Event::SelectionsChanged { local: true }),
        Some(SearchEvent::ActiveMatchChanged)
    );
    let none = editor_with_selection(None);
    assert_eq!(none.to_search_event(&Event::SelectionsChanged { local: true }), None);
    assert_eq!(none.to_search_event(&Event::Edited), None);
}

// The cursor-position readout: total selected characters and the newest
// selection's head.
#[test]
fn cursor_readout() {
    let mut readout = CursorPosition::new();
    assert!(readout.position.is_none());
    assert_eq!(readout.selected_count, 0);

    let selections = vec![
        OffsetSelection {
            id: 1,
            start: 0,
            end: 4,
            reversed: false,
            head: Point { row: 0, column: 4 },
        },
        OffsetSelection {
            id: 3,
            start: 10,
            end: 10,
            reversed: false,
            head: Point { row: 1, column: 2 },
        },
        OffsetSelection {
            id: 2,
            start: 20,
            end: 25,
            reversed: true,
            head: Point { row: 2, column: 0 },
        },
    ];
    readout.update_position(&selections);
    assert_eq!(readout.selected_count, 9);
    // selection 3 has the greatest id; its head is shown
    assert_eq!(readout.position, Some(Point { row: 1, column: 2 }));

    readout.update_position(&Vec::new());
    assert_eq!(readout.selected_count, 0);
    assert!(readout.position.is_none());

    let fresh = CursorPosition::default();
    assert!(fresh.position.is_none());
}
