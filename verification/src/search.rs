//! Cursor-relative resolution of an ordered set of search matches: which
//! match is active for a given cursor, and directional stepping with a
//! repeat count and wraparound.

use vstd::prelude::*;

use crate::document::{
    excerpt_ids_unique, has_excerpt, Anchor, DocumentState, Excerpt,
};
use crate::editor::{Editor, Event, Selection};
use crate::order::{anchor_cmp, anchor_cmp_spec, AnchorOrdering};

verus! {

/// One search match: a start/end pair of composite-document anchors.
#[derive(Clone, Copy, PartialEq, Eq, Structural, Debug)]
pub struct AnchorRange {
    pub start: Anchor,
    pub end: Anchor,
}

/// What a view-change event means to an in-progress search.
#[derive(Clone, Copy, PartialEq, Eq, Structural, Debug)]
pub enum SearchEvent {
    MatchesInvalidated,
    ActiveMatchChanged,
}

/// The direction of a step through the match list.
#[derive(Clone, Copy, PartialEq, Eq, Structural, Debug)]
pub enum Direction {
    Prev,
    Next,
}

/// `a` is strictly before `b` in the document.
pub open spec fn anchor_lt(ex: Seq<Excerpt>, a: Anchor, b: Anchor) -> bool {
    anchor_cmp_spec(ex, a, b) == AnchorOrdering::Less
}

/// `a` is at or before `b` in the document.
pub open spec fn anchor_le(ex: Seq<Excerpt>, a: Anchor, b: Anchor) -> bool {
    anchor_cmp_spec(ex, a, b) != AnchorOrdering::Greater
}

/// Every anchor of every range addresses an excerpt the document currently
/// has.
pub open spec fn ranges_resolvable(ex: Seq<Excerpt>, ranges: Seq<AnchorRange>) -> bool {
    forall|i: int|
        0 <= i < ranges.len() ==> has_excerpt(ex, (#[trigger] ranges[i]).start.excerpt_id.id)
            && has_excerpt(ex, ranges[i].end.excerpt_id.id)
}

/// A sorted set of disjoint, non-empty-ordered ranges: each range's start
/// is at or before its end, and each range ends strictly before the next
/// one starts.
pub open spec fn ranges_sorted(ex: Seq<Excerpt>, ranges: Seq<AnchorRange>) -> bool {
    &&& forall|i: int|
        0 <= i < ranges.len() ==> anchor_le(
            ex,
            (#[trigger] ranges[i]).start,
            ranges[i].end,
        )
    &&& forall|i: int|
        0 <= i < ranges.len() - 1 ==> anchor_lt(
            ex,
            (#[trigger] ranges[i]).end,
            ranges[i + 1].start,
        )
}

/// The range `ranges[i]` contains the cursor.
pub open spec fn range_contains(
    ex: Seq<Excerpt>,
    ranges: Seq<AnchorRange>,
    i: int,
    cursor: Anchor,
) -> bool {
    anchor_le(ex, ranges[i].start, cursor) && anchor_le(ex, cursor, ranges[i].end)
}

/// The ends of a sorted disjoint range set are strictly increasing.
proof fn lemma_ends_increasing(
    ex: Seq<Excerpt>,
    ranges: Seq<AnchorRange>,
    cursorless_i: int,
    j: int,
)
    requires
        excerpt_ids_unique(ex),
        ranges_resolvable(ex, ranges),
        ranges_sorted(ex, ranges),
        0 <= cursorless_i < j < ranges.len(),
    ensures
        anchor_lt(ex, ranges[cursorless_i].end, ranges[j].end),
    decreases j - cursorless_i,
{
    let i = cursorless_i;
    if j == i + 1 {
        crate::order::lemma_anchor_order_transitive(
            ex,
            ranges[i].end,
            ranges[j].start,
            ranges[j].end,
        );
    } else {
        lemma_ends_increasing(ex, ranges, i, j - 1);
        crate::order::lemma_anchor_order_transitive(
            ex,
            ranges[i].end,
            ranges[j - 1].end,
            ranges[j].end,
        );
        crate::order::lemma_anchor_order_transitive(
            ex,
            ranges[j - 1].end,
            ranges[j].start,
            ranges[j].end,
        );
        crate::order::lemma_anchor_order_transitive(
            ex,
            ranges[i].end,
            ranges[j - 1].end,
            ranges[j].end,
        );
    }
}

/// A range containing the cursor is the one and only range that does not
/// end before the cursor while every earlier range does.
proof fn lemma_containing_is_first(
    ex: Seq<Excerpt>,
    ranges: Seq<AnchorRange>,
    cursor: Anchor,
    k: int,
)
    requires
        excerpt_ids_unique(ex),
        has_excerpt(ex, cursor.excerpt_id.id),
        ranges_resolvable(ex, ranges),
        ranges_sorted(ex, ranges),
        0 <= k < ranges.len(),
        range_contains(ex, ranges, k, cursor),
    ensures
        !anchor_lt(ex, ranges[k].end, cursor),
        forall|j: int| 0 <= j < k ==> anchor_lt(ex, (#[trigger] ranges[j]).end, cursor),
{
    crate::order::lemma_anchor_order_antisymmetric(ex, cursor, ranges[k].end);
    assert forall|j: int| 0 <= j < k implies anchor_lt(ex, (#[trigger] ranges[j]).end, cursor) by {
        if j < k - 1 {
            lemma_ends_increasing(ex, ranges, j, k - 1);
            crate::order::lemma_anchor_order_transitive(
                ex,
                ranges[j].end,
                ranges[k - 1].end,
                ranges[k].start,
            );
        }
        crate::order::lemma_anchor_order_transitive(ex, ranges[j].end, ranges[k].start, cursor);
    }
}

/// The index of the active match for a cursor, or `None` when there are no
/// matches: the smallest index whose range does not end before the cursor
/// — a range containing the cursor counts as exactly that — clamped to the
/// last index when every range ends before the cursor.
#[verifier::rlimit(60)]
pub fn active_match_index(
    ranges: &Vec<AnchorRange>,
    cursor: &Anchor,
    buffer: &DocumentState,
) -> (r: Option<usize>)
    requires
        excerpt_ids_unique(buffer.excerpts@),
        has_excerpt(buffer.excerpts@, cursor.excerpt_id.id),
        ranges_resolvable(buffer.excerpts@, ranges@),
        ranges_sorted(buffer.excerpts@, ranges@),
    ensures
        r is Some <==> ranges@.len() > 0,
        match r {
            Some(i) => {
                let ex = buffer.excerpts@;
                &&& i < ranges@.len()
                &&& forall|j: int| 0 <= j < i ==> anchor_lt(ex, (#[trigger] ranges@[j]).end, *cursor)
                &&& (anchor_le(ex, *cursor, ranges@[i as int].end) || i == ranges@.len() - 1)
                &&& forall|k: int|
                    0 <= k < ranges@.len() && range_contains(ex, ranges@, k, *cursor) ==> i == k
                &&& (!range_contains(ex, ranges@, i as int, *cursor) && anchor_le(
                    ex,
                    *cursor,
                    ranges@[i as int].end,
                )) ==> anchor_lt(ex, *cursor, ranges@[i as int].start)
            },
            None => true,
        },
{
    let ghost ex = buffer.excerpts@;
    let n = ranges.len();
    if n == 0 {
        return None;
    }
    let mut lo: usize = 0;
    let mut hi: usize = n;
    while lo < hi
        invariant
            n == ranges@.len(),
            n > 0,
            lo <= hi <= n,
            excerpt_ids_unique(ex),
            ex == buffer.excerpts@,
            has_excerpt(ex, cursor.excerpt_id.id),
            ranges_resolvable(ex, ranges@),
            ranges_sorted(ex, ranges@),
            forall|j: int| 0 <= j < lo ==> anchor_lt(ex, (#[trigger] ranges@[j]).end, *cursor),
            forall|j: int| hi <= j < n ==> !anchor_lt(ex, (#[trigger] ranges@[j]).end, *cursor),
        decreases hi - lo,
    {
        let mid = lo + (hi - lo) / 2;
        let c = anchor_cmp(&buffer.excerpts, &ranges[mid].end, cursor);
        if c.is_lt() {
            proof {
                assert forall|j: int| 0 <= j <= mid implies anchor_lt(
                    ex,
                    (#[trigger] ranges@[j]).end,
                    *cursor,
                ) by {
                    if j < mid {
                        lemma_ends_increasing(ex, ranges@, j, mid as int);
                        crate::order::lemma_anchor_order_transitive(
                            ex,
                            ranges@[j].end,
                            ranges@[mid as int].end,
                            *cursor,
                        );
                    }
                }
            }
            lo = mid + 1;
        } else {
            proof {
                assert forall|j: int| mid <= j < n implies !anchor_lt(
                    ex,
                    (#[trigger] ranges@[j]).end,
                    *cursor,
                ) by {
                    if j > mid {
                        lemma_ends_increasing(ex, ranges@, mid as int, j);
                        if anchor_lt(ex, ranges@[j].end, *cursor) {
                            crate::order::lemma_anchor_order_transitive(
                                ex,
                                ranges@[mid as int].end,
                                ranges@[j].end,
                                *cursor,
                            );
                        }
                    }
                }
            }
            hi = mid;
        }
    }
    let i = if lo < n {
        lo
    } else {
        n - 1
    };
    proof {
        assert forall|k: int|
            0 <= k < n && range_contains(ex, ranges@, k, *cursor) implies i as int == k by {
            lemma_containing_is_first(ex, ranges@, *cursor, k);
            if k < lo {
                assert(anchor_lt(ex, ranges@[k].end, *cursor));
            }
            if (lo as int) < k {
                assert(anchor_lt(ex, ranges@[lo as int].end, *cursor));
                assert(!anchor_lt(ex, ranges@[lo as int].end, *cursor));
            }
        }
        if (lo as int) < n as int {
            crate::order::lemma_anchor_order_antisymmetric(
                ex,
                ranges@[lo as int].end,
                *cursor,
            );
        }
        // When no range contains the cursor and the result is not the
        // final clamp, the cursor falls strictly before the found range.
        if !range_contains(ex, ranges@, i as int, *cursor) && anchor_le(
            ex,
            *cursor,
            ranges@[i as int].end,
        ) {
            crate::order::lemma_anchor_order_antisymmetric(ex, ranges@[i as int].start, *cursor);
        }
    }
    Some(i)
}

/// The index reached by stepping from `ci` in the given direction `count`
/// times with wraparound, as the original cursor position dictates: when
/// the cursor is already strictly before the current match (stepping
/// forward) or strictly past it (stepping backward), reaching that match
/// itself costs the first step.
pub open spec fn step_index_spec(
    ex: Seq<Excerpt>,
    ms: Seq<AnchorRange>,
    cursor: Anchor,
    ci: int,
    direction: Direction,
    count: int,
) -> int {
    let n = ms.len() as int;
    let c0 = count % n;
    if c0 == 0 {
        ci
    } else {
        match direction {
            Direction::Next => {
                let c = if anchor_cmp_spec(ex, ms[ci].start, cursor) == AnchorOrdering::Greater {
                    c0 - 1
                } else {
                    c0
                };
                (ci + c) % n
            },
            Direction::Prev => {
                let c = if anchor_cmp_spec(ex, ms[ci].end, cursor) == AnchorOrdering::Less {
                    c0 - 1
                } else {
                    c0
                };
                if ci >= c {
                    ci - c
                } else {
                    n - (c - ci)
                }
            },
        }
    }
}

/// Steps through the match list from `current_index`, relative to the
/// given cursor position, wrapping around at either end.
pub fn match_index_for_direction(
    matches: &Vec<AnchorRange>,
    cursor: &Anchor,
    current_index: usize,
    direction: Direction,
    count: usize,
    buffer: &DocumentState,
) -> (r: usize)
    requires
        matches@.len() > 0,
        current_index < matches@.len(),
        excerpt_ids_unique(buffer.excerpts@),
        has_excerpt(buffer.excerpts@, cursor.excerpt_id.id),
        has_excerpt(buffer.excerpts@, matches@[current_index as int].start.excerpt_id.id),
        has_excerpt(buffer.excerpts@, matches@[current_index as int].end.excerpt_id.id),
    ensures
        r < matches@.len(),
        r as int == step_index_spec(
            buffer.excerpts@,
            matches@,
            *cursor,
            current_index as int,
            direction,
            count as int,
        ),
{
    let n = matches.len();
    let count = count % n;
    if count == 0 {
        return current_index;
    }
    match direction {
        Direction::Next => {
            let c = if anchor_cmp(
                &buffer.excerpts,
                &matches[current_index].start,
                cursor,
            ).is_gt() {
                count - 1
            } else {
                count
            };
            let room = n - current_index;
            if c < room {
                proof {
                    vstd::arithmetic::div_mod::lemma_small_mod(
                        (current_index + c) as nat,
                        n as nat,
                    );
                }
                current_index + c
            } else {
                proof {
                    vstd::arithmetic::div_mod::lemma_mod_sub_multiples_vanish(
                        current_index as int + c as int,
                        n as int,
                    );
                    vstd::arithmetic::div_mod::lemma_small_mod(
                        (current_index + c - n) as nat,
                        n as nat,
                    );
                }
                c - room
            }
        },
        Direction::Prev => {
            let c = if anchor_cmp(
                &buffer.excerpts,
                &matches[current_index].end,
                cursor,
            ).is_lt() {
                count - 1
            } else {
                count
            };
            if current_index >= c {
                current_index - c
            } else {
                n - (c - current_index)
            }
        },
    }
}

/// Stepping forward `count` and then backward `count` from a cursor that
/// sits inside the current match both times returns to the original index,
/// for any repeat count: neither step pays the extra boundary adjustment,
/// and the two wraparounds cancel.
pub proof fn lemma_step_round_trip(
    ex: Seq<Excerpt>,
    ms: Seq<AnchorRange>,
    c1: Anchor,
    c2: Anchor,
    ci: int,
    count: int,
)
    requires
        ms.len() > 0,
        0 <= ci < ms.len(),
        count >= 0,
        anchor_cmp_spec(ex, ms[ci].start, c1) != AnchorOrdering::Greater,
        anchor_cmp_spec(ex, ms[ci].end, c1) != AnchorOrdering::Less,
        ({
            let j = step_index_spec(ex, ms, c1, ci, Direction::Next, count);
            &&& anchor_cmp_spec(ex, ms[j].start, c2) != AnchorOrdering::Greater
            &&& anchor_cmp_spec(ex, ms[j].end, c2) != AnchorOrdering::Less
        }),
    ensures
        step_index_spec(
            ex,
            ms,
            c2,
            step_index_spec(ex, ms, c1, ci, Direction::Next, count),
            Direction::Prev,
            count,
        ) == ci,
{
    let n = ms.len() as int;
    let c0 = count % n;
    vstd::arithmetic::div_mod::lemma_mod_bound(count, n);
    if c0 == 0 {
    } else {
        let j = (ci + c0) % n;
        if ci + c0 < n {
            vstd::arithmetic::div_mod::lemma_small_mod((ci + c0) as nat, n as nat);
            assert(j == ci + c0);
        } else {
            assert(0 <= ci + c0 - n < n);
            vstd::arithmetic::div_mod::lemma_mod_sub_multiples_vanish(ci + c0, n);
            vstd::arithmetic::div_mod::lemma_small_mod((ci + c0 - n) as nat, n as nat);
            assert(j == ci + c0 - n);
        }
    }
}

impl Editor {
    /// The selection the user acted on last: the committed or pending
    /// selection with the greatest identifier.
    pub fn newest_selection(&self) -> (r: Option<Selection>)
        ensures
            r == newest_selection_spec(self.selections@, self.pending_selection),
    {
        let n = self.selections.len();
        let mut newest: Option<Selection> = None;
        let mut i: usize = 0;
        while i < n
            invariant
                n == self.selections@.len(),
                i <= n,
                newest == newest_of(self.selections@.take(i as int)),
            decreases n - i,
        {
            let s = self.selections[i];
            newest = match newest {
                Some(best) => {
                    if s.id > best.id {
                        Some(s)
                    } else {
                        Some(best)
                    }
                },
                None => Some(s),
            };
            proof {
                let next = self.selections@.take(i as int + 1);
                assert(next.drop_last() =~= self.selections@.take(i as int));
                assert(next.last() == self.selections@[i as int]);
            }
            i += 1;
        }
        proof {
            assert(self.selections@.take(n as int) =~= self.selections@);
        }
        match (&newest, &self.pending_selection) {
            (Some(best), Some(p)) => {
                if p.id > best.id {
                    Some(*p)
                } else {
                    newest
                }
            },
            (None, Some(p)) => Some(*p),
            _ => newest,
        }
    }

    /// What a view-change event means to an in-progress search: a content
    /// edit invalidates the matches; a selection change moves the active
    /// match only while a single selection is active.
    pub fn to_search_event(&self, event: &Event) -> (r: Option<SearchEvent>)
        ensures
            r == match *event {
                Event::BufferEdited => Some(SearchEvent::MatchesInvalidated),
                Event::SelectionsChanged { .. } => {
                    if self.selections@.len() == 1 {
                        Some(SearchEvent::ActiveMatchChanged)
                    } else {
                        Option::<SearchEvent>::None
                    }
                },
                _ => None,
            },
    {
        match event {
            Event::BufferEdited => Some(SearchEvent::MatchesInvalidated),
            Event::SelectionsChanged { .. } => {
                if self.selections.len() == 1 {
                    Some(SearchEvent::ActiveMatchChanged)
                } else {
                    None
                }
            },
            _ => None,
        }
    }
}

/// The cursor position directional stepping measures from: the newest
/// selection's head while exactly one selection is active, else the start
/// of the currently remembered match.
pub open spec fn direction_cursor(
    sels: Seq<Selection>,
    pending: Option<Selection>,
    ms: Seq<AnchorRange>,
    ci: int,
) -> Anchor {
    if sels.len() == 1 {
        match newest_selection_spec(sels, pending) {
            Some(s) => s.head_spec(),
            None => ms[ci].start,
        }
    } else {
        ms[ci].start
    }
}

impl Editor {
    /// The active match for this view's newest cursor.
    pub fn active_match_index(&self, matches: &Vec<AnchorRange>) -> (r: Option<usize>)
        requires
            newest_selection_spec(self.selections@, self.pending_selection) matches Some(s)
                && has_excerpt(self.doc.excerpts@, s.head_spec().excerpt_id.id),
            excerpt_ids_unique(self.doc.excerpts@),
            ranges_resolvable(self.doc.excerpts@, matches@),
            ranges_sorted(self.doc.excerpts@, matches@),
        ensures
            r is Some <==> matches@.len() > 0,
            match r {
                Some(i) => {
                    let ex = self.doc.excerpts@;
                    let cursor = match newest_selection_spec(
                        self.selections@,
                        self.pending_selection,
                    ) {
                        Some(s) => s.head_spec(),
                        None => matches@[0].start,
                    };
                    &&& i < matches@.len()
                    &&& forall|j: int|
                        0 <= j < i ==> anchor_lt(ex, (#[trigger] matches@[j]).end, cursor)
                    &&& (anchor_le(ex, cursor, matches@[i as int].end) || i == matches@.len() - 1)
                    &&& forall|k: int|
                        0 <= k < matches@.len() && range_contains(ex, matches@, k, cursor) ==> i
                            == k
                },
                None => true,
            },
    {
        let cursor = match self.newest_selection() {
            Some(s) => s.head(),
            None => unreached(),
        };
        active_match_index(matches, &cursor, &self.doc)
    }

    /// Steps through the match list from `current_index`, measuring from
    /// this view's own cursor while exactly one selection is active.
    pub fn match_index_for_direction(
        &self,
        matches: &Vec<AnchorRange>,
        current_index: usize,
        direction: Direction,
        count: usize,
    ) -> (r: usize)
        requires
            matches@.len() > 0,
            current_index < matches@.len(),
            excerpt_ids_unique(self.doc.excerpts@),
            ranges_resolvable(self.doc.excerpts@, matches@),
            self.selections@.len() == 1 ==> match newest_selection_spec(
                self.selections@,
                self.pending_selection,
            ) {
                Some(s) => has_excerpt(self.doc.excerpts@, s.head_spec().excerpt_id.id),
                None => true,
            },
        ensures
            r < matches@.len(),
            r as int == step_index_spec(
                self.doc.excerpts@,
                matches@,
                direction_cursor(
                    self.selections@,
                    self.pending_selection,
                    matches@,
                    current_index as int,
                ),
                current_index as int,
                direction,
                count as int,
            ),
    {
        let cursor = if self.selections.len() == 1 {
            match self.newest_selection() {
                Some(s) => s.head(),
                None => unreached(),
            }
        } else {
            matches[current_index].start
        };
        match_index_for_direction(matches, &cursor, current_index, direction, count, &self.doc)
    }
}

/// The committed selection with the greatest identifier; the earliest of
/// equals wins.
pub open spec fn newest_of(sels: Seq<Selection>) -> Option<Selection>
    decreases sels.len(),
{
    if sels.len() == 0 {
        None
    } else {
        match newest_of(sels.drop_last()) {
            Some(best) => {
                if sels.last().id > best.id {
                    Some(sels.last())
                } else {
                    Some(best)
                }
            },
            None => Some(sels.last()),
        }
    }
}

/// The newest among committed and pending selections.
pub open spec fn newest_selection_spec(
    sels: Seq<Selection>,
    pending: Option<Selection>,
) -> Option<Selection> {
    match (newest_of(sels), pending) {
        (Some(best), Some(p)) => {
            if p.id > best.id {
                Some(p)
            } else {
                Some(best)
            }
        },
        (None, Some(p)) => Some(p),
        (best, _) => best,
    }
}

} // verus!
