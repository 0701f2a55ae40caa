//! The cursor-position readout: which row and column the newest selection's
//! cursor sits at, and how many characters all selections cover. The text
//! engine resolves each selection to plain offsets and a display point;
//! this module does the arithmetic and the choice of selection.

use vstd::prelude::*;

verus! {

/// A display position: zero-based row and column.
#[derive(Clone, Copy, PartialEq, Eq, Structural, Debug)]
pub struct Point {
    pub row: u32,
    pub column: u32,
}

/// One selection as the text engine resolves it: plain buffer offsets with
/// `start <= end`, and the display point of its cursor end.
#[derive(Clone, Copy, PartialEq, Eq, Structural, Debug)]
pub struct OffsetSelection {
    pub id: u64,
    pub start: u64,
    pub end: u64,
    pub reversed: bool,
    pub head: Point,
}

/// The number of characters the selections cover, added up.
pub open spec fn selected_sum(sels: Seq<OffsetSelection>) -> int
    decreases sels.len(),
{
    if sels.len() == 0 {
        0
    } else {
        selected_sum(sels.drop_last()) + (sels.last().end - sels.last().start)
    }
}

/// The selection the user acted on last: greatest identifier, the earliest
/// of equals.
pub open spec fn last_selection(sels: Seq<OffsetSelection>) -> Option<OffsetSelection>
    decreases sels.len(),
{
    if sels.len() == 0 {
        None
    } else {
        match last_selection(sels.drop_last()) {
            Some(best) => {
                if sels.last().id > best.id {
                    Some(sels.last())
                } else {
                    Some(best)
                }
            },
            None => Some(sels.last()),
        }
    }
}

/// The state behind the cursor-position readout.
pub struct CursorPosition {
    pub position: Option<Point>,
    pub selected_count: u64,
}

impl CursorPosition {
    /// A readout with no active editor: no position, nothing selected.
    pub fn new() -> (r: CursorPosition)
        ensures
            r.position is None,
            r.selected_count == 0,
    {
        CursorPosition { position: None, selected_count: 0 }
    }

    /// Recomputes the readout from the active editor's selections: the
    /// position shown is the head of the newest selection, and the count
    /// is the total number of characters selected.
    pub fn update_position(&mut self, selections: &Vec<OffsetSelection>)
        requires
            forall|i: int|
                0 <= i < selections@.len() ==> (#[trigger] selections@[i]).start
                    <= selections@[i].end,
            selected_sum(selections@) <= u64::MAX,
        ensures
            final(self).selected_count == selected_sum(selections@),
            final(self).position == match last_selection(selections@) {
                Some(s) => Some(s.head),
                None => Option::<Point>::None,
            },
    {
        let n = selections.len();
        let mut count: u64 = 0;
        let mut last: Option<OffsetSelection> = None;
        let mut i: usize = 0;
        while i < n
            invariant
                n == selections@.len(),
                i <= n,
                forall|k: int|
                    0 <= k < selections@.len() ==> (#[trigger] selections@[k]).start
                        <= selections@[k].end,
                selected_sum(selections@) <= u64::MAX,
                count == selected_sum(selections@.take(i as int)),
                last == last_selection(selections@.take(i as int)),
            decreases n - i,
        {
            let s = selections[i];
            proof {
                let next = selections@.take(i as int + 1);
                assert(next.drop_last() =~= selections@.take(i as int));
                assert(next.last() == selections@[i as int]);
                lemma_selected_sum_prefix(selections@, i as int + 1);
            }
            count = count + (s.end - s.start);
            last = match last {
                Some(best) => {
                    if s.id > best.id {
                        Some(s)
                    } else {
                        Some(best)
                    }
                },
                None => Some(s),
            };
            i += 1;
        }
        proof {
            assert(selections@.take(n as int) =~= selections@);
        }
        self.selected_count = count;
        self.position = match last {
            Some(s) => Some(s.head),
            None => None,
        };
    }
}

impl Default for CursorPosition {
    /// The same empty readout `new` builds.
    fn default() -> (r: CursorPosition)
        ensures
            r.position is None,
            r.selected_count == 0,
    {
        CursorPosition::new()
    }
}

/// Selections cover a non-negative count, and a prefix never covers more
/// than the whole list.
proof fn lemma_selected_sum_prefix(sels: Seq<OffsetSelection>, i: int)
    requires
        0 <= i <= sels.len(),
        forall|k: int| 0 <= k < sels.len() ==> (#[trigger] sels[k]).start <= sels[k].end,
    ensures
        0 <= selected_sum(sels.take(i)),
        selected_sum(sels.take(i)) <= selected_sum(sels),
    decreases sels.len() - i,
{
    lemma_selected_sum_nonneg(sels.take(i));
    if i == sels.len() {
        assert(sels.take(i) =~= sels);
    } else {
        lemma_selected_sum_prefix(sels, i + 1);
        let next = sels.take(i + 1);
        assert(next.drop_last() =~= sels.take(i));
        assert(next.last() == sels[i]);
    }
}

/// A sum over selections with `start <= end` is never negative.
proof fn lemma_selected_sum_nonneg(sels: Seq<OffsetSelection>)
    requires
        forall|k: int| 0 <= k < sels.len() ==> (#[trigger] sels[k]).start <= sels[k].end,
    ensures
        0 <= selected_sum(sels),
    decreases sels.len(),
{
    if sels.len() > 0 {
        assert(forall|k: int|
            0 <= k < sels.drop_last().len() ==> sels.drop_last()[k] == (#[trigger] sels[k]));
        lemma_selected_sum_nonneg(sels.drop_last());
        assert(sels[sels.len() - 1].start <= sels[sels.len() - 1].end);
    }
}

} // verus!
