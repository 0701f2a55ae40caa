//! Incremental view synchronization: coalescing locally observed events
//! into one in-progress delta per flush, and applying an incoming delta to
//! a follower's view.
//!
//! Applying a delta proceeds in stages, mirroring the suspension points of
//! a real session: the caller first fetches the buffers the delta's
//! insertions reference (`inserted_buffer_ids`), then mutates the document
//! structure, then decodes the delta's selection and scroll state against
//! the updated document, then waits until every decoded anchor is
//! resolvable, and only then installs the new state. `apply_update` runs
//! the whole pipeline for a caller that has already established readiness.

use vstd::prelude::*;

use crate::document::{
    anchor_resolvable_in, buffer_ids_unique, excerpt_ids_unique, excerpt_index, excerpts_wf,
    has_buffer, has_excerpt, Anchor, BufferReplica, DocumentState, Excerpt, ExcerptId,
    ROOT_EXCERPT_ID,
};
use crate::editor::{Editor, Event, ScrollAnchorState, Selection};
use crate::wire::{
    decoded_anchor, decoded_excerpt, decoded_selection, deserialize_anchor,
    deserialize_excerpt_range, deserialize_selection, serialize_anchor, serialize_selection,
    wire_anchor_of, wire_excerpt_of, wire_selection_of, WireAnchor, WireExcerpt, WireInsertion,
    WireSelection,
};

verus! {

/// Everything one view changed since the last flush: ordered excerpt
/// insertions, the set of deleted excerpt identifiers, and optionally a
/// replacement selection set, pending selection, and scroll position. The
/// scroll offsets are meaningful only alongside `scroll_top_anchor`; an
/// empty selection list together with an absent pending selection means the
/// delta carries no selection update.
pub struct ViewDelta {
    pub inserted_excerpts: Vec<WireInsertion>,
    pub deleted_excerpts: Vec<u64>,
    pub scroll_top_anchor: Option<WireAnchor>,
    pub scroll_x: u32,
    pub scroll_y: u32,
    pub selections: Vec<WireSelection>,
    pub pending_selection: Option<WireSelection>,
}

impl ViewDelta {
    /// A delta that describes no change.
    pub fn new() -> (r: ViewDelta)
        ensures
            r.inserted_excerpts@ == Seq::<WireInsertion>::empty(),
            r.deleted_excerpts@ == Seq::<u64>::empty(),
            r.scroll_top_anchor is None,
            r.scroll_x == 0,
            r.scroll_y == 0,
            r.selections@ == Seq::<WireSelection>::empty(),
            r.pending_selection is None,
    {
        ViewDelta {
            inserted_excerpts: Vec::new(),
            deleted_excerpts: Vec::new(),
            scroll_top_anchor: None,
            scroll_x: 0,
            scroll_y: 0,
            selections: Vec::new(),
            pending_selection: None,
        }
    }
}

/// The insertion list an in-progress delta starts from: the accumulated one,
/// or empty when no delta was in progress yet.
pub open spec fn base_inserted(u: Option<ViewDelta>) -> Seq<WireInsertion> {
    match u {
        Some(d) => d.inserted_excerpts@,
        None => Seq::empty(),
    }
}

/// The deletion list an in-progress delta starts from.
pub open spec fn base_deleted(u: Option<ViewDelta>) -> Seq<u64> {
    match u {
        Some(d) => d.deleted_excerpts@,
        None => Seq::empty(),
    }
}

/// The scroll anchor an in-progress delta starts from.
pub open spec fn base_scroll_anchor(u: Option<ViewDelta>) -> Option<WireAnchor> {
    match u {
        Some(d) => d.scroll_top_anchor,
        None => None,
    }
}

/// The horizontal scroll offset an in-progress delta starts from.
pub open spec fn base_scroll_x(u: Option<ViewDelta>) -> u32 {
    match u {
        Some(d) => d.scroll_x,
        None => 0,
    }
}

/// The vertical scroll offset an in-progress delta starts from.
pub open spec fn base_scroll_y(u: Option<ViewDelta>) -> u32 {
    match u {
        Some(d) => d.scroll_y,
        None => 0,
    }
}

/// The selection list an in-progress delta starts from.
pub open spec fn base_selections(u: Option<ViewDelta>) -> Seq<WireSelection> {
    match u {
        Some(d) => d.selections@,
        None => Seq::empty(),
    }
}

/// The pending selection an in-progress delta starts from.
pub open spec fn base_pending(u: Option<ViewDelta>) -> Option<WireSelection> {
    match u {
        Some(d) => d.pending_selection,
        None => None,
    }
}

/// The wire entries one excerpt-insertion event contributes: only the first
/// entry of the run names the predecessor; the rest continue the run.
pub open spec fn wire_insertions_of(
    buffer_id: u64,
    predecessor: ExcerptId,
    excerpts: Seq<(ExcerptId, crate::document::ExcerptRange)>,
) -> Seq<WireInsertion> {
    Seq::new(
        excerpts.len(),
        |i: int|
            WireInsertion {
                previous_excerpt_id: if i == 0 {
                    Some(predecessor.id)
                } else {
                    None
                },
                excerpt: Some(
                    wire_excerpt_of(
                        Excerpt { id: excerpts[i].0, buffer_id, range: excerpts[i].1 },
                    ),
                ),
            },
    )
}

/// Folds one locally observed event into the in-progress delta, creating
/// the delta on first use, and reports whether the event is one the
/// protocol must send. Each event kind updates its own dimension of the
/// delta: insertions and deletions accumulate; scroll and selection state
/// are overwritten, last write wins within a flush window.
pub fn add_event_to_delta(view: &Editor, event: &Event, update: &mut Option<ViewDelta>) -> (r: bool)
    ensures
        (*final(update)) matches Some(d) && match *event {
            Event::ExcerptsAdded { buffer_id, predecessor, excerpts } => {
                &&& r
                &&& d.inserted_excerpts@ == base_inserted(*old(update)) + wire_insertions_of(
                    buffer_id,
                    predecessor,
                    excerpts@,
                )
                &&& d.deleted_excerpts@ == base_deleted(*old(update))
                &&& d.scroll_top_anchor == base_scroll_anchor(*old(update))
                &&& d.scroll_x == base_scroll_x(*old(update))
                &&& d.scroll_y == base_scroll_y(*old(update))
                &&& d.selections@ == base_selections(*old(update))
                &&& d.pending_selection == base_pending(*old(update))
            },
            Event::ExcerptsRemoved { ids } => {
                &&& r
                &&& d.inserted_excerpts@ == base_inserted(*old(update))
                &&& d.deleted_excerpts@ == base_deleted(*old(update)) + ids@.map_values(
                    |e: ExcerptId| e.id,
                )
                &&& d.scroll_top_anchor == base_scroll_anchor(*old(update))
                &&& d.scroll_x == base_scroll_x(*old(update))
                &&& d.scroll_y == base_scroll_y(*old(update))
                &&& d.selections@ == base_selections(*old(update))
                &&& d.pending_selection == base_pending(*old(update))
            },
            Event::ScrollPositionChanged { .. } => {
                &&& r
                &&& d.inserted_excerpts@ == base_inserted(*old(update))
                &&& d.deleted_excerpts@ == base_deleted(*old(update))
                &&& d.scroll_top_anchor == Some(wire_anchor_of(view.scroll.anchor))
                &&& d.scroll_x == view.scroll.offset_x
                &&& d.scroll_y == view.scroll.offset_y
                &&& d.selections@ == base_selections(*old(update))
                &&& d.pending_selection == base_pending(*old(update))
            },
            Event::SelectionsChanged { .. } => {
                &&& r
                &&& d.inserted_excerpts@ == base_inserted(*old(update))
                &&& d.deleted_excerpts@ == base_deleted(*old(update))
                &&& d.scroll_top_anchor == base_scroll_anchor(*old(update))
                &&& d.scroll_x == base_scroll_x(*old(update))
                &&& d.scroll_y == base_scroll_y(*old(update))
                &&& d.selections@ == view.selections@.map_values(|s: Selection| wire_selection_of(s))
                &&& d.pending_selection == match view.pending_selection {
                    Some(p) => Some(wire_selection_of(p)),
                    None => None,
                }
            },
            _ => {
                &&& !r
                &&& d.inserted_excerpts@ == base_inserted(*old(update))
                &&& d.deleted_excerpts@ == base_deleted(*old(update))
                &&& d.scroll_top_anchor == base_scroll_anchor(*old(update))
                &&& d.scroll_x == base_scroll_x(*old(update))
                &&& d.scroll_y == base_scroll_y(*old(update))
                &&& d.selections@ == base_selections(*old(update))
                &&& d.pending_selection == base_pending(*old(update))
            },
        },
{
    let mut delta = match update.take() {
        Some(d) => d,
        None => ViewDelta::new(),
    };
    let result = match event {
        Event::ExcerptsAdded { buffer_id, predecessor, excerpts } => {
            let n = excerpts.len();
            let ghost d0 = delta;
            let ghost base = delta.inserted_excerpts@;
            let mut j: usize = 0;
            while j < n
                invariant
                    n == excerpts@.len(),
                    j <= n,
                    delta.inserted_excerpts@ == base + wire_insertions_of(
                        *buffer_id,
                        *predecessor,
                        excerpts@,
                    ).take(j as int),
                    delta.deleted_excerpts == d0.deleted_excerpts,
                    delta.scroll_top_anchor == d0.scroll_top_anchor,
                    delta.scroll_x == d0.scroll_x,
                    delta.scroll_y == d0.scroll_y,
                    delta.selections == d0.selections,
                    delta.pending_selection == d0.pending_selection,
                decreases n - j,
            {
                let (id, range) = excerpts[j];
                let previous_excerpt_id = if j == 0 {
                    Some(predecessor.to_wire())
                } else {
                    None
                };
                let excerpt = crate::wire::serialize_excerpt(*buffer_id, &id, &range);
                delta.inserted_excerpts.push(
                    WireInsertion { previous_excerpt_id, excerpt },
                );
                proof {
                    let all = wire_insertions_of(*buffer_id, *predecessor, excerpts@);
                    assert(all[j as int] == (WireInsertion {
                        previous_excerpt_id: if j == 0 {
                            Some(predecessor.id)
                        } else {
                            None
                        },
                        excerpt: Some(
                            wire_excerpt_of(
                                Excerpt {
                                    id: excerpts@[j as int].0,
                                    buffer_id: *buffer_id,
                                    range: excerpts@[j as int].1,
                                },
                            ),
                        ),
                    }));
                    assert(all.take(j as int + 1) =~= all.take(j as int).push(all[j as int]));
                }
                j += 1;
            }
            proof {
                let all = wire_insertions_of(*buffer_id, *predecessor, excerpts@);
                assert(all.take(n as int) =~= all);
            }
            true
        },
        Event::ExcerptsRemoved { ids } => {
            let n = ids.len();
            let ghost d0 = delta;
            let ghost base = delta.deleted_excerpts@;
            let mut j: usize = 0;
            while j < n
                invariant
                    n == ids@.len(),
                    j <= n,
                    delta.deleted_excerpts@ == base + ids@.map_values(|e: ExcerptId| e.id).take(
                        j as int,
                    ),
                    delta.inserted_excerpts == d0.inserted_excerpts,
                    delta.scroll_top_anchor == d0.scroll_top_anchor,
                    delta.scroll_x == d0.scroll_x,
                    delta.scroll_y == d0.scroll_y,
                    delta.selections == d0.selections,
                    delta.pending_selection == d0.pending_selection,
                decreases n - j,
            {
                delta.deleted_excerpts.push(ids[j].to_wire());
                proof {
                    let all = ids@.map_values(|e: ExcerptId| e.id);
                    assert(all.take(j as int + 1) =~= all.take(j as int).push(all[j as int]));
                }
                j += 1;
            }
            proof {
                let all = ids@.map_values(|e: ExcerptId| e.id);
                assert(all.take(n as int) =~= all);
            }
            true
        },
        Event::ScrollPositionChanged { .. } => {
            delta.scroll_top_anchor = Some(serialize_anchor(&view.scroll.anchor));
            delta.scroll_x = view.scroll.offset_x;
            delta.scroll_y = view.scroll.offset_y;
            true
        },
        Event::SelectionsChanged { .. } => {
            let n = view.selections.len();
            let mut serialized: Vec<WireSelection> = Vec::new();
            let mut j: usize = 0;
            while j < n
                invariant
                    n == view.selections@.len(),
                    j <= n,
                    serialized@ == view.selections@.map_values(
                        |s: Selection| wire_selection_of(s),
                    ).take(j as int),
                decreases n - j,
            {
                serialized.push(serialize_selection(&view.selections[j]));
                proof {
                    let all = view.selections@.map_values(|s: Selection| wire_selection_of(s));
                    assert(all.take(j as int + 1) =~= all.take(j as int).push(all[j as int]));
                }
                j += 1;
            }
            proof {
                let all = view.selections@.map_values(|s: Selection| wire_selection_of(s));
                assert(all.take(n as int) =~= all);
            }
            delta.selections = serialized;
            delta.pending_selection = match &view.pending_selection {
                Some(p) => Some(serialize_selection(p)),
                None => None,
            };
            true
        },
        _ => false,
    };
    *update = Some(delta);
    result
}

/// The buffer one insertion entry references, when it carries an excerpt.
pub open spec fn insertion_buffer(w: WireInsertion) -> Option<u64> {
    match w.excerpt {
        Some(e) => Some(e.buffer_id),
        None => None,
    }
}

/// True when some insertion entry of `ins` references the buffer `b`.
pub open spec fn references_buffer(ins: Seq<WireInsertion>, b: u64) -> bool {
    exists|i: int| 0 <= i < ins.len() && insertion_buffer(#[trigger] ins[i]) == Some(b)
}

/// The buffers a delta's insertions reference, each once. These are the
/// buffers a consumer must have fetched before the delta's structure can be
/// applied in full.
pub fn inserted_buffer_ids(delta: &ViewDelta) -> (r: Vec<u64>)
    ensures
        forall|b: u64| r@.contains(b) <==> references_buffer(delta.inserted_excerpts@, b),
        forall|i: int, j: int| 0 <= i < j < r@.len() ==> r@[i] != r@[j],
{
    let n = delta.inserted_excerpts.len();
    let mut r: Vec<u64> = Vec::new();
    let mut i: usize = 0;
    while i < n
        invariant
            n == delta.inserted_excerpts@.len(),
            i <= n,
            forall|b: u64|
                r@.contains(b) <==> references_buffer(
                    delta.inserted_excerpts@.take(i as int),
                    b,
                ),
            forall|k: int, j: int| 0 <= k < j < r@.len() ==> r@[k] != r@[j],
        decreases n - i,
    {
        let w = delta.inserted_excerpts[i];
        let ghost prefix = delta.inserted_excerpts@.take(i as int);
        let ghost next = delta.inserted_excerpts@.take(i as int + 1);
        proof {
            assert(next =~= prefix.push(delta.inserted_excerpts@[i as int]));
        }
        match w.excerpt {
            Some(e) => {
                let b = e.buffer_id;
                let ghost before = r@;
                if !vec_contains_u64(&r, b) {
                    r.push(b);
                    proof {
                        assert(r@[r@.len() - 1] == b);
                        assert(r@.contains(b));
                        assert forall|k: int, j: int| 0 <= k < j < r@.len() implies r@[k]
                            != r@[j] by {
                            if j < r@.len() - 1 {
                                assert(r@[k] == before[k] && r@[j] == before[j]);
                            } else {
                                assert(r@[k] == before[k]);
                                if before[k] == b {
                                    assert(before.contains(b));
                                }
                            }
                        }
                    }
                }
                proof {
                    assert(insertion_buffer(delta.inserted_excerpts@[i as int]) == Some(b));
                    assert(r@.contains(b));
                    assert forall|x: u64| before.contains(x) implies r@.contains(x) by {
                        let k = choose|k: int| 0 <= k < before.len() && before[k] == x;
                        assert(r@[k] == x);
                    }
                    assert forall|x: u64| r@.contains(x) <==> references_buffer(next, x) by {
                        if r@.contains(x) {
                            let k = choose|k: int| 0 <= k < r@.len() && r@[k] == x;
                            if k < before.len() {
                                assert(before[k] == x);
                                assert(before.contains(x));
                                let m = choose|m: int|
                                    0 <= m < prefix.len() && insertion_buffer(
                                        #[trigger] prefix[m],
                                    ) == Some(x);
                                assert(insertion_buffer(next[m]) == Some(x));
                            } else {
                                assert(x == b);
                                assert(insertion_buffer(next[next.len() - 1]) == Some(x));
                            }
                        }
                        if references_buffer(next, x) {
                            let k = choose|k: int|
                                0 <= k < next.len() && insertion_buffer(#[trigger] next[k])
                                    == Some(x);
                            if k < prefix.len() {
                                assert(insertion_buffer(prefix[k]) == Some(x));
                                assert(references_buffer(prefix, x));
                                assert(before.contains(x));
                            } else {
                                assert(x == b);
                            }
                            assert(r@.contains(x));
                        }
                    }
                }
            },
            None => {
                proof {
                    assert(insertion_buffer(delta.inserted_excerpts@[i as int]) is None);
                    assert forall|x: u64| r@.contains(x) <==> references_buffer(next, x) by {
                        if references_buffer(next, x) {
                            let k = choose|k: int|
                                0 <= k < next.len() && insertion_buffer(#[trigger] next[k])
                                    == Some(x);
                            assert(k < prefix.len());
                            assert(insertion_buffer(prefix[k]) == Some(x));
                            assert(references_buffer(prefix, x));
                        }
                        if references_buffer(prefix, x) {
                            let k = choose|k: int|
                                0 <= k < prefix.len() && insertion_buffer(#[trigger] prefix[k])
                                    == Some(x);
                            assert(insertion_buffer(next[k]) == Some(x));
                        }
                    }
                }
            },
        }
        i += 1;
    }
    proof {
        assert(delta.inserted_excerpts@.take(n as int) =~= delta.inserted_excerpts@);
    }
    r
}

/// True when the list `v` holds the value `x`.
pub fn vec_contains_u64(v: &Vec<u64>, x: u64) -> (r: bool)
    ensures
        r == v@.contains(x),
{
    let n = v.len();
    let mut i: usize = 0;
    while i < n
        invariant
            n == v@.len(),
            i <= n,
            forall|j: int| 0 <= j < i ==> v@[j] != x,
        decreases n - i,
    {
        if v[i] == x {
            return true;
        }
        i += 1;
    }
    false
}

/// The state of the insertion walk: which buffer's run is open, and at what
/// position the run's next fresh excerpt goes.
pub open spec fn open_of(b: Option<u64>, pos: usize) -> Option<(u64, int)> {
    match b {
        Some(x) => Some((x, pos as int)),
        None => None,
    }
}

/// One excerpt of an open run folded into the excerpt sequence: a decoded
/// excerpt that is fresh is inserted at the run position; one whose
/// identifier already exists, is reserved, or whose range does not decode
/// is dropped, the run staying open either way.
pub open spec fn insert_step(ex: Seq<Excerpt>, pos: int, buffer: u64, we: WireExcerpt) -> (
    Seq<Excerpt>,
    Option<(u64, int)>,
) {
    match decoded_excerpt(we) {
        Some(e) => {
            if e.id.id == ROOT_EXCERPT_ID || has_excerpt(ex, e.id.id) {
                (ex, Some((buffer, pos)))
            } else {
                (ex.insert(pos, e), Some((buffer, pos + 1)))
            }
        },
        None => (ex, Some((buffer, pos))),
    }
}

/// One insertion entry folded into the excerpt sequence. An entry naming a
/// predecessor opens a run right after it — or at the front for the
/// reserved root identifier — provided its buffer is open locally and the
/// predecessor exists; an entry without a predecessor continues the open
/// run of the same buffer. Any entry that fits neither is dropped and
/// closes the run.
pub open spec fn ins_step(
    ex: Seq<Excerpt>,
    open: Option<(u64, int)>,
    pool: Seq<BufferReplica>,
    w: WireInsertion,
) -> (Seq<Excerpt>, Option<(u64, int)>) {
    match w.excerpt {
        Some(we) => match w.previous_excerpt_id {
            Some(p) => {
                if has_buffer(pool, we.buffer_id) && (p == ROOT_EXCERPT_ID || has_excerpt(ex, p)) {
                    let pos: int = if p == ROOT_EXCERPT_ID {
                        0
                    } else {
                        excerpt_index(ex, p) + 1
                    };
                    insert_step(ex, pos, we.buffer_id, we)
                } else {
                    (ex, None)
                }
            },
            None => match open {
                Some((b, pos)) => {
                    if we.buffer_id == b {
                        insert_step(ex, pos, b, we)
                    } else {
                        (ex, None)
                    }
                },
                None => (ex, None),
            },
        },
        None => (ex, None),
    }
}

/// The excerpt sequence after folding in every entry of `ins`, starting
/// from the given run state.
pub open spec fn apply_insertions_from(
    ex: Seq<Excerpt>,
    open: Option<(u64, int)>,
    pool: Seq<BufferReplica>,
    ins: Seq<WireInsertion>,
) -> Seq<Excerpt>
    decreases ins.len(),
{
    if ins.len() == 0 {
        ex
    } else {
        let st = ins_step(ex, open, pool, ins[0]);
        apply_insertions_from(st.0, st.1, pool, ins.skip(1))
    }
}

/// The excerpt sequence after a delta's insertions, starting with no open
/// run.
pub open spec fn apply_insertions(
    ex: Seq<Excerpt>,
    pool: Seq<BufferReplica>,
    ins: Seq<WireInsertion>,
) -> Seq<Excerpt> {
    apply_insertions_from(ex, None, pool, ins)
}

/// The excerpt sequence with every excerpt whose identifier occurs in `del`
/// removed. Only membership in `del` matters, so the order a peer listed
/// the deletions in cannot matter.
pub open spec fn remove_ids(ex: Seq<Excerpt>, del: Seq<u64>) -> Seq<Excerpt>
    decreases ex.len(),
{
    if ex.len() == 0 {
        Seq::empty()
    } else {
        let rest = remove_ids(ex.drop_last(), del);
        if del.contains(ex.last().id.id) {
            rest
        } else {
            rest.push(ex.last())
        }
    }
}

/// The excerpt sequence after a whole delta: insertions first, in the order
/// given, then deletions.
pub open spec fn applied_structure(
    ex: Seq<Excerpt>,
    pool: Seq<BufferReplica>,
    delta: ViewDelta,
) -> Seq<Excerpt> {
    remove_ids(apply_insertions(ex, pool, delta.inserted_excerpts@), delta.deleted_excerpts@)
}

/// An excerpt kept by `remove_ids` is an excerpt of `ex` whose identifier
/// is not in `del`; every such excerpt is kept.
pub proof fn lemma_remove_ids_member(ex: Seq<Excerpt>, del: Seq<u64>, id: u64)
    ensures
        has_excerpt(remove_ids(ex, del), id) <==> has_excerpt(ex, id) && !del.contains(id),
    decreases ex.len(),
{
    if ex.len() == 0 {
    } else {
        lemma_remove_ids_member(ex.drop_last(), del, id);
        let r = remove_ids(ex, del);
        let rest = remove_ids(ex.drop_last(), del);
        if has_excerpt(rest, id) {
            let i = choose|i: int| 0 <= i < rest.len() && (#[trigger] rest[i]).id.id == id;
            assert(r[i] == rest[i]);
        }
        if has_excerpt(ex.drop_last(), id) {
            let i = choose|i: int|
                0 <= i < ex.drop_last().len() && (#[trigger] ex.drop_last()[i]).id.id == id;
            assert(ex[i] == ex.drop_last()[i]);
        }
        if ex.last().id.id == id {
            assert(has_excerpt(ex, id)) by {
                assert(ex[ex.len() - 1].id.id == id);
            }
            if !del.contains(id) {
                assert(r[r.len() - 1].id.id == id);
            }
        }
        if has_excerpt(ex, id) && !(ex.last().id.id == id) {
            let i = choose|i: int| 0 <= i < ex.len() && (#[trigger] ex[i]).id.id == id;
            assert(ex.drop_last()[i] == ex[i]);
        }
        if has_excerpt(r, id) && !has_excerpt(rest, id) {
            let i = choose|i: int| 0 <= i < r.len() && (#[trigger] r[i]).id.id == id;
            if !del.contains(ex.last().id.id) {
                if i < r.len() - 1 {
                    assert(rest[i].id.id == id);
                } else {
                    assert(ex.last().id.id == id);
                }
            }
        }
    }
}

/// Removal keeps the excerpt sequence well formed.
pub proof fn lemma_remove_ids_wf(ex: Seq<Excerpt>, del: Seq<u64>)
    requires
        excerpts_wf(ex),
    ensures
        excerpts_wf(remove_ids(ex, del)),
    decreases ex.len(),
{
    if ex.len() == 0 {
    } else {
        assert(excerpts_wf(ex.drop_last())) by {
            assert(forall|i: int|
                0 <= i < ex.drop_last().len() ==> ex.drop_last()[i] == (#[trigger] ex[i]));
        }
        lemma_remove_ids_wf(ex.drop_last(), del);
        let rest = remove_ids(ex.drop_last(), del);
        let r = remove_ids(ex, del);
        if !del.contains(ex.last().id.id) {
            assert(!has_excerpt(ex.drop_last(), ex.last().id.id)) by {
                if has_excerpt(ex.drop_last(), ex.last().id.id) {
                    let i = choose|i: int|
                        0 <= i < ex.drop_last().len() && (#[trigger] ex.drop_last()[i]).id.id
                            == ex.last().id.id;
                    assert(ex[i].id.id == ex[ex.len() - 1].id.id);
                }
            }
            assert(!has_excerpt(rest, ex.last().id.id)) by {
                lemma_remove_ids_member(ex.drop_last(), del, ex.last().id.id);
            }
            assert(forall|i: int| 0 <= i < rest.len() ==> rest[i] == (#[trigger] r[i]));
            assert(excerpt_ids_unique(r)) by {
                assert forall|i: int, j: int| 0 <= i < j < r.len() implies (#[trigger] r[i]).id.id
                    != (#[trigger] r[j]).id.id by {
                    if j < r.len() - 1 {
                        assert(r[i] == rest[i] && r[j] == rest[j]);
                    } else {
                        assert(r[j] == ex.last());
                        assert(r[i] == rest[i]);
                        assert(!has_excerpt(rest, ex.last().id.id));
                        assert(rest[i].id.id != ex.last().id.id) by {
                            if rest[i].id.id == ex.last().id.id {
                                assert(has_excerpt(rest, ex.last().id.id));
                            }
                        }
                    }
                }
            }
            assert(forall|i: int|
                0 <= i < r.len() ==> (#[trigger] r[i]).id.id != ROOT_EXCERPT_ID) by {
                assert(forall|i: int|
                    0 <= i < rest.len() ==> (#[trigger] rest[i]).id.id != ROOT_EXCERPT_ID);
                assert(ex.last().id.id != ROOT_EXCERPT_ID) by {
                    assert(ex[ex.len() - 1].id.id != ROOT_EXCERPT_ID);
                }
            }
        }
    }
}

/// Inserting a fresh, non-reserved excerpt keeps the sequence well formed.
pub proof fn lemma_insert_fresh_wf(ex: Seq<Excerpt>, pos: int, e: Excerpt)
    requires
        excerpts_wf(ex),
        0 <= pos <= ex.len(),
        !has_excerpt(ex, e.id.id),
        e.id.id != ROOT_EXCERPT_ID,
    ensures
        excerpts_wf(ex.insert(pos, e)),
{
    let r = ex.insert(pos, e);
    assert forall|i: int, j: int| 0 <= i < j < r.len() implies (#[trigger] r[i]).id.id
        != (#[trigger] r[j]).id.id by {
        let oi: int = if i < pos {
            i
        } else {
            i - 1
        };
        let oj: int = if j < pos {
            j
        } else {
            j - 1
        };
        if i == pos {
            assert(r[i] == e);
            assert(r[j] == ex[oj]);
            if r[j].id.id == e.id.id {
                assert(has_excerpt(ex, e.id.id));
            }
        } else if j == pos {
            assert(r[j] == e);
            assert(r[i] == ex[oi]);
            if r[i].id.id == e.id.id {
                assert(has_excerpt(ex, e.id.id));
            }
        } else {
            assert(r[i] == ex[oi]);
            assert(r[j] == ex[oj]);
        }
    }
    assert forall|i: int| 0 <= i < r.len() implies (#[trigger] r[i]).id.id != ROOT_EXCERPT_ID by {
        if i != pos {
            let oi: int = if i < pos {
                i
            } else {
                i - 1
            };
            assert(r[i] == ex[oi]);
        }
    }
}

/// One step of the insertion walk keeps the document well formed and the
/// run position in bounds.
pub proof fn lemma_ins_step_ok(
    ex: Seq<Excerpt>,
    open: Option<(u64, int)>,
    pool: Seq<BufferReplica>,
    w: WireInsertion,
)
    requires
        excerpts_wf(ex),
        match open {
            Some((b, pos)) => 0 <= pos <= ex.len(),
            None => true,
        },
    ensures
        excerpts_wf(ins_step(ex, open, pool, w).0),
        match ins_step(ex, open, pool, w).1 {
            Some((b, pos)) => 0 <= pos <= ins_step(ex, open, pool, w).0.len(),
            None => true,
        },
{
    match w.excerpt {
        Some(we) => match w.previous_excerpt_id {
            Some(p) => {
                if has_buffer(pool, we.buffer_id) && (p == ROOT_EXCERPT_ID || has_excerpt(ex, p)) {
                    let pos: int = if p == ROOT_EXCERPT_ID {
                        0
                    } else {
                        excerpt_index(ex, p) + 1
                    };
                    if p != ROOT_EXCERPT_ID {
                        let i = excerpt_index(ex, p);
                        assert(0 <= i < ex.len() && ex[i].id.id == p);
                    }
                    lemma_insert_step_ok(ex, pos, we.buffer_id, we);
                }
            },
            None => match open {
                Some((b, pos)) => {
                    if we.buffer_id == b {
                        lemma_insert_step_ok(ex, pos, b, we);
                    }
                },
                None => {},
            },
        },
        None => {},
    }
}

/// One run-internal step keeps the document well formed and the run
/// position in bounds.
pub proof fn lemma_insert_step_ok(ex: Seq<Excerpt>, pos: int, buffer: u64, we: WireExcerpt)
    requires
        excerpts_wf(ex),
        0 <= pos <= ex.len(),
    ensures
        excerpts_wf(insert_step(ex, pos, buffer, we).0),
        match insert_step(ex, pos, buffer, we).1 {
            Some((b, q)) => 0 <= q <= insert_step(ex, pos, buffer, we).0.len(),
            None => true,
        },
{
    match decoded_excerpt(we) {
        Some(e) => {
            if e.id.id == ROOT_EXCERPT_ID || has_excerpt(ex, e.id.id) {
            } else {
                lemma_insert_fresh_wf(ex, pos, e);
            }
        },
        None => {},
    }
}

/// Folds one excerpt of an open run into the document, mirroring
/// `insert_step`, and returns the new run state.
fn insert_step_exec(doc: &mut DocumentState, pos: usize, buffer: u64, we: &WireExcerpt) -> (r: (
    Option<u64>,
    usize,
))
    requires
        pos <= old(doc).excerpts@.len(),
        excerpts_wf(old(doc).excerpts@),
    ensures
        final(doc).buffers == old(doc).buffers,
        final(doc).singleton == old(doc).singleton,
        final(doc).title == old(doc).title,
        excerpts_wf(final(doc).excerpts@),
        final(doc).excerpts@ == insert_step(old(doc).excerpts@, pos as int, buffer, *we).0,
        open_of(r.0, r.1) == insert_step(old(doc).excerpts@, pos as int, buffer, *we).1,
        r.1 <= final(doc).excerpts@.len(),
        r.0 == Some(buffer),
{
    match deserialize_excerpt_range(we) {
        Some(range) => {
            let e = Excerpt { id: ExcerptId::from_wire(we.id), buffer_id: we.buffer_id, range };
            proof {
                assert(decoded_excerpt(*we) == Some(e));
            }
            if e.id.id == ROOT_EXCERPT_ID {
                (Some(buffer), pos)
            } else {
                match doc.excerpt_position(e.id.id) {
                    Some(_) => (Some(buffer), pos),
                    None => {
                        proof {
                            lemma_insert_fresh_wf(doc.excerpts@, pos as int, e);
                        }
                        doc.excerpts.insert(pos, e);
                        let grown = doc.excerpts.len();
                        proof {
                            assert(pos < grown);
                        }
                        (Some(buffer), pos + 1)
                    },
                }
            }
        },
        None => (Some(buffer), pos),
    }
}

/// Mutates the document as an incoming delta's structural part dictates:
/// insertion runs are placed after their predecessors, entries whose
/// identifier already exists or whose range does not decode are dropped,
/// and every excerpt whose identifier the delta deletes is removed —
/// deletions are interpreted as a set, so the order the peer listed them in
/// cannot matter. An insertion run whose buffer is not open locally is
/// dropped; the caller is expected to have fetched the buffers of
/// `inserted_buffer_ids` first.
pub fn apply_delta_structure(doc: &mut DocumentState, delta: &ViewDelta)
    requires
        old(doc).wf(),
    ensures
        final(doc).wf(),
        final(doc).excerpts@ == applied_structure(
            old(doc).excerpts@,
            old(doc).buffers@,
            *delta,
        ),
        final(doc).buffers == old(doc).buffers,
        final(doc).singleton == old(doc).singleton,
        final(doc).title == old(doc).title,
{
    let ghost ex0 = old(doc).excerpts@;
    let ghost pool = old(doc).buffers@;
    let ghost ins = delta.inserted_excerpts@;
    let n = delta.inserted_excerpts.len();
    let mut i: usize = 0;
    let mut run_buffer: Option<u64> = None;
    let mut run_pos: usize = 0;
    proof {
        assert(ins.skip(0) =~= ins);
    }
    while i < n
        invariant
            n == delta.inserted_excerpts@.len(),
            ins == delta.inserted_excerpts@,
            i <= n,
            doc.buffers == old(doc).buffers,
            doc.buffers@ == pool,
            doc.singleton == old(doc).singleton,
            doc.title == old(doc).title,
            excerpts_wf(doc.excerpts@),
            buffer_ids_unique(doc.buffers@),
            run_buffer matches Some(_) ==> run_pos <= doc.excerpts@.len(),
            apply_insertions_from(
                doc.excerpts@,
                open_of(run_buffer, run_pos),
                pool,
                ins.skip(i as int),
            ) == apply_insertions(ex0, pool, ins),
        decreases n - i,
    {
        let w = delta.inserted_excerpts[i];
        let ghost prev_ex = doc.excerpts@;
        let ghost prev_open = open_of(run_buffer, run_pos);
        match w.excerpt {
            Some(we) => {
                match w.previous_excerpt_id {
                    Some(p) => {
                        let buffer_ok = doc.has_open_buffer(we.buffer_id);
                        if buffer_ok && p == ROOT_EXCERPT_ID {
                            let st = insert_step_exec(doc, 0, we.buffer_id, &we);
                            run_buffer = st.0;
                            run_pos = st.1;
                        } else if buffer_ok {
                            match doc.excerpt_position(p) {
                                Some(idx) => {
                                    let len_now = doc.excerpts.len();
                                    proof {
                                        assert(idx < len_now);
                                    }
                                    let st = insert_step_exec(doc, idx + 1, we.buffer_id, &we);
                                    run_buffer = st.0;
                                    run_pos = st.1;
                                },
                                None => {
                                    run_buffer = None;
                                },
                            }
                        } else {
                            run_buffer = None;
                        }
                    },
                    None => {
                        let cont = match run_buffer {
                            Some(b) => {
                                if we.buffer_id == b {
                                    Some(b)
                                } else {
                                    None
                                }
                            },
                            None => None,
                        };
                        match cont {
                            Some(b) => {
                                let st = insert_step_exec(doc, run_pos, b, &we);
                                run_buffer = st.0;
                                run_pos = st.1;
                            },
                            None => {
                                run_buffer = None;
                            },
                        }
                    },
                }
            },
            None => {
                run_buffer = None;
            },
        }
        proof {
            assert(doc.excerpts@ == ins_step(prev_ex, prev_open, pool, ins[i as int]).0);
            assert(open_of(run_buffer, run_pos) == ins_step(
                prev_ex,
                prev_open,
                pool,
                ins[i as int],
            ).1);
            let s = ins.skip(i as int);
            assert(s[0] == ins[i as int]);
            assert(s.skip(1) =~= ins.skip(i as int + 1));
            assert(apply_insertions_from(prev_ex, prev_open, pool, s) == apply_insertions_from(
                doc.excerpts@,
                open_of(run_buffer, run_pos),
                pool,
                ins.skip(i as int + 1),
            ));
        }
        i += 1;
    }
    proof {
        assert(ins.skip(n as int) =~= Seq::<WireInsertion>::empty());
        assert(doc.excerpts@ == apply_insertions(ex0, pool, ins));
    }
    let ghost inserted = doc.excerpts@;
    let m = doc.excerpts.len();
    let mut kept: Vec<Excerpt> = Vec::new();
    let mut j: usize = 0;
    while j < m
        invariant
            m == doc.excerpts@.len(),
            j <= m,
            doc.excerpts@ == inserted,
            doc.buffers == old(doc).buffers,
            doc.singleton == old(doc).singleton,
            doc.title == old(doc).title,
            kept@ == remove_ids(inserted.take(j as int), delta.deleted_excerpts@),
        decreases m - j,
    {
        let e = doc.excerpts[j];
        if !vec_contains_u64(&delta.deleted_excerpts, e.id.id) {
            kept.push(e);
        }
        proof {
            let next = inserted.take(j as int + 1);
            assert(next.drop_last() =~= inserted.take(j as int));
            assert(next.last() == inserted[j as int]);
        }
        j += 1;
    }
    proof {
        assert(inserted.take(m as int) =~= inserted);
        assert(excerpts_wf(inserted));
        lemma_remove_ids_wf(inserted, delta.deleted_excerpts@);
    }
    doc.excerpts = kept;
}

/// The selections of a wire list that decode against the given excerpt
/// sequence, in order; the rest are dropped.
pub open spec fn decoded_selection_list(ex: Seq<Excerpt>, sels: Seq<WireSelection>) -> Seq<
    Selection,
>
    decreases sels.len(),
{
    if sels.len() == 0 {
        Seq::empty()
    } else {
        let rest = decoded_selection_list(ex, sels.drop_last());
        match decoded_selection(ex, sels.last()) {
            Some(s) => rest.push(s),
            None => rest,
        }
    }
}

/// The pending selection a delta carries, decoded; `None` when absent or
/// undecodable.
pub open spec fn decoded_pending(ex: Seq<Excerpt>, p: Option<WireSelection>) -> Option<Selection> {
    match p {
        Some(w) => decoded_selection(ex, w),
        None => None,
    }
}

/// The scroll anchor a delta carries, decoded; `None` when absent or
/// undecodable.
pub open spec fn decoded_scroll(ex: Seq<Excerpt>, a: Option<WireAnchor>) -> Option<Anchor> {
    match a {
        Some(w) => decoded_anchor(ex, w),
        None => None,
    }
}

/// Decodes a delta's selection, pending-selection, and scroll state against
/// the document — normally the document the delta's structural part was
/// already applied to. Entries that fail to decode are dropped, never
/// fatal.
pub fn decode_delta_state(doc: &DocumentState, delta: &ViewDelta) -> (r: (
    Vec<Selection>,
    Option<Selection>,
    Option<Anchor>,
))
    requires
        excerpt_ids_unique(doc.excerpts@),
    ensures
        r.0@ == decoded_selection_list(doc.excerpts@, delta.selections@),
        r.1 == decoded_pending(doc.excerpts@, delta.pending_selection),
        r.2 == decoded_scroll(doc.excerpts@, delta.scroll_top_anchor),
{
    decode_remote_state(
        doc,
        &delta.selections,
        &delta.pending_selection,
        &delta.scroll_top_anchor,
    )
}

/// Decodes wire selection and scroll state against a document. Shared by
/// the delta and snapshot consumers: full state decodes exactly as the
/// state carried by a delta does.
pub fn decode_remote_state(
    doc: &DocumentState,
    wire_selections: &Vec<WireSelection>,
    wire_pending: &Option<WireSelection>,
    wire_scroll: &Option<WireAnchor>,
) -> (r: (Vec<Selection>, Option<Selection>, Option<Anchor>))
    requires
        excerpt_ids_unique(doc.excerpts@),
    ensures
        r.0@ == decoded_selection_list(doc.excerpts@, wire_selections@),
        r.1 == decoded_pending(doc.excerpts@, *wire_pending),
        r.2 == decoded_scroll(doc.excerpts@, *wire_scroll),
{
    let n = wire_selections.len();
    let mut selections: Vec<Selection> = Vec::new();
    let mut i: usize = 0;
    while i < n
        invariant
            n == wire_selections@.len(),
            i <= n,
            excerpt_ids_unique(doc.excerpts@),
            selections@ == decoded_selection_list(doc.excerpts@, wire_selections@.take(i as int)),
        decreases n - i,
    {
        match deserialize_selection(doc, &wire_selections[i]) {
            Some(s) => selections.push(s),
            None => {},
        }
        proof {
            let next = wire_selections@.take(i as int + 1);
            assert(next.drop_last() =~= wire_selections@.take(i as int));
            assert(next.last() == wire_selections@[i as int]);
        }
        i += 1;
    }
    proof {
        assert(wire_selections@.take(n as int) =~= wire_selections@);
    }
    let pending = match wire_pending {
        Some(w) => deserialize_selection(doc, w),
        None => None,
    };
    let scroll = match wire_scroll {
        Some(w) => deserialize_anchor(doc, w),
        None => None,
    };
    (selections, pending, scroll)
}

/// True when every anchor of the given remote state — both ends of every
/// selection, of the pending selection, and the scroll anchor — is
/// resolvable against the excerpt sequence and buffer replicas.
pub open spec fn remote_state_resolvable_in(
    ex: Seq<Excerpt>,
    buffers: Seq<BufferReplica>,
    sels: Seq<Selection>,
    pending: Option<Selection>,
    scroll: Option<Anchor>,
) -> bool {
    &&& forall|i: int|
        0 <= i < sels.len() ==> anchor_resolvable_in(ex, buffers, (#[trigger] sels[i]).start)
            && anchor_resolvable_in(ex, buffers, sels[i].end)
    &&& match pending {
        Some(p) => anchor_resolvable_in(ex, buffers, p.start) && anchor_resolvable_in(
            ex,
            buffers,
            p.end,
        ),
        None => true,
    }
    &&& match scroll {
        Some(a) => anchor_resolvable_in(ex, buffers, a),
        None => true,
    }
}

/// Decides whether decoded remote state can be applied right now, or the
/// caller must keep waiting for the document's replicas to receive the
/// operations the state's anchors depend on.
pub fn remote_state_resolvable(
    doc: &DocumentState,
    selections: &Vec<Selection>,
    pending: &Option<Selection>,
    scroll: &Option<Anchor>,
) -> (r: bool)
    requires
        doc.wf(),
    ensures
        r == remote_state_resolvable_in(
            doc.excerpts@,
            doc.buffers@,
            selections@,
            *pending,
            *scroll,
        ),
{
    let n = selections.len();
    let mut i: usize = 0;
    while i < n
        invariant
            n == selections@.len(),
            i <= n,
            doc.wf(),
            forall|j: int|
                0 <= j < i ==> anchor_resolvable_in(
                    doc.excerpts@,
                    doc.buffers@,
                    (#[trigger] selections@[j]).start,
                ) && anchor_resolvable_in(doc.excerpts@, doc.buffers@, selections@[j].end),
        decreases n - i,
    {
        if !doc.can_resolve(&selections[i].start) || !doc.can_resolve(&selections[i].end) {
            return false;
        }
        i += 1;
    }
    match pending {
        Some(p) => {
            if !doc.can_resolve(&p.start) || !doc.can_resolve(&p.end) {
                return false;
            }
        },
        None => {},
    }
    match scroll {
        Some(a) => {
            if !doc.can_resolve(a) {
                return false;
            }
        },
        None => {},
    }
    true
}

/// Installs decoded remote state on the view, once every anchor of it is
/// resolvable. A delta that carries any selection — committed or pending —
/// replaces the view's selection state and asks the caller to scroll the
/// newest selection into view; otherwise a carried scroll anchor becomes
/// the new viewport position directly. The two outcomes are mutually
/// exclusive per delta.
pub fn install_remote_state(
    view: &mut Editor,
    selections: Vec<Selection>,
    pending_selection: Option<Selection>,
    scroll_anchor: Option<Anchor>,
    scroll_x: u32,
    scroll_y: u32,
) -> (autoscroll: bool)
    requires
        remote_state_resolvable_in(
            old(view).doc.excerpts@,
            old(view).doc.buffers@,
            selections@,
            pending_selection,
            scroll_anchor,
        ),
    ensures
        final(view).doc == old(view).doc,
        final(view).remote_id == old(view).remote_id,
        final(view).leader_peer == old(view).leader_peer,
        if selections@.len() > 0 || pending_selection matches Some(_) {
            &&& final(view).selections@ == selections@
            &&& final(view).pending_selection == pending_selection
            &&& final(view).scroll == old(view).scroll
            &&& autoscroll
        } else {
            match scroll_anchor {
                Some(a) => {
                    &&& final(view).selections == old(view).selections
                    &&& final(view).pending_selection == old(view).pending_selection
                    &&& final(view).scroll == (ScrollAnchorState {
                        anchor: a,
                        offset_x: scroll_x,
                        offset_y: scroll_y,
                    })
                    &&& !autoscroll
                },
                None => {
                    &&& final(view).selections == old(view).selections
                    &&& final(view).pending_selection == old(view).pending_selection
                    &&& final(view).scroll == old(view).scroll
                    &&& !autoscroll
                },
            }
        },
{
    if selections.len() > 0 || pending_selection.is_some() {
        view.selections = selections;
        view.pending_selection = pending_selection;
        true
    } else {
        match scroll_anchor {
            Some(a) => {
                view.scroll = ScrollAnchorState { anchor: a, offset_x: scroll_x, offset_y: scroll_y };
                false
            },
            None => false,
        }
    }
}

/// The excerpt sequence a delta leaves a document with.
pub open spec fn applied_excerpts(doc: DocumentState, delta: ViewDelta) -> Seq<Excerpt> {
    applied_structure(doc.excerpts@, doc.buffers@, delta)
}

/// True when the delta can be applied to completion at once: every anchor
/// of its decoded state — decoded against the document as the delta's
/// structural part leaves it — is already resolvable. Until this holds,
/// application must remain suspended after the structural part; the view's
/// selections and scroll state are not touched with unresolvable anchors.
pub open spec fn delta_ready(doc: DocumentState, delta: ViewDelta) -> bool {
    let ex = applied_excerpts(doc, delta);
    remote_state_resolvable_in(
        ex,
        doc.buffers@,
        decoded_selection_list(ex, delta.selections@),
        decoded_pending(ex, delta.pending_selection),
        decoded_scroll(ex, delta.scroll_top_anchor),
    )
}

/// Applies a whole incoming delta to a followed view: mutates the document
/// structure, decodes the carried state against the updated document, and
/// installs it. The caller must already have fetched the referenced
/// buffers it wants honoured and waited until `delta_ready` holds; a
/// session layer that cannot guarantee readiness runs the stages itself
/// and keeps waiting between decoding and installing.
pub fn apply_update(view: &mut Editor, delta: &ViewDelta) -> (autoscroll: bool)
    requires
        old(view).doc.wf(),
        delta_ready(old(view).doc, *delta),
    ensures
        final(view).doc.wf(),
        final(view).doc.excerpts@ == applied_excerpts(old(view).doc, *delta),
        final(view).doc.buffers == old(view).doc.buffers,
        final(view).doc.singleton == old(view).doc.singleton,
        final(view).doc.title == old(view).doc.title,
        final(view).remote_id == old(view).remote_id,
        final(view).leader_peer == old(view).leader_peer,
        ({
            let ex = applied_excerpts(old(view).doc, *delta);
            let sels = decoded_selection_list(ex, delta.selections@);
            let pending = decoded_pending(ex, delta.pending_selection);
            let scroll = decoded_scroll(ex, delta.scroll_top_anchor);
            if sels.len() > 0 || pending matches Some(_) {
                &&& final(view).selections@ == sels
                &&& final(view).pending_selection == pending
                &&& final(view).scroll == old(view).scroll
                &&& autoscroll
            } else {
                match scroll {
                    Some(a) => {
                        &&& final(view).selections == old(view).selections
                        &&& final(view).pending_selection == old(view).pending_selection
                        &&& final(view).scroll == (ScrollAnchorState {
                            anchor: a,
                            offset_x: delta.scroll_x,
                            offset_y: delta.scroll_y,
                        })
                        &&& !autoscroll
                    },
                    None => {
                        &&& final(view).selections == old(view).selections
                        &&& final(view).pending_selection == old(view).pending_selection
                        &&& final(view).scroll == old(view).scroll
                        &&& !autoscroll
                    },
                }
            }
        }),
{
    apply_delta_structure(&mut view.doc, delta);
    let (selections, pending, scroll) = decode_delta_state(&view.doc, delta);
    install_remote_state(view, selections, pending, scroll, delta.scroll_x, delta.scroll_y)
}

} // verus!
