//! Full-state view synchronization: describing a whole view for a newly
//! attached follower, and materializing such a description into a local
//! view. Full state is the degenerate case of a delta — no deletions, one
//! full insertion run — so the consumer shares the delta pipeline's decode
//! and install stages.

use vstd::prelude::*;

use crate::delta::{
    decoded_pending, decoded_scroll, decoded_selection_list, install_remote_state,
    remote_state_resolvable_in,
};
use crate::document::{
    buffer_ids_unique, excerpts_wf, has_buffer, has_excerpt, Anchor, AnchorSpan, BufferReplica,
    DocumentState, Excerpt, ExcerptId, ExcerptRange, TextAnchor, ROOT_EXCERPT_ID,
};
use crate::editor::{Editor, ScrollAnchorState, Selection, ViewId};
use crate::wire::{
    decoded_excerpt, serialize_anchor, serialize_excerpt, serialize_selection, wire_anchor_of,
    wire_excerpt_of, wire_selection_of, WireAnchor, WireExcerpt, WireSelection,
};

verus! {

/// The excerpt identifier a document wrapping one whole buffer uses for its
/// sole excerpt.
pub const SINGLETON_EXCERPT_ID: u64 = 1;

/// A complete description of one participant's view: whether the document
/// is a single whole buffer, a title meaningful only when it is not, the
/// excerpt list in document order, and the current selection and scroll
/// state. Produced on demand, never persisted.
pub struct ViewSnapshot {
    pub singleton: bool,
    pub title: Option<String>,
    pub excerpts: Vec<WireExcerpt>,
    pub scroll_top_anchor: Option<WireAnchor>,
    pub scroll_x: u32,
    pub scroll_y: u32,
    pub selections: Vec<WireSelection>,
    pub pending_selection: Option<WireSelection>,
}

impl Editor {
    /// Describes this view in full for a newly attached follower.
    pub fn to_state_proto(&self) -> (r: ViewSnapshot)
        ensures
            r.singleton == self.doc.singleton,
            r.title == if self.doc.singleton {
                Option::<String>::None
            } else {
                Some(self.doc.title)
            },
            r.excerpts@ == self.doc.excerpts@.map_values(|e: Excerpt| wire_excerpt_of(e)),
            r.scroll_top_anchor == Some(wire_anchor_of(self.scroll.anchor)),
            r.scroll_x == self.scroll.offset_x,
            r.scroll_y == self.scroll.offset_y,
            r.selections@ == self.selections@.map_values(|s: Selection| wire_selection_of(s)),
            r.pending_selection == match self.pending_selection {
                Some(p) => Some(wire_selection_of(p)),
                None => None,
            },
    {
        let n = self.doc.excerpts.len();
        let mut excerpts: Vec<WireExcerpt> = Vec::new();
        let mut i: usize = 0;
        while i < n
            invariant
                n == self.doc.excerpts@.len(),
                i <= n,
                excerpts@ == self.doc.excerpts@.map_values(|e: Excerpt| wire_excerpt_of(e)).take(
                    i as int,
                ),
            decreases n - i,
        {
            let e = self.doc.excerpts[i];
            match serialize_excerpt(e.buffer_id, &e.id, &e.range) {
                Some(we) => excerpts.push(we),
                None => {},
            }
            proof {
                let all = self.doc.excerpts@.map_values(|e: Excerpt| wire_excerpt_of(e));
                assert(all.take(i as int + 1) =~= all.take(i as int).push(all[i as int]));
            }
            i += 1;
        }
        proof {
            let all = self.doc.excerpts@.map_values(|e: Excerpt| wire_excerpt_of(e));
            assert(all.take(n as int) =~= all);
        }
        let m = self.selections.len();
        let mut selections: Vec<WireSelection> = Vec::new();
        let mut j: usize = 0;
        while j < m
            invariant
                m == self.selections@.len(),
                j <= m,
                selections@ == self.selections@.map_values(|s: Selection| wire_selection_of(s)).take(
                    j as int,
                ),
            decreases m - j,
        {
            selections.push(serialize_selection(&self.selections[j]));
            proof {
                let all = self.selections@.map_values(|s: Selection| wire_selection_of(s));
                assert(all.take(j as int + 1) =~= all.take(j as int).push(all[j as int]));
            }
            j += 1;
        }
        proof {
            let all = self.selections@.map_values(|s: Selection| wire_selection_of(s));
            assert(all.take(m as int) =~= all);
        }
        ViewSnapshot {
            singleton: self.doc.singleton,
            title: if self.doc.singleton {
                None
            } else {
                Some(self.doc.title.clone())
            },
            excerpts,
            scroll_top_anchor: Some(serialize_anchor(&self.scroll.anchor)),
            scroll_x: self.scroll.offset_x,
            scroll_y: self.scroll.offset_y,
            selections,
            pending_selection: match &self.pending_selection {
                Some(p) => Some(serialize_selection(p)),
                None => None,
            },
        }
    }
}

/// True when some excerpt of `ws` references the buffer `b`.
pub open spec fn snapshot_references_buffer(ws: Seq<WireExcerpt>, b: u64) -> bool {
    exists|i: int| 0 <= i < ws.len() && (#[trigger] ws[i]).buffer_id == b
}

/// The buffers a snapshot's excerpts reference, each once: what a consumer
/// must fetch before materializing.
pub fn snapshot_buffer_ids(snapshot: &ViewSnapshot) -> (r: Vec<u64>)
    ensures
        forall|b: u64| r@.contains(b) <==> snapshot_references_buffer(snapshot.excerpts@, b),
        forall|i: int, j: int| 0 <= i < j < r@.len() ==> r@[i] != r@[j],
{
    let n = snapshot.excerpts.len();
    let mut r: Vec<u64> = Vec::new();
    let mut i: usize = 0;
    while i < n
        invariant
            n == snapshot.excerpts@.len(),
            i <= n,
            forall|b: u64|
                r@.contains(b) <==> snapshot_references_buffer(
                    snapshot.excerpts@.take(i as int),
                    b,
                ),
            forall|k: int, j: int| 0 <= k < j < r@.len() ==> r@[k] != r@[j],
        decreases n - i,
    {
        let ghost prefix = snapshot.excerpts@.take(i as int);
        let ghost before = r@;
        let b = snapshot.excerpts[i].buffer_id;
        if !crate::delta::vec_contains_u64(&r, b) {
            r.push(b);
            proof {
                assert(r@[r@.len() - 1] == b);
                assert forall|k: int, j: int| 0 <= k < j < r@.len() implies r@[k] != r@[j] by {
                    if j < r@.len() - 1 {
                        assert(r@[k] == before[k] && r@[j] == before[j]);
                    } else {
                        assert(r@[k] == before[k]);
                        if before[k] == b {
                            assert(before.contains(b));
                        }
                    }
                }
            }
        }
        proof {
            let next = snapshot.excerpts@.take(i as int + 1);
            assert(next =~= prefix.push(snapshot.excerpts@[i as int]));
            assert(next[next.len() - 1].buffer_id == b);
            assert(r@.contains(b));
            assert forall|x: u64| r@.contains(x) <==> snapshot_references_buffer(next, x) by {
                if r@.contains(x) {
                    let k = choose|k: int| 0 <= k < r@.len() && r@[k] == x;
                    if k < before.len() {
                        assert(before[k] == x);
                        assert(before.contains(x));
                        let m = choose|m: int|
                            0 <= m < prefix.len() && (#[trigger] prefix[m]).buffer_id == x;
                        assert(next[m].buffer_id == x);
                    } else {
                        assert(x == b);
                    }
                }
                if snapshot_references_buffer(next, x) {
                    let k = choose|k: int|
                        0 <= k < next.len() && (#[trigger] next[k]).buffer_id == x;
                    if k < prefix.len() {
                        assert(prefix[k].buffer_id == x);
                        assert(snapshot_references_buffer(prefix, x));
                        assert(before.contains(x));
                        let m = choose|m: int| 0 <= m < before.len() && before[m] == x;
                        assert(r@[m] == x);
                    } else {
                        assert(x == b);
                    }
                    assert(r@.contains(x));
                }
            }
        }
        i += 1;
    }
    proof {
        assert(snapshot.excerpts@.take(n as int) =~= snapshot.excerpts@);
    }
    r
}

/// The sole buffer a singleton snapshot references, when it is one.
pub open spec fn snapshot_singleton_buffer(s: ViewSnapshot) -> Option<u64> {
    if s.singleton && s.excerpts@.len() > 0 {
        Some(s.excerpts@[0].buffer_id)
    } else {
        None
    }
}

/// The sole buffer a view shows, when its document is a single whole
/// buffer.
pub open spec fn view_singleton_buffer(v: Editor) -> Option<u64> {
    if v.doc.singleton && v.doc.excerpts@.len() > 0 {
        Some(v.doc.excerpts@[0].buffer_id)
    } else {
        None
    }
}

/// Decides whether an existing local view already represents the incoming
/// snapshot, so that no duplicate view is built: either it already mirrors
/// the same remote identity, or the snapshot is a singleton over exactly
/// the buffer the local view is a singleton over.
pub fn should_reuse_view(view: &Editor, snapshot: &ViewSnapshot, remote_id: ViewId) -> (r: bool)
    ensures
        r == reuses_view(*view, *snapshot, remote_id),
{
    let ids_match = match view.remote_id {
        Some(id) => id.creator == remote_id.creator && id.id == remote_id.id,
        None => false,
    };
    let singleton_matches = if snapshot.singleton && snapshot.excerpts.len() > 0
        && view.doc.is_singleton() && view.doc.excerpts.len() > 0 {
        snapshot.excerpts[0].buffer_id == view.doc.excerpts[0].buffer_id
    } else {
        false
    };
    ids_match || singleton_matches
}

/// The predicate `should_reuse_view` decides with, at the specification
/// level.
pub open spec fn reuses_view(view: Editor, s: ViewSnapshot, remote_id: ViewId) -> bool {
    view.remote_id == Some(remote_id) || (snapshot_singleton_buffer(s) is Some
        && snapshot_singleton_buffer(s) == view_singleton_buffer(view))
}

/// Finds the first live view that already represents the incoming
/// snapshot, if any: the registry consulted before a new view is built, so
/// that following never duplicates a view.
pub fn find_reusable_view(views: &Vec<Editor>, snapshot: &ViewSnapshot, remote_id: ViewId) -> (r:
    Option<usize>)
    ensures
        match r {
            Some(i) => {
                &&& i < views@.len()
                &&& reuses_view(views@[i as int], *snapshot, remote_id)
                &&& forall|j: int|
                    0 <= j < i ==> !reuses_view(#[trigger] views@[j], *snapshot, remote_id)
            },
            None => forall|j: int|
                0 <= j < views@.len() ==> !reuses_view(#[trigger] views@[j], *snapshot, remote_id),
        },
{
    let n = views.len();
    let mut i: usize = 0;
    while i < n
        invariant
            n == views@.len(),
            i <= n,
            forall|j: int| 0 <= j < i ==> !reuses_view(#[trigger] views@[j], *snapshot, remote_id),
        decreases n - i,
    {
        if should_reuse_view(&views[i], snapshot, remote_id) {
            return Some(i);
        }
        i += 1;
    }
    None
}

/// The excerpt a document wrapping one whole buffer consists of: the
/// reserved singleton excerpt spanning the buffer from start to end.
pub open spec fn whole_buffer_excerpt(b: BufferReplica) -> Excerpt {
    Excerpt {
        id: ExcerptId { id: SINGLETON_EXCERPT_ID },
        buffer_id: b.id,
        range: ExcerptRange {
            context: AnchorSpan {
                start: TextAnchor { offset: 0, version: 0 },
                end: TextAnchor { offset: b.len, version: 0 },
            },
            primary: None,
        },
    }
}

/// The excerpts a snapshot's wire list materializes to: entries are kept in
/// order; one whose range does not decode, whose identifier is reserved,
/// or whose identifier already occurred is dropped.
pub open spec fn materialized_excerpts(ws: Seq<WireExcerpt>) -> Seq<Excerpt>
    decreases ws.len(),
{
    if ws.len() == 0 {
        Seq::empty()
    } else {
        let rest = materialized_excerpts(ws.drop_last());
        match decoded_excerpt(ws.last()) {
            Some(e) => {
                if e.id.id == ROOT_EXCERPT_ID || has_excerpt(rest, e.id.id) {
                    rest
                } else {
                    rest.push(e)
                }
            },
            None => rest,
        }
    }
}

/// Builds the local composite document a snapshot describes, against the
/// buffers the caller fetched. Returns `None` — the whole materialization
/// aborts — when some referenced buffer is not among them. A singleton
/// snapshot over one buffer wraps that buffer whole; any other snapshot is
/// stitched excerpt by excerpt, keeping the identifiers of the wire.
pub fn materialize_document(snapshot: &ViewSnapshot, pool: Vec<BufferReplica>) -> (r: Option<
    DocumentState,
>)
    requires
        buffer_ids_unique(pool@),
    ensures
        match r {
            Some(doc) => {
                &&& forall|b: u64|
                    snapshot_references_buffer(snapshot.excerpts@, b) ==> has_buffer(pool@, b)
                &&& doc.wf()
                &&& doc.buffers@ == pool@
                &&& doc.title@ == match snapshot.title {
                    Some(t) => t@,
                    None => Seq::<char>::empty(),
                }
                &&& doc.singleton == (snapshot.singleton && one_referenced_buffer(
                    snapshot.excerpts@,
                ))
                &&& if snapshot.singleton && one_referenced_buffer(snapshot.excerpts@) {
                    doc.excerpts@ == seq![
                        whole_buffer_excerpt(
                            pool@[crate::document::buffer_index(
                                pool@,
                                snapshot.excerpts@[0].buffer_id,
                            )],
                        ),
                    ]
                } else {
                    doc.excerpts@ == materialized_excerpts(snapshot.excerpts@)
                }
            },
            None => exists|b: u64|
                snapshot_references_buffer(snapshot.excerpts@, b) && !has_buffer(pool@, b),
        },
{
    let referenced = snapshot_buffer_ids(snapshot);
    let n = referenced.len();
    let mut i: usize = 0;
    while i < n
        invariant
            n == referenced@.len(),
            i <= n,
            buffer_ids_unique(pool@),
            forall|b: u64|
                referenced@.contains(b) <==> snapshot_references_buffer(snapshot.excerpts@, b),
            forall|j: int| 0 <= j < i ==> has_buffer(pool@, #[trigger] referenced@[j]),
        decreases n - i,
    {
        if !buffers_contain(&pool, referenced[i]) {
            proof {
                let missing = referenced@[i as int];
                assert(referenced@.contains(missing));
                assert(snapshot_references_buffer(snapshot.excerpts@, missing));
                assert(!has_buffer(pool@, missing));
            }
            return None;
        }
        i += 1;
    }
    proof {
        assert forall|b: u64|
            snapshot_references_buffer(snapshot.excerpts@, b) implies has_buffer(pool@, b) by {
            assert(referenced@.contains(b));
            let j = choose|j: int| 0 <= j < referenced@.len() && referenced@[j] == b;
            assert(has_buffer(pool@, referenced@[j]));
        }
    }
    let title = match &snapshot.title {
        Some(t) => t.clone(),
        None => String::new(),
    };
    if snapshot.singleton && all_one_buffer(&snapshot.excerpts) {
        let b = snapshot.excerpts[0].buffer_id;
        proof {
            assert(snapshot_references_buffer(snapshot.excerpts@, b)) by {
                assert(snapshot.excerpts@[0].buffer_id == b);
            }
        }
        let replica = find_buffer(&pool, b);
        let mut excerpts: Vec<Excerpt> = Vec::new();
        excerpts.push(
            Excerpt {
                id: ExcerptId { id: SINGLETON_EXCERPT_ID },
                buffer_id: replica.id,
                range: ExcerptRange {
                    context: AnchorSpan {
                        start: TextAnchor { offset: 0, version: 0 },
                        end: TextAnchor { offset: replica.len, version: 0 },
                    },
                    primary: None,
                },
            },
        );
        proof {
            assert(excerpts@ =~= seq![
                whole_buffer_excerpt(pool@[crate::document::buffer_index(pool@, b)]),
            ]);
        }
        Some(DocumentState { excerpts, singleton: true, title, buffers: pool })
    } else {
        let m = snapshot.excerpts.len();
        let mut excerpts: Vec<Excerpt> = Vec::new();
        let mut j: usize = 0;
        while j < m
            invariant
                m == snapshot.excerpts@.len(),
                j <= m,
                excerpts@ == materialized_excerpts(snapshot.excerpts@.take(j as int)),
                excerpts_wf(excerpts@),
            decreases m - j,
        {
            let we = snapshot.excerpts[j];
            let ghost before = excerpts@;
            match crate::wire::deserialize_excerpt_range(&we) {
                Some(range) => {
                    let e = Excerpt {
                        id: ExcerptId::from_wire(we.id),
                        buffer_id: we.buffer_id,
                        range,
                    };
                    proof {
                        assert(decoded_excerpt(we) == Some(e));
                    }
                    if e.id.id != ROOT_EXCERPT_ID && !has_excerpt_exec(&excerpts, e.id.id) {
                        excerpts.push(e);
                        proof {
                            let s = excerpts@;
                            assert(s.drop_last() =~= before);
                            assert forall|a: int, b: int|
                                0 <= a < b < s.len() implies (#[trigger] s[a]).id.id
                                != (#[trigger] s[b]).id.id by {
                                if b == s.len() - 1 {
                                    if s[a].id.id == e.id.id {
                                        assert(has_excerpt(before, e.id.id));
                                    }
                                }
                            }
                        }
                    }
                },
                None => {},
            }
            proof {
                let next = snapshot.excerpts@.take(j as int + 1);
                assert(next.drop_last() =~= snapshot.excerpts@.take(j as int));
                assert(next.last() == snapshot.excerpts@[j as int]);
            }
            j += 1;
        }
        proof {
            assert(snapshot.excerpts@.take(m as int) =~= snapshot.excerpts@);
        }
        Some(
            DocumentState { excerpts, singleton: false, title, buffers: pool },
        )
    }
}

/// True when the list of replicas holds one for buffer `id`.
fn buffers_contain(pool: &Vec<BufferReplica>, id: u64) -> (r: bool)
    ensures
        r == has_buffer(pool@, id),
{
    let n = pool.len();
    let mut i: usize = 0;
    while i < n
        invariant
            n == pool@.len(),
            i <= n,
            forall|j: int| 0 <= j < i ==> (#[trigger] pool@[j]).id != id,
        decreases n - i,
    {
        if pool[i].id == id {
            return true;
        }
        i += 1;
    }
    false
}

/// The replica for buffer `id`, which must be present.
fn find_buffer(pool: &Vec<BufferReplica>, id: u64) -> (r: BufferReplica)
    requires
        buffer_ids_unique(pool@),
        has_buffer(pool@, id),
    ensures
        r == pool@[crate::document::buffer_index(pool@, id)],
        r.id == id,
{
    let n = pool.len();
    let mut i: usize = 0;
    while i < n
        invariant
            n == pool@.len(),
            i <= n,
            buffer_ids_unique(pool@),
            has_buffer(pool@, id),
            forall|j: int| 0 <= j < i ==> (#[trigger] pool@[j]).id != id,
        decreases n - i,
    {
        if pool[i].id == id {
            proof {
                let w = crate::document::buffer_index(pool@, id);
                assert(0 <= w < pool@.len() && pool@[w].id == id);
            }
            return pool[i];
        }
        i += 1;
    }
    proof {
        let w = crate::document::buffer_index(pool@, id);
        assert(0 <= w < pool@.len() && pool@[w].id == id);
    }
    unreached()
}

/// True when the excerpt list holds one carrying `id`.
fn has_excerpt_exec(excerpts: &Vec<Excerpt>, id: u64) -> (r: bool)
    ensures
        r == has_excerpt(excerpts@, id),
{
    let n = excerpts.len();
    let mut i: usize = 0;
    while i < n
        invariant
            n == excerpts@.len(),
            i <= n,
            forall|j: int| 0 <= j < i ==> (#[trigger] excerpts@[j]).id.id != id,
        decreases n - i,
    {
        if excerpts[i].id.id == id {
            return true;
        }
        i += 1;
    }
    false
}

/// The excerpt sequence materialization gives a snapshot against a given
/// buffer pool: one whole-buffer excerpt for a singleton snapshot, the
/// decoded wire list otherwise. Meaningful when the referenced buffers are
/// in the pool.
/// True when every excerpt of the snapshot references one and the same
/// buffer — what `singleton` promises.
pub open spec fn one_referenced_buffer(ws: Seq<WireExcerpt>) -> bool {
    ws.len() > 0 && forall|i: int| 0 <= i < ws.len() ==> (#[trigger] ws[i]).buffer_id
        == ws[0].buffer_id
}

pub open spec fn materialized_doc_excerpts(s: ViewSnapshot, pool: Seq<BufferReplica>) -> Seq<
    Excerpt,
> {
    if s.singleton && one_referenced_buffer(s.excerpts@) {
        seq![
            whole_buffer_excerpt(
                pool[crate::document::buffer_index(pool, s.excerpts@[0].buffer_id)],
            ),
        ]
    } else {
        materialized_excerpts(s.excerpts@)
    }
}

/// True when the excerpt list is non-empty and references one buffer.
fn all_one_buffer(ws: &Vec<WireExcerpt>) -> (r: bool)
    ensures
        r == one_referenced_buffer(ws@),
{
    let n = ws.len();
    if n == 0 {
        return false;
    }
    let first = ws[0].buffer_id;
    let mut i: usize = 0;
    while i < n
        invariant
            n == ws@.len(),
            n > 0,
            i <= n,
            first == ws@[0].buffer_id,
            forall|j: int| 0 <= j < i ==> (#[trigger] ws@[j]).buffer_id == first,
        decreases n - i,
    {
        if ws[i].buffer_id != first {
            return false;
        }
        i += 1;
    }
    true
}

/// True when the embedded state of a snapshot, decoded against the
/// excerpts its materialization produces, is fully resolvable against the
/// pool: the point at which materialization may stop waiting and install
/// that state.
pub open spec fn snapshot_ready(s: ViewSnapshot, pool: Seq<BufferReplica>) -> bool {
    let ex = materialized_doc_excerpts(s, pool);
    remote_state_resolvable_in(
        ex,
        pool,
        decoded_selection_list(ex, s.selections@),
        decoded_pending(ex, s.pending_selection),
        decoded_scroll(ex, s.scroll_top_anchor),
    )
}

/// The viewport position a freshly materialized view starts with, before
/// the snapshot's own scroll state is installed: the very top of the
/// document.
pub open spec fn initial_scroll() -> ScrollAnchorState {
    ScrollAnchorState {
        anchor: Anchor {
            excerpt_id: ExcerptId { id: ROOT_EXCERPT_ID },
            text_anchor: TextAnchor { offset: 0, version: 0 },
            buffer_id: None,
        },
        offset_x: 0,
        offset_y: 0,
    }
}

/// Materializes a followed view from a snapshot, after the caller fetched
/// the referenced buffers and waited until the embedded anchors resolve:
/// builds the document, decodes the embedded selection and scroll state
/// against it, and installs that state exactly as an incoming delta would.
/// Returns `None` — materialization aborts, no view is built — when a
/// referenced buffer is missing from `pool`.
pub fn from_state_proto(snapshot: &ViewSnapshot, pool: Vec<BufferReplica>, remote_id: ViewId) -> (r:
    Option<Editor>)
    requires
        buffer_ids_unique(pool@),
        snapshot_ready(*snapshot, pool@),
    ensures
        match r {
            Some(view) => {
                &&& view.doc.wf()
                &&& view.doc.excerpts@ == materialized_doc_excerpts(*snapshot, pool@)
                &&& view.doc.buffers@ == pool@
                &&& view.doc.singleton == (snapshot.singleton && one_referenced_buffer(
                    snapshot.excerpts@,
                ))
                &&& view.remote_id == Some(remote_id)
                &&& view.leader_peer is None
                &&& ({
                    let ex = materialized_doc_excerpts(*snapshot, pool@);
                    let sels = decoded_selection_list(ex, snapshot.selections@);
                    let pending = decoded_pending(ex, snapshot.pending_selection);
                    let scroll = decoded_scroll(ex, snapshot.scroll_top_anchor);
                    if sels.len() > 0 || pending matches Some(_) {
                        &&& view.selections@ == sels
                        &&& view.pending_selection == pending
                        &&& view.scroll == initial_scroll()
                    } else {
                        match scroll {
                            Some(a) => view.selections@.len() == 0 && view.pending_selection
                                is None && view.scroll == (ScrollAnchorState {
                                anchor: a,
                                offset_x: snapshot.scroll_x,
                                offset_y: snapshot.scroll_y,
                            }),
                            None => view.selections@.len() == 0 && view.pending_selection is None
                                && view.scroll == initial_scroll(),
                        }
                    }
                })
            },
            None => exists|b: u64|
                snapshot_references_buffer(snapshot.excerpts@, b) && !has_buffer(pool@, b),
        },
{
    let doc = match materialize_document(snapshot, pool) {
        Some(doc) => doc,
        None => {
            return None;
        },
    };
    let mut view = Editor {
        remote_id: Some(remote_id),
        leader_peer: None,
        doc,
        selections: Vec::new(),
        pending_selection: None,
        scroll: ScrollAnchorState {
            anchor: Anchor {
                excerpt_id: ExcerptId::from_wire(ROOT_EXCERPT_ID),
                text_anchor: TextAnchor { offset: 0, version: 0 },
                buffer_id: None,
            },
            offset_x: 0,
            offset_y: 0,
        },
    };
    let (selections, pending, scroll) = crate::delta::decode_remote_state(
        &view.doc,
        &snapshot.selections,
        &snapshot.pending_selection,
        &snapshot.scroll_top_anchor,
    );
    install_remote_state(
        &mut view,
        selections,
        pending,
        scroll,
        snapshot.scroll_x,
        snapshot.scroll_y,
    );
    Some(view)
}

} // verus!
