//! The composite document: excerpts stitched from source buffers, and the
//! local replica state needed to decide whether a position anchor can be
//! resolved.

use vstd::prelude::*;

verus! {

/// The reserved identifier value that no real excerpt carries. An insertion
/// whose predecessor is this value goes to the front of the document.
pub const ROOT_EXCERPT_ID: u64 = 0;

/// Identifier of one contiguous span of a source buffer as stitched into the
/// composite document. Identifiers are never reused after deletion.
#[derive(Clone, Copy, PartialEq, Eq, Structural, Debug)]
pub struct ExcerptId {
    pub id: u64,
}

impl ExcerptId {
    /// The wire representation of this identifier.
    pub fn to_wire(&self) -> (r: u64)
        ensures
            r == self.id,
    {
        self.id
    }

    /// Reads an identifier back from its wire representation.
    pub fn from_wire(id: u64) -> (r: ExcerptId)
        ensures
            r.id == id,
    {
        ExcerptId { id }
    }
}

/// A buffer-relative position that survives concurrent edits to the buffer.
/// `offset` is the position itself; `version` is how much of the buffer's
/// operation log the position's creation depended on. A replica can resolve
/// the anchor only once it has received at least that much of the log.
#[derive(Clone, Copy, PartialEq, Eq, Structural, Debug)]
pub struct TextAnchor {
    pub offset: u64,
    pub version: u64,
}

/// A start/end pair of buffer-relative positions.
#[derive(Clone, Copy, PartialEq, Eq, Structural, Debug)]
pub struct AnchorSpan {
    pub start: TextAnchor,
    pub end: TextAnchor,
}

/// The spans an excerpt displays: the full `context` span, and an optional
/// `primary` sub-span marking the semantically relevant part of it.
#[derive(Clone, Copy, PartialEq, Eq, Structural, Debug)]
pub struct ExcerptRange {
    pub context: AnchorSpan,
    pub primary: Option<AnchorSpan>,
}

/// One contiguous span of a source buffer as it appears in the composite
/// document.
#[derive(Clone, Copy, PartialEq, Eq, Structural, Debug)]
pub struct Excerpt {
    pub id: ExcerptId,
    pub buffer_id: u64,
    pub range: ExcerptRange,
}

/// A composite-document-relative position: a buffer-relative anchor addressed
/// into one excerpt. `buffer_id` caches which buffer the excerpt drew from at
/// decode time, when that was known.
#[derive(Clone, Copy, PartialEq, Eq, Structural, Debug)]
pub struct Anchor {
    pub excerpt_id: ExcerptId,
    pub text_anchor: TextAnchor,
    pub buffer_id: Option<u64>,
}

/// What this participant locally holds of one replicated buffer: how much of
/// its operation log has arrived, and its current length.
#[derive(Clone, Copy, PartialEq, Eq, Structural, Debug)]
pub struct BufferReplica {
    pub id: u64,
    pub version: u64,
    pub len: u64,
}

/// A well-formed excerpt sequence: identifiers are unique and never the
/// reserved root value.
pub open spec fn excerpts_wf(s: Seq<Excerpt>) -> bool {
    &&& excerpt_ids_unique(s)
    &&& forall|i: int| 0 <= i < s.len() ==> (#[trigger] s[i]).id.id != ROOT_EXCERPT_ID
}

/// True when no excerpt identifier occurs twice in `s`.
pub open spec fn excerpt_ids_unique(s: Seq<Excerpt>) -> bool {
    forall|i: int, j: int|
        0 <= i < j < s.len() ==> (#[trigger] s[i]).id.id != (#[trigger] s[j]).id.id
}

/// True when some excerpt in `s` carries the identifier `id`.
pub open spec fn has_excerpt(s: Seq<Excerpt>, id: u64) -> bool {
    exists|i: int| 0 <= i < s.len() && (#[trigger] s[i]).id.id == id
}

/// The position of the excerpt carrying `id` in `s`. Meaningful only when
/// `has_excerpt(s, id)` holds and the identifiers in `s` are unique.
pub open spec fn excerpt_index(s: Seq<Excerpt>, id: u64) -> int {
    choose|i: int| 0 <= i < s.len() && (#[trigger] s[i]).id.id == id
}

/// True when some replica in `s` describes the buffer `id`.
pub open spec fn has_buffer(s: Seq<BufferReplica>, id: u64) -> bool {
    exists|i: int| 0 <= i < s.len() && (#[trigger] s[i]).id == id
}

/// The position of the replica for buffer `id` in `s`. Meaningful only
/// when `has_buffer(s, id)` holds and the identifiers in `s` are unique.
pub open spec fn buffer_index(s: Seq<BufferReplica>, id: u64) -> int {
    choose|i: int| 0 <= i < s.len() && (#[trigger] s[i]).id == id
}

/// True when no buffer identifier occurs twice in `s`.
pub open spec fn buffer_ids_unique(s: Seq<BufferReplica>) -> bool {
    forall|i: int, j: int|
        0 <= i < j < s.len() ==> (#[trigger] s[i]).id != (#[trigger] s[j]).id
}

/// An anchor is resolvable against an excerpt sequence and a set of local
/// buffer replicas when its excerpt exists and the excerpt's buffer has
/// received every operation the anchor depends on.
pub open spec fn anchor_resolvable_in(
    ex: Seq<Excerpt>,
    buffers: Seq<BufferReplica>,
    a: Anchor,
) -> bool {
    &&& has_excerpt(ex, a.excerpt_id.id)
    &&& exists|i: int|
        {
            &&& 0 <= i < buffers.len()
            &&& (#[trigger] buffers[i]).id == ex[excerpt_index(ex, a.excerpt_id.id)].buffer_id
            &&& buffers[i].version >= a.text_anchor.version
        }
}

/// An anchor whose cached buffer identifier agrees with the document: it
/// names the buffer its excerpt currently draws from, or nothing when the
/// excerpt is absent. Anchors the document itself hands out satisfy this.
pub open spec fn anchor_consistent(ex: Seq<Excerpt>, a: Anchor) -> bool {
    a.buffer_id == if has_excerpt(ex, a.excerpt_id.id) {
        Some(ex[excerpt_index(ex, a.excerpt_id.id)].buffer_id)
    } else {
        Option::<u64>::None
    }
}

/// The local state one view works against: the ordered excerpt list of its
/// composite document, whether the document is a single whole buffer, its
/// title, and the locally open buffer replicas.
pub struct DocumentState {
    pub excerpts: Vec<Excerpt>,
    pub singleton: bool,
    pub title: String,
    pub buffers: Vec<BufferReplica>,
}

impl DocumentState {
    /// Internal consistency: excerpt identifiers are unique and never the
    /// reserved root value, and buffer identifiers are unique.
    pub open spec fn wf(&self) -> bool {
        &&& excerpts_wf(self.excerpts@)
        &&& buffer_ids_unique(self.buffers@)
    }

    /// True when the document is exactly one whole source buffer.
    pub fn is_singleton(&self) -> (r: bool)
        ensures
            r == self.singleton,
    {
        self.singleton
    }

    /// Looks up the position of the excerpt carrying `id`, or returns `None`
    /// when no excerpt does.
    pub fn excerpt_position(&self, id: u64) -> (r: Option<usize>)
        requires
            excerpt_ids_unique(self.excerpts@),
        ensures
            match r {
                Some(i) => i < self.excerpts@.len() && self.excerpts@[i as int].id.id == id
                    && has_excerpt(self.excerpts@, id) && i == excerpt_index(self.excerpts@, id),
                None => !has_excerpt(self.excerpts@, id),
            },
    {
        let n = self.excerpts.len();
        let mut i: usize = 0;
        while i < n
            invariant
                n == self.excerpts@.len(),
                i <= n,
                excerpt_ids_unique(self.excerpts@),
                forall|j: int| 0 <= j < i ==> (#[trigger] self.excerpts@[j]).id.id != id,
            decreases n - i,
        {
            if self.excerpts[i].id.id == id {
                proof {
                    let w = excerpt_index(self.excerpts@, id);
                    assert(0 <= w < self.excerpts@.len() && self.excerpts@[w].id.id == id);
                    assert(w == i as int);
                }
                return Some(i);
            }
            i += 1;
        }
        None
    }

    /// The buffer the excerpt carrying `id` draws from, or `None` when no
    /// excerpt carries `id`.
    pub fn buffer_id_for_excerpt(&self, id: u64) -> (r: Option<u64>)
        requires
            excerpt_ids_unique(self.excerpts@),
        ensures
            match r {
                Some(b) => has_excerpt(self.excerpts@, id) && b == self.excerpts@[excerpt_index(
                    self.excerpts@,
                    id,
                )].buffer_id,
                None => !has_excerpt(self.excerpts@, id),
            },
    {
        match self.excerpt_position(id) {
            Some(i) => Some(self.excerpts[i].buffer_id),
            None => None,
        }
    }

    /// Looks up the locally held replica of buffer `id`, if it is open.
    pub fn buffer_replica(&self, id: u64) -> (r: Option<BufferReplica>)
        ensures
            match r {
                Some(b) => b.id == id && has_buffer(self.buffers@, id) && self.buffers@.contains(b),
                None => !has_buffer(self.buffers@, id),
            },
    {
        let n = self.buffers.len();
        let mut i: usize = 0;
        while i < n
            invariant
                n == self.buffers@.len(),
                i <= n,
                forall|j: int| 0 <= j < i ==> (#[trigger] self.buffers@[j]).id != id,
            decreases n - i,
        {
            if self.buffers[i].id == id {
                return Some(self.buffers[i]);
            }
            i += 1;
        }
        None
    }

    /// True when the buffer `id` is open locally.
    pub fn has_open_buffer(&self, id: u64) -> (r: bool)
        ensures
            r == has_buffer(self.buffers@, id),
    {
        self.buffer_replica(id).is_some()
    }

    /// An anchor is resolvable when its excerpt currently exists in the
    /// document and the underlying buffer has received every operation the
    /// anchor depends on.
    pub open spec fn anchor_resolvable(&self, a: Anchor) -> bool {
        anchor_resolvable_in(self.excerpts@, self.buffers@, a)
    }

    /// Decides whether `a` is resolvable right now: its excerpt exists and
    /// the excerpt's buffer has received the operations `a` depends on.
    pub fn can_resolve(&self, a: &Anchor) -> (r: bool)
        requires
            excerpt_ids_unique(self.excerpts@),
            buffer_ids_unique(self.buffers@),
        ensures
            r == self.anchor_resolvable(*a),
    {
        match self.buffer_id_for_excerpt(a.excerpt_id.id) {
            Some(buffer_id) => match self.buffer_replica(buffer_id) {
                Some(replica) => {
                    proof {
                        if replica.version >= a.text_anchor.version {
                            let i = choose|i: int|
                                0 <= i < self.buffers@.len() && (#[trigger] self.buffers@[i])
                                    == replica;
                            assert(0 <= i < self.buffers@.len() && self.buffers@[i].id == buffer_id
                                && self.buffers@[i].version >= a.text_anchor.version);
                        }
                    }
                    replica.version >= a.text_anchor.version
                },
                None => false,
            },
            None => false,
        }
    }

    /// Records that the buffer `id` is now open locally with the given
    /// replica state, replacing any previously recorded state for it. This is
    /// how a completed buffer fetch, or newly arrived operations, are fed
    /// into the model.
    pub fn note_buffer_open(&mut self, id: u64, version: u64, len: u64)
        requires
            buffer_ids_unique(old(self).buffers@),
        ensures
            buffer_ids_unique(final(self).buffers@),
            has_buffer(final(self).buffers@, id),
            final(self).excerpts@ == old(self).excerpts@,
            final(self).singleton == old(self).singleton,
            final(self).title == old(self).title,
            forall|b: u64|
                b != id ==> (has_buffer(final(self).buffers@, b) == has_buffer(
                    old(self).buffers@,
                    b,
                )),
            forall|i: int|
                0 <= i < final(self).buffers@.len() && (#[trigger] final(self).buffers@[i]).id == id
                    ==> final(self).buffers@[i] == (BufferReplica { id, version, len }),
            forall|i: int|
                0 <= i < final(self).buffers@.len() && (#[trigger] final(self).buffers@[i]).id != id
                    ==> old(self).buffers@.contains(final(self).buffers@[i]),
    {
        let n = self.buffers.len();
        let mut i: usize = 0;
        while i < n
            invariant
                n == self.buffers@.len(),
                i <= n,
                buffer_ids_unique(self.buffers@),
                forall|j: int| 0 <= j < i ==> (#[trigger] self.buffers@[j]).id != id,
                self == old(self),
            decreases n - i,
        {
            if self.buffers[i].id == id {
                self.buffers.set(i, BufferReplica { id, version, len });
                proof {
                    let s = self.buffers@;
                    assert(s[i as int].id == id);
                    assert forall|b: u64| b != id implies (has_buffer(s, b) == has_buffer(
                        old(self).buffers@,
                        b,
                    )) by {
                        if has_buffer(s, b) {
                            let j = choose|j: int| 0 <= j < s.len() && (#[trigger] s[j]).id == b;
                            assert(old(self).buffers@[j].id == b);
                        }
                        if has_buffer(old(self).buffers@, b) {
                            let j = choose|j: int|
                                0 <= j < old(self).buffers@.len() && (#[trigger] old(
                                    self,
                                ).buffers@[j]).id == b;
                            assert(s[j].id == b);
                        }
                    }
                }
                return ;
            }
            i += 1;
        }
        self.buffers.push(BufferReplica { id, version, len });
        proof {
            let s = self.buffers@;
            assert(s[s.len() - 1].id == id);
            assert forall|b: u64| b != id implies (has_buffer(s, b) == has_buffer(
                old(self).buffers@,
                b,
            )) by {
                if has_buffer(s, b) {
                    let i = choose|i: int| 0 <= i < s.len() && (#[trigger] s[i]).id == b;
                    assert(i < s.len() - 1 && old(self).buffers@[i].id == b);
                }
                if has_buffer(old(self).buffers@, b) {
                    let i = choose|i: int|
                        0 <= i < old(self).buffers@.len() && (#[trigger] old(self).buffers@[i]).id
                            == b;
                    assert(s[i].id == b);
                }
            }
        }
    }
}

} // verus!
