//! One participant's editor view: the composite document it shows, its committed
//! and pending selections, its viewport position, and the identity that
//! ties it to a remote leader. Also the view-change events the rest of the
//! protocol reacts to.

use vstd::prelude::*;

use crate::document::{Anchor, DocumentState, ExcerptId, ExcerptRange};

verus! {

/// The transient vertical-navigation goal a selection may carry. It never
/// travels over the wire; a decoded selection always starts unset.
#[derive(Clone, Copy, PartialEq, Eq, Structural, Debug)]
pub enum SelectionGoal {
    Unset,
    TargetColumn(u32),
}

/// One selection: a start/end anchor pair, whether the cursor sits at the
/// start, and a numeric id unique within its view.
#[derive(Clone, Copy, PartialEq, Eq, Structural, Debug)]
pub struct Selection {
    pub id: u64,
    pub start: Anchor,
    pub end: Anchor,
    pub reversed: bool,
    pub goal: SelectionGoal,
}

impl Selection {
    /// The cursor end of the selection.
    pub fn head(&self) -> (r: Anchor)
        ensures
            r == self.head_spec(),
    {
        if self.reversed {
            self.start
        } else {
            self.end
        }
    }

    /// The cursor end of the selection: the start when reversed, else the
    /// end.
    pub open spec fn head_spec(&self) -> Anchor {
        if self.reversed {
            self.start
        } else {
            self.end
        }
    }
}

/// The same selection with its transient navigation goal cleared, as a
/// selection read back from the wire is.
pub open spec fn with_unset_goal(s: Selection) -> Selection {
    Selection { id: s.id, start: s.start, end: s.end, reversed: s.reversed, goal: SelectionGoal::Unset }
}

/// The viewport position: the anchor shown at the top of the view plus a
/// sub-anchor pixel offset, carried as the opaque payload the rendering
/// layer handed over.
#[derive(Clone, Copy, PartialEq, Eq, Structural, Debug)]
pub struct ScrollAnchorState {
    pub anchor: Anchor,
    pub offset_x: u32,
    pub offset_y: u32,
}

/// The identity a leader's view is known by across the session.
#[derive(Clone, Copy, PartialEq, Eq, Structural, Debug)]
pub struct ViewId {
    pub creator: u64,
    pub id: u64,
}

/// A view-change event observed on the local view.
pub enum Event {
    /// The user edited the document's contents.
    Edited,
    /// A buffer underneath the document changed.
    BufferEdited,
    /// Excerpts of one buffer were added after a predecessor, in the order
    /// given.
    ExcerptsAdded { buffer_id: u64, predecessor: ExcerptId, excerpts: Vec<(ExcerptId, ExcerptRange)> },
    /// Excerpts were removed.
    ExcerptsRemoved { ids: Vec<ExcerptId> },
    /// The viewport moved; `local` when the user moved it rather than a
    /// remote delta.
    ScrollPositionChanged { local: bool },
    /// The selections changed; `local` when the user changed them rather
    /// than a remote delta.
    SelectionsChanged { local: bool },
    /// The view was closed. This protocol ignores it.
    Closed,
}

/// One participant's view of a composite document.
pub struct Editor {
    pub remote_id: Option<ViewId>,
    pub leader_peer: Option<u64>,
    pub doc: DocumentState,
    pub selections: Vec<Selection>,
    pub pending_selection: Option<Selection>,
    pub scroll: ScrollAnchorState,
}

impl Editor {
    /// The identity under which this view mirrors a remote one, if any.
    pub fn remote_id(&self) -> (r: Option<ViewId>)
        ensures
            r == self.remote_id,
    {
        self.remote_id
    }

    /// True when this view's document is a single whole buffer.
    pub fn is_singleton(&self) -> (r: bool)
        ensures
            r == self.doc.singleton,
    {
        self.doc.is_singleton()
    }

    /// Starts or stops following the given peer. While a leader is set, the
    /// view's selections are driven by incoming deltas instead of local
    /// input.
    pub fn set_leader_peer_id(&mut self, leader_peer: Option<u64>)
        ensures
            final(self).leader_peer == leader_peer,
            final(self).remote_id == old(self).remote_id,
            final(self).doc == old(self).doc,
            final(self).selections == old(self).selections,
            final(self).pending_selection == old(self).pending_selection,
            final(self).scroll == old(self).scroll,
    {
        self.leader_peer = leader_peer;
    }

    /// Whether a locally observed event must make a follower of this view
    /// stop following: a content edit always does; a selection or scroll
    /// change only when it was locally originated rather than the echo of a
    /// just-applied remote delta.
    pub fn should_unfollow_on_event(event: &Event) -> (r: bool)
        ensures
            r == match *event {
                Event::Edited => true,
                Event::SelectionsChanged { local } => local,
                Event::ScrollPositionChanged { local } => local,
                _ => false,
            },
    {
        match event {
            Event::Edited => true,
            Event::SelectionsChanged { local } => *local,
            Event::ScrollPositionChanged { local } => *local,
            _ => false,
        }
    }
}

} // verus!
