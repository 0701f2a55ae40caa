//! A verified core for mirroring one participant's view of a composite
//! document to other participants in a shared editing session.
//!
//! The library covers the view-synchronization protocol itself: full-state
//! snapshots for a newly attached follower, incremental deltas for an
//! already attached one, the total order on position anchors that keeps
//! both well formed, and the cursor-relative resolution of an ordered set
//! of search matches. Transport, rendering, and the replicated text engine
//! are the embedding application's concern; this crate works on plain
//! values that describe their state.

pub mod cursor;
pub mod delta;
pub mod delta_props;
pub mod document;
pub mod editor;
pub mod order;
pub mod search;
pub mod snapshot;
pub mod snapshot_props;
pub mod wire;
