//! Tree-state synchronization engine for a navigable directory view.
//!
//! The library owns the pure logic of an interactive file-tree browser:
//! flattening a snapshot of a directory hierarchy into an ordered, displayable
//! sequence honoring an expansion set, reconciling that sequence after
//! structural changes, tracking recency of change notifications, and keeping
//! an invalidate-on-write cache of content previews.  All filesystem and
//! terminal I/O lives outside, in the surrounding application, which hands the
//! library plain values (snapshots, paths, timestamps) and takes plain values
//! back.

pub mod app;
pub mod entry;
pub mod flatten;
pub mod icons;
pub mod laws;
pub mod node;
pub mod pathmap;
pub mod preview;
pub mod recency;
pub mod strutil;
pub mod watch;
