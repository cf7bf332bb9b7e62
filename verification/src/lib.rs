//! Live watcher registry for a small video-streaming service: per video slot,
//! a table of which viewer is watching, how far through, and as of when.
//! The registry itself is a sequential data structure; callers guard it with
//! a lock and drive the periodic reaper from outside.

pub mod api;
pub mod metrics;
pub mod resources;
pub mod settings;
pub mod updater;

use vstd::prelude::*;

verus! {

/// Age threshold, in seconds, past which a watcher record is considered stale.
pub const STALE_AFTER_SECONDS: i64 = 5;

/// Seconds the reaper sleeps between prune cycles.
pub const REAP_INTERVAL_SECONDS: u64 = 2;

} // verus!
