//! The reaper's per-cycle work: evict stale watcher records.  The endless
//! sleep-and-retry loop around it, and the lock that guards the registry,
//! belong to the surrounding process; a cycle whose lock acquisition fails is
//! simply skipped there and retried after the usual interval.

use vstd::prelude::*;

use crate::STALE_AFTER_SECONDS;
use crate::metrics::{SiteMetrics, now_seconds, prune_applied};

verus! {

/// One reaper cycle on an acquired registry: prune at the current wall-clock
/// time with the configured staleness threshold.
pub fn reap(metrics: &mut SiteMetrics)
    requires
        old(metrics).wf(),
    ensures
        final(metrics).wf(),
        exists|now: i64|
            #[trigger] prune_applied(*old(metrics), *final(metrics), now, STALE_AFTER_SECONDS),
{
    let now = now_seconds();
    metrics.prune_stale(now, STALE_AFTER_SECONDS);
    proof {
        assert(prune_applied(*old(metrics), *metrics, now, STALE_AFTER_SECONDS));
    }
}

} // verus!
