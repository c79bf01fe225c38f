//! The memory-reclamation observability hook: compaction and reset
//! report how many bytes they released, and the policy decides whether
//! the release is large enough to be worth signalling.

use vstd::prelude::*;

use crate::config::MemoryConfig;

verus! {

/// Whether a release of `released_bytes` reaches the reporting threshold.
pub open spec fn should_reclaim_spec(config: &MemoryConfig, released_bytes: usize) -> bool {
    released_bytes >= config.large_release_threshold_bytes
}

/// True iff the released volume reaches the configured threshold.
pub fn should_reclaim(config: &MemoryConfig, released_bytes: usize) -> (r: bool)
    ensures
        r == should_reclaim_spec(config, released_bytes),
{
    released_bytes >= config.large_release_threshold_bytes
}

/// Evaluate a release against the policy. The result says whether the
/// release was large enough to signal; what to do with the signal
/// (typically a trace event) is the caller's choice.
pub fn evaluate_reclamation(config: &MemoryConfig, released_bytes: usize) -> (r: bool)
    ensures
        r == should_reclaim_spec(config, released_bytes),
{
    should_reclaim(config, released_bytes)
}

} // verus!
