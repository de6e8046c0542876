use vstd::prelude::*;

verus! {

/// Priorities are drawn from `0..PRIORITY_LIMIT`; a lower value is served first.
pub const PRIORITY_LIMIT: u32 = 100;

/// Shortest simulated execution time, in milliseconds.
pub const MIN_DURATION_MS: u32 = 200;

/// Durations are drawn from `MIN_DURATION_MS..DURATION_LIMIT_MS`.
pub const DURATION_LIMIT_MS: u32 = 1000;

/// A unit of simulated work.
#[derive(Clone, Copy, Debug, PartialEq, Eq, Structural)]
pub struct WorkItem {
    /// Unique within a run, assigned in increasing order by the producer.
    pub id: u64,
    /// Ordering key of the queue: lower is served earlier.
    pub priority: u32,
    /// Simulated execution time in milliseconds.
    pub duration_ms: u32,
}

impl WorkItem {
    /// The item's priority and duration lie in the ranges the producer draws from.
    pub open spec fn valid(self) -> bool {
        &&& self.priority < PRIORITY_LIMIT
        &&& MIN_DURATION_MS <= self.duration_ms < DURATION_LIMIT_MS
    }
}

} // verus!
