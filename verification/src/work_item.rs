//! The unit of work that travels from the producer through the mailbox to a
//! worker.

use vstd::prelude::*;

verus! {

/// Priorities drawn for generated items lie in `0..PRIORITY_LIMIT`.
pub const PRIORITY_LIMIT: u32 = 100;

/// Durations drawn for generated items lie in `MIN_DURATION..DURATION_LIMIT`.
pub const MIN_DURATION: u64 = 200;

/// Exclusive upper bound of the durations drawn for generated items.
pub const DURATION_LIMIT: u64 = 2000;

/// One item of simulated work. A lower `priority` number is served first.
#[derive(Clone, Copy, Debug, PartialEq, Eq, Structural)]
pub struct WorkItem {
    /// Identity, unique within a run.
    pub id: u64,
    /// Urgency; lower values are served first.
    pub priority: u32,
    /// Simulated execution time, in time units.
    pub duration: u64,
}

impl WorkItem {
    /// Whether `self` must be served strictly before `other`.
    pub open spec fn outranks(self, other: WorkItem) -> bool {
        self.priority < other.priority
    }

    pub fn new(id: u64, priority: u32, duration: u64) -> (item: WorkItem)
        ensures
            item == (WorkItem { id, priority, duration }),
    {
        WorkItem { id, priority, duration }
    }

    /// Whether `self` must be served strictly before `other`.
    pub fn precedes(&self, other: &WorkItem) -> (first: bool)
        ensures
            first == self.outranks(*other),
    {
        self.priority < other.priority
    }
}

} // verus!
