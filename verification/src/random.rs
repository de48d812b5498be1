//! The source of the random priority and duration of each generated item.

use vstd::prelude::*;
use rand::Rng;
use crate::work_item::{DURATION_LIMIT, MIN_DURATION, PRIORITY_LIMIT};

verus! {

/// The random part of one generated item.
#[derive(Clone, Copy, Debug, PartialEq, Eq, Structural)]
pub struct Draw {
    pub priority: u32,
    pub duration: u64,
}

impl Draw {
    /// Both numbers lie in the ranges from which generated items take them.
    pub open spec fn in_range(self) -> bool {
        &&& self.priority < PRIORITY_LIMIT
        &&& MIN_DURATION <= self.duration < DURATION_LIMIT
    }
}

/// Calls `rand::Rng::gen_range` with the half-open range `low..high` on the
/// generator that `rand::thread_rng` hands to the calling thread.
///
/// Trusted, not proved: the number returned lies in `low..high`.
/// `gen_range` panics on an empty range, which the precondition rules out;
/// `thread_rng` panics if the operating system cannot seed the generator.
/// Which number of the range comes back is left open, and two calls may
/// differ.
#[verifier::external_body]
fn uniform_in(low: u64, high: u64) -> (value: u64)
    requires
        low < high,
    ensures
        low <= value < high,
{
    rand::thread_rng().gen_range(low..high)
}

/// Draws the priority and the duration of one item.
pub fn draw() -> (drawn: Draw)
    ensures
        drawn.in_range(),
{
    let priority = uniform_in(0, PRIORITY_LIMIT as u64);
    let duration = uniform_in(MIN_DURATION, DURATION_LIMIT);
    Draw { priority: priority as u32, duration }
}

} // verus!
