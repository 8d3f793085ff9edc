//! The event shape of a task's timeline.
use vstd::prelude::*;

use super::ids::TaskId;
use super::task::TaskState;

verus! {

/// One state transition of one task, anchored to the recorder's global
/// sequence numbers.
#[derive(Debug, Clone, PartialEq, Eq)]
pub struct TaskTimelineEvent {
    /// The task this transition applies to.
    pub task: TaskId,
    /// Global sequence number the transition started at.
    pub seq_start: u64,
    /// Global sequence number the transition ended at (exclusive).
    pub seq_end: u64,
    /// State before the transition.
    pub from_state: TaskState,
    /// State after the transition.
    pub to_state: TaskState,
}

impl TaskTimelineEvent {
    /// Whether `seq` falls within `[seq_start, seq_end)`.
    #[must_use]
    pub fn covers(&self, seq: u64) -> (r: bool)
        ensures
            r == (self.seq_start <= seq < self.seq_end),
    {
        seq >= self.seq_start && seq < self.seq_end
    }
}

} // verus!
