//! Identifiers shared across the model.
use vstd::prelude::*;

verus! {

/// Stable identifier for one logical task in a task tree.
///
/// Depending on which decoder produced it, a task backs an OS thread, a
/// spawned async task, a goroutine or a coroutine frame; the identifier does
/// not say which.
#[derive(Debug, Clone, Copy, PartialEq, Eq, PartialOrd, Ord, Hash, Structural)]
pub struct TaskId(pub u64);

impl TaskId {
    /// Build a `TaskId` from a raw number.
    #[must_use]
    pub fn new(raw: u64) -> (r: Self)
        ensures
            r == TaskId(raw),
    {
        Self(raw)
    }

    /// The raw number.
    #[must_use]
    pub fn raw(self) -> (r: u64)
        ensures
            r == self.0,
    {
        self.0
    }
}

} // verus!
