//! Tokio's task state bits (an `AtomicUsize`; tokio `runtime/task/state.rs`,
//! stable across the 1.x line).
use vstd::prelude::*;

verus! {

/// The task is being polled by a worker.
pub const RUNNING: usize = 1;

/// The task has finished.
pub const COMPLETE: usize = 2;

/// A wake was requested; the task is scheduled to be polled.
pub const NOTIFIED: usize = 4;

/// A join handle still exists and wants the output.
pub const JOIN_INTEREST: usize = 8;

/// A waker has been stored for the join handle.
pub const JOIN_WAKER: usize = 16;

/// The task has been cancelled.
pub const CANCELLED: usize = 32;

/// The bits below are flags; the bits from here on are the reference count.
pub const REF_COUNT_SHIFT: u32 = 6;

} // verus!
