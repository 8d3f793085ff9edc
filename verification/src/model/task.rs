//! A single node of the logical concurrency tree.
use vstd::prelude::*;

use super::ids::TaskId;
use crate::text::{clone_optional, IntoText};

verus! {

/// What kind of logical concurrency primitive a node represents.
#[derive(Debug, Clone, Copy, PartialEq, Eq, Structural)]
#[non_exhaustive]
pub enum TaskKind {
    /// A plain OS thread.
    Thread,
    /// A Rust future driven by an executor.
    AsyncTask,
    /// A Go goroutine.
    Goroutine,
    /// A C++20 or Swift coroutine frame.
    Coroutine,
}

/// Why a task is blocked.
#[derive(Debug, PartialEq, Eq)]
#[non_exhaustive]
pub enum BlockReason {
    /// Waiting on a channel send or receive.
    Channel {
        /// Optional specifics (a channel identifier).
        detail: Option<String>,
    },
    /// Waiting to acquire a lock.
    Lock {
        /// Optional specifics (the lock's name).
        detail: Option<String>,
    },
    /// Waiting on I/O readiness.
    Io {
        /// Optional specifics (a file descriptor).
        detail: Option<String>,
    },
    /// Waiting for another task to complete.
    Join {
        /// The task being waited on, when known.
        on: Option<TaskId>,
    },
    /// Waiting on a timer or sleep.
    Timer,
    /// Blocked for a reason that cannot be classified further.
    Unknown,
}

/// The value of a `BlockReason`.
#[verifier::ext_equal]
pub enum BlockReasonSpec {
    Channel { detail: Option<Seq<char>> },
    Lock { detail: Option<Seq<char>> },
    Io { detail: Option<Seq<char>> },
    Join { on: Option<TaskId> },
    Timer,
    Unknown,
}

impl DeepView for BlockReason {
    type V = BlockReasonSpec;

    open spec fn deep_view(&self) -> BlockReasonSpec {
        match self {
            BlockReason::Channel { detail } => BlockReasonSpec::Channel {
                detail: detail.deep_view(),
            },
            BlockReason::Lock { detail } => BlockReasonSpec::Lock { detail: detail.deep_view() },
            BlockReason::Io { detail } => BlockReasonSpec::Io { detail: detail.deep_view() },
            BlockReason::Join { on } => BlockReasonSpec::Join { on: *on },
            BlockReason::Timer => BlockReasonSpec::Timer,
            BlockReason::Unknown => BlockReasonSpec::Unknown,
        }
    }
}

impl Clone for BlockReason {
    fn clone(&self) -> (r: Self)
        ensures
            r == *self,
    {
        match self {
            BlockReason::Channel { detail } => BlockReason::Channel {
                detail: clone_optional(detail),
            },
            BlockReason::Lock { detail } => BlockReason::Lock { detail: clone_optional(detail) },
            BlockReason::Io { detail } => BlockReason::Io { detail: clone_optional(detail) },
            BlockReason::Join { on } => BlockReason::Join { on: *on },
            BlockReason::Timer => BlockReason::Timer,
            BlockReason::Unknown => BlockReason::Unknown,
        }
    }
}

/// The lifecycle state of a logical task.
#[derive(Debug, PartialEq, Eq)]
#[non_exhaustive]
pub enum TaskState {
    /// Eligible to run but not currently scheduled on a CPU.
    Runnable,
    /// Executing at the moment the process was paused.
    Running,
    /// Waiting on something external.
    Blocked {
        /// What the task is waiting on.
        on: BlockReason,
    },
    /// Finished; will never run again.
    Completed,
}

/// The value of a `TaskState`.
#[verifier::ext_equal]
pub enum TaskStateSpec {
    Runnable,
    Running,
    Blocked { on: BlockReasonSpec },
    Completed,
}

impl DeepView for TaskState {
    type V = TaskStateSpec;

    open spec fn deep_view(&self) -> TaskStateSpec {
        match self {
            TaskState::Runnable => TaskStateSpec::Runnable,
            TaskState::Running => TaskStateSpec::Running,
            TaskState::Blocked { on } => TaskStateSpec::Blocked { on: on.deep_view() },
            TaskState::Completed => TaskStateSpec::Completed,
        }
    }
}

impl Clone for TaskState {
    fn clone(&self) -> (r: Self)
        ensures
            r == *self,
    {
        match self {
            TaskState::Runnable => TaskState::Runnable,
            TaskState::Running => TaskState::Running,
            TaskState::Blocked { on } => TaskState::Blocked { on: on.clone() },
            TaskState::Completed => TaskState::Completed,
        }
    }
}

/// One node of a task tree.
///
/// It names its parent only; the tree indexes the children once, at
/// construction.
#[derive(Debug, PartialEq, Eq)]
pub struct TaskNode {
    /// Stable identifier.
    pub id: TaskId,
    /// Name for display (thread name, task label).
    pub name: String,
    /// What kind of concurrency primitive this node represents.
    pub kind: TaskKind,
    /// Current lifecycle state.
    pub state: TaskState,
    /// The task that spawned this one, or `None` for a root.
    pub parent: Option<TaskId>,
}

/// The value of a `TaskNode`.
#[verifier::ext_equal]
pub struct TaskNodeSpec {
    pub id: TaskId,
    pub name: Seq<char>,
    pub kind: TaskKind,
    pub state: TaskStateSpec,
    pub parent: Option<TaskId>,
}

impl DeepView for TaskNode {
    type V = TaskNodeSpec;

    open spec fn deep_view(&self) -> TaskNodeSpec {
        TaskNodeSpec {
            id: self.id,
            name: self.name@,
            kind: self.kind,
            state: self.state.deep_view(),
            parent: self.parent,
        }
    }
}

impl Clone for TaskNode {
    fn clone(&self) -> (r: Self)
        ensures
            r == *self,
    {
        TaskNode {
            id: self.id,
            name: self.name.clone(),
            kind: self.kind,
            state: self.state.clone(),
            parent: self.parent,
        }
    }
}

impl TaskNode {
    /// A root node (no parent).
    #[must_use]
    pub fn root<N: IntoText>(id: TaskId, name: N, kind: TaskKind, state: TaskState) -> (r: Self)
        ensures
            r.id == id,
            r.name@ == name.text(),
            r.kind == kind,
            r.state == state,
            r.parent is None,
    {
        Self { id, name: name.into_text(), kind, state, parent: None }
    }

    /// A node spawned by `parent`.
    #[must_use]
    pub fn child<N: IntoText>(
        id: TaskId,
        name: N,
        kind: TaskKind,
        state: TaskState,
        parent: TaskId,
    ) -> (r: Self)
        ensures
            r.id == id,
            r.name@ == name.text(),
            r.kind == kind,
            r.state == state,
            r.parent == Some(parent),
    {
        Self { id, name: name.into_text(), kind, state, parent: Some(parent) }
    }
}

} // verus!
