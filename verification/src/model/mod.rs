//! The portable, language-agnostic data model every decoder produces and every
//! consumer reads: identifiers, the task tree, logical stack frames, wake
//! causes, timeline events and variables.
//!
//! Types that hold text have a mathematical counterpart (`...Spec`), the value
//! of `deep_view`, in which strings are sequences of characters.
pub mod frame;
mod ids;
mod task;
mod timeline;
pub mod tree;
pub mod tree_laws;
mod variable;
mod wake;

pub use frame::{FrameOrigin, LogicalFrame, LogicalFrameSpec, SourceLocation, SourceLocationSpec};
pub use frame::{SuspendKind, SuspendPoint, SuspendPointSpec};
pub use ids::TaskId;
pub use task::{BlockReason, BlockReasonSpec, TaskKind, TaskNode, TaskNodeSpec};
pub use task::{TaskState, TaskStateSpec};
pub use timeline::TaskTimelineEvent;
pub use tree::TaskTree;
pub use variable::{Variable, VariableSpec};
pub use wake::{IoWakeDetail, IoWakeDetailSpec, WakeCause, WakeCauseSpec};
