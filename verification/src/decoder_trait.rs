//! The trait that every language plugs into. Recording, replay and the debug
//! adapter never know which implementation they are talking to.
use vstd::prelude::*;

use crate::async_rust::decode::LayoutMap;
use crate::async_rust::decoder as coroutines;
use crate::async_rust::roots::TaskRootSpec;
use crate::error::{outcome, DecoderError, DecoderErrorSpec};
use crate::go::decoder as goroutines;
use crate::go::GoLayout;
use crate::model::tree;
use crate::model::{LogicalFrame, LogicalFrameSpec, TaskId, TaskNodeSpec, TaskTree};
use crate::model::{Variable, VariableSpec, WakeCause, WakeCauseSpec};
use crate::native;
use crate::process_view::ProcessView;

verus! {

/// What a decoder reads a target with.
pub enum Reading {
    /// Nothing: every thread is a task.
    Threads,
    /// The layout of the Go runtime.
    Goroutines(GoLayout),
    /// The layouts of coroutines, and the tasks to start from.
    Coroutines(LayoutMap, Seq<TaskRootSpec>),
    /// Something else.
    Other,
}

/// The tasks that a decoder reads out of a view; `None` where nothing is said of
/// them.
pub open spec fn tasks_read<V: ProcessView + ?Sized>(reading: Reading, view: &V) -> Option<
    Result<Seq<TaskNodeSpec>, DecoderErrorSpec>,
> {
    match reading {
        Reading::Threads => Some(tree::assembled(native::thread_nodes(view.threads()))),
        Reading::Goroutines(layout) => Some(goroutines::goroutine_tree(view, layout)),
        Reading::Coroutines(layouts, roots) => Some(coroutines::task_tree(view, layouts, roots)),
        Reading::Other => None,
    }
}

/// The stack that a decoder reads out of a view for a task; `None` where nothing
/// is said of it.
pub open spec fn stack_read<V: ProcessView + ?Sized>(
    reading: Reading,
    view: &V,
    task: TaskId,
) -> Option<Result<Seq<LogicalFrameSpec>, DecoderErrorSpec>> {
    match reading {
        Reading::Threads => Some(native::thread_stack(view, task)),
        Reading::Goroutines(layout) => Some(goroutines::task_stack(view, layout, task)),
        Reading::Coroutines(layouts, roots) => Some(
            coroutines::task_stack(view, layouts, roots, task),
        ),
        Reading::Other => None,
    }
}

/// Why a decoder says that a task woke; `None` where nothing is said of it.
pub open spec fn wake_read<V: ProcessView + ?Sized>(
    reading: Reading,
    view: &V,
    task: TaskId,
) -> Option<Result<WakeCauseSpec, DecoderErrorSpec>> {
    match reading {
        Reading::Threads => Some(native::thread_wake(view, task)),
        Reading::Goroutines(layout) => Some(goroutines::task_wake(view, layout, task)),
        Reading::Coroutines(layouts, roots) => Some(
            coroutines::task_wake(view, layouts, roots, task),
        ),
        Reading::Other => None,
    }
}

/// The locals that a decoder reads out of a view for a task; `None` where nothing
/// is said of them.
pub open spec fn locals_read<V: ProcessView + ?Sized>(
    reading: Reading,
    view: &V,
    task: TaskId,
) -> Option<Result<Seq<VariableSpec>, DecoderErrorSpec>> {
    match reading {
        Reading::Threads => Some(native::thread_locals(view, task)),
        Reading::Goroutines(layout) => Some(goroutines::task_locals(view, layout, task)),
        Reading::Coroutines(layouts, roots) => Some(
            coroutines::task_locals(view, layouts, roots, task),
        ),
        Reading::Other => None,
    }
}

/// Reconstructs a runtime's logical concurrency structure out of a paused
/// process, given only a view of it.
///
/// Object-safe: callers hold a boxed decoder without knowing the language.
/// A decoder that cannot make sense of a target says so and never guesses.
pub trait SemanticDecoder {
    /// What the decoder reads with. On this and on what the view shows alone its
    /// answers depend, as the functions above say.
    open spec fn reading(&self) -> Reading {
        Reading::Other
    }

    /// Reconstruct the full logical task tree for the target.
    fn decode_tasks(&self, view: &dyn ProcessView) -> (r: Result<TaskTree, DecoderError>)
        ensures
            tasks_read(self.reading(), view) matches Some(tasks) ==> outcome(r) == tasks,
    ;

    /// The logical stack of one task. Frames of a physical stack come innermost
    /// first; frames of coroutines that await one another come in the order in
    /// which they await, the awaited future last.
    fn logical_stack(&self, view: &dyn ProcessView, task: TaskId) -> (r: Result<
        Vec<LogicalFrame>,
        DecoderError,
    >)
        ensures
            stack_read(self.reading(), view, task) matches Some(stack) ==> outcome(r) == stack,
    ;

    /// Why `task` last woke, if the decoder can determine it;
    /// `WakeCause::Unknown` if it cannot.
    fn wake_cause(&self, view: &dyn ProcessView, task: TaskId) -> (r: Result<
        WakeCause,
        DecoderError,
    >)
        ensures
            wake_read(self.reading(), view, task) matches Some(wake) ==> outcome(r) == wake,
    ;

    /// Local variables visible at one of the task's logical frames.
    fn locals_at(&self, view: &dyn ProcessView, task: TaskId, frame: &LogicalFrame) -> (r: Result<
        Vec<Variable>,
        DecoderError,
    >)
        ensures
            locals_read(self.reading(), view, task) matches Some(locals) ==> outcome(r) == locals,
    ;
}

} // verus!
