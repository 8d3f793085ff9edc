//! The reference decoder: every OS thread is one root task, with no synthesized
//! frames and no wake causality.
use vstd::prelude::*;

use crate::decoder_trait::{self, Reading, SemanticDecoder};
use crate::error::{self, DecoderError, DecoderErrorSpec};
use crate::model::frame;
use crate::model::tree;
use crate::model::{LogicalFrame, LogicalFrameSpec, TaskId, TaskKind, TaskNode, TaskNodeSpec};
use crate::model::{TaskState, TaskStateSpec, TaskTree, Variable, VariableSpec};
use crate::model::{WakeCause, WakeCauseSpec};
use crate::process_view::{ProcessView, ThreadId};
use crate::text;

verus! {

/// Maps each OS thread onto one root task of the same number.
#[derive(Debug, Clone, Copy)]
pub struct NativeThreadsDecoder;

impl Default for NativeThreadsDecoder {
    fn default() -> (r: Self)
        ensures
            r == NativeThreadsDecoder,
    {
        NativeThreadsDecoder
    }
}

/// The root task of a thread.
pub open spec fn thread_node(thread: ThreadId) -> TaskNodeSpec {
    TaskNodeSpec {
        id: TaskId(thread.0),
        name: "thread "@ + text::decimal(thread.0 as nat),
        kind: TaskKind::Thread,
        state: TaskStateSpec::Running,
        parent: None,
    }
}

/// The root tasks of the threads, in order.
pub open spec fn thread_nodes(threads: Seq<ThreadId>) -> Seq<TaskNodeSpec> {
    threads.map_values(|thread: ThreadId| thread_node(thread))
}

/// The stack of the thread behind `task`. Any failure means that there is no
/// such task.
pub open spec fn thread_stack<V: ProcessView + ?Sized>(view: &V, task: TaskId) -> Result<
    Seq<LogicalFrameSpec>,
    DecoderErrorSpec,
> {
    match view.frames(ThreadId(task.0)) {
        Ok(frames) => Ok(frame::physical_stack(frames)),
        Err(_) => Err(DecoderErrorSpec::UnknownTask(task)),
    }
}

/// The thread behind `task` is known to the view.
pub open spec fn is_known<V: ProcessView + ?Sized>(view: &V, task: TaskId) -> bool {
    view.register_reply(ThreadId(task.0)) is Ok
}

/// Why the thread behind `task` woke: unknown, where the thread is known.
pub open spec fn thread_wake<V: ProcessView + ?Sized>(view: &V, task: TaskId) -> Result<
    WakeCauseSpec,
    DecoderErrorSpec,
> {
    if is_known(view, task) {
        Ok(WakeCauseSpec::Unknown)
    } else {
        Err(DecoderErrorSpec::UnknownTask(task))
    }
}

/// The locals of the thread behind `task`: none, where the thread is known.
pub open spec fn thread_locals<V: ProcessView + ?Sized>(view: &V, task: TaskId) -> Result<
    Seq<VariableSpec>,
    DecoderErrorSpec,
> {
    if is_known(view, task) {
        Ok(Seq::empty())
    } else {
        Err(DecoderErrorSpec::UnknownTask(task))
    }
}

impl NativeThreadsDecoder {
    /// A new decoder. Stateless: every call reads afresh from the view.
    #[must_use]
    pub fn new() -> (r: Self)
        ensures
            r == NativeThreadsDecoder,
    {
        NativeThreadsDecoder
    }

    fn thread_for(&self, task: TaskId) -> (r: ThreadId)
        ensures
            r == ThreadId(task.0),
    {
        ThreadId::new(task.raw())
    }

    /// One root task per thread, in the order of the view's threads. Fails
    /// exactly where the view names a thread twice.
    pub fn decode_tasks<V: ProcessView + ?Sized>(&self, view: &V) -> (r: Result<
        TaskTree,
        DecoderError,
    >)
        ensures
            error::outcome(r) == tree::assembled(thread_nodes(view.threads())),
    {
        let threads = view.thread_ids();
        let mut nodes: Vec<TaskNode> = Vec::new();
        let mut i: usize = 0;
        while i < threads.len()
            invariant
                i <= threads.len(),
                nodes.len() == i,
                forall|j: int|
                    0 <= j < i ==> (#[trigger] nodes@[j]).deep_view() == thread_node(threads@[j]),
            decreases threads.len() - i,
        {
            let thread = threads[i];
            let mut name = "thread ".to_owned();
            text::push_decimal(&mut name, thread.0);
            nodes.push(
                TaskNode::root(TaskId::new(thread.0), name, TaskKind::Thread, TaskState::Running),
            );
            i += 1;
        }
        assert(nodes.deep_view() =~= thread_nodes(threads@));
        TaskTree::try_from_nodes(nodes)
    }

    /// The physical stack of the thread behind `task`.
    pub fn logical_stack<V: ProcessView + ?Sized>(&self, view: &V, task: TaskId) -> (r: Result<
        Vec<LogicalFrame>,
        DecoderError,
    >)
        ensures
            error::outcome(r) == thread_stack(view, task),
    {
        match view.physical_frames(self.thread_for(task)) {
            Ok(frames) => Ok(frame::copy_stack(&frames)),
            Err(_) => Err(DecoderError::UnknownTask(task)),
        }
    }

    /// Unknown for every known thread: an OS thread has no wake causality.
    pub fn wake_cause<V: ProcessView + ?Sized>(&self, view: &V, task: TaskId) -> (r: Result<
        WakeCause,
        DecoderError,
    >)
        ensures
            error::outcome(r) == thread_wake(view, task),
    {
        match view.registers(self.thread_for(task)) {
            Ok(_) => Ok(WakeCause::Unknown),
            Err(_) => Err(DecoderError::UnknownTask(task)),
        }
    }

    /// None for every known thread.
    pub fn locals_at<V: ProcessView + ?Sized>(
        &self,
        view: &V,
        task: TaskId,
        _frame: &LogicalFrame,
    ) -> (r: Result<Vec<Variable>, DecoderError>)
        ensures
            error::outcome(r) == thread_locals(view, task),
    {
        match view.registers(self.thread_for(task)) {
            Ok(_) => {
                let none: Vec<Variable> = Vec::new();
                assert(none.deep_view() =~= Seq::empty());
                Ok(none)
            },
            Err(_) => Err(DecoderError::UnknownTask(task)),
        }
    }
}

impl SemanticDecoder for NativeThreadsDecoder {
    open spec fn reading(&self) -> Reading {
        Reading::Threads
    }

    fn decode_tasks(&self, view: &dyn ProcessView) -> (r: Result<TaskTree, DecoderError>)
        ensures
            error::outcome(r) == tree::assembled(thread_nodes(view.threads())),
    {
        NativeThreadsDecoder::decode_tasks(self, view)
    }

    fn logical_stack(&self, view: &dyn ProcessView, task: TaskId) -> (r: Result<
        Vec<LogicalFrame>,
        DecoderError,
    >)
        ensures
            error::outcome(r) == thread_stack(view, task),
    {
        NativeThreadsDecoder::logical_stack(self, view, task)
    }

    fn wake_cause(&self, view: &dyn ProcessView, task: TaskId) -> (r: Result<
        WakeCause,
        DecoderError,
    >)
        ensures
            error::outcome(r) == thread_wake(view, task),
    {
        NativeThreadsDecoder::wake_cause(self, view, task)
    }

    fn locals_at(&self, view: &dyn ProcessView, task: TaskId, frame: &LogicalFrame) -> (r: Result<
        Vec<Variable>,
        DecoderError,
    >)
        ensures
            error::outcome(r) == thread_locals(view, task),
    {
        NativeThreadsDecoder::locals_at(self, view, task, frame)
    }
}

/// Where the view names no thread twice, decoding succeeds: one root per
/// thread, in order, and nothing below the roots.
pub proof fn law_one_root_task_per_thread(threads: Seq<ThreadId>)
    requires
        threads.no_duplicates(),
    ensures
        tree::assembled(thread_nodes(threads)) == Ok::<Seq<TaskNodeSpec>, DecoderErrorSpec>(
            thread_nodes(threads),
        ),
        tree::roots_of(thread_nodes(threads)) == threads.map_values(
            |thread: ThreadId| TaskId(thread.0),
        ),
        forall|id: TaskId|
            #[trigger]
            tree::children_of(thread_nodes(threads), id) == Seq::<TaskId>::empty(),
{
    let s = thread_nodes(threads);
    assert forall|i: int, j: int|
        #![trigger s[i], s[j]]
        0 <= i < s.len() && 0 <= j < s.len() && s[i].id == s[j].id implies i == j by {
        assert(threads[i].0 == threads[j].0);
        assert(threads[i] == threads[j]);
    }
    tree::lemma_none_dangling(s, s);
    lemma_roots_of_threads(threads);
    assert forall|id: TaskId|
        #[trigger] tree::children_of(s, id) == Seq::<TaskId>::empty() by {
        lemma_childless(s, id);
    }
}

/// The tasks of a process without a runtime of its own are its threads: in the
/// place of each thread a running root task of the same number, named after it.
/// No thread is left out and nothing else is listed.
pub proof fn law_every_thread_is_shown_as_a_task<V: ProcessView + ?Sized>(view: &V)
    requires
        view.threads().no_duplicates(),
    ensures
        decoder_trait::tasks_read(Reading::Threads, view) matches Some(Ok(nodes)) && {
            &&& nodes.len() == view.threads().len()
            &&& forall|i: int|
                0 <= i < nodes.len() ==> {
                    &&& (#[trigger] nodes[i]).id.0 == view.threads()[i].0
                    &&& nodes[i].name.len() > 7
                    &&& nodes[i].name.take(7) == "thread "@
                    &&& text::digits_value(nodes[i].name.skip(7), 10) == view.threads()[i].0
                    &&& nodes[i].kind == TaskKind::Thread
                    &&& nodes[i].state == TaskStateSpec::Running
                    &&& nodes[i].parent is None
                }
        },
{
    law_one_root_task_per_thread(view.threads());
    reveal_strlit("thread ");
    let nodes = thread_nodes(view.threads());
    assert forall|i: int| 0 <= i < nodes.len() implies (#[trigger] nodes[i]).name.len() > 7
        && nodes[i].name.take(7) == "thread "@ && text::digits_value(nodes[i].name.skip(7), 10)
        == view.threads()[i].0 by {
        let digits = text::decimal(view.threads()[i].0 as nat);
        text::lemma_decimal(view.threads()[i].0 as nat);
        assert(nodes[i].name == "thread "@ + digits);
        assert(("thread "@ + digits).take(7) =~= "thread "@);
        assert(("thread "@ + digits).skip(7) =~= digits);
    }
}

/// Threads of which two have one number form no tree.
pub proof fn law_a_thread_named_twice_is_refused<V: ProcessView + ?Sized>(
    view: &V,
    i: int,
    j: int,
)
    requires
        0 <= i < j < view.threads().len(),
        view.threads()[i] == view.threads()[j],
    ensures
        decoder_trait::tasks_read(Reading::Threads, view) matches Some(Err(_)),
{
    let nodes = thread_nodes(view.threads());
    assert(nodes[i].id == nodes[j].id);
}

/// The stack of a task is that of the thread with its number, frame by frame, the
/// innermost frame first; where the thread has none that can be read, the task is
/// unknown.
pub proof fn law_the_stack_of_a_thread_is_shown<V: ProcessView + ?Sized>(view: &V, task: TaskId)
    ensures
        match view.frames(ThreadId(task.0)) {
            Ok(frames) => decoder_trait::stack_read(Reading::Threads, view, task) matches Some(
                Ok(stack),
            ) && frame::shows_stack(stack, frames),
            Err(_) => decoder_trait::stack_read(Reading::Threads, view, task) == Some(
                Err::<Seq<LogicalFrameSpec>, DecoderErrorSpec>(DecoderErrorSpec::UnknownTask(task)),
            ),
        },
{
    if let Ok(frames) = view.frames(ThreadId(task.0)) {
        frame::law_a_physical_stack_is_shown_frame_by_frame(frames);
    }
}

/// Of a thread whose registers can be read neither a cause of waking nor a local
/// is claimed; any other is unknown.
pub proof fn law_nothing_is_guessed_of_a_thread<V: ProcessView + ?Sized>(view: &V, task: TaskId)
    ensures
        match view.register_reply(ThreadId(task.0)) {
            Ok(_) => decoder_trait::wake_read(Reading::Threads, view, task) == Some(
                Ok::<WakeCauseSpec, DecoderErrorSpec>(WakeCauseSpec::Unknown),
            ) && decoder_trait::locals_read(Reading::Threads, view, task) == Some(
                Ok::<Seq<VariableSpec>, DecoderErrorSpec>(Seq::empty()),
            ),
            Err(_) => decoder_trait::wake_read(Reading::Threads, view, task) == Some(
                Err::<WakeCauseSpec, DecoderErrorSpec>(DecoderErrorSpec::UnknownTask(task)),
            ) && decoder_trait::locals_read(Reading::Threads, view, task) == Some(
                Err::<Seq<VariableSpec>, DecoderErrorSpec>(DecoderErrorSpec::UnknownTask(task)),
            ),
        },
{
}

proof fn lemma_childless(part: Seq<TaskNodeSpec>, id: TaskId)
    requires
        forall|i: int| 0 <= i < part.len() ==> (#[trigger] part[i]).parent is None,
    ensures
        tree::children_of(part, id) == Seq::<TaskId>::empty(),
    decreases part.len(),
{
    if part.len() > 0 {
        assert(part[part.len() - 1] == part.last());
        assert forall|i: int| 0 <= i < part.drop_last().len() implies (
        #[trigger] part.drop_last()[i]).parent is None by {
            assert(part[i] == part.drop_last()[i]);
        }
        lemma_childless(part.drop_last(), id);
    }
}

proof fn lemma_roots_of_threads(threads: Seq<ThreadId>)
    ensures
        tree::roots_of(thread_nodes(threads)) == threads.map_values(
            |thread: ThreadId| TaskId(thread.0),
        ),
    decreases threads.len(),
{
    let ids = threads.map_values(|thread: ThreadId| TaskId(thread.0));
    if threads.len() > 0 {
        let rest = threads.drop_last();
        lemma_roots_of_threads(rest);
        let s = thread_nodes(threads);
        assert(s.drop_last() =~= thread_nodes(rest));
        assert(rest.map_values(|thread: ThreadId| TaskId(thread.0)).push(TaskId(threads.last().0))
            =~= ids);
    } else {
        assert(tree::roots_of(thread_nodes(threads)) =~= ids);
    }
}

} // verus!
