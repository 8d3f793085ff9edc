//! The decoder that turns a stopped Go process into a tree of goroutines.
use std::collections::BTreeSet;

use vstd::prelude::*;

use super::dwarf;
use super::error::{GoDecodeError, GoDecodeErrorSpec};
use super::gwalk::{self, walk_goroutines, GoroutineInfo, GoroutineSpec};
use super::offsets::GoLayout;
use super::status;
use crate::decoder_trait::{Reading, SemanticDecoder};
use crate::error::{self, DecoderError, DecoderErrorSpec};
use crate::model::frame;
use crate::model::tree;
use crate::model::{BlockReason, BlockReasonSpec, FrameOrigin, LogicalFrame, LogicalFrameSpec};
use crate::model::{SuspendKind, SuspendPoint, SuspendPointSpec, TaskId, TaskKind, TaskNode};
use crate::model::{TaskNodeSpec, TaskState, TaskStateSpec, TaskTree, Variable, WakeCause};
use crate::model::{VariableSpec, WakeCauseSpec};
use crate::process_view::{ProcessView, ThreadId};
use crate::text;

verus! {

// ---------------------------------------------------------------------------
// From goroutines to tasks
// ---------------------------------------------------------------------------

/// Some goroutine has this id.
pub open spec fn is_live(all: Seq<GoroutineSpec>, goid: i64) -> bool {
    exists|i: int| 0 <= i < all.len() && (#[trigger] all[i]).goid == goid
}

/// The parent task of a goroutine: its creator, where that one is another live
/// user goroutine.
pub open spec fn parent_task(g: GoroutineSpec, all: Seq<GoroutineSpec>) -> Option<TaskId> {
    match g.parent_goid {
        Some(p) if p > 0 && p != g.goid && is_live(all, p) => Some(TaskId(p as u64)),
        _ => None,
    }
}

/// The task of a goroutine.
pub open spec fn goroutine_node(g: GoroutineSpec, all: Seq<GoroutineSpec>) -> TaskNodeSpec {
    TaskNodeSpec {
        id: TaskId(g.goid as u64),
        name: "goroutine "@ + text::signed_decimal(g.goid as int),
        kind: TaskKind::Goroutine,
        state: g.state,
        parent: parent_task(g, all),
    }
}

/// The tasks of the first `n` goroutines: user goroutines only (the ids of
/// system stacks are not positive), each id once.
pub open spec fn goroutine_nodes(all: Seq<GoroutineSpec>, n: nat) -> Seq<TaskNodeSpec>
    decreases n,
{
    if n == 0 {
        Seq::empty()
    } else {
        let rest = goroutine_nodes(all, (n - 1) as nat);
        let g = all[n - 1];
        if g.goid <= 0 || is_live(all.take(n - 1), g.goid) {
            rest
        } else {
            rest.push(goroutine_node(g, all))
        }
    }
}

/// The tree that the goroutines of a target form.
pub open spec fn goroutine_tree<V: ProcessView + ?Sized>(view: &V, layout: GoLayout) -> Result<
    Seq<TaskNodeSpec>,
    DecoderErrorSpec,
> {
    match gwalk::live_goroutines(view, layout) {
        Ok(all) => tree::assembled(goroutine_nodes(all, all.len())),
        Err(e) => Err(e),
    }
}

/// The first goroutine with a given id at or after `from`.
pub open spec fn first_with_id(all: Seq<GoroutineSpec>, goid: i64, from: nat) -> Option<
    GoroutineSpec,
>
    decreases all.len() - from,
{
    if from >= all.len() {
        None
    } else if all[from as int].goid == goid {
        Some(all[from as int])
    } else {
        first_with_id(all, goid, from + 1)
    }
}

/// The goroutine behind a task. A task whose number is no user goroutine's id
/// is unknown.
pub open spec fn goroutine_of<V: ProcessView + ?Sized>(
    view: &V,
    layout: GoLayout,
    task: TaskId,
) -> Result<GoroutineSpec, DecoderErrorSpec> {
    match gwalk::live_goroutines(view, layout) {
        Ok(all) => match first_with_id(all, task.0 as i64, 0) {
            Some(g) if g.goid > 0 => Ok(g),
            _ => Err(DecoderErrorSpec::UnknownTask(task)),
        },
        Err(e) => Err(e),
    }
}

/// The kind of suspend point for a block reason.
pub open spec fn suspend_kind_of(reason: BlockReasonSpec) -> SuspendKind {
    match reason {
        BlockReasonSpec::Channel { .. } => SuspendKind::ChannelRecv,
        BlockReasonSpec::Lock { .. } => SuspendKind::Lock,
        BlockReasonSpec::Io { .. } => SuspendKind::Io,
        BlockReasonSpec::Join { .. } => SuspendKind::Join,
        BlockReasonSpec::Timer => SuspendKind::Timer,
        BlockReasonSpec::Unknown => SuspendKind::Other,
    }
}

/// The one frame of a parked goroutine: its saved resume PC and, where it is
/// blocked, what it waits for.
pub open spec fn parked_frame(g: GoroutineSpec) -> LogicalFrameSpec {
    LogicalFrameSpec {
        display_name: "goroutine "@ + text::signed_decimal(g.goid as int) + " (parked @ 0x"@
            + text::hex(g.sched_pc as nat) + ")"@,
        location: None,
        suspend: match g.state {
            TaskStateSpec::Blocked { on } => Some(
                SuspendPointSpec { kind: suspend_kind_of(on), detail: Some(g.wait_reason_str) },
            ),
            _ => None,
        },
        origin: FrameOrigin::Synthesized,
    }
}

/// The logical stack of a goroutine: that of the thread it occupies, or its
/// parked frame.
pub open spec fn goroutine_stack<V: ProcessView + ?Sized>(view: &V, g: GoroutineSpec) -> Result<
    Seq<LogicalFrameSpec>,
    DecoderErrorSpec,
> {
    match g.thread {
        Some(thread) => match view.frames(thread) {
            Ok(frames) => Ok(frame::physical_stack(frames)),
            Err(_) => Err(DecoderErrorSpec::UnknownThread(thread)),
        },
        None => Ok(seq![parked_frame(g)]),
    }
}

/// The logical stack of the goroutine behind a task.
pub open spec fn task_stack<V: ProcessView + ?Sized>(
    view: &V,
    layout: GoLayout,
    task: TaskId,
) -> Result<Seq<LogicalFrameSpec>, DecoderErrorSpec> {
    match goroutine_of(view, layout, task) {
        Ok(g) => goroutine_stack(view, g),
        Err(e) => Err(e),
    }
}

/// What will wake the goroutine behind a task: known from the wait reason of a
/// blocked goroutine.
pub open spec fn task_wake<V: ProcessView + ?Sized>(
    view: &V,
    layout: GoLayout,
    task: TaskId,
) -> Result<WakeCauseSpec, DecoderErrorSpec> {
    match goroutine_of(view, layout, task) {
        Ok(g) => Ok(
            match g.state {
                TaskStateSpec::Blocked { .. } => status::wake_cause_of(g.wait_reason),
                _ => WakeCauseSpec::Unknown,
            },
        ),
        Err(e) => Err(e),
    }
}

// ---------------------------------------------------------------------------
// The decoder
// ---------------------------------------------------------------------------

/// Reconstructs the goroutine tree of a Go target by walking `runtime.allgs`
/// with a layout resolved once from the target binary.
///
/// Stateless per call: every method reads afresh from the view it is given.
#[derive(Debug, Clone)]
pub struct GoroutineDecoder {
    layout: GoLayout,
}

/// The locals of a task: none of a known goroutine.
pub open spec fn task_locals<V: ProcessView + ?Sized>(
    view: &V,
    layout: GoLayout,
    task: TaskId,
) -> Result<Seq<VariableSpec>, DecoderErrorSpec> {
    match goroutine_of(view, layout, task) {
        Ok(_) => Ok(Seq::empty()),
        Err(e) => Err(e),
    }
}

impl GoroutineDecoder {
    /// The layout this decoder reads with.
    pub closed spec fn reads_with(&self) -> GoLayout {
        self.layout
    }

    /// A decoder with an already-resolved layout.
    #[must_use]
    pub fn from_layout(layout: GoLayout) -> (r: Self)
        ensures
            r.reads_with() == layout,
    {
        Self { layout }
    }

    /// A decoder with the layout of a binary's runtime.
    ///
    /// # Errors
    /// See `GoDecodeError`.
    pub fn from_binary(image: &[u8]) -> (r: Result<Self, GoDecodeError>)
        ensures
            match r {
                Ok(decoder) => dwarf::loaded_layout(image@) == Ok::<GoLayout, GoDecodeErrorSpec>(
                    decoder.reads_with(),
                ),
                Err(e) => dwarf::loaded_layout(image@) == Err::<GoLayout, GoDecodeErrorSpec>(
                    e.deep_view(),
                ),
            },
    {
        Ok(Self { layout: dwarf::load_layout(image)? })
    }

    /// The layout this decoder reads with.
    #[must_use]
    pub fn layout(&self) -> (r: &GoLayout)
        ensures
            *r == self.reads_with(),
    {
        &self.layout
    }

    /// The goroutine behind a task.
    fn goroutine<V: ProcessView + ?Sized>(&self, view: &V, task: TaskId) -> (r: Result<
        GoroutineInfo,
        DecoderError,
    >)
        ensures
            error::outcome(r) == goroutine_of(view, self.reads_with(), task),
    {
        let mut all = walk_goroutines(view, &self.layout)?;
        let goid: i64 = task.raw() as i64;
        let ghost s = all.deep_view();
        let mut i: usize = 0;
        while i < all.len()
            invariant
                i <= all.len(),
                s == all.deep_view(),
                goid == task.0 as i64,
                gwalk::live_goroutines(view, self.reads_with()) == Ok::<
                    Seq<GoroutineSpec>,
                    DecoderErrorSpec,
                >(s),
                first_with_id(s, goid, 0) == first_with_id(s, goid, i as nat),
            decreases all.len() - i,
        {
            assert(s[i as int] == all@[i as int].deep_view());
            if all[i].goid == goid {
                if goid > 0 {
                    return Ok(all.swap_remove(i));
                }
                return Err(DecoderError::UnknownTask(task));
            }
            i += 1;
        }
        Err(DecoderError::UnknownTask(task))
    }

    /// The tree of user goroutines, in the order of `runtime.allgs`.
    pub fn decode_tasks<V: ProcessView + ?Sized>(&self, view: &V) -> (r: Result<
        TaskTree,
        DecoderError,
    >)
        ensures
            error::outcome(r) == goroutine_tree(view, self.reads_with()),
    {
        let all = walk_goroutines(view, &self.layout)?;
        let ghost s = all.deep_view();
        let mut live: BTreeSet<i64> = BTreeSet::new();
        let mut i: usize = 0;
        while i < all.len()
            invariant
                i <= all.len(),
                s == all.deep_view(),
                forall|p: i64| #[trigger] live@.contains(p) <==> is_live(s.take(i as int), p),
            decreases all.len() - i,
        {
            live.insert(all[i].goid);
            proof {
                lemma_live_step(s, i as int);
            }
            i += 1;
        }
        assert(s.take(i as int) =~= s);
        let mut seen: BTreeSet<i64> = BTreeSet::new();
        let mut nodes: Vec<TaskNode> = Vec::new();
        let mut k: usize = 0;
        assert(nodes.deep_view() =~= goroutine_nodes(s, 0));
        while k < all.len()
            invariant
                k <= all.len(),
                s == all.deep_view(),
                forall|p: i64| #[trigger] live@.contains(p) <==> is_live(s, p),
                forall|p: i64| #[trigger] seen@.contains(p) <==> is_live(s.take(k as int), p),
                nodes.deep_view() == goroutine_nodes(s, k as nat),
            decreases all.len() - k,
        {
            let g = &all[k];
            assert(s[k as int] == g.deep_view());
            let ghost before = nodes.deep_view();
            let fresh = seen.insert(g.goid);
            proof {
                lemma_live_step(s, k as int);
            }
            if g.goid > 0 && fresh {
                let node = node_for(g, &live, Ghost(s));
                nodes.push(node);
                assert(nodes.deep_view() =~= before.push(node.deep_view()));
            }
            k += 1;
        }
        TaskTree::try_from_nodes(nodes)
    }

    /// The logical stack of a goroutine: that of the thread it occupies or,
    /// where it is parked, one frame at its saved resume PC.
    pub fn logical_stack<V: ProcessView + ?Sized>(&self, view: &V, task: TaskId) -> (r: Result<
        Vec<LogicalFrame>,
        DecoderError,
    >)
        ensures
            error::outcome(r) == task_stack(view, self.reads_with(), task),
    {
        let g = self.goroutine(view, task)?;
        match g.thread {
            Some(thread) => running_stack(view, thread),
            None => {
                let mut stack: Vec<LogicalFrame> = Vec::new();
                let top = parked_start_frame(&g);
                stack.push(top);
                assert(stack.deep_view() =~= seq![top.deep_view()]);
                Ok(stack)
            },
        }
    }

    /// What will wake a blocked goroutine, from its wait reason.
    pub fn wake_cause<V: ProcessView + ?Sized>(&self, view: &V, task: TaskId) -> (r: Result<
        WakeCause,
        DecoderError,
    >)
        ensures
            error::outcome(r) == task_wake(view, self.reads_with(), task),
    {
        let g = self.goroutine(view, task)?;
        Ok(
            match &g.state {
                TaskState::Blocked { .. } => status::wake_cause(g.wait_reason),
                _ => WakeCause::Unknown,
            },
        )
    }

    /// None for every known goroutine.
    pub fn locals_at<V: ProcessView + ?Sized>(
        &self,
        view: &V,
        task: TaskId,
        _frame: &LogicalFrame,
    ) -> (r: Result<Vec<Variable>, DecoderError>)
        ensures
            error::outcome(r) == task_locals(view, self.reads_with(), task),
    {
        self.goroutine(view, task)?;
        let none: Vec<Variable> = Vec::new();
        assert(none.deep_view() =~= Seq::empty());
        Ok(none)
    }
}

impl SemanticDecoder for GoroutineDecoder {
    open spec fn reading(&self) -> Reading {
        Reading::Goroutines(self.reads_with())
    }

    fn decode_tasks(&self, view: &dyn ProcessView) -> (r: Result<TaskTree, DecoderError>)
        ensures
            error::outcome(r) == goroutine_tree(view, self.reads_with()),
    {
        GoroutineDecoder::decode_tasks(self, view)
    }

    fn logical_stack(&self, view: &dyn ProcessView, task: TaskId) -> (r: Result<
        Vec<LogicalFrame>,
        DecoderError,
    >)
        ensures
            error::outcome(r) == task_stack(view, self.reads_with(), task),
    {
        GoroutineDecoder::logical_stack(self, view, task)
    }

    fn wake_cause(&self, view: &dyn ProcessView, task: TaskId) -> (r: Result<
        WakeCause,
        DecoderError,
    >)
        ensures
            error::outcome(r) == task_wake(view, self.reads_with(), task),
    {
        GoroutineDecoder::wake_cause(self, view, task)
    }

    fn locals_at(&self, view: &dyn ProcessView, task: TaskId, frame: &LogicalFrame) -> (r: Result<
        Vec<Variable>,
        DecoderError,
    >)
        ensures
            error::outcome(r) == task_locals(view, self.reads_with(), task),
    {
        GoroutineDecoder::locals_at(self, view, task, frame)
    }
}

proof fn lemma_live_step(s: Seq<GoroutineSpec>, i: int)
    requires
        0 <= i < s.len(),
    ensures
        forall|p: i64|
            is_live(s.take(i + 1), p) <==> is_live(s.take(i), p) || p == (#[trigger] s[i]).goid,
{
    assert forall|p: i64|
        is_live(s.take(i + 1), p) <==> is_live(s.take(i), p) || p == s[i].goid by {
        let a = s.take(i);
        let b = s.take(i + 1);
        if is_live(a, p) {
            let j = choose|j: int| 0 <= j < a.len() && (#[trigger] a[j]).goid == p;
            assert(b[j] == a[j]);
        }
        if is_live(b, p) {
            let j = choose|j: int| 0 <= j < b.len() && (#[trigger] b[j]).goid == p;
            if j < i {
                assert(a[j] == b[j]);
            }
        }
        assert(b[i] == s[i]);
    }
}

/// The task of a goroutine, with its parent where that one is live.
fn node_for(g: &GoroutineInfo, live: &BTreeSet<i64>, Ghost(all): Ghost<Seq<GoroutineSpec>>) -> (r:
    TaskNode)
    requires
        forall|p: i64| #[trigger] live@.contains(p) <==> is_live(all, p),
    ensures
        r.deep_view() == goroutine_node(g.deep_view(), all),
{
    let parent = match g.parent_goid {
        Some(p) if p > 0 && p != g.goid && live.contains(&p) => Some(TaskId::new(p as u64)),
        _ => None,
    };
    let mut name = "goroutine ".to_owned();
    text::push_signed(&mut name, g.goid);
    TaskNode {
        id: TaskId::new(g.goid as u64),
        name,
        kind: TaskKind::Goroutine,
        state: g.state.clone(),
        parent,
    }
}

/// The physical stack of the OS thread a running goroutine occupies.
fn running_stack<V: ProcessView + ?Sized>(view: &V, thread: ThreadId) -> (r: Result<
    Vec<LogicalFrame>,
    DecoderError,
>)
    ensures
        error::outcome(r) == (match view.frames(thread) {
            Ok(frames) => Ok::<Seq<LogicalFrameSpec>, DecoderErrorSpec>(
                frame::physical_stack(frames),
            ),
            Err(_) => Err(DecoderErrorSpec::UnknownThread(thread)),
        }),
{
    match view.physical_frames(thread) {
        Ok(frames) => Ok(frame::copy_stack(&frames)),
        Err(_) => Err(DecoderError::UnknownThread(thread)),
    }
}

/// A single synthesized frame at a parked goroutine's saved resume PC.
fn parked_start_frame(g: &GoroutineInfo) -> (r: LogicalFrame)
    ensures
        r.deep_view() == parked_frame(g.deep_view()),
{
    let suspend = match &g.state {
        TaskState::Blocked { on } => Some(
            SuspendPoint { kind: suspend_kind(on), detail: Some(g.wait_reason_str.to_owned()) },
        ),
        _ => None,
    };
    let mut display_name = "goroutine ".to_owned();
    text::push_signed(&mut display_name, g.goid);
    display_name.append(" (parked @ 0x");
    text::push_hex(&mut display_name, g.sched_pc);
    display_name.append(")");
    LogicalFrame { display_name, location: None, suspend, origin: FrameOrigin::Synthesized }
}

/// The display-oriented kind of suspend point for a block reason.
fn suspend_kind(reason: &BlockReason) -> (r: SuspendKind)
    ensures
        r == suspend_kind_of(reason.deep_view()),
{
    match reason {
        BlockReason::Channel { .. } => SuspendKind::ChannelRecv,
        BlockReason::Lock { .. } => SuspendKind::Lock,
        BlockReason::Io { .. } => SuspendKind::Io,
        BlockReason::Join { .. } => SuspendKind::Join,
        BlockReason::Timer => SuspendKind::Timer,
        BlockReason::Unknown => SuspendKind::Other,
    }
}

} // verus!
