//! The decoder that turns a stopped Tokio process into a tree of logical async
//! tasks with await-point stacks.
use vstd::prelude::*;

use super::decode::{self, LayoutMap};
use super::dwarf::{self, DwarfExtractSpec};
use super::error::{AsyncDecodeError, AsyncDecodeErrorSpec};
use super::layout::{self, AsyncLayouts};
use super::roots::{TaskRoot, TaskRootSpec};
use super::rustc_version::RustcVersion;
use crate::decoder_trait::{Reading, SemanticDecoder};
use crate::error::{self, DecoderError, DecoderErrorSpec};
use crate::model::tree;
use crate::model::{LogicalFrame, LogicalFrameSpec, TaskId, TaskKind, TaskNode, TaskNodeSpec};
use crate::model::{TaskState, TaskStateSpec, TaskTree, Variable, VariableSpec};
use crate::model::{WakeCause, WakeCauseSpec};
use crate::process_view::ProcessView;

verus! {

/// Upper bound on the tasks produced, against a cyclic fan-out.
pub const MAX_TASKS: usize = 0x1_0000;

// ---------------------------------------------------------------------------
// The walk over the tasks
// ---------------------------------------------------------------------------

/// A coroutine still to be visited.
struct Pending {
    base: u64,
    type_path: String,
    header_addr: Option<u64>,
    /// The id of a root; a branch gets the next free id when it is visited.
    id: Option<TaskId>,
    parent: Option<TaskId>,
}

/// The value of a coroutine still to be visited.
#[verifier::ext_equal]
pub struct PendingSpec {
    pub base: u64,
    pub type_path: Seq<char>,
    pub header_addr: Option<u64>,
    pub id: Option<TaskId>,
    pub parent: Option<TaskId>,
}

impl DeepView for Pending {
    type V = PendingSpec;

    closed spec fn deep_view(&self) -> PendingSpec {
        PendingSpec {
            base: self.base,
            type_path: self.type_path@,
            header_addr: self.header_addr,
            id: self.id,
            parent: self.parent,
        }
    }
}

/// One visited coroutine.
struct DecodedNode {
    id: TaskId,
    parent: Option<TaskId>,
    base: u64,
    type_path: String,
    state: TaskState,
    wake: WakeCause,
}

/// The value of a visited coroutine.
#[verifier::ext_equal]
pub struct DecodedNodeSpec {
    pub id: TaskId,
    pub parent: Option<TaskId>,
    pub base: u64,
    pub type_path: Seq<char>,
    pub state: TaskStateSpec,
    pub wake: WakeCauseSpec,
}

impl DeepView for DecodedNode {
    type V = DecodedNodeSpec;

    closed spec fn deep_view(&self) -> DecodedNodeSpec {
        DecodedNodeSpec {
            id: self.id,
            parent: self.parent,
            base: self.base,
            type_path: self.type_path@,
            state: self.state.deep_view(),
            wake: self.wake.deep_view(),
        }
    }
}

/// The roots as coroutines to be visited: each keeps its given id.
pub open spec fn pending_roots(roots: Seq<TaskRootSpec>) -> Seq<PendingSpec> {
    roots.map_values(
        |root: TaskRootSpec|
            PendingSpec {
                base: root.base,
                type_path: root.type_path,
                header_addr: root.header_addr,
                id: Some(TaskId(root.id)),
                parent: None,
            },
    )
}

/// The branches of a task as coroutines to be visited.
pub open spec fn pending_branches(found: Seq<(u64, Seq<char>)>, parent: TaskId) -> Seq<
    PendingSpec,
> {
    found.map_values(
        |branch: (u64, Seq<char>)|
            PendingSpec {
                base: branch.0,
                type_path: branch.1,
                header_addr: None,
                id: None,
                parent: Some(parent),
            },
    )
}

/// Visiting one coroutine: its node, and its branches.
pub open spec fn visit_one<V: ProcessView + ?Sized>(
    view: &V,
    layouts: LayoutMap,
    item: PendingSpec,
    id: TaskId,
) -> Result<(DecodedNodeSpec, Seq<(u64, Seq<char>)>), DecoderErrorSpec> {
    if !layouts.contains_key(item.type_path) {
        Err(
            DecoderErrorSpec::NotApplicable {
                reason: "no coroutine layout for task type "@ + item.type_path,
            },
        )
    } else {
        let layout = layouts[item.type_path];
        match decode::coroutine_state(view, item.base, layout, layouts, item.header_addr) {
            Err(e) => Err(e),
            Ok(state) => match decode::coroutine_wake(view, item.base, layout, layouts) {
                Err(e) => Err(e),
                Ok(wake) => match decode::branches(view, item.base, layout) {
                    Err(e) => Err(e),
                    Ok(found) => Ok(
                        (
                            DecodedNodeSpec {
                                id,
                                parent: item.parent,
                                base: item.base,
                                type_path: item.type_path,
                                state,
                                wake,
                            },
                            found,
                        ),
                    ),
                },
            },
        }
    }
}

/// Visiting all that is pending, depth first: the branches of a coroutine come
/// directly after it. A branch is numbered when it is visited.
pub open spec fn visit<V: ProcessView + ?Sized>(
    view: &V,
    layouts: LayoutMap,
    pending: Seq<PendingSpec>,
    next_id: u64,
    done: Seq<DecodedNodeSpec>,
) -> Result<Seq<DecodedNodeSpec>, DecoderErrorSpec>
    decreases MAX_TASKS - done.len(),
{
    if pending.len() == 0 {
        Ok(done)
    } else if done.len() >= MAX_TASKS {
        Err(
            DecoderErrorSpec::NotApplicable {
                reason: "task fan-out exceeded MAX_TASKS; layout likely misresolved"@,
            },
        )
    } else {
        let item = pending[0];
        let id = match item.id {
            Some(given) => given,
            None => TaskId(next_id),
        };
        let next = match item.id {
            Some(_) => next_id,
            None => next_id.wrapping_add(1),
        };
        match visit_one(view, layouts, item, id) {
            Err(e) => Err(e),
            Ok((node, found)) => visit(
                view,
                layouts,
                pending_branches(found, id) + pending.skip(1),
                next,
                done.push(node),
            ),
        }
    }
}

/// The greatest root id.
pub open spec fn greatest_id(roots: Seq<TaskRootSpec>) -> u64
    decreases roots.len(),
{
    if roots.len() == 0 {
        0
    } else {
        let rest = greatest_id(roots.drop_last());
        if roots.last().id > rest {
            roots.last().id
        } else {
            rest
        }
    }
}

/// Every task of the target: the roots and what they fan out to. Branches are
/// numbered from one past the greatest root id.
pub open spec fn all_tasks<V: ProcessView + ?Sized>(
    view: &V,
    layouts: LayoutMap,
    roots: Seq<TaskRootSpec>,
) -> Result<Seq<DecodedNodeSpec>, DecoderErrorSpec> {
    if roots.len() == 0 {
        Err(
            DecoderErrorSpec::NotApplicable {
                reason: "no task roots supplied; live task enumeration is a future phase (see async_rust::roots)"@,
            },
        )
    } else {
        visit(
            view,
            layouts,
            pending_roots(roots),
            greatest_id(roots).wrapping_add(1),
            Seq::empty(),
        )
    }
}

/// The tree node of a visited coroutine.
pub open spec fn task_node(n: DecodedNodeSpec) -> TaskNodeSpec {
    TaskNodeSpec {
        id: n.id,
        name: layout::fn_name_of(n.type_path),
        kind: TaskKind::AsyncTask,
        state: n.state,
        parent: n.parent,
    }
}

/// The tree nodes of visited coroutines.
pub open spec fn task_nodes(all: Seq<DecodedNodeSpec>) -> Seq<TaskNodeSpec> {
    all.map_values(|n: DecodedNodeSpec| task_node(n))
}

/// The tree that the tasks of a target form.
pub open spec fn task_tree<V: ProcessView + ?Sized>(
    view: &V,
    layouts: LayoutMap,
    roots: Seq<TaskRootSpec>,
) -> Result<Seq<TaskNodeSpec>, DecoderErrorSpec> {
    match all_tasks(view, layouts, roots) {
        Ok(all) => tree::assembled(task_nodes(all)),
        Err(e) => Err(e),
    }
}

/// The first visited coroutine with a given id, at or after `from`.
pub open spec fn first_with_id(all: Seq<DecodedNodeSpec>, id: TaskId, from: nat) -> Option<
    DecodedNodeSpec,
>
    decreases all.len() - from,
{
    if from >= all.len() {
        None
    } else if all[from as int].id == id {
        Some(all[from as int])
    } else {
        first_with_id(all, id, from + 1)
    }
}

/// The coroutine behind a task.
pub open spec fn coroutine_of<V: ProcessView + ?Sized>(
    view: &V,
    layouts: LayoutMap,
    roots: Seq<TaskRootSpec>,
    task: TaskId,
) -> Result<DecodedNodeSpec, DecoderErrorSpec> {
    match all_tasks(view, layouts, roots) {
        Ok(all) => match first_with_id(all, task, 0) {
            Some(n) => Ok(n),
            None => Err(DecoderErrorSpec::UnknownTask(task)),
        },
        Err(e) => Err(e),
    }
}

/// The async backtrace of the coroutine behind a task.
pub open spec fn task_stack<V: ProcessView + ?Sized>(
    view: &V,
    layouts: LayoutMap,
    roots: Seq<TaskRootSpec>,
    task: TaskId,
) -> Result<Seq<LogicalFrameSpec>, DecoderErrorSpec> {
    match coroutine_of(view, layouts, roots, task) {
        Ok(n) => decode::backtrace(
            view,
            n.base,
            n.type_path,
            layouts,
            decode::MAX_AWAIT_DEPTH as nat,
        ),
        Err(e) => Err(e),
    }
}

/// What will wake the coroutine behind a task.
pub open spec fn task_wake<V: ProcessView + ?Sized>(
    view: &V,
    layouts: LayoutMap,
    roots: Seq<TaskRootSpec>,
    task: TaskId,
) -> Result<WakeCauseSpec, DecoderErrorSpec> {
    match coroutine_of(view, layouts, roots, task) {
        Ok(n) => Ok(n.wake),
        Err(e) => Err(e),
    }
}

// ---------------------------------------------------------------------------
// The decoder
// ---------------------------------------------------------------------------

/// Reconstructs the async task tree of a Tokio target by decoding each task's
/// coroutine state machine, with layouts resolved once from the target binary.
///
/// Every method decodes afresh from the view it is given.
#[derive(Debug, Clone)]
pub struct TokioDecoder {
    layouts: AsyncLayouts,
    version: RustcVersion,
    roots: Vec<TaskRoot>,
}

/// The locals of a task: none of a known one.
pub open spec fn task_locals<V: ProcessView + ?Sized>(
    view: &V,
    layouts: LayoutMap,
    roots: Seq<TaskRootSpec>,
    task: TaskId,
) -> Result<Seq<VariableSpec>, DecoderErrorSpec> {
    match coroutine_of(view, layouts, roots, task) {
        Ok(_) => Ok(Seq::empty()),
        Err(e) => Err(e),
    }
}

impl TokioDecoder {
    /// The coroutine layouts.
    pub closed spec fn reads_with(&self) -> LayoutMap {
        self.layouts.deep_view()
    }

    /// The rustc version that the layouts were validated against.
    pub closed spec fn validated_against(&self) -> RustcVersion {
        self.version
    }

    /// The task roots.
    pub closed spec fn starts_from(&self) -> Seq<TaskRootSpec> {
        self.roots.deep_view()
    }

    /// A decoder with already-resolved layouts and roots.
    #[must_use]
    pub fn from_parts(layouts: AsyncLayouts, version: RustcVersion, roots: Vec<TaskRoot>) -> (r:
        Self)
        ensures
            r.reads_with() == layouts.deep_view(),
            r.validated_against() == version,
            r.starts_from() == roots.deep_view(),
    {
        Self { layouts, version, roots }
    }

    /// A decoder with the layouts of a binary, and no task roots yet: attach
    /// them with `with_roots`.
    ///
    /// # Errors
    /// See `AsyncDecodeError`.
    pub fn from_binary(image: &[u8]) -> (r: Result<Self, AsyncDecodeError>)
        ensures
            match r {
                Ok(decoder) => dwarf::extracted(image@) == Ok::<
                    DwarfExtractSpec,
                    AsyncDecodeErrorSpec,
                >(
                    DwarfExtractSpec {
                        version: decoder.validated_against(),
                        layouts: decoder.reads_with(),
                    },
                ) && decoder.starts_from() == Seq::<TaskRootSpec>::empty(),
                Err(e) => dwarf::extracted(image@) == Err::<DwarfExtractSpec, AsyncDecodeErrorSpec>(
                    e.deep_view(),
                ),
            },
    {
        let (layouts, version) = dwarf::load_layouts(image)?;
        let roots: Vec<TaskRoot> = Vec::new();
        assert(roots.deep_view() =~= Seq::empty());
        Ok(Self { layouts, version, roots })
    }

    /// The same decoder with other task roots.
    #[must_use]
    pub fn with_roots(self, roots: Vec<TaskRoot>) -> (r: Self)
        ensures
            r.reads_with() == self.reads_with(),
            r.validated_against() == self.validated_against(),
            r.starts_from() == roots.deep_view(),
    {
        TokioDecoder { layouts: self.layouts, version: self.version, roots }
    }

    /// The coroutine layouts this decoder reads with.
    #[must_use]
    pub fn layouts(&self) -> (r: &AsyncLayouts)
        ensures
            r.deep_view() == self.reads_with(),
    {
        &self.layouts
    }

    /// The rustc version that the layouts were validated against.
    #[must_use]
    pub fn version(&self) -> (r: RustcVersion)
        ensures
            r == self.validated_against(),
    {
        self.version
    }

    /// Visit one coroutine.
    fn expand<V: ProcessView + ?Sized>(&self, view: &V, item: Pending, id: TaskId) -> (r: Result<
        (DecodedNode, Vec<(u64, String)>),
        DecoderError,
    >)
        ensures
            error::outcome(r) == visit_one(view, self.reads_with(), item.deep_view(), id),
    {
        let layout = match self.layouts.get(item.type_path.as_str()) {
            Some(layout) => layout,
            None => {
                let mut reason = "no coroutine layout for task type ".to_owned();
                reason.append(item.type_path.as_str());
                return Err(DecoderError::NotApplicable { reason });
            },
        };
        let state = decode::task_state(view, item.base, layout, &self.layouts, item.header_addr)?;
        let wake = decode::wake_cause(view, item.base, layout, &self.layouts)?;
        let found = decode::fan_out_children(view, item.base, layout)?;
        Ok(
            (
                DecodedNode {
                    id,
                    parent: item.parent,
                    base: item.base,
                    type_path: item.type_path,
                    state,
                    wake,
                },
                found,
            ),
        )
    }

    /// Walk every root and its branches into a flat list, depth first. Roots
    /// keep their ids; branches are numbered from one past the greatest root
    /// id, in the order in which they are visited.
    fn enumerate<V: ProcessView + ?Sized>(&self, view: &V) -> (r: Result<
        Vec<DecodedNode>,
        DecoderError,
    >)
        ensures
            error::outcome(r) == all_tasks(view, self.reads_with(), self.starts_from()),
    {
        if self.roots.len() == 0 {
            return Err(
                DecoderError::NotApplicable {
                    reason:
                        "no task roots supplied; live task enumeration is a future phase (see async_rust::roots)".to_owned(),
                },
            );
        }
        let ghost roots = self.roots.deep_view();
        let ghost want = all_tasks(view, self.reads_with(), self.starts_from());
        let mut greatest: u64 = 0;
        let mut i: usize = 0;
        assert(roots.take(0) =~= Seq::empty());
        while i < self.roots.len()
            invariant
                i <= self.roots.len(),
                roots == self.roots.deep_view(),
                greatest == greatest_id(roots.take(i as int)),
            decreases self.roots.len() - i,
        {
            assert(roots.take(i + 1).drop_last() =~= roots.take(i as int));
            assert(roots[i as int] == self.roots@[i as int].deep_view());
            if self.roots[i].id > greatest {
                greatest = self.roots[i].id;
            }
            i += 1;
        }
        assert(roots.take(i as int) =~= roots);
        // The stack holds what is pending, the next one last.
        let mut stack: Vec<Pending> = Vec::new();
        let ghost todo = pending_roots(roots);
        let mut k: usize = self.roots.len();
        assert(stack.deep_view().reverse() =~= todo.skip(k as int));
        while k > 0
            invariant
                k <= self.roots.len(),
                roots == self.roots.deep_view(),
                todo == pending_roots(roots),
                stack.deep_view().reverse() == todo.skip(k as int),
            decreases k,
        {
            k -= 1;
            let root = &self.roots[k];
            let ghost before = stack.deep_view();
            let item = Pending {
                base: root.base,
                type_path: root.type_path.clone(),
                header_addr: root.header_addr,
                id: Some(TaskId::new(root.id)),
                parent: None,
            };
            stack.push(item);
            proof {
                assert(roots[k as int] == root.deep_view());
                assert(item.deep_view() == todo[k as int]);
                lemma_push_reversed(before, item.deep_view());
                assert(stack.deep_view() =~= before.push(item.deep_view()));
                assert(todo.skip(k as int) =~= seq![todo[k as int]] + todo.skip(k + 1));
            }
        }
        assert(todo.skip(0) =~= todo);
        let mut next_id: u64 = greatest.wrapping_add(1);
        let mut out: Vec<DecodedNode> = Vec::new();
        assert(out.deep_view() =~= Seq::empty());
        while stack.len() > 0
            invariant
                want == all_tasks(view, self.reads_with(), self.starts_from()),
                want == visit(
                    view,
                    self.reads_with(),
                    stack.deep_view().reverse(),
                    next_id,
                    out.deep_view(),
                ),
                out.len() <= MAX_TASKS,
            decreases MAX_TASKS - out.len(),
        {
            let ghost pending = stack.deep_view().reverse();
            if out.len() >= MAX_TASKS {
                return Err(
                    DecoderError::NotApplicable {
                        reason:
                            "task fan-out exceeded MAX_TASKS; layout likely misresolved".to_owned(),
                    },
                );
            }
            let ghost full = stack.deep_view();
            let item = match stack.pop() {
                Some(item) => item,
                None => {
                    return Ok(out);
                },
            };
            proof {
                assert(full =~= stack.deep_view().push(item.deep_view()));
                lemma_push_reversed(stack.deep_view(), item.deep_view());
                assert(pending[0] == item.deep_view());
                assert(pending.skip(1) =~= stack.deep_view().reverse());
            }
            let id = match item.id {
                Some(given) => given,
                None => {
                    let fresh = TaskId::new(next_id);
                    next_id = next_id.wrapping_add(1);
                    fresh
                },
            };
            let (node, mut found) = self.expand(view, item, id)?;
            let ghost before = out.deep_view();
            let ghost node_value = node.deep_view();
            out.push(node);
            assert(out.deep_view() =~= before.push(node_value));
            let ghost rest = stack.deep_view().reverse();
            let ghost branches = pending_branches(found.deep_view(), id);
            let ghost total = found.len() as int;
            assert(branches.skip(total) + rest =~= rest);
            while found.len() > 0
                invariant
                    found.len() <= total,
                    total == branches.len(),
                    pending_branches(found.deep_view(), id) =~= branches.take(found.len() as int),
                    stack.deep_view().reverse() == branches.skip(found.len() as int) + rest,
                decreases found.len(),
            {
                let ghost held = found.deep_view();
                let ghost n = found.len() as int;
                let ghost stacked = stack.deep_view();
                if let Some((base, type_path)) = found.pop() {
                    let branch = Pending {
                        base,
                        type_path,
                        header_addr: None,
                        id: None,
                        parent: Some(id),
                    };
                    stack.push(branch);
                    proof {
                        assert(held =~= found.deep_view().push((base, type_path@)));
                        assert(pending_branches(held, id)[n - 1] == branch.deep_view());
                        assert(branches.take(n)[n - 1] == branch.deep_view());
                        assert(stack.deep_view() =~= stacked.push(branch.deep_view()));
                        lemma_push_reversed(stacked, branch.deep_view());
                        assert(branches.skip(n - 1) =~= seq![branches[n - 1]] + branches.skip(n));
                        assert(stack.deep_view().reverse() =~= branches.skip(n - 1) + rest);
                        assert forall|j: int| 0 <= j < n - 1 implies #[trigger] pending_branches(
                            found.deep_view(),
                            id,
                        )[j] == branches.take(n - 1)[j] by {
                            assert(found.deep_view()[j] == held[j]);
                            assert(pending_branches(held, id)[j] == branches.take(n)[j]);
                        }
                        assert(pending_branches(found.deep_view(), id) =~= branches.take(n - 1));
                    }
                }
            }
            assert(branches.skip(0) =~= branches);
        }
        proof {
            assert(stack.deep_view().reverse() =~= Seq::empty());
        }
        Ok(out)
    }

    /// The coroutine behind a task, among the visited ones.
    fn node_for<'a>(&self, nodes: &'a Vec<DecodedNode>, task: TaskId) -> (r: Result<
        &'a DecodedNode,
        DecoderError,
    >)
        ensures
            match r {
                Ok(node) => first_with_id(nodes.deep_view(), task, 0) == Some(node.deep_view()),
                Err(e) => first_with_id(nodes.deep_view(), task, 0) is None && e
                    == DecoderError::UnknownTask(task),
            },
    {
        let ghost s = nodes.deep_view();
        let mut i: usize = 0;
        while i < nodes.len()
            invariant
                i <= nodes.len(),
                s == nodes.deep_view(),
                first_with_id(s, task, 0) == first_with_id(s, task, i as nat),
            decreases nodes.len() - i,
        {
            assert(s[i as int] == nodes@[i as int].deep_view());
            if nodes[i].id == task {
                return Ok(&nodes[i]);
            }
            i += 1;
        }
        Err(DecoderError::UnknownTask(task))
    }

    /// The tree of async tasks.
    pub fn decode_tasks<V: ProcessView + ?Sized>(&self, view: &V) -> (r: Result<
        TaskTree,
        DecoderError,
    >)
        ensures
            error::outcome(r) == task_tree(view, self.reads_with(), self.starts_from()),
    {
        let nodes = self.enumerate(view)?;
        let mut out: Vec<TaskNode> = Vec::new();
        let mut i: usize = 0;
        while i < nodes.len()
            invariant
                i <= nodes.len(),
                out.len() == i,
                forall|j: int|
                    0 <= j < i ==> (#[trigger] out@[j]).deep_view() == task_node(
                        nodes@[j].deep_view(),
                    ),
            decreases nodes.len() - i,
        {
            let n = &nodes[i];
            out.push(
                TaskNode {
                    id: n.id,
                    name: layout::fn_name(n.type_path.as_str()),
                    kind: TaskKind::AsyncTask,
                    state: n.state.clone(),
                    parent: n.parent,
                },
            );
            i += 1;
        }
        assert(out.deep_view() =~= task_nodes(nodes.deep_view()));
        TaskTree::try_from_nodes(out)
    }

    /// The async backtrace of a task.
    pub fn logical_stack<V: ProcessView + ?Sized>(&self, view: &V, task: TaskId) -> (r: Result<
        Vec<LogicalFrame>,
        DecoderError,
    >)
        ensures
            error::outcome(r) == task_stack(view, self.reads_with(), self.starts_from(), task),
    {
        let nodes = self.enumerate(view)?;
        let node = self.node_for(&nodes, task)?;
        decode::logical_stack(view, node.base, node.type_path.as_str(), &self.layouts)
    }

    /// What will wake a task.
    pub fn wake_cause<V: ProcessView + ?Sized>(&self, view: &V, task: TaskId) -> (r: Result<
        WakeCause,
        DecoderError,
    >)
        ensures
            error::outcome(r) == task_wake(view, self.reads_with(), self.starts_from(), task),
    {
        let nodes = self.enumerate(view)?;
        let node = self.node_for(&nodes, task)?;
        Ok(node.wake.clone())
    }

    /// None for every known task.
    pub fn locals_at<V: ProcessView + ?Sized>(
        &self,
        view: &V,
        task: TaskId,
        _frame: &LogicalFrame,
    ) -> (r: Result<Vec<Variable>, DecoderError>)
        ensures
            error::outcome(r) == task_locals(view, self.reads_with(), self.starts_from(), task),
    {
        let nodes = self.enumerate(view)?;
        self.node_for(&nodes, task)?;
        let none: Vec<Variable> = Vec::new();
        assert(none.deep_view() =~= Seq::empty());
        Ok(none)
    }
}

impl SemanticDecoder for TokioDecoder {
    open spec fn reading(&self) -> Reading {
        Reading::Coroutines(self.reads_with(), self.starts_from())
    }

    fn decode_tasks(&self, view: &dyn ProcessView) -> (r: Result<TaskTree, DecoderError>)
        ensures
            error::outcome(r) == task_tree(view, self.reads_with(), self.starts_from()),
    {
        TokioDecoder::decode_tasks(self, view)
    }

    fn logical_stack(&self, view: &dyn ProcessView, task: TaskId) -> (r: Result<
        Vec<LogicalFrame>,
        DecoderError,
    >)
        ensures
            error::outcome(r) == task_stack(view, self.reads_with(), self.starts_from(), task),
    {
        TokioDecoder::logical_stack(self, view, task)
    }

    fn wake_cause(&self, view: &dyn ProcessView, task: TaskId) -> (r: Result<
        WakeCause,
        DecoderError,
    >)
        ensures
            error::outcome(r) == task_wake(view, self.reads_with(), self.starts_from(), task),
    {
        TokioDecoder::wake_cause(self, view, task)
    }

    fn locals_at(&self, view: &dyn ProcessView, task: TaskId, frame: &LogicalFrame) -> (r: Result<
        Vec<Variable>,
        DecoderError,
    >)
        ensures
            error::outcome(r) == task_locals(view, self.reads_with(), self.starts_from(), task),
    {
        TokioDecoder::locals_at(self, view, task, frame)
    }
}

proof fn lemma_push_reversed<T>(s: Seq<T>, x: T)
    ensures
        s.push(x).reverse() == seq![x] + s.reverse(),
{
    assert(s.push(x).reverse() =~= seq![x] + s.reverse());
}

} // verus!
