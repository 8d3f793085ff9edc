//! What a live target shows, as the bodies of responses.
use serde_json::Value;
use vstd::prelude::*;

use super::backend::{self, Answer, BackendError, BackendErrorSpec};
use super::stub;
use crate::error::DecoderErrorSpec;
use crate::json::{self, Json};
use crate::model::tree;
use crate::model::{LogicalFrame, LogicalFrameSpec, TaskId, TaskKind, TaskNode, TaskNodeSpec};
use crate::model::{TaskState, TaskStateSpec, TaskTree};
use crate::native::{self, NativeThreadsDecoder};
use crate::process_view::ProcessView;
use crate::text;
use crate::text::parts;

verus! {

/// The reference of the only scope: the registers.
pub const REGISTERS_REF: u64 = 1000;

// ---------------------------------------------------------------------------
// Threads
// ---------------------------------------------------------------------------

/// The name of a task; empty where there is no such task.
pub open spec fn name_of(nodes: Seq<TaskNodeSpec>, id: TaskId) -> Seq<char> {
    match tree::node_of(nodes, id) {
        Some(node) => node.name,
        None => Seq::empty(),
    }
}

/// A thread.
pub open spec fn thread_entry(id: int, name: Seq<char>) -> Json {
    json::object_of(seq![("id"@, Json::Integer(id)), ("name"@, Json::Text(name))])
}

/// The body of the `threads` response: the root tasks, numbered from 1.
pub open spec fn threads_of(nodes: Seq<TaskNodeSpec>) -> Json {
    let roots = tree::roots_of(nodes);
    json::object_of(
        seq![
            (
                "threads"@,
                Json::List(
                    Seq::new(
                        roots.len(),
                        |i: int| thread_entry(i + 1, name_of(nodes, roots[i])),
                    ),
                ),
            ),
        ],
    )
}

/// The body of the `threads` response.
#[must_use]
pub fn threads_body(tree: &TaskTree) -> (r: Value)
    ensures
        json::json(r) == threads_of(tree.deep_view()),
{
    let ghost nodes = tree.deep_view();
    let roots = tree.roots();
    let ghost want = Seq::new(
        roots@.len(),
        |i: int| thread_entry(i + 1, name_of(nodes, roots@[i])),
    );
    let mut items: Vec<Value> = Vec::new();
    let mut i: usize = 0;
    while i < roots.len()
        invariant
            i <= roots.len(),
            nodes == tree.deep_view(),
            want == Seq::new(
                roots@.len(),
                |i: int| thread_entry(i + 1, name_of(nodes, roots@[i])),
            ),
            items.len() == i,
            forall|k: int| 0 <= k < i ==> json::json(#[trigger] items@[k]) == want[k],
        decreases roots.len() - i,
    {
        let name = match tree.node(roots[i]) {
            Some(node) => node.name.clone(),
            None => String::new(),
        };
        let entries: Vec<(&str, Value)> = vec![
            ("id", json::number(i as u64 + 1)),
            ("name", json::string(name.as_str())),
        ];
        assert(json::named(entries@) =~= seq![
            ("id"@, Json::Integer(i + 1)),
            ("name"@, Json::Text(name_of(nodes, roots@[i as int]))),
        ]);
        let item = json::object(entries);
        assert(json::json(item) == want[i as int]);
        items.push(item);
        i += 1;
    }
    assert(json::jsons(items@) =~= want);
    stub::single("threads", json::list(items))
}

// ---------------------------------------------------------------------------
// Stacks
// ---------------------------------------------------------------------------

/// The last of some pieces that is neither empty nor a dot.
pub open spec fn last_component(pieces: Seq<Seq<char>>) -> Option<Seq<char>>
    decreases pieces.len(),
{
    if pieces.len() == 0 {
        None
    } else if pieces.last().len() == 0 || pieces.last() == "."@ {
        last_component(pieces.drop_last())
    } else {
        Some(pieces.last())
    }
}

/// The final component of a path, without trailing slashes and dots; the whole
/// path where there is none, or it leads upward.
pub open spec fn file_name_of(path: Seq<char>) -> Seq<char> {
    match last_component(parts::pieces(path, '/')) {
        Some(name) if name != ".."@ => name,
        _ => path,
    }
}

/// The final component of a path.
#[must_use]
pub fn file_name(path: &str) -> (r: String)
    ensures
        r@ == file_name_of(path@),
{
    let chars = text::chars_of(path);
    let pieces = parts::split(chars.as_slice(), '/');
    let dot = text::chars_of(".");
    let up = text::chars_of("..");
    let ghost all = pieces.deep_view();
    let mut n: usize = pieces.len();
    assert(all.take(n as int) =~= all);
    while n > 0
        invariant
            n <= pieces.len(),
            all == pieces.deep_view(),
            all == parts::pieces(path@, '/'),
            dot@ == "."@,
            up@ == ".."@,
            last_component(all) == last_component(all.take(n as int)),
        decreases n,
    {
        let piece = pieces[n - 1].as_slice();
        proof {
            assert(all.take(n as int).last() =~= piece@);
            assert(all.take(n as int).drop_last() =~= all.take(n - 1));
        }
        if piece.len() > 0 && !text::same_chars(piece, dot.as_slice()) {
            return if text::same_chars(piece, up.as_slice()) {
                path.to_owned()
            } else {
                text::text_of(piece)
            };
        }
        n -= 1;
    }
    path.to_owned()
}

/// A frame of a logical stack.
pub open spec fn frame_entry(index: int, frame: LogicalFrameSpec) -> Json {
    match frame.location {
        Some(location) => json::object_of(
            seq![
                ("id"@, Json::Integer(index + 1)),
                ("name"@, Json::Text(frame.display_name)),
                ("line"@, Json::Integer(location.line as int)),
                ("column"@, Json::Integer(location.column as int)),
                (
                    "source"@,
                    json::object_of(
                        seq![
                            ("name"@, Json::Text(file_name_of(location.path))),
                            ("path"@, Json::Text(location.path)),
                        ],
                    ),
                ),
            ],
        ),
        None => stub::frame_body(index + 1, frame.display_name, 0, 0),
    }
}

/// The body of the `stackTrace` response.
pub open spec fn stack_of(frames: Seq<LogicalFrameSpec>) -> Json {
    json::object_of(
        seq![
            (
                "stackFrames"@,
                Json::List(Seq::new(frames.len(), |i: int| frame_entry(i, frames[i]))),
            ),
            ("totalFrames"@, Json::Integer(frames.len() as int)),
        ],
    )
}

/// A frame of a logical stack.
fn logical_frame_to_dap(index: usize, frame: &LogicalFrame) -> (r: Value)
    requires
        index < usize::MAX,
    ensures
        json::json(r) == frame_entry(index as int, frame.deep_view()),
{
    match &frame.location {
        Some(location) => {
            let name = file_name(location.path.as_str());
            let source: Vec<(&str, Value)> = vec![
                ("name", json::string(name.as_str())),
                ("path", json::string(location.path.as_str())),
            ];
            let ghost src = seq![
                ("name"@, Json::Text(file_name_of(location.path@))),
                ("path"@, Json::Text(location.path@)),
            ];
            assert(json::named(source@) =~= src);
            let entries: Vec<(&str, Value)> = vec![
                ("id", json::number(index as u64 + 1)),
                ("name", json::string(frame.display_name.as_str())),
                ("line", json::number(location.line as u64)),
                ("column", json::number(location.column as u64)),
                ("source", json::object(source)),
            ];
            assert(json::named(entries@) =~= seq![
                ("id"@, Json::Integer(index + 1)),
                ("name"@, Json::Text(frame.display_name@)),
                ("line"@, Json::Integer(location.line as int)),
                ("column"@, Json::Integer(location.column as int)),
                ("source"@, json::object_of(src)),
            ]);
            json::object(entries)
        },
        None => {
            let entries: Vec<(&str, Value)> = vec![
                ("id", json::number(index as u64 + 1)),
                ("name", json::string(frame.display_name.as_str())),
                ("line", json::number(0)),
                ("column", json::number(0)),
            ];
            assert(json::named(entries@) =~= seq![
                ("id"@, Json::Integer(index + 1)),
                ("name"@, Json::Text(frame.display_name@)),
                ("line"@, Json::Integer(0)),
                ("column"@, Json::Integer(0)),
            ]);
            json::object(entries)
        },
    }
}

/// The body of the `stackTrace` response.
#[must_use]
pub fn stack_body(frames: &Vec<LogicalFrame>) -> (r: Value)
    ensures
        json::json(r) == stack_of(frames.deep_view()),
{
    let ghost fs = frames.deep_view();
    let ghost want = Seq::new(fs.len(), |i: int| frame_entry(i, fs[i]));
    let mut items: Vec<Value> = Vec::new();
    let mut i: usize = 0;
    while i < frames.len()
        invariant
            i <= frames.len(),
            fs == frames.deep_view(),
            want == Seq::new(fs.len(), |i: int| frame_entry(i, fs[i])),
            items.len() == i,
            forall|k: int| 0 <= k < i ==> json::json(#[trigger] items@[k]) == want[k],
        decreases frames.len() - i,
    {
        let item = logical_frame_to_dap(i, &frames[i]);
        assert(json::json(item) == want[i as int]);
        items.push(item);
        i += 1;
    }
    assert(json::jsons(items@) =~= want);
    let list = json::list(items);
    let entries: Vec<(&str, Value)> = vec![
        ("stackFrames", list),
        ("totalFrames", json::number(frames.len() as u64)),
    ];
    assert(json::named(entries@) =~= seq![
        ("stackFrames"@, Json::List(want)),
        ("totalFrames"@, Json::Integer(fs.len() as int)),
    ]);
    json::object(entries)
}

// ---------------------------------------------------------------------------
// Registers
// ---------------------------------------------------------------------------

/// The registers that are shown.
#[derive(Debug, Clone, Copy, PartialEq, Eq, Structural)]
pub struct RegisterFile {
    /// Program counter.
    pub pc: u64,
    /// Stack pointer.
    pub sp: u64,
    /// Frame pointer.
    pub fp: u64,
    /// Return address.
    pub lr: u64,
}

/// A register.
pub open spec fn register_entry(name: Seq<char>, value: u64) -> Json {
    json::object_of(
        seq![
            ("name"@, Json::Text(name)),
            ("value"@, Json::Text(text::padded_hex(value as nat))),
            ("type"@, Json::Text("u64"@)),
            ("variablesReference"@, Json::Integer(0)),
        ],
    )
}

/// What stands in the place of locals.
pub open spec fn locals_note() -> Json {
    stub::variable_body(
        "(locals)"@,
        "DWARF local-variable evaluation is not yet implemented (Layer 5, issue-tracked); showing registers only."@,
    )
}

/// The body of the `variables` response for the registers.
pub open spec fn registers_of(regs: RegisterFile) -> Json {
    json::object_of(
        seq![
            (
                "variables"@,
                Json::List(
                    seq![
                        register_entry("pc"@, regs.pc),
                        register_entry("sp"@, regs.sp),
                        register_entry("fp"@, regs.fp),
                        register_entry("lr"@, regs.lr),
                        locals_note(),
                    ],
                ),
            ),
        ],
    )
}

fn register_var(name: &str, value: u64) -> (r: Value)
    ensures
        json::json(r) == register_entry(name@, value),
{
    let mut shown = String::new();
    text::push_padded_hex(&mut shown, value);
    assert(shown@ =~= text::padded_hex(value as nat));
    let entries: Vec<(&str, Value)> = vec![
        ("name", json::string(name)),
        ("value", json::string(shown.as_str())),
        ("type", json::string("u64")),
        ("variablesReference", json::number(0)),
    ];
    assert(json::named(entries@) =~= seq![
        ("name"@, Json::Text(name@)),
        ("value"@, Json::Text(text::padded_hex(value as nat))),
        ("type"@, Json::Text("u64"@)),
        ("variablesReference"@, Json::Integer(0)),
    ]);
    json::object(entries)
}

/// The body of the `variables` response for the registers.
#[must_use]
pub fn registers_body(regs: RegisterFile) -> (r: Value)
    ensures
        json::json(r) == registers_of(regs),
{
    let items: Vec<Value> = vec![
        register_var("pc", regs.pc),
        register_var("sp", regs.sp),
        register_var("fp", regs.fp),
        register_var("lr", regs.lr),
        stub::variable(
            "(locals)",
            "DWARF local-variable evaluation is not yet implemented (Layer 5, issue-tracked); showing registers only.",
        ),
    ];
    assert(json::jsons(items@) =~= seq![
        register_entry("pc"@, regs.pc),
        register_entry("sp"@, regs.sp),
        register_entry("fp"@, regs.fp),
        register_entry("lr"@, regs.lr),
        locals_note(),
    ]);
    stub::single("variables", json::list(items))
}

/// The arguments refer to the registers.
pub open spec fn refers_to_registers(arguments: Json) -> bool {
    arguments matches Json::Object(m) && m.contains_key("variablesReference"@)
        && m["variablesReference"@] == Json::Integer(REGISTERS_REF as int)
}

/// Whether the arguments of a `variables` request refer to the registers.
#[must_use]
pub fn wants_registers(arguments: &Value) -> (r: bool)
    ensures
        r == refers_to_registers(json::json(*arguments)),
{
    if let Some(value) = json::get(arguments, "variablesReference") {
        if let Some(reference) = value.as_u64() {
            return reference == REGISTERS_REF;
        }
    }
    false
}

/// The body of the `variables` response for any other reference.
#[must_use]
pub fn no_variables_body() -> (r: Value)
    ensures
        json::json(r) == json::object_of(seq![("variables"@, Json::List(Seq::empty()))]),
{
    stub::single("variables", stub::empty_list())
}

/// The body of the `scopes` response: the registers.
#[must_use]
pub fn scopes_body() -> (r: Value)
    ensures
        json::json(r) == stub::one_scope("Registers"@, REGISTERS_REF as int),
{
    stub::scope("Registers", REGISTERS_REF)
}

// ---------------------------------------------------------------------------
// Checkpoints and tasks
// ---------------------------------------------------------------------------

/// The body of the `listCheckpoints` response.
pub open spec fn checkpoints_of(seqs: Seq<u64>) -> Json {
    json::object_of(
        seq![
            (
                "checkpoints"@,
                Json::List(
                    seqs.map_values(
                        |seq: u64| json::object_of(seq![("seq"@, Json::Integer(seq as int))]),
                    ),
                ),
            ),
        ],
    )
}

/// The body of the `listCheckpoints` response.
#[must_use]
pub fn checkpoints_body(seqs: &Vec<u64>) -> (r: Value)
    ensures
        json::json(r) == checkpoints_of(seqs@),
{
    let ghost want = seqs@.map_values(
        |seq: u64| json::object_of(seq![("seq"@, Json::Integer(seq as int))]),
    );
    let mut items: Vec<Value> = Vec::new();
    let mut i: usize = 0;
    while i < seqs.len()
        invariant
            i <= seqs.len(),
            want == seqs@.map_values(
                |seq: u64| json::object_of(seq![("seq"@, Json::Integer(seq as int))]),
            ),
            items.len() == i,
            forall|k: int| 0 <= k < i ==> json::json(#[trigger] items@[k]) == want[k],
        decreases seqs.len() - i,
    {
        items.push(stub::single("seq", json::number(seqs[i])));
        i += 1;
    }
    assert(json::jsons(items@) =~= want);
    stub::single("checkpoints", json::list(items))
}

/// The label of a kind of task.
pub open spec fn kind_label(kind: TaskKind) -> Seq<char> {
    match kind {
        TaskKind::Thread => "thread"@,
        TaskKind::AsyncTask => "async_task"@,
        TaskKind::Goroutine => "goroutine"@,
        TaskKind::Coroutine => "coroutine"@,
    }
}

/// The label of a task's state.
pub open spec fn state_label(state: TaskStateSpec) -> Seq<char> {
    match state {
        TaskStateSpec::Runnable => "runnable"@,
        TaskStateSpec::Running => "running"@,
        TaskStateSpec::Blocked { .. } => "blocked"@,
        TaskStateSpec::Completed => "completed"@,
    }
}

/// The label of a kind of task.
#[must_use]
pub fn task_kind(kind: TaskKind) -> (r: &'static str)
    ensures
        r@ == kind_label(kind),
{
    match kind {
        TaskKind::Thread => "thread",
        TaskKind::AsyncTask => "async_task",
        TaskKind::Goroutine => "goroutine",
        TaskKind::Coroutine => "coroutine",
    }
}

/// The label of a task's state.
#[must_use]
pub fn task_state(state: &TaskState) -> (r: &'static str)
    ensures
        r@ == state_label(state.deep_view()),
{
    match state {
        TaskState::Runnable => "runnable",
        TaskState::Running => "running",
        TaskState::Blocked { .. } => "blocked",
        TaskState::Completed => "completed",
    }
}

/// The id of a task, if there is one.
pub open spec fn id_or_null(id: Option<TaskId>) -> Json {
    match id {
        Some(id) => Json::Integer(id.0 as int),
        None => Json::Null,
    }
}

/// A task.
pub open spec fn task_entry(id: TaskId, node: TaskNodeSpec) -> Json {
    json::object_of(
        seq![
            ("id"@, Json::Integer(id.0 as int)),
            ("name"@, Json::Text(node.name)),
            ("kind"@, Json::Text(kind_label(node.kind))),
            ("state"@, Json::Text(state_label(node.state))),
            ("parent"@, id_or_null(node.parent)),
        ],
    )
}

fn serialize_task(id: TaskId, node: &TaskNode) -> (r: Value)
    ensures
        json::json(r) == task_entry(id, node.deep_view()),
{
    let parent = match node.parent {
        Some(parent) => json::number(parent.0),
        None => json::null(),
    };
    let ghost n = node.deep_view();
    let entries: Vec<(&str, Value)> = vec![
        ("id", json::number(id.0)),
        ("name", json::string(node.name.as_str())),
        ("kind", json::string(task_kind(node.kind))),
        ("state", json::string(task_state(&node.state))),
        ("parent", parent),
    ];
    assert(json::named(entries@) =~= seq![
        ("id"@, Json::Integer(id.0 as int)),
        ("name"@, Json::Text(n.name)),
        ("kind"@, Json::Text(kind_label(n.kind))),
        ("state"@, Json::Text(state_label(n.state))),
        ("parent"@, id_or_null(n.parent)),
    ]);
    json::object(entries)
}

/// The tasks among the first `n` ids.
pub open spec fn tasks_among(nodes: Seq<TaskNodeSpec>, ids: Seq<TaskId>, n: int) -> Seq<Json>
    decreases n,
{
    if n <= 0 {
        Seq::empty()
    } else {
        let before = tasks_among(nodes, ids, n - 1);
        match tree::node_of(nodes, ids[n - 1]) {
            Some(node) => before.push(task_entry(ids[n - 1], node)),
            None => before,
        }
    }
}

/// The body of the `taskTimeline` response: every task, parents first.
pub open spec fn tasks_of(nodes: Seq<TaskNodeSpec>) -> Json {
    let ids = tree::flattened(nodes);
    json::object_of(
        seq![("tasks"@, Json::List(tasks_among(nodes, ids, ids.len() as int)))],
    )
}

/// The body of the `taskTimeline` response.
#[must_use]
pub fn tasks_body(tree: &TaskTree) -> (r: Value)
    ensures
        json::json(r) == tasks_of(tree.deep_view()),
{
    let ghost nodes = tree.deep_view();
    let ids = tree.flatten_preorder();
    let mut items: Vec<Value> = Vec::new();
    let mut i: usize = 0;
    assert(json::jsons(items@) =~= Seq::empty());
    while i < ids.len()
        invariant
            i <= ids.len(),
            nodes == tree.deep_view(),
            json::jsons(items@) == tasks_among(nodes, ids@, i as int),
        decreases ids.len() - i,
    {
        if let Some(node) = tree.node(ids[i]) {
            let item = serialize_task(ids[i], node);
            let ghost before = json::jsons(items@);
            let ghost added = json::json(item);
            items.push(item);
            assert(json::jsons(items@) =~= before.push(added));
        }
        i += 1;
    }
    stub::single("tasks", json::list(items))
}

// ---------------------------------------------------------------------------
// A paused target
// ---------------------------------------------------------------------------

/// A decoder's failure, as an answer: its message is passed on.
pub open spec fn decoder_failed(e: DecoderErrorSpec) -> Answer {
    Answer::Failed(BackendErrorSpec::Engine(e.message()))
}

/// What a paused target shows as its threads.
pub open spec fn shown_threads<V: ProcessView + ?Sized>(view: &V) -> Answer {
    match tree::assembled(native::thread_nodes(view.threads())) {
        Ok(nodes) => Answer::Body(threads_of(nodes)),
        Err(e) => decoder_failed(e),
    }
}

/// What a paused target shows as its stack: that of the first root task, or an
/// empty one where there is no task.
pub open spec fn shown_stack<V: ProcessView + ?Sized>(view: &V) -> Answer {
    match tree::assembled(native::thread_nodes(view.threads())) {
        Ok(nodes) => {
            let roots = tree::roots_of(nodes);
            if roots.len() == 0 {
                Answer::Body(stack_of(Seq::empty()))
            } else {
                match native::thread_stack(view, roots[0]) {
                    Ok(frames) => Answer::Body(stack_of(frames)),
                    Err(e) => decoder_failed(e),
                }
            }
        },
        Err(e) => decoder_failed(e),
    }
}

/// What a paused target shows as its tasks.
pub open spec fn shown_tasks<V: ProcessView + ?Sized>(view: &V) -> Answer {
    match tree::assembled(native::thread_nodes(view.threads())) {
        Ok(nodes) => Answer::Body(tasks_of(nodes)),
        Err(e) => decoder_failed(e),
    }
}

/// The body of the `threads` response of a paused target.
///
/// # Errors
/// Fails where the threads cannot be told apart.
pub fn threads<V: ProcessView + ?Sized>(view: &V) -> (r: Result<Value, BackendError>)
    ensures
        backend::body_answer(r) == shown_threads(view),
{
    match NativeThreadsDecoder::new().decode_tasks(view) {
        Ok(tree) => Ok(threads_body(&tree)),
        Err(e) => Err(BackendError::Engine(e.message())),
    }
}

/// The body of the `stackTrace` response of a paused target.
///
/// # Errors
/// Fails where the threads cannot be told apart, or the first cannot be unwound.
pub fn stack_trace<V: ProcessView + ?Sized>(view: &V) -> (r: Result<Value, BackendError>)
    ensures
        backend::body_answer(r) == shown_stack(view),
{
    let decoder = NativeThreadsDecoder::new();
    match decoder.decode_tasks(view) {
        Ok(tree) => {
            let roots = tree.roots();
            if roots.len() == 0 {
                let none: Vec<LogicalFrame> = Vec::new();
                assert(none.deep_view() =~= Seq::empty());
                return Ok(stack_body(&none));
            }
            match decoder.logical_stack(view, roots[0]) {
                Ok(frames) => Ok(stack_body(&frames)),
                Err(e) => Err(BackendError::Engine(e.message())),
            }
        },
        Err(e) => Err(BackendError::Engine(e.message())),
    }
}

/// The body of the `taskTimeline` response of a paused target.
///
/// # Errors
/// Fails where the threads cannot be told apart.
pub fn task_timeline<V: ProcessView + ?Sized>(view: &V) -> (r: Result<Value, BackendError>)
    ensures
        backend::body_answer(r) == shown_tasks(view),
{
    match NativeThreadsDecoder::new().decode_tasks(view) {
        Ok(tree) => Ok(tasks_body(&tree)),
        Err(e) => Err(BackendError::Engine(e.message())),
    }
}

} // verus!
