//! What the bodies of responses show.
use vstd::prelude::*;

use super::backend::Answer;
use super::render::{self, RegisterFile};
use crate::decoder_trait::{self, Reading};
use crate::json::{self, Json};
use crate::model::frame;
use crate::model::tree;
use crate::model::tree_laws;
use crate::model::{LogicalFrameSpec, TaskId, TaskKind, TaskNodeSpec, TaskStateSpec};
use crate::native;
use crate::process_view::{ProcessView, ThreadId};
use crate::text;
use crate::text::laws as text_laws;
use crate::text::parts;

verus! {

/// An object holds this text under a name.
pub open spec fn text_is(j: Json, name: Seq<char>, s: Seq<char>) -> bool {
    json::member(j, name) == Some(Json::Text(s))
}

/// An object holds this number under a name.
pub open spec fn number_is(j: Json, name: Seq<char>, n: int) -> bool {
    json::member(j, name) == Some(Json::Integer(n))
}

/// An object holds a list under a name.
pub open spec fn list_is(j: Json, name: Seq<char>, items: Seq<Json>) -> bool {
    json::member(j, name) == Some(Json::List(items))
}

proof fn lemma_one(name: Seq<char>, value: Json)
    ensures
        json::member(json::object_of(seq![(name, value)]), name) == Some(value),
{
    let s = seq![(name, value)];
    assert(json::have_distinct_names(s));
    json::law_an_object_holds_its_fields(s);
    assert(s[0].0 == name);
}

proof fn lemma_two(a: Seq<char>, x: Json, b: Seq<char>, y: Json)
    requires
        a != b,
    ensures
        json::member(json::object_of(seq![(a, x), (b, y)]), a) == Some(x),
        json::member(json::object_of(seq![(a, x), (b, y)]), b) == Some(y),
{
    let s = seq![(a, x), (b, y)];
    assert(json::have_distinct_names(s));
    json::law_an_object_holds_its_fields(s);
    assert(s[0].0 == a && s[1].0 == b);
}

// ---------------------------------------------------------------------------
// Threads
// ---------------------------------------------------------------------------

/// The threads that are shown are the root tasks, in order, numbered from 1 and
/// under their names.
pub proof fn law_the_threads_shown_are_the_root_tasks(nodes: Seq<TaskNodeSpec>)
    ensures
        json::member(render::threads_of(nodes), "threads"@) matches Some(Json::List(items)) && {
            &&& items.len() == tree::roots_of(nodes).len()
            &&& forall|i: int|
                0 <= i < items.len() ==> number_is(#[trigger] items[i], "id"@, i + 1) && text_is(
                    items[i],
                    "name"@,
                    match tree::node_of(nodes, tree::roots_of(nodes)[i]) {
                        Some(node) => node.name,
                        None => Seq::empty(),
                    },
                )
        },
{
    reveal_strlit("id");
    reveal_strlit("name");
    assert("id"@.len() == 2 && "name"@.len() == 4);
    let roots = tree::roots_of(nodes);
    let items = Seq::new(
        roots.len(),
        |i: int| render::thread_entry(i + 1, render::name_of(nodes, roots[i])),
    );
    lemma_one("threads"@, Json::List(items));
    assert forall|i: int| 0 <= i < items.len() implies number_is(#[trigger] items[i], "id"@, i + 1)
        && text_is(items[i], "name"@, render::name_of(nodes, roots[i])) by {
        lemma_two(
            "id"@,
            Json::Integer(i + 1),
            "name"@,
            Json::Text(render::name_of(nodes, roots[i])),
        );
    }
}

proof fn lemma_node_of_thread(threads: Seq<ThreadId>, i: int)
    requires
        threads.no_duplicates(),
        0 <= i < threads.len(),
    ensures
        tree::node_of(native::thread_nodes(threads), TaskId(threads[i].0)) == Some(
            native::thread_node(threads[i]),
        ),
    decreases threads.len(),
{
    let nodes = native::thread_nodes(threads);
    tree::lemma_node_of(nodes, TaskId(threads[i].0));
    assert(nodes[i].id == TaskId(threads[i].0));
    if let Some(node) = tree::node_of(nodes, TaskId(threads[i].0)) {
        let k = choose|k: int| 0 <= k < nodes.len() && #[trigger] nodes[k] == node;
        assert(threads[k].0 == threads[i].0);
        assert(threads[k] == threads[i]);
    }
}

/// A paused process shows a thread for each of its threads, in order, numbered from
/// 1 and named after the thread's own number.
pub proof fn law_every_thread_of_a_paused_process_is_shown<V: ProcessView + ?Sized>(view: &V)
    requires
        view.threads().no_duplicates(),
    ensures
        render::shown_threads(view) matches Answer::Body(body) && (json::member(
            body,
            "threads"@,
        ) matches Some(Json::List(items)) && {
            &&& items.len() == view.threads().len()
            &&& forall|i: int|
                0 <= i < items.len() ==> number_is(#[trigger] items[i], "id"@, i + 1) && text_is(
                    items[i],
                    "name"@,
                    "thread "@ + text::decimal(view.threads()[i].0 as nat),
                )
        }),
{
    let threads = view.threads();
    let nodes = native::thread_nodes(threads);
    native::law_one_root_task_per_thread(threads);
    law_the_threads_shown_are_the_root_tasks(nodes);
    assert forall|i: int| 0 <= i < threads.len() implies tree::node_of(
        nodes,
        (#[trigger] tree::roots_of(nodes)[i]),
    ) == Some(native::thread_node(threads[i])) by {
        lemma_node_of_thread(threads, i);
    }
}

// ---------------------------------------------------------------------------
// Stacks
// ---------------------------------------------------------------------------

/// A frame as it is shown: numbered from 1, under its name and, where its place in
/// the source is known, with that; else with no line.
pub open spec fn is_shown_frame(item: Json, i: int, frame: LogicalFrameSpec) -> bool {
    &&& number_is(item, "id"@, i + 1)
    &&& text_is(item, "name"@, frame.display_name)
    &&& match frame.location {
        Some(location) => {
            &&& number_is(item, "line"@, location.line as int)
            &&& number_is(item, "column"@, location.column as int)
            &&& json::member(item, "source"@) matches Some(source) && text_is(
                source,
                "path"@,
                location.path,
            ) && text_is(source, "name"@, render::file_name_of(location.path))
        },
        None => number_is(item, "line"@, 0) && number_is(item, "column"@, 0) && json::member(
            item,
            "source"@,
        ) is None,
    }
}

proof fn lemma_frame(i: int, frame: LogicalFrameSpec)
    ensures
        is_shown_frame(render::frame_entry(i, frame), i, frame),
{
    reveal_strlit("id");
    reveal_strlit("name");
    reveal_strlit("line");
    reveal_strlit("column");
    reveal_strlit("source");
    reveal_strlit("path");
    assert("id"@.len() == 2 && "name"@.len() == 4 && "line"@.len() == 4 && "path"@.len() == 4);
    assert("name"@[0] == 'n' && "line"@[0] == 'l' && "path"@[0] == 'p');
    assert("column"@.len() == 6 && "source"@.len() == 6 && "column"@[0] == 'c' && "source"@[0]
        == 's');
    match frame.location {
        Some(location) => {
            let source = json::object_of(
                seq![
                    ("name"@, Json::Text(render::file_name_of(location.path))),
                    ("path"@, Json::Text(location.path)),
                ],
            );
            lemma_two(
                "name"@,
                Json::Text(render::file_name_of(location.path)),
                "path"@,
                Json::Text(location.path),
            );
            let s = seq![
                ("id"@, Json::Integer(i + 1)),
                ("name"@, Json::Text(frame.display_name)),
                ("line"@, Json::Integer(location.line as int)),
                ("column"@, Json::Integer(location.column as int)),
                ("source"@, source),
            ];
            assert(json::have_distinct_names(s));
            json::law_an_object_holds_its_fields(s);
            assert(s[0].0 == "id"@ && s[1].0 == "name"@ && s[2].0 == "line"@ && s[3].0
                == "column"@ && s[4].0 == "source"@);
        },
        None => {
            let s = seq![
                ("id"@, Json::Integer(i + 1)),
                ("name"@, Json::Text(frame.display_name)),
                ("line"@, Json::Integer(0)),
                ("column"@, Json::Integer(0)),
            ];
            assert(json::have_distinct_names(s));
            json::law_an_object_holds_its_fields(s);
            assert(s[0].0 == "id"@ && s[1].0 == "name"@ && s[2].0 == "line"@ && s[3].0
                == "column"@);
            if json::member(json::object_of(s), "source"@) is Some {
                let k = choose|k: int| 0 <= k < s.len() && (#[trigger] s[k]).0 == "source"@;
                assert(s[k].0 != "source"@);
            }
        },
    }
}

/// A stack is shown with its frames in order, the first one first.
pub open spec fn is_shown_stack(body: Json, frames: Seq<LogicalFrameSpec>) -> bool {
    &&& number_is(body, "totalFrames"@, frames.len() as int)
    &&& json::member(body, "stackFrames"@) matches Some(Json::List(items)) && items.len()
        == frames.len() && forall|i: int|
        0 <= i < items.len() ==> is_shown_frame(#[trigger] items[i], i, frames[i])
}

/// A stack is shown frame by frame.
pub proof fn law_a_stack_is_shown_frame_by_frame(frames: Seq<LogicalFrameSpec>)
    ensures
        is_shown_stack(render::stack_of(frames), frames),
{
    reveal_strlit("stackFrames");
    reveal_strlit("totalFrames");
    assert("stackFrames"@[0] == 's' && "totalFrames"@[0] == 't');
    let items = Seq::new(frames.len(), |i: int| render::frame_entry(i, frames[i]));
    lemma_two(
        "stackFrames"@,
        Json::List(items),
        "totalFrames"@,
        Json::Integer(frames.len() as int),
    );
    assert forall|i: int| 0 <= i < items.len() implies is_shown_frame(
        #[trigger] items[i],
        i,
        frames[i],
    ) by {
        lemma_frame(i, frames[i]);
    }
}

/// The stack of a paused process is that of its first thread, frame by frame, the
/// innermost frame first; a process without threads has an empty one.
pub proof fn law_the_stack_of_a_paused_process_is_its_first_threads<V: ProcessView + ?Sized>(
    view: &V,
)
    requires
        view.threads().no_duplicates(),
    ensures
        view.threads().len() == 0 ==> (render::shown_stack(view) matches Answer::Body(body)
            && is_shown_stack(body, Seq::empty())),
        view.threads().len() > 0 ==> match view.frames(view.threads()[0]) {
            Ok(frames) => decoder_trait::stack_read(
                Reading::Threads,
                view,
                TaskId(view.threads()[0].0),
            ) matches Some(Ok(stack)) && frame::shows_stack(stack, frames) && (render::shown_stack(
                view,
            ) matches Answer::Body(body) && is_shown_stack(body, stack)),
            Err(_) => render::shown_stack(view) is Failed,
        },
{
    let threads = view.threads();
    native::law_one_root_task_per_thread(threads);
    law_a_stack_is_shown_frame_by_frame(Seq::empty());
    if threads.len() > 0 {
        let first = TaskId(threads[0].0);
        assert(tree::roots_of(native::thread_nodes(threads))[0] == first);
        native::law_the_stack_of_a_thread_is_shown(view, first);
        assert(ThreadId(first.0) == threads[0]);
        if let Ok(stack) = native::thread_stack(view, first) {
            law_a_stack_is_shown_frame_by_frame(stack);
        }
    }
}

// ---------------------------------------------------------------------------
// Tasks
// ---------------------------------------------------------------------------

/// The label of a kind of task.
pub open spec fn is_kind_label(label: Seq<char>, kind: TaskKind) -> bool {
    &&& kind == TaskKind::Thread ==> label == "thread"@
    &&& kind == TaskKind::AsyncTask ==> label == "async_task"@
    &&& kind == TaskKind::Goroutine ==> label == "goroutine"@
    &&& kind == TaskKind::Coroutine ==> label == "coroutine"@
}

/// The label of a state.
pub open spec fn is_state_label(label: Seq<char>, state: TaskStateSpec) -> bool {
    &&& state is Runnable ==> label == "runnable"@
    &&& state is Running ==> label == "running"@
    &&& state is Blocked ==> label == "blocked"@
    &&& state is Completed ==> label == "completed"@
}

/// A task as it is shown: its number, name, kind and state, and its parent's number,
/// if it has one.
pub open spec fn is_shown_task(item: Json, id: TaskId, node: TaskNodeSpec) -> bool {
    &&& number_is(item, "id"@, id.0 as int)
    &&& text_is(item, "name"@, node.name)
    &&& json::member(item, "kind"@) matches Some(Json::Text(label)) && is_kind_label(
        label,
        node.kind,
    )
    &&& json::member(item, "state"@) matches Some(Json::Text(label)) && is_state_label(
        label,
        node.state,
    )
    &&& match node.parent {
        Some(parent) => number_is(item, "parent"@, parent.0 as int),
        None => json::member(item, "parent"@) == Some(Json::Null),
    }
}

proof fn lemma_task(id: TaskId, node: TaskNodeSpec)
    ensures
        is_shown_task(render::task_entry(id, node), id, node),
{
    reveal_strlit("id");
    reveal_strlit("name");
    reveal_strlit("kind");
    reveal_strlit("state");
    reveal_strlit("parent");
    assert("id"@.len() == 2 && "name"@.len() == 4 && "kind"@.len() == 4 && "state"@.len() == 5
        && "parent"@.len() == 6);
    assert("name"@[0] == 'n' && "kind"@[0] == 'k');
    let s = seq![
        ("id"@, Json::Integer(id.0 as int)),
        ("name"@, Json::Text(node.name)),
        ("kind"@, Json::Text(render::kind_label(node.kind))),
        ("state"@, Json::Text(render::state_label(node.state))),
        ("parent"@, render::id_or_null(node.parent)),
    ];
    assert(json::have_distinct_names(s));
    json::law_an_object_holds_its_fields(s);
    assert(s[0].0 == "id"@ && s[1].0 == "name"@ && s[2].0 == "kind"@ && s[3].0 == "state"@
        && s[4].0 == "parent"@);
}

proof fn lemma_tasks(nodes: Seq<TaskNodeSpec>, ids: Seq<TaskId>, n: int)
    requires
        0 <= n <= ids.len(),
        forall|i: int| 0 <= i < ids.len() ==> tree::node_of(nodes, #[trigger] ids[i]) is Some,
    ensures
        render::tasks_among(nodes, ids, n).len() == n,
        forall|i: int|
            0 <= i < n ==> is_shown_task(
                #[trigger] render::tasks_among(nodes, ids, n)[i],
                ids[i],
                tree::node_of(nodes, ids[i])->Some_0,
            ),
    decreases n,
{
    if n > 0 {
        lemma_tasks(nodes, ids, n - 1);
        assert(tree::node_of(nodes, ids[n - 1]) is Some);
        lemma_task(ids[n - 1], tree::node_of(nodes, ids[n - 1])->Some_0);
        let before = render::tasks_among(nodes, ids, n - 1);
        let after = render::tasks_among(nodes, ids, n);
        assert forall|i: int| 0 <= i < n implies is_shown_task(
            #[trigger] after[i],
            ids[i],
            tree::node_of(nodes, ids[i])->Some_0,
        ) by {
            if i < n - 1 {
                assert(after[i] == before[i]);
            }
        }
    }
}

/// Every task of a tree is shown, in the order of its listing.
pub proof fn law_every_task_of_the_listing_is_shown(nodes: Seq<TaskNodeSpec>)
    requires
        tree::is_forest(nodes),
    ensures
        json::member(render::tasks_of(nodes), "tasks"@) matches Some(Json::List(items))
            && items.len() == tree::flattened(nodes).len() && forall|i: int|
            0 <= i < items.len() ==> is_shown_task(
                #[trigger] items[i],
                tree::flattened(nodes)[i],
                tree::node_of(nodes, tree::flattened(nodes)[i])->Some_0,
            ),
{
    let ids = tree::flattened(nodes);
    assert forall|i: int| 0 <= i < ids.len() implies tree::node_of(
        nodes,
        #[trigger] ids[i],
    ) is Some by {
        tree_laws::law_flatten_puts_parents_first(nodes, i);
    }
    lemma_tasks(nodes, ids, ids.len() as int);
    lemma_one("tasks"@, Json::List(render::tasks_among(nodes, ids, ids.len() as int)));
}

// ---------------------------------------------------------------------------
// Registers and checkpoints
// ---------------------------------------------------------------------------

/// A register as it is shown: its value in hexadecimal, with sixteen digits.
pub open spec fn is_shown_register(item: Json, name: Seq<char>, value: u64) -> bool {
    &&& text_is(item, "name"@, name)
    &&& json::member(item, "value"@) matches Some(Json::Text(shown)) && shown.len() == 18
        && shown.take(2) == "0x"@ && text::all_digits(shown.skip(2), 16) && text::digits_value(
        shown.skip(2),
        16,
    ) == value
    &&& number_is(item, "variablesReference"@, 0)
}

proof fn lemma_zeros(n: nat, digits: Seq<char>)
    requires
        text::all_digits(digits, 16),
    ensures
        text::zeros(n).len() == n,
        text::all_digits(text::zeros(n) + digits, 16),
        text::digits_value(text::zeros(n) + digits, 16) == text::digits_value(digits, 16),
    decreases n + digits.len(),
{
    let all = text::zeros(n) + digits;
    if n > 0 {
        lemma_zeros((n - 1) as nat, Seq::empty());
        assert(text::zeros((n - 1) as nat) + Seq::<char>::empty() =~= text::zeros((n - 1) as nat));
        assert(text::zeros(n).drop_last() =~= text::zeros((n - 1) as nat));
        assert(text::zeros(n).last() == '0');
        assert(text::digits_value(text::zeros(n), 16) == 0);
        assert(text::zeros(n) + Seq::<char>::empty() =~= text::zeros(n));
    }
    if digits.len() > 0 {
        let shorter = digits.drop_last();
        assert(text::all_digits(shorter, 16)) by {
            assert forall|i: int| 0 <= i < shorter.len() implies text::is_digit(
                #[trigger] shorter[i],
                16,
            ) by {
                assert(shorter[i] == digits[i]);
            }
        }
        lemma_zeros(n, shorter);
        assert(all.drop_last() =~= text::zeros(n) + shorter);
        assert(all.last() == digits.last());
    } else {
        assert(all =~= text::zeros(n));
    }
    assert forall|i: int| 0 <= i < all.len() implies text::is_digit(#[trigger] all[i], 16) by {
        if i >= n {
            assert(all[i] == digits[i - n]);
        } else {
            lemma_zero_at(n, i);
        }
    }
}

proof fn lemma_zero_at(n: nat, i: int)
    requires
        0 <= i < text::zeros(n).len(),
    ensures
        text::zeros(n)[i] == '0',
    decreases n,
{
    if n > 0 && i < text::zeros((n - 1) as nat).len() {
        lemma_zero_at((n - 1) as nat, i);
    }
}

proof fn lemma_hex_len(n: nat, k: nat)
    requires
        0 < k,
        n < pow16(k),
    ensures
        text::hex(n).len() <= k,
    decreases k,
{
    if n >= 16 {
        if k == 1 {
            assert(pow16(1) == 16 * pow16(0));
        } else {
            lemma_hex_len(n / 16, (k - 1) as nat);
        }
    }
}

spec fn pow16(k: nat) -> nat
    decreases k,
{
    if k == 0 {
        1
    } else {
        16 * pow16((k - 1) as nat)
    }
}

proof fn lemma_register(name: Seq<char>, value: u64)
    ensures
        is_shown_register(render::register_entry(name, value), name, value),
{
    reveal_strlit("0x");
    reveal_strlit("name");
    reveal_strlit("value");
    reveal_strlit("type");
    reveal_strlit("variablesReference");
    assert("name"@.len() == 4 && "value"@.len() == 5 && "type"@.len() == 4
        && "variablesReference"@.len() == 18);
    assert("name"@[0] == 'n' && "type"@[0] == 't');
    let shown = text::padded_hex(value as nat);
    let s = seq![
        ("name"@, Json::Text(name)),
        ("value"@, Json::Text(shown)),
        ("type"@, Json::Text("u64"@)),
        ("variablesReference"@, Json::Integer(0)),
    ];
    assert(json::have_distinct_names(s));
    json::law_an_object_holds_its_fields(s);
    assert(s[0].0 == "name"@ && s[1].0 == "value"@ && s[2].0 == "type"@ && s[3].0
        == "variablesReference"@);
    let digits = text::hex(value as nat);
    text::lemma_hex(value as nat);
    assert(pow16(16) == 0x1_0000_0000_0000_0000) by {
        reveal_with_fuel(pow16, 17);
    }
    lemma_hex_len(value as nat, 16);
    let n = (16 - digits.len()) as nat;
    lemma_zeros(n, digits);
    assert(shown =~= "0x"@ + (text::zeros(n) + digits));
    assert(shown.take(2) =~= "0x"@);
    assert(shown.skip(2) =~= text::zeros(n) + digits);
}

/// The registers are shown by their names, each with its own value.
pub proof fn law_every_register_is_shown_with_its_value(regs: RegisterFile)
    ensures
        json::member(render::registers_of(regs), "variables"@) matches Some(Json::List(items)) && {
            &&& items.len() == 5
            &&& is_shown_register(items[0], "pc"@, regs.pc)
            &&& is_shown_register(items[1], "sp"@, regs.sp)
            &&& is_shown_register(items[2], "fp"@, regs.fp)
            &&& is_shown_register(items[3], "lr"@, regs.lr)
        },
{
    lemma_register("pc"@, regs.pc);
    lemma_register("sp"@, regs.sp);
    lemma_register("fp"@, regs.fp);
    lemma_register("lr"@, regs.lr);
    lemma_one(
        "variables"@,
        Json::List(
            seq![
                render::register_entry("pc"@, regs.pc),
                render::register_entry("sp"@, regs.sp),
                render::register_entry("fp"@, regs.fp),
                render::register_entry("lr"@, regs.lr),
                render::locals_note(),
            ],
        ),
    );
}

/// Every checkpoint is shown, in order, by the number of its event.
pub proof fn law_every_checkpoint_is_shown(seqs: Seq<u64>)
    ensures
        json::member(render::checkpoints_of(seqs), "checkpoints"@) matches Some(Json::List(items))
            && items.len() == seqs.len() && forall|i: int|
            0 <= i < items.len() ==> number_is(#[trigger] items[i], "seq"@, seqs[i] as int),
{
    let items = seqs.map_values(
        |seq: u64| json::object_of(seq![("seq"@, Json::Integer(seq as int))]),
    );
    lemma_one("checkpoints"@, Json::List(items));
    assert forall|i: int| 0 <= i < items.len() implies number_is(
        #[trigger] items[i],
        "seq"@,
        seqs[i] as int,
    ) by {
        lemma_one("seq"@, Json::Integer(seqs[i] as int));
    }
}

/// A file is named by the last component of its path, whatever stands before it
/// and whether a slash follows it.
pub proof fn law_a_file_is_named_by_its_last_component(dir: Seq<char>, name: Seq<char>)
    requires
        !name.contains('/'),
        name.len() > 0,
        name != "."@,
        name != ".."@,
    ensures
        render::file_name_of(name) == name,
        render::file_name_of(dir + seq!['/'] + name) == name,
        render::file_name_of(dir + seq!['/'] + name + seq!['/']) == name,
{
    let none = Seq::<char>::empty();
    text_laws::law_separators_part_the_pieces(name, '/', none);
    text_laws::law_separators_part_the_pieces(dir, '/', name);
    text_laws::law_separators_part_the_pieces(none, '/', none);
    let path = dir + seq!['/'] + name;
    text_laws::law_separators_part_the_pieces(path, '/', none);
    let (a, b) = (parts::pieces(path, '/'), parts::pieces(path + seq!['/'], '/'));
    assert(path + seq!['/'] + none =~= path + seq!['/']);
    assert(a.last() == name);
    assert(b == a + seq![none]);
    assert(b.drop_last() =~= a);
    assert(b.last() == none);
    reveal_with_fuel(render::last_component, 3);
}

/// The variables that are asked for are the registers if, and only if, the
/// arguments refer to 1000.
pub proof fn law_the_registers_have_one_reference(arguments: Json)
    ensures
        render::refers_to_registers(arguments) <==> json::member(
            arguments,
            "variablesReference"@,
        ) == Some(Json::Integer(1000)),
{
}

} // verus!
