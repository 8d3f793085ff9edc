//! What enumeration finds, in terms of the target's memory.
use vstd::prelude::*;

use super::dwarf::{self, BinaryFactsSpec};
use super::error::EnumerateErrorSpec;
use super::layout::{TokioRuntimeLayout, TokioVersion};
use super::tls::{self, TlsVariant};
use super::walk::{self, RawTask};
use super::{EnumerationPlanSpec, Gathered};
use crate::async_rust::decode::LayoutMap;
use crate::async_rust::roots::TaskRootSpec;
use crate::bytes;
use crate::process_view::{self, LiveProcessView, ProcessView, ThreadId};

verus! {

// ---------------------------------------------------------------------------
// From tasks to roots
// ---------------------------------------------------------------------------

/// The type of a task's future: the one that the binary's first entry for its poll
/// function names, loaded `load_bias` bytes off.
pub open spec fn is_type_of(
    facts: BinaryFactsSpec,
    task: RawTask,
    load_bias: u64,
    type_path: Seq<char>,
) -> bool {
    exists|j: int|
        0 <= j < facts.poll_types.len() && (#[trigger] facts.poll_types[j]).1 == type_path
            && facts.poll_types[j].0.wrapping_add(load_bias) == task.poll_runtime && forall|i: int|
            0 <= i < j ==> (#[trigger] facts.poll_types[i]).0 != facts.poll_types[j].0
}

/// A task can be decoded: there is a layout of its future's type.
pub open spec fn is_decodable(
    facts: BinaryFactsSpec,
    task: RawTask,
    load_bias: u64,
    layouts: LayoutMap,
) -> bool {
    exists|type_path: Seq<char>|
        layouts.contains_key(type_path) && #[trigger] is_type_of(facts, task, load_bias, type_path)
}

/// A root is that of a walked task: its coroutine is the task's future, its header
/// the task's header, and its type that of the task's poll function.
pub open spec fn is_root_of(
    root: TaskRootSpec,
    facts: BinaryFactsSpec,
    task: RawTask,
    load_bias: u64,
    layouts: LayoutMap,
) -> bool {
    &&& root.base == task.future
    &&& root.header_addr == Some(task.header)
    &&& layouts.contains_key(root.type_path)
    &&& is_type_of(facts, task, load_bias, root.type_path)
}

/// The roots are those of some of the first `n` walked tasks, in order and numbered
/// from 1; and every task that can be decoded is among them.
pub open spec fn are_roots_of(
    roots: Seq<TaskRootSpec>,
    facts: BinaryFactsSpec,
    raw: Seq<RawTask>,
    n: int,
    load_bias: u64,
    layouts: LayoutMap,
    picks: Seq<int>,
) -> bool {
    &&& picks.len() == roots.len()
    &&& forall|i: int|
        0 <= i < picks.len() ==> 0 <= (#[trigger] picks[i]) < n && is_root_of(
            roots[i],
            facts,
            raw[picks[i]],
            load_bias,
            layouts,
        ) && roots[i].id == i + 1
    &&& forall|i: int, j: int| 0 <= i < j < picks.len() ==> picks[i] < picks[j]
    &&& forall|k: int|
        #![trigger raw[k]]
        0 <= k < n && is_decodable(facts, raw[k], load_bias, layouts) ==> picks.contains(k)
}

proof fn lemma_type_of_poll(polls: Seq<(u64, Seq<char>)>, addr: u64, from: nat)
    ensures
        match dwarf::type_of_poll(polls, addr, from) {
            Some(t) => exists|j: int|
                from <= j < polls.len() && (#[trigger] polls[j]).0 == addr && polls[j].1 == t
                    && forall|i: int| from <= i < j ==> (#[trigger] polls[i]).0 != addr,
            None => forall|j: int| from <= j < polls.len() ==> (#[trigger] polls[j]).0 != addr,
        },
    decreases polls.len() - from,
{
    if from < polls.len() {
        if polls[from as int].0 == addr {
        } else {
            lemma_type_of_poll(polls, addr, from + 1);
            if let Some(t) = dwarf::type_of_poll(polls, addr, from + 1) {
                let j = choose|j: int|
                    from + 1 <= j < polls.len() && (#[trigger] polls[j]).0 == addr && polls[j].1
                        == t && forall|i: int|
                        from + 1 <= i < j ==> (#[trigger] polls[i]).0 != addr;
                assert(polls[j].0 == addr && polls[j].1 == t);
            }
        }
    }
}

proof fn lemma_decodable(facts: BinaryFactsSpec, task: RawTask, load_bias: u64, layouts: LayoutMap)
    ensures
        match super::decodable_type(facts, task, load_bias, layouts) {
            Some(t) => layouts.contains_key(t) && is_type_of(facts, task, load_bias, t),
            None => !is_decodable(facts, task, load_bias, layouts),
        },
{
    let polls = facts.poll_types;
    let addr = task.poll_runtime.wrapping_sub(load_bias);
    lemma_type_of_poll(polls, addr, 0);
    assert forall|a: u64| #[trigger] a.wrapping_add(load_bias) == task.poll_runtime <==> a
        == addr by {}
    match dwarf::type_of_poll(polls, addr, 0) {
        Some(t) => {
            let j = choose|j: int|
                0 <= j < polls.len() && (#[trigger] polls[j]).0 == addr && polls[j].1 == t
                    && forall|i: int| 0 <= i < j ==> (#[trigger] polls[i]).0 != addr;
            assert(facts.poll_types[j].0.wrapping_add(load_bias) == task.poll_runtime);
            assert(is_type_of(facts, task, load_bias, t));
            if is_decodable(facts, task, load_bias, layouts) {
                let u = choose|u: Seq<char>|
                    layouts.contains_key(u) && #[trigger] is_type_of(facts, task, load_bias, u);
                let k = choose|k: int|
                    0 <= k < facts.poll_types.len() && (#[trigger] facts.poll_types[k]).1 == u
                        && facts.poll_types[k].0.wrapping_add(load_bias) == task.poll_runtime
                        && forall|i: int|
                        0 <= i < k ==> (#[trigger] facts.poll_types[i]).0 != facts.poll_types[k].0;
                assert(polls[k].0 == addr);
                if k < j {
                    assert(polls[k].0 != addr);
                }
                if j < k {
                    assert(polls[j].0 != polls[k].0);
                }
            }
        },
        None => {
            if is_decodable(facts, task, load_bias, layouts) {
                let u = choose|u: Seq<char>|
                    layouts.contains_key(u) && #[trigger] is_type_of(facts, task, load_bias, u);
                let k = choose|k: int|
                    0 <= k < facts.poll_types.len() && (#[trigger] facts.poll_types[k]).1 == u
                        && facts.poll_types[k].0.wrapping_add(load_bias) == task.poll_runtime
                        && forall|i: int|
                        0 <= i < k ==> (#[trigger] facts.poll_types[i]).0 != facts.poll_types[k].0;
                assert(polls[k].0 != addr);
            }
        },
    }
}

proof fn lemma_roots(
    facts: BinaryFactsSpec,
    raw: Seq<RawTask>,
    n: int,
    load_bias: u64,
    layouts: LayoutMap,
) -> (picks: Seq<int>)
    requires
        0 <= n <= raw.len(),
        n < u64::MAX,
    ensures
        are_roots_of(
            super::roots_among(facts, raw, n, load_bias, layouts),
            facts,
            raw,
            n,
            load_bias,
            layouts,
            picks,
        ),
        picks.len() <= n,
    decreases n,
{
    if n == 0 {
        Seq::empty()
    } else {
        let before = lemma_roots(facts, raw, n - 1, load_bias, layouts);
        let had = super::roots_among(facts, raw, n - 1, load_bias, layouts);
        let roots = super::roots_among(facts, raw, n, load_bias, layouts);
        let task = raw[n - 1];
        lemma_decodable(facts, task, load_bias, layouts);
        match super::decodable_type(facts, task, load_bias, layouts) {
            None => before,
            Some(t) => {
                let picks = before.push(n - 1);
                assert forall|i: int| 0 <= i < picks.len() implies 0 <= (#[trigger] picks[i]) < n
                    && is_root_of(roots[i], facts, raw[picks[i]], load_bias, layouts)
                    && roots[i].id == i + 1 by {
                    if i < before.len() {
                        assert(picks[i] == before[i]);
                        assert(roots[i] == had[i]);
                    }
                }
                assert forall|i: int, j: int| 0 <= i < j < picks.len() implies picks[i]
                    < picks[j] by {
                    assert(picks[i] == before[i]);
                    if j < before.len() {
                        assert(picks[j] == before[j]);
                    }
                }
                assert forall|k: int|
                    #![trigger raw[k]]
                    0 <= k < n && is_decodable(facts, raw[k], load_bias, layouts) implies picks.contains(
                k) by {
                    if k == n - 1 {
                        assert(picks[before.len() as int] == k);
                    } else {
                        assert(before.contains(k));
                        let i = before.index_of(k);
                        assert(picks[i] == k);
                    }
                }
                picks
            },
        }
    }
}

/// Every walked task that can be decoded becomes a root, in the order of the walk,
/// and no root comes from elsewhere: its coroutine is the task's future, and its
/// state is read from the task's header.
pub proof fn law_every_decodable_task_is_a_root(
    facts: BinaryFactsSpec,
    raw: Seq<RawTask>,
    load_bias: u64,
    layouts: LayoutMap,
)
    requires
        raw.len() < u64::MAX,
    ensures
        exists|picks: Seq<int>|
            are_roots_of(
                super::roots_among(facts, raw, raw.len() as int, load_bias, layouts),
                facts,
                raw,
                raw.len() as int,
                load_bias,
                layouts,
                picks,
            ),
{
    let picks = lemma_roots(facts, raw, raw.len() as int, load_bias, layouts);
    assert(are_roots_of(
        super::roots_among(facts, raw, raw.len() as int, load_bias, layouts),
        facts,
        raw,
        raw.len() as int,
        load_bias,
        layouts,
        picks,
    ));
}

/// The roots of a process are made of its walked tasks, with the executable as far
/// off as its least address is from where it is loaded. Without a place where it is
/// loaded nothing is enumerated.
pub proof fn law_roots_are_made_of_the_walked_tasks<V: LiveProcessView + ?Sized>(
    plan: EnumerationPlanSpec,
    view: &V,
    layouts: LayoutMap,
    variant: TlsVariant,
    load_bias: u64,
)
    ensures
        view.load_base() is None ==> super::roots_of(plan, view, layouts, variant) == Err::<
            Seq<TaskRootSpec>,
            EnumerateErrorSpec,
        >(EnumerateErrorSpec::LoadBaseUnavailable),
        view.load_base() == Some(load_bias.wrapping_add(plan.facts.min_load_vaddr)) ==> match super::raw_tasks(
            plan,
            view,
            variant,
        ) {
            Ok(raw) => super::roots_of(plan, view, layouts, variant) == Ok::<
                Seq<TaskRootSpec>,
                EnumerateErrorSpec,
            >(super::roots_among(plan.facts, raw, raw.len() as int, load_bias, layouts)),
            Err(e) => super::roots_of(plan, view, layouts, variant) == Err::<
                Seq<TaskRootSpec>,
                EnumerateErrorSpec,
            >(e),
        },
{
}

// ---------------------------------------------------------------------------
// The lists of tasks
// ---------------------------------------------------------------------------

/// The view shows a word.
pub open spec fn word_is<V: ProcessView + ?Sized>(view: &V, addr: u64, n: u64) -> bool {
    process_view::shows(view, addr, 8, n as int)
}

proof fn lemma_pointer<V: ProcessView + ?Sized>(view: &V, addr: u64)
    ensures
        walk::pointer_at(view, addr) matches Ok(n) ==> word_is(view, addr, n),
        forall|n: u64| #[trigger] word_is(view, addr, n) ==> walk::pointer_at(view, addr) == Ok::<
            u64,
            EnumerateErrorSpec,
        >(n),
{
    if let Ok(data) = view.memory(addr, 8) {
        bytes::lemma_le_bound(data);
        bytes::lemma_pow256_values();
        bytes::law_bytes_read_as_what_they_spell(data, bytes::le(data) as int);
        assert forall|n: u64| #[trigger] word_is(view, addr, n) implies walk::pointer_at(view, addr)
            == Ok::<u64, EnumerateErrorSpec>(n) by {
            bytes::law_bytes_read_as_what_they_spell(data, n as int);
        }
    }
}

/// A task's header is at `node`: its vtable names the poll function and where the
/// trailer is, its future follows the header, and its trailer names the next task.
pub open spec fn is_task_at<V: ProcessView + ?Sized>(
    view: &V,
    layout: TokioRuntimeLayout,
    node: u64,
    task: RawTask,
    next: u64,
) -> bool {
    &&& task.header == node
    &&& task.future == node.wrapping_add(layout.future_offset)
    &&& exists|vtable: u64, trailer: u64|
        #![trigger word_is(view, node.wrapping_add(layout.header_vtable), vtable), node.wrapping_add(trailer)]
        word_is(view, node.wrapping_add(layout.header_vtable), vtable) && word_is(
            view,
            vtable.wrapping_add(layout.vtable_poll),
            task.poll_runtime,
        ) && word_is(view, vtable.wrapping_add(layout.vtable_trailer_offset), trailer) && word_is(
            view,
            node.wrapping_add(trailer).wrapping_add(layout.trailer_owned_next),
            next,
        )
}

/// Tasks that are linked from the header at `head` on, to the last.
pub open spec fn are_linked<V: ProcessView + ?Sized>(
    view: &V,
    layout: TokioRuntimeLayout,
    head: u64,
    tasks: Seq<RawTask>,
) -> bool
    decreases tasks.len(),
{
    if tasks.len() == 0 {
        head == 0
    } else {
        head != 0 && exists|next: u64|
            #[trigger] is_task_at(view, layout, head, tasks[0], next) && are_linked(
                view,
                layout,
                next,
                tasks.skip(1),
            )
    }
}

/// The walk over a list finds every task that is linked, in order, and nothing
/// else.
pub proof fn law_a_list_is_walked_to_its_end<V: ProcessView + ?Sized>(
    view: &V,
    layout: TokioRuntimeLayout,
    head: u64,
    found: Seq<RawTask>,
    all: Seq<RawTask>,
)
    requires
        walk::shard_from(view, head, layout, found).0 == all,
        walk::shard_from(view, head, layout, found).1 is Ok,
    ensures
        all.len() >= found.len(),
        all.take(found.len() as int) == found,
        are_linked(view, layout, head, all.skip(found.len() as int)),
    decreases walk::MAX_TASKS - found.len(),
{
    if head == 0 {
        assert(all.take(found.len() as int) =~= found);
        assert(all.skip(found.len() as int).len() == 0);
    } else {
        let (task, reply) = walk::task_at(view, head, layout)->Ok_0;
        let next = reply->Ok_0;
        let vtable = walk::pointer_at(view, head.wrapping_add(layout.header_vtable))->Ok_0;
        let trailer = walk::pointer_at(
            view,
            vtable.wrapping_add(layout.vtable_trailer_offset),
        )->Ok_0;
        lemma_pointer(view, head.wrapping_add(layout.header_vtable));
        lemma_pointer(view, vtable.wrapping_add(layout.vtable_poll));
        lemma_pointer(view, vtable.wrapping_add(layout.vtable_trailer_offset));
        lemma_pointer(
            view,
            head.wrapping_add(trailer).wrapping_add(layout.trailer_owned_next),
        );
        law_a_list_is_walked_to_its_end(view, layout, next, found.push(task), all);
        let rest = all.skip(found.len() as int);
        assert(all.take(found.len() as int) =~= found) by {
            assert(all.take((found.len() + 1) as int) == found.push(task));
            assert forall|i: int| 0 <= i < found.len() implies all[i] == found[i] by {
                assert(all.take((found.len() + 1) as int)[i] == found.push(task)[i]);
            }
        }
        assert(rest[0] == task) by {
            assert(all.take((found.len() + 1) as int)[found.len() as int] == found.push(task)[found.len() as int]);
        }
        assert(rest.skip(1) =~= all.skip((found.len() + 1) as int));
        assert(is_task_at(view, layout, head, rest[0], next));
    }
}

/// The tasks of one shard: linked from the head that its list shows.
pub open spec fn are_of_shard<V: ProcessView + ?Sized>(
    view: &V,
    layout: TokioRuntimeLayout,
    data: u64,
    shard: int,
    tasks: Seq<RawTask>,
) -> bool {
    exists|head: u64|
        word_is(
            view,
            data.wrapping_add((shard as u64).wrapping_mul(layout.shard_stride)).wrapping_add(
                layout.mutex_data,
            ).wrapping_add(layout.list_head),
            head,
        ) && #[trigger] are_linked(view, layout, head, tasks)
}

/// Tasks that are those of the shards from `from` to `len`, one shard after the
/// other.
pub open spec fn are_of_shards<V: ProcessView + ?Sized>(
    view: &V,
    layout: TokioRuntimeLayout,
    data: u64,
    from: int,
    len: int,
    tasks: Seq<RawTask>,
) -> bool
    decreases len - from,
{
    if from >= len {
        tasks.len() == 0
    } else {
        exists|n: int|
            0 <= n <= tasks.len() && #[trigger] are_of_shard(
                view,
                layout,
                data,
                from,
                tasks.take(n),
            ) && are_of_shards(view, layout, data, from + 1, len, tasks.skip(n))
    }
}

/// The walk over the shards finds the tasks of every shard, in order.
pub proof fn law_every_shard_is_walked<V: ProcessView + ?Sized>(
    view: &V,
    layout: TokioRuntimeLayout,
    data: u64,
    shard: nat,
    len: nat,
    found: Seq<RawTask>,
    all: Seq<RawTask>,
)
    requires
        walk::shards_from(view, data, shard, len, layout, found).0 == all,
        walk::shards_from(view, data, shard, len, layout, found).1 is Ok,
    ensures
        all.len() >= found.len(),
        all.take(found.len() as int) == found,
        are_of_shards(
            view,
            layout,
            data,
            shard as int,
            len as int,
            all.skip(found.len() as int),
        ),
    decreases len - shard,
{
    if shard >= len {
        assert(all.take(found.len() as int) =~= found);
    } else {
        let addr = data.wrapping_add((shard as u64).wrapping_mul(layout.shard_stride)).wrapping_add(
            layout.mutex_data,
        ).wrapping_add(layout.list_head);
        lemma_pointer(view, addr);
        let head = walk::pointer_at(view, addr)->Ok_0;
        let more = walk::shard_from(view, head, layout, found).0;
        law_a_list_is_walked_to_its_end(view, layout, head, found, more);
        law_every_shard_is_walked(view, layout, data, shard + 1, len, more, all);
        let k = found.len() as int;
        let n = more.len() - k;
        let rest = all.skip(k);
        assert(rest.take(n) =~= more.skip(k)) by {
            assert forall|i: int| k <= i < more.len() implies #[trigger] all[i] == more[i] by {
                assert(all.take(more.len() as int)[i] == more[i]);
            }
        }
        assert(rest.skip(n) =~= all.skip(more.len() as int));
        assert(all.take(k) =~= found) by {
            assert forall|i: int| 0 <= i < k implies all[i] == found[i] by {
                assert(all.take(more.len() as int)[i] == more[i]);
                assert(more.take(k)[i] == found[i]);
            }
        }
        assert(are_of_shard(view, layout, data, shard as int, rest.take(n)));
        assert(are_of_shards(view, layout, data, (shard + 1) as int, len as int, rest.skip(n)));
    }
}

/// A thread has entered a runtime: its context holds the address of one.
pub open spec fn has_runtime<V: ProcessView + ?Sized>(
    view: &V,
    layout: TokioRuntimeLayout,
    context: u64,
    runtime: u64,
) -> bool {
    word_is(
        view,
        context.wrapping_add(layout.context_current).wrapping_add(layout.handle_cell_value),
        runtime,
    )
}

/// The tasks that a runtime owns.
pub open spec fn are_owned<V: ProcessView + ?Sized>(
    view: &V,
    layout: TokioRuntimeLayout,
    runtime: u64,
    tasks: Seq<RawTask>,
) -> bool {
    let lists = runtime.wrapping_add(layout.arc_data).wrapping_add(
        layout.handle_shared,
    ).wrapping_add(layout.shared_owned).wrapping_add(layout.owned_list).wrapping_add(
        layout.sharded_lists,
    );
    exists|data: u64, len: u64|
        word_is(view, lists, data) && word_is(view, lists.wrapping_add(8), len) && len <= 0x1_0000
            && #[trigger] are_of_shards(view, layout, data, 0, len as int, tasks)
}

/// From a context the walk finds all that its runtime owns; where none is entered
/// it finds nothing, and says so.
pub proof fn law_a_context_leads_to_all_that_its_runtime_owns<V: ProcessView + ?Sized>(
    view: &V,
    layout: TokioRuntimeLayout,
    context: u64,
    runtime: u64,
)
    requires
        has_runtime(view, layout, context, runtime),
    ensures
        runtime == 0 ==> walk::context_walk(view, context, layout, Seq::empty()) == (
            Seq::<RawTask>::empty(),
            Ok::<bool, EnumerateErrorSpec>(false),
        ),
        runtime != 0 ==> match walk::context_walk(view, context, layout, Seq::empty()) {
            (tasks, Ok(entered)) => entered && are_owned(view, layout, runtime, tasks),
            _ => true,
        },
{
    lemma_pointer(
        view,
        context.wrapping_add(layout.context_current).wrapping_add(layout.handle_cell_value),
    );
    if runtime != 0 {
        let lists = runtime.wrapping_add(layout.arc_data).wrapping_add(
            layout.handle_shared,
        ).wrapping_add(layout.shared_owned).wrapping_add(layout.owned_list).wrapping_add(
            layout.sharded_lists,
        );
        lemma_pointer(view, lists);
        lemma_pointer(view, lists.wrapping_add(8));
        if let (tasks, Ok(_)) = walk::context_walk(view, context, layout, Seq::empty()) {
            let data = walk::pointer_at(view, lists)->Ok_0;
            let len = walk::pointer_at(view, lists.wrapping_add(8))->Ok_0;
            law_every_shard_is_walked(
                view,
                layout,
                data,
                0,
                len as nat,
                Seq::empty(),
                tasks,
            );
            assert(tasks.skip(0) =~= tasks);
            assert(are_of_shards(view, layout, data, 0, len as int, tasks));
        }
    }
}

// ---------------------------------------------------------------------------
// All threads
// ---------------------------------------------------------------------------

/// What a thread leads to: the tasks that its runtime owns, if its thread pointer is
/// known and it has entered one.
pub open spec fn found_by<V: LiveProcessView + ?Sized>(
    plan: EnumerationPlanSpec,
    view: &V,
    variant: TlsVariant,
    thread: ThreadId,
) -> Seq<RawTask> {
    match view.thread_pointer_reply(thread) {
        Ok(Some(tp)) => match walk::context_walk(
            view,
            super::context_address(plan.facts, variant, tp),
            plan.layout,
            Seq::empty(),
        ) {
            (tasks, Ok(true)) => tasks,
            _ => Seq::empty(),
        },
        _ => Seq::empty(),
    }
}

/// Every task that is listed was found by a thread, and every task that a thread
/// found is listed, or another one with its header.
pub open spec fn are_all_found<V: LiveProcessView + ?Sized>(
    plan: EnumerationPlanSpec,
    view: &V,
    variant: TlsVariant,
    n: int,
    tasks: Seq<RawTask>,
) -> bool {
    &&& forall|i: int|
        0 <= i < tasks.len() ==> exists|t: int|
            0 <= t < n && found_by(plan, view, variant, #[trigger] view.threads()[t]).contains(
                #[trigger] tasks[i],
            )
    &&& forall|t: int, j: int|
        #![trigger found_by(plan, view, variant, view.threads()[t])[j]]
        0 <= t < n && 0 <= j < found_by(plan, view, variant, view.threads()[t]).len() ==> lists(
            tasks,
            found_by(plan, view, variant, view.threads()[t])[j].header,
        )
}

/// A task with this header is listed.
pub open spec fn lists(tasks: Seq<RawTask>, header: u64) -> bool {
    exists|i: int| 0 <= i < tasks.len() && (#[trigger] tasks[i]).header == header
}

proof fn lemma_put_all(tasks: Seq<RawTask>, more: Seq<RawTask>)
    requires
        super::is_ordered(tasks),
    ensures
        super::is_ordered(super::put_all(tasks, more)),
        forall|i: int|
            0 <= i < super::put_all(tasks, more).len() ==> tasks.contains(
                #[trigger] super::put_all(tasks, more)[i],
            ) || more.contains(super::put_all(tasks, more)[i]),
        forall|h: u64| #[trigger] lists(tasks, h) ==> lists(super::put_all(tasks, more), h),
        forall|j: int|
            0 <= j < more.len() ==> lists(super::put_all(tasks, more), (#[trigger] more[j]).header),
    decreases more.len(),
{
    if more.len() > 0 {
        let shorter = more.drop_last();
        let before = super::put_all(tasks, shorter);
        let after = super::put_all(tasks, more);
        lemma_put_all(tasks, shorter);
        super::lemma_put(before, more.last());
        assert(more[more.len() - 1] == more.last());
        assert forall|i: int| 0 <= i < after.len() implies tasks.contains(#[trigger] after[i])
            || more.contains(after[i]) by {
            if after[i] != more.last() {
                let j = before.index_of(after[i]);
                if shorter.contains(before[j]) {
                    let k = shorter.index_of(before[j]);
                    assert(more[k] == before[j]);
                }
            }
        }
        assert forall|h: u64| lists(before, h) implies #[trigger] lists(after, h) by {
            let i = choose|i: int| 0 <= i < before.len() && (#[trigger] before[i]).header == h;
            if h == more.last().header {
                let k = after.index_of(more.last());
                assert(after[k].header == h);
            } else {
                let k = after.index_of(before[i]);
                assert(after[k].header == h);
            }
        }
        assert forall|j: int| 0 <= j < more.len() implies lists(
            after,
            (#[trigger] more[j]).header,
        ) by {
            if j < shorter.len() {
                assert(shorter[j] == more[j]);
                assert(lists(before, shorter[j].header));
            } else {
                let k = after.index_of(more.last());
                assert(after[k].header == more[j].header);
            }
        }
    }
}

proof fn lemma_gathered<V: LiveProcessView + ?Sized>(
    plan: EnumerationPlanSpec,
    view: &V,
    variant: TlsVariant,
    n: int,
    so_far: Gathered,
)
    requires
        0 <= n <= view.threads().len(),
        super::gathered(plan, view, variant, view.threads(), n) == Ok::<
            Gathered,
            EnumerateErrorSpec,
        >(so_far),
    ensures
        super::is_ordered(so_far.tasks),
        are_all_found(plan, view, variant, n, so_far.tasks),
    decreases n,
{
    if n > 0 {
        let before = super::gathered(plan, view, variant, view.threads(), n - 1)->Ok_0;
        lemma_gathered(plan, view, variant, n - 1, before);
        let thread = view.threads()[n - 1];
        let found = found_by(plan, view, variant, thread);
        let tasks = so_far.tasks;
        lemma_put_all(before.tasks, found);
        assert(tasks == super::put_all(before.tasks, found)) by {
            assert(super::put_all(before.tasks, Seq::<RawTask>::empty()) == before.tasks);
        }
        assert forall|i: int| 0 <= i < tasks.len() implies exists|t: int|
            0 <= t < n && found_by(plan, view, variant, #[trigger] view.threads()[t]).contains(
                #[trigger] tasks[i],
            ) by {
            if before.tasks.contains(tasks[i]) {
                let j = before.tasks.index_of(tasks[i]);
                let t = choose|t: int|
                    0 <= t < n - 1 && found_by(
                        plan,
                        view,
                        variant,
                        #[trigger] view.threads()[t],
                    ).contains(before.tasks[j]);
                assert(found_by(plan, view, variant, view.threads()[t]).contains(tasks[i]));
            } else {
                assert(found_by(plan, view, variant, view.threads()[n - 1]).contains(tasks[i]));
            }
        }
        assert forall|t: int, j: int|
            #![trigger found_by(plan, view, variant, view.threads()[t])[j]]
            0 <= t < n && 0 <= j < found_by(
                plan,
                view,
                variant,
                view.threads()[t],
            ).len() implies lists(
            tasks,
            found_by(plan, view, variant, view.threads()[t])[j].header,
        ) by {
            if t < n - 1 {
                assert(lists(
                    before.tasks,
                    found_by(plan, view, variant, view.threads()[t])[j].header,
                ));
            } else {
                assert(lists(tasks, found[j].header));
            }
        }
    }
}

/// The tasks of a process are those that its threads' runtimes own: none is left
/// out, none is made up, and none is listed twice.
pub proof fn law_the_tasks_of_all_threads_are_found<V: LiveProcessView + ?Sized>(
    plan: EnumerationPlanSpec,
    view: &V,
    variant: TlsVariant,
)
    ensures
        super::raw_tasks(plan, view, variant) matches Ok(tasks) ==> super::is_ordered(tasks)
            && are_all_found(plan, view, variant, view.threads().len() as int, tasks),
{
    let n = view.threads().len() as int;
    if let Ok(tasks) = super::raw_tasks(plan, view, variant) {
        let all = super::gathered(plan, view, variant, view.threads(), n)->Ok_0;
        lemma_gathered(plan, view, variant, n, all);
    }
}

/// Where no thread's pointer is known, or no thread has entered a runtime, nothing
/// is enumerated, and the reason is told.
pub proof fn law_a_process_without_a_runtime_is_declined<V: LiveProcessView + ?Sized>(
    plan: EnumerationPlanSpec,
    view: &V,
    variant: TlsVariant,
)
    requires
        forall|t: int|
            0 <= t < view.threads().len() ==> view.thread_pointer_reply(
                #[trigger] view.threads()[t],
            ) == Ok::<Option<u64>, crate::error::DecoderErrorSpec>(None),
    ensures
        super::raw_tasks(plan, view, variant) == Err::<Seq<RawTask>, EnumerateErrorSpec>(
            EnumerateErrorSpec::ThreadPointerUnavailable,
        ),
{
    lemma_no_pointer(plan, view, variant, view.threads().len() as int);
}

proof fn lemma_no_pointer<V: LiveProcessView + ?Sized>(
    plan: EnumerationPlanSpec,
    view: &V,
    variant: TlsVariant,
    n: int,
)
    requires
        0 <= n <= view.threads().len(),
        forall|t: int|
            0 <= t < view.threads().len() ==> view.thread_pointer_reply(
                #[trigger] view.threads()[t],
            ) == Ok::<Option<u64>, crate::error::DecoderErrorSpec>(None),
    ensures
        super::gathered(plan, view, variant, view.threads(), n) matches Ok(g) && !g.any_thread_pointer,
    decreases n,
{
    if n > 0 {
        lemma_no_pointer(plan, view, variant, n - 1);
    }
}

proof fn lemma_task_is_read<V: ProcessView + ?Sized>(
    view: &V,
    layout: TokioRuntimeLayout,
    node: u64,
    task: RawTask,
    next: u64,
)
    requires
        is_task_at(view, layout, node, task, next),
    ensures
        walk::task_at(view, node, layout) == Ok::<
            (RawTask, Result<u64, EnumerateErrorSpec>),
            EnumerateErrorSpec,
        >((task, Ok(next))),
{
    let (vtable, trailer) = choose|vtable: u64, trailer: u64|
        #![trigger word_is(view, node.wrapping_add(layout.header_vtable), vtable), node.wrapping_add(trailer)]
        word_is(view, node.wrapping_add(layout.header_vtable), vtable) && word_is(
            view,
            vtable.wrapping_add(layout.vtable_poll),
            task.poll_runtime,
        ) && word_is(view, vtable.wrapping_add(layout.vtable_trailer_offset), trailer) && word_is(
            view,
            node.wrapping_add(trailer).wrapping_add(layout.trailer_owned_next),
            next,
        );
    lemma_pointer(view, node.wrapping_add(layout.header_vtable));
    lemma_pointer(view, vtable.wrapping_add(layout.vtable_poll));
    lemma_pointer(view, vtable.wrapping_add(layout.vtable_trailer_offset));
    lemma_pointer(view, node.wrapping_add(trailer).wrapping_add(layout.trailer_owned_next));
}

/// A list whose tasks can all be read, no more than 2^20 with those found before
/// it, is walked: what is found are its tasks, in order.
pub proof fn law_a_linked_list_is_walked<V: ProcessView + ?Sized>(
    view: &V,
    layout: TokioRuntimeLayout,
    head: u64,
    found: Seq<RawTask>,
    tasks: Seq<RawTask>,
)
    requires
        are_linked(view, layout, head, tasks),
        found.len() + tasks.len() <= 0x10_0000,
    ensures
        walk::shard_from(view, head, layout, found).0 == found + tasks,
        walk::shard_from(view, head, layout, found).1 is Ok,
    decreases tasks.len(),
{
    if tasks.len() == 0 {
        assert(found + tasks =~= found);
    } else {
        let next = choose|next: u64| #[trigger]
            is_task_at(view, layout, head, tasks[0], next) && are_linked(
                view,
                layout,
                next,
                tasks.skip(1),
            );
        lemma_task_is_read(view, layout, head, tasks[0], next);
        law_a_linked_list_is_walked(view, layout, next, found.push(tasks[0]), tasks.skip(1));
        assert(found.push(tasks[0]) + tasks.skip(1) =~= found + tasks);
    }
}

/// Shards whose lists can all be read, with no more than 2^20 tasks in all, are
/// walked one after the other.
pub proof fn law_readable_shards_are_walked<V: ProcessView + ?Sized>(
    view: &V,
    layout: TokioRuntimeLayout,
    data: u64,
    from: nat,
    len: nat,
    found: Seq<RawTask>,
    tasks: Seq<RawTask>,
)
    requires
        are_of_shards(view, layout, data, from as int, len as int, tasks),
        found.len() + tasks.len() <= 0x10_0000,
    ensures
        walk::shards_from(view, data, from, len, layout, found).0 == found + tasks,
        walk::shards_from(view, data, from, len, layout, found).1 is Ok,
    decreases len - from,
{
    if from >= len {
        assert(found + tasks =~= found);
    } else {
        let n = choose|n: int|
            0 <= n <= tasks.len() && #[trigger] are_of_shard(
                view,
                layout,
                data,
                from as int,
                tasks.take(n),
            ) && are_of_shards(view, layout, data, (from + 1) as int, len as int, tasks.skip(n));
        let at = data.wrapping_add((from as u64).wrapping_mul(layout.shard_stride)).wrapping_add(
            layout.mutex_data,
        ).wrapping_add(layout.list_head);
        let head = choose|head: u64|
            word_is(view, at, head) && #[trigger] are_linked(view, layout, head, tasks.take(n));
        lemma_pointer(view, at);
        law_a_linked_list_is_walked(view, layout, head, found, tasks.take(n));
        law_readable_shards_are_walked(
            view,
            layout,
            data,
            from + 1,
            len,
            found + tasks.take(n),
            tasks.skip(n),
        );
        assert(found + tasks.take(n) + tasks.skip(n) =~= found + tasks);
    }
}

/// A runtime whose tasks can all be read, no more than 2^20 in no more than 2^16
/// shards, is walked: what is found are its tasks.
pub proof fn law_a_readable_runtime_is_walked<V: ProcessView + ?Sized>(
    view: &V,
    layout: TokioRuntimeLayout,
    context: u64,
    runtime: u64,
    tasks: Seq<RawTask>,
)
    requires
        has_runtime(view, layout, context, runtime),
        runtime != 0,
        are_owned(view, layout, runtime, tasks),
        tasks.len() <= 0x10_0000,
    ensures
        walk::context_walk(view, context, layout, Seq::empty()) == (
            tasks,
            Ok::<bool, EnumerateErrorSpec>(true),
        ),
{
    lemma_pointer(
        view,
        context.wrapping_add(layout.context_current).wrapping_add(layout.handle_cell_value),
    );
    let lists = runtime.wrapping_add(layout.arc_data).wrapping_add(
        layout.handle_shared,
    ).wrapping_add(layout.shared_owned).wrapping_add(layout.owned_list).wrapping_add(
        layout.sharded_lists,
    );
    lemma_pointer(view, lists);
    lemma_pointer(view, lists.wrapping_add(8));
    let (data, len) = choose|data: u64, len: u64|
        word_is(view, lists, data) && word_is(view, lists.wrapping_add(8), len) && len <= 0x1_0000
            && #[trigger] are_of_shards(view, layout, data, 0, len as int, tasks);
    let none = Seq::<RawTask>::empty();
    law_readable_shards_are_walked(view, layout, data, 0, len as nat, none, tasks);
    assert(none + tasks =~= tasks);
}

/// The thread's pointer is known.
pub open spec fn has_pointer<V: LiveProcessView + ?Sized>(view: &V, thread: ThreadId) -> bool {
    view.thread_pointer_reply(thread) matches Ok(Some(_))
}

/// What is found by way of the context that belongs to a thread pointer.
pub open spec fn walk_of<V: LiveProcessView + ?Sized>(
    plan: EnumerationPlanSpec,
    view: &V,
    variant: TlsVariant,
    tp: u64,
) -> Result<bool, EnumerateErrorSpec> {
    walk::context_walk(
        view,
        super::context_address(plan.facts, variant, tp),
        plan.layout,
        Seq::empty(),
    ).1
}

/// The thread has entered a runtime, all of whose tasks can be read.
pub open spec fn is_inside<V: LiveProcessView + ?Sized>(
    plan: EnumerationPlanSpec,
    view: &V,
    variant: TlsVariant,
    thread: ThreadId,
) -> bool {
    view.thread_pointer_reply(thread) matches Ok(Some(tp)) && walk_of(plan, view, variant, tp) == Ok::<
        bool,
        EnumerateErrorSpec,
    >(true)
}

/// What is asked of the thread can be read.
pub open spec fn is_readable<V: LiveProcessView + ?Sized>(
    plan: EnumerationPlanSpec,
    view: &V,
    variant: TlsVariant,
    thread: ThreadId,
) -> bool {
    &&& view.thread_pointer_reply(thread) is Ok
    &&& view.thread_pointer_reply(thread) matches Ok(Some(tp)) ==> walk_of(
        plan,
        view,
        variant,
        tp,
    ) is Ok
}

/// Every one of the first `n` threads can be read.
pub open spec fn are_readable<V: LiveProcessView + ?Sized>(
    plan: EnumerationPlanSpec,
    view: &V,
    variant: TlsVariant,
    n: int,
) -> bool {
    forall|t: int| 0 <= t < n ==> is_readable(plan, view, variant, #[trigger] view.threads()[t])
}

/// The pointer of one of the first `n` threads is known.
pub open spec fn some_has_pointer<V: LiveProcessView + ?Sized>(view: &V, n: int) -> bool {
    exists|t: int| 0 <= t < n && has_pointer(view, #[trigger] view.threads()[t])
}

/// One of the first `n` threads has entered a runtime.
pub open spec fn some_is_inside<V: LiveProcessView + ?Sized>(
    plan: EnumerationPlanSpec,
    view: &V,
    variant: TlsVariant,
    n: int,
) -> bool {
    exists|t: int| 0 <= t < n && is_inside(plan, view, variant, #[trigger] view.threads()[t])
}

proof fn lemma_one_thread_more<V: LiveProcessView + ?Sized>(
    plan: EnumerationPlanSpec,
    view: &V,
    variant: TlsVariant,
    n: int,
)
    requires
        0 < n <= view.threads().len(),
    ensures
        ({
            let thread = view.threads()[n - 1];
            &&& are_readable(plan, view, variant, n) <==> are_readable(plan, view, variant, n - 1)
                && is_readable(plan, view, variant, thread)
            &&& some_has_pointer(view, n) <==> some_has_pointer(view, n - 1) || has_pointer(
                view,
                thread,
            )
            &&& some_is_inside(plan, view, variant, n) <==> some_is_inside(
                plan,
                view,
                variant,
                n - 1,
            ) || is_inside(plan, view, variant, thread)
        }),
{
    let thread = view.threads()[n - 1];
    if some_has_pointer(view, n - 1) {
        let t = choose|t: int| 0 <= t < n - 1 && has_pointer(view, #[trigger] view.threads()[t]);
        assert(has_pointer(view, view.threads()[t]));
    }
    if some_is_inside(plan, view, variant, n - 1) {
        let t = choose|t: int|
            0 <= t < n - 1 && is_inside(plan, view, variant, #[trigger] view.threads()[t]);
        assert(is_inside(plan, view, variant, view.threads()[t]));
    }
    if are_readable(plan, view, variant, n - 1) && is_readable(plan, view, variant, thread) {
        assert forall|t: int| 0 <= t < n implies is_readable(
            plan,
            view,
            variant,
            #[trigger] view.threads()[t],
        ) by {
            if t == n - 1 {
                assert(view.threads()[t] == thread);
            }
        }
    }
}

proof fn lemma_with_thread<V: LiveProcessView + ?Sized>(
    plan: EnumerationPlanSpec,
    view: &V,
    variant: TlsVariant,
    n: int,
)
    requires
        0 < n <= view.threads().len(),
    ensures
        ({
            let thread = view.threads()[n - 1];
            let before = super::gathered(plan, view, variant, view.threads(), n - 1);
            let after = super::gathered(plan, view, variant, view.threads(), n);
            &&& after is Ok <==> before is Ok && is_readable(plan, view, variant, thread)
            &&& after is Ok ==> after->Ok_0.any_thread_pointer == (before->Ok_0.any_thread_pointer
                || has_pointer(view, thread)) && after->Ok_0.any_runtime == (
            before->Ok_0.any_runtime || is_inside(plan, view, variant, thread))
        }),
{
}

proof fn lemma_gathered_flags<V: LiveProcessView + ?Sized>(
    plan: EnumerationPlanSpec,
    view: &V,
    variant: TlsVariant,
    n: int,
)
    requires
        0 <= n <= view.threads().len(),
    ensures
        super::gathered(plan, view, variant, view.threads(), n) is Ok <==> are_readable(
            plan,
            view,
            variant,
            n,
        ),
        super::gathered(plan, view, variant, view.threads(), n) is Ok ==> {
            let all = super::gathered(plan, view, variant, view.threads(), n)->Ok_0;
            &&& all.any_thread_pointer == some_has_pointer(view, n)
            &&& all.any_runtime == some_is_inside(plan, view, variant, n)
        },
    decreases n,
{
    if n > 0 {
        lemma_gathered_flags(plan, view, variant, n - 1);
        lemma_with_thread(plan, view, variant, n);
        lemma_one_thread_more(plan, view, variant, n);
    }
}

/// The tasks of a process are enumerated if, and only if, every thread can be
/// read and one of them has entered a runtime. Where all can be read, it is told
/// whether no thread's pointer is known or no thread has entered a runtime.
pub proof fn law_one_thread_inside_a_runtime_is_enough<V: LiveProcessView + ?Sized>(
    plan: EnumerationPlanSpec,
    view: &V,
    variant: TlsVariant,
)
    ensures
        ({
            let n = view.threads().len() as int;
            let tasks = super::raw_tasks(plan, view, variant);
            let readable = are_readable(plan, view, variant, n);
            let inside = some_is_inside(plan, view, variant, n);
            &&& tasks is Ok <==> readable && inside
            &&& readable && !some_has_pointer(view, n) ==> tasks == Err::<
                Seq<RawTask>,
                EnumerateErrorSpec,
            >(EnumerateErrorSpec::ThreadPointerUnavailable)
            &&& readable && some_has_pointer(view, n) && !inside ==> tasks == Err::<
                Seq<RawTask>,
                EnumerateErrorSpec,
            >(EnumerateErrorSpec::NoRuntimeHandle)
        }),
{
    let n = view.threads().len() as int;
    lemma_gathered_flags(plan, view, variant, n);
    if some_is_inside(plan, view, variant, n) {
        let t = choose|t: int|
            0 <= t < n && is_inside(plan, view, variant, #[trigger] view.threads()[t]);
        assert(has_pointer(view, view.threads()[t]));
    }
}

/// A thread's context lies where the platform places thread-local storage: in
/// variant I past the control block of sixteen bytes, rounded up to the alignment;
/// in variant II the size of the block, rounded up likewise, below the thread
/// pointer. To that the context's own offset is added.
pub proof fn law_a_context_lies_in_its_block(
    facts: BinaryFactsSpec,
    variant: TlsVariant,
    tp: u64,
    gap: u64,
)
    requires
        facts.tls_align >= 1,
        gap as int % facts.tls_align as int == 0,
        variant == TlsVariant::VariantI ==> 16 <= gap < 16 + facts.tls_align,
        variant == TlsVariant::VariantII ==> facts.tls_block_size <= gap < facts.tls_block_size
            + facts.tls_align,
    ensures
        super::context_address(facts, variant, tp) == (match variant {
            TlsVariant::VariantI => tp.wrapping_add(gap).wrapping_add(facts.context_tls_offset),
            TlsVariant::VariantII => tp.wrapping_sub(gap).wrapping_add(facts.context_tls_offset),
        }),
{
    let align = facts.tls_align as int;
    let value: int = match variant {
        TlsVariant::VariantI => 16,
        TlsVariant::VariantII => facts.tls_block_size as int,
    };
    tls::law_rounding_up_is_tight(value, align);
    let up = tls::rounded_up(value, align);
    lemma_one_multiple(up, gap as int, value, align);
}

proof fn lemma_one_multiple(a: int, b: int, value: int, align: int)
    requires
        align >= 1,
        a % align == 0,
        b % align == 0,
        value <= a < value + align,
        value <= b < value + align,
    ensures
        a == b,
{
    let (p, q) = (a / align, b / align);
    assert(a == p * align && b == q * align) by (nonlinear_arith)
        requires
            align >= 1,
            a % align == 0,
            b % align == 0,
            p == a / align,
            q == b / align,
    ;
    if p < q {
        assert(b >= a + align) by (nonlinear_arith)
            requires
                p + 1 <= q,
                a == p * align,
                b == q * align,
                align >= 1,
        ;
    }
    if q < p {
        assert(a >= b + align) by (nonlinear_arith)
            requires
                q + 1 <= p,
                a == p * align,
                b == q * align,
                align >= 1,
        ;
    }
}

/// Tokio 1.44 is the version whose runtime is known; of any other nothing is
/// assumed. Its handle is found at byte 16 of the context, its lists of tasks at
/// byte 120 of the handle; a header has its vtable at byte 16 and its future at byte
/// 56; a vtable has the poll function at its start and the place of the trailer at
/// byte 56, and a trailer the next task at byte 8.
pub proof fn law_the_runtime_of_one_version_is_known(version: TokioVersion)
    ensures
        TokioRuntimeLayout::table(version) is Some <==> version.major == 1 && version.minor == 44,
        TokioRuntimeLayout::table(version) matches Some(l) ==> {
            &&& l.context_current + l.handle_cell_value == 16
            &&& l.arc_data + l.handle_shared + l.shared_owned + l.owned_list + l.sharded_lists == 120
            &&& l.shard_stride == 24
            &&& l.mutex_data + l.list_head == 8
            &&& l.header_vtable == 16
            &&& l.vtable_poll == 0
            &&& l.vtable_trailer_offset == 56
            &&& l.trailer_owned_next == 8
            &&& l.future_offset == 56
        },
{
}

} // verus!
