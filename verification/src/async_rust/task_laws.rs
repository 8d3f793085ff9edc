//! Where the tasks of a decoded Tokio target come from.
use vstd::prelude::*;

use super::chain_laws::{self, Link};
use super::decode::{self, LayoutMap};
use super::decoder::{self, DecodedNodeSpec, PendingSpec};
use super::laws;
use super::layout::{self, ChildRefSpec};
use super::roots::TaskRootSpec;
use super::state;
use crate::decoder_trait::{self, Reading};
use crate::error::DecoderErrorSpec;
use crate::model::{TaskId, TaskKind, TaskNodeSpec};
use crate::process_view::ProcessView;

verus! {

/// Where a task comes from: it is one of the roots, or one of the branches of a
/// task before it.
pub enum Origin {
    Root(int),
    Branch(int, int),
}

/// The branches of a task.
pub open spec fn branches_of<V: ProcessView + ?Sized>(
    view: &V,
    layouts: LayoutMap,
    node: DecodedNodeSpec,
) -> Seq<(u64, Seq<char>)> {
    match decode::branches(view, node.base, layouts[node.type_path]) {
        Ok(found) => found,
        Err(_) => Seq::empty(),
    }
}

/// An origin is that of some task.
pub open spec fn is_origin<V: ProcessView + ?Sized>(
    view: &V,
    layouts: LayoutMap,
    roots: Seq<TaskRootSpec>,
    tasks: Seq<DecodedNodeSpec>,
    origin: Origin,
) -> bool {
    match origin {
        Origin::Root(r) => 0 <= r < roots.len(),
        Origin::Branch(k, b) => 0 <= k < tasks.len() && 0 <= b < branches_of(
            view,
            layouts,
            tasks[k],
        ).len(),
    }
}

/// A task is what its origin says: a root keeps its number, place and type, and its
/// header tells its state; a branch hangs under the task that it is a branch of, at
/// its place there, and has no header.
pub open spec fn comes_from<V: ProcessView + ?Sized>(
    view: &V,
    layouts: LayoutMap,
    roots: Seq<TaskRootSpec>,
    tasks: Seq<DecodedNodeSpec>,
    node: DecodedNodeSpec,
    origin: Origin,
) -> bool {
    &&& layouts.contains_key(node.type_path)
    &&& is_origin(view, layouts, roots, tasks, origin)
    &&& match origin {
        Origin::Root(r) => {
            &&& node.id.0 == roots[r].id
            &&& node.parent is None
            &&& node.base == roots[r].base
            &&& node.type_path == roots[r].type_path
            &&& decode::coroutine_state(
                view,
                node.base,
                layouts[node.type_path],
                layouts,
                roots[r].header_addr,
            ) == Ok::<_, DecoderErrorSpec>(node.state)
        },
        Origin::Branch(k, b) => {
            &&& node.parent == Some(tasks[k].id)
            &&& node.base == branches_of(view, layouts, tasks[k])[b].0
            &&& node.type_path == branches_of(view, layouts, tasks[k])[b].1
            &&& decode::coroutine_state(
                view,
                node.base,
                layouts[node.type_path],
                layouts,
                None,
            ) == Ok::<_, DecoderErrorSpec>(node.state)
        },
    }
    &&& decode::coroutine_wake(view, node.base, layouts[node.type_path], layouts) == Ok::<
        _,
        DecoderErrorSpec,
    >(node.wake)
}

/// Roots come in their order, and so do the branches of one task.
pub open spec fn is_before(a: Origin, b: Origin) -> bool {
    match (a, b) {
        (Origin::Root(r), Origin::Root(s)) => r < s,
        (Origin::Branch(k, i), Origin::Branch(m, j)) => k == m ==> i < j,
        _ => true,
    }
}

/// Every root, and every branch of a task, is the origin of a task, and of one
/// only; the first branch of a task directly follows it.
pub open spec fn are_origins<V: ProcessView + ?Sized>(
    view: &V,
    layouts: LayoutMap,
    roots: Seq<TaskRootSpec>,
    tasks: Seq<DecodedNodeSpec>,
    origins: Seq<Origin>,
) -> bool {
    &&& origins.len() == tasks.len()
    &&& forall|i: int|
        0 <= i < tasks.len() ==> comes_from(
            view,
            layouts,
            roots,
            tasks,
            #[trigger] tasks[i],
            origins[i],
        )
    &&& forall|i: int, j: int|
        0 <= i < j < origins.len() ==> is_before(#[trigger] origins[i], #[trigger] origins[j])
    &&& forall|o: Origin| #[trigger]
        is_origin(view, layouts, roots, tasks, o) ==> origins.contains(o)
    &&& forall|i: int|
        0 <= i < origins.len() ==> ((#[trigger] origins[i]) matches Origin::Branch(k, b) ==> b == 0
            ==> i == k + 1)
}

/// What is still to be visited, by where it comes from.
spec fn is_item<V: ProcessView + ?Sized>(
    view: &V,
    layouts: LayoutMap,
    roots: Seq<TaskRootSpec>,
    tasks: Seq<DecodedNodeSpec>,
    item: PendingSpec,
    origin: Origin,
) -> bool {
    &&& is_origin(view, layouts, roots, tasks, origin)
    &&& match origin {
        Origin::Root(r) => {
            &&& item.id == Some(TaskId(roots[r].id))
            &&& item.parent is None
            &&& item.base == roots[r].base
            &&& item.type_path == roots[r].type_path
            &&& item.header_addr == roots[r].header_addr
        },
        Origin::Branch(k, b) => {
            &&& item.id is None
            &&& item.parent == Some(tasks[k].id)
            &&& item.base == branches_of(view, layouts, tasks[k])[b].0
            &&& item.type_path == branches_of(view, layouts, tasks[k])[b].1
            &&& item.header_addr is None
        },
    }
}

spec fn in_step<V: ProcessView + ?Sized>(
    view: &V,
    layouts: LayoutMap,
    roots: Seq<TaskRootSpec>,
    pending: Seq<PendingSpec>,
    done: Seq<DecodedNodeSpec>,
    past: Seq<Origin>,
    ahead: Seq<Origin>,
) -> bool {
    let all = past + ahead;
    &&& past.len() == done.len()
    &&& ahead.len() == pending.len()
    &&& forall|i: int|
        0 <= i < done.len() ==> comes_from(
            view,
            layouts,
            roots,
            done,
            #[trigger] done[i],
            past[i],
        )
    &&& forall|i: int|
        0 <= i < pending.len() ==> is_item(
            view,
            layouts,
            roots,
            done,
            #[trigger] pending[i],
            ahead[i],
        )
    &&& forall|i: int, j: int|
        0 <= i < j < all.len() ==> is_before(#[trigger] all[i], #[trigger] all[j])
    &&& forall|o: Origin| #[trigger]
        is_origin(view, layouts, roots, done, o) ==> all.contains(o)
    &&& forall|i: int|
        0 <= i < all.len() ==> ((#[trigger] all[i]) matches Origin::Branch(k, b) ==> b == 0 ==> i
            == k + 1)
}

proof fn lemma_visit<V: ProcessView + ?Sized>(
    view: &V,
    layouts: LayoutMap,
    roots: Seq<TaskRootSpec>,
    pending: Seq<PendingSpec>,
    next: u64,
    done: Seq<DecodedNodeSpec>,
    past: Seq<Origin>,
    ahead: Seq<Origin>,
) -> (origins: Seq<Origin>)
    requires
        in_step(view, layouts, roots, pending, done, past, ahead),
        decoder::visit(view, layouts, pending, next, done) is Ok,
    ensures
        are_origins(
            view,
            layouts,
            roots,
            decoder::visit(view, layouts, pending, next, done)->Ok_0,
            origins,
        ),
    decreases decoder::MAX_TASKS - done.len(),
{
    let all = past + ahead;
    if pending.len() == 0 {
        assert(all =~= past);
        past
    } else {
        let item = pending[0];
        let origin = ahead[0];
        let id = match item.id {
            Some(given) => given,
            None => TaskId(next),
        };
        let after = match item.id {
            Some(_) => next,
            None => next.wrapping_add(1),
        };
        let (node, found) = decoder::visit_one(view, layouts, item, id)->Ok_0;
        let branches = decoder::pending_branches(found, id);
        let todo = branches + pending.skip(1);
        let now = done.push(node);
        let n = done.len() as int;
        let new_past = past.push(origin);
        let fresh = Seq::new(found.len(), |b: int| Origin::Branch(n, b));
        let new_ahead = fresh + ahead.skip(1);
        let new_all = new_past + new_ahead;
        assert(is_item(view, layouts, roots, done, pending[0], ahead[0]));
        assert(branches_of(view, layouts, node) == found);
        assert(now[n] == node);
        assert forall|o: Origin| is_origin(view, layouts, roots, done, o) implies #[trigger] is_origin(
            view,
            layouts,
            roots,
            now,
            o,
        ) by {
            if let Origin::Branch(k, b) = o {
                assert(now[k] == done[k]);
            }
        }
        assert forall|i: int| 0 <= i < now.len() implies comes_from(
            view,
            layouts,
            roots,
            now,
            #[trigger] now[i],
            new_past[i],
        ) by {
            if i < n {
                assert(now[i] == done[i]);
                assert(comes_from(view, layouts, roots, done, done[i], past[i]));
                assert(new_past[i] == past[i]);
                if let Origin::Branch(k, b) = past[i] {
                    assert(now[k] == done[k]);
                }
            } else {
                if let Origin::Branch(k, b) = origin {
                    assert(now[k] == done[k]);
                }
            }
        }
        assert forall|i: int| 0 <= i < todo.len() implies is_item(
            view,
            layouts,
            roots,
            now,
            #[trigger] todo[i],
            new_ahead[i],
        ) by {
            if i < found.len() {
                assert(todo[i] == branches[i]);
                assert(new_ahead[i] == Origin::Branch(n, i));
            } else {
                let j = i - found.len() + 1;
                assert(todo[i] == pending[j]);
                assert(new_ahead[i] == ahead[j]);
                assert(is_item(view, layouts, roots, done, pending[j], ahead[j]));
                if let Origin::Branch(k, b) = ahead[j] {
                    assert(now[k] == done[k]);
                }
            }
        }
        assert forall|i: int| 0 <= i < new_all.len() implies #[trigger] new_all[i] == (if i <= n {
            all[i]
        } else if i <= n + found.len() {
            Origin::Branch(n, i - n - 1)
        } else {
            all[i - found.len()]
        }) by {
            if i < n {
            } else if i == n {
                assert(all[n] == ahead[0]);
            } else if i <= n + found.len() {
                assert(new_all[i] == new_ahead[i - n - 1]);
            } else {
                assert(new_all[i] == new_ahead[i - n - 1]);
            }
        }
        assert forall|i: int| 0 <= i < all.len() implies !((#[trigger] all[i]) matches Origin::Branch(
            k,
            _,
        ) && k == n) by {
            if i < n {
                assert(comes_from(view, layouts, roots, done, done[i], past[i]));
            } else {
                assert(is_item(view, layouts, roots, done, pending[i - n], ahead[i - n]));
            }
        }
        assert forall|i: int, j: int| 0 <= i < j < new_all.len() implies is_before(
            #[trigger] new_all[i],
            #[trigger] new_all[j],
        ) by {
            if i <= n && j > n + found.len() {
                assert(is_before(all[i], all[j - found.len()]));
            } else if i > n + found.len() {
                assert(is_before(all[i - found.len()], all[j - found.len()]));
            } else if j <= n {
                assert(is_before(all[i], all[j]));
            }
        }
        assert forall|o: Origin| #[trigger]
            is_origin(view, layouts, roots, now, o) implies new_all.contains(o) by {
            if is_origin(view, layouts, roots, done, o) {
                assert(all.contains(o));
                let i = all.index_of(o);
                if i <= n {
                    assert(new_all[i] == o);
                } else {
                    assert(new_all[i + found.len()] == o);
                }
            } else {
                match o {
                    Origin::Root(r) => {},
                    Origin::Branch(k, b) => {
                        if k < n {
                            assert(now[k] == done[k]);
                        }
                        assert(new_all[n + 1 + b] == o);
                    },
                }
            }
        }
        assert forall|i: int| 0 <= i < new_all.len() implies ((
        #[trigger] new_all[i]) matches Origin::Branch(k, b) ==> b == 0 ==> i == k + 1) by {
            if i <= n {
                assert(new_all[i] == all[i]);
            } else if i > n + found.len() {
                let j = i - found.len();
                assert(new_all[i] == all[j]);
                assert(is_item(view, layouts, roots, done, pending[j - n], ahead[j - n]));
            }
        }
        lemma_visit(view, layouts, roots, todo, after, now, new_past, new_ahead)
    }
}

/// The tasks of a Tokio process are its roots and what they fan out to: every root
/// once, in order, with its own number, and under every task its branches, in
/// order, from the next place on.
pub proof fn law_every_root_and_branch_is_a_task<V: ProcessView + ?Sized>(
    view: &V,
    layouts: LayoutMap,
    roots: Seq<TaskRootSpec>,
    tasks: Seq<DecodedNodeSpec>,
)
    requires
        decoder::all_tasks(view, layouts, roots) == Ok::<_, DecoderErrorSpec>(tasks),
    ensures
        exists|origins: Seq<Origin>| are_origins(view, layouts, roots, tasks, origins),
{
    let pending = decoder::pending_roots(roots);
    let ahead = Seq::new(roots.len(), |r: int| Origin::Root(r));
    let past = Seq::<Origin>::empty();
    let none = Seq::<DecodedNodeSpec>::empty();
    assert(past + ahead =~= ahead);
    assert forall|o: Origin| #[trigger]
        is_origin(view, layouts, roots, none, o) implies ahead.contains(o) by {
        if let Origin::Root(r) = o {
            assert(ahead[r] == o);
        }
    }
    assert(in_step(view, layouts, roots, pending, none, past, ahead));
    let origins = lemma_visit(
        view,
        layouts,
        roots,
        pending,
        decoder::greatest_id(roots).wrapping_add(1),
        none,
        past,
        ahead,
    );
    assert(are_origins(view, layouts, roots, tasks, origins));
}

/// Without roots there is nothing to decode, and that is said.
pub proof fn law_without_roots_the_decoder_declines<V: ProcessView + ?Sized>(
    view: &V,
    layouts: LayoutMap,
    task: TaskId,
)
    ensures
        decoder_trait::tasks_read(
            Reading::Coroutines(layouts, Seq::empty()),
            view,
        ) matches Some(Err(DecoderErrorSpec::NotApplicable { .. })),
        decoder_trait::stack_read(
            Reading::Coroutines(layouts, Seq::empty()),
            view,
            task,
        ) matches Some(Err(DecoderErrorSpec::NotApplicable { .. })),
{
}

/// A task is shown as an async task, under its number, state and parent, and named
/// after its function.
pub open spec fn is_node_of(node: TaskNodeSpec, task: DecodedNodeSpec) -> bool {
    &&& node.id == task.id
    &&& node.name == layout::fn_name_of(task.type_path)
    &&& node.kind == TaskKind::AsyncTask
    &&& node.state == task.state
    &&& node.parent == task.parent
}

/// Every task is shown, in its place.
pub proof fn law_every_task_is_shown<V: ProcessView + ?Sized>(
    view: &V,
    layouts: LayoutMap,
    roots: Seq<TaskRootSpec>,
    tasks: Seq<DecodedNodeSpec>,
)
    requires
        laws::sound_roots(roots),
        decoder::all_tasks(view, layouts, roots) == Ok::<_, DecoderErrorSpec>(tasks),
    ensures
        decoder_trait::tasks_read(
            Reading::Coroutines(layouts, roots),
            view,
        ) matches Some(Ok(nodes)) && nodes.len() == tasks.len() && forall|i: int|
            0 <= i < nodes.len() ==> is_node_of(#[trigger] nodes[i], tasks[i]),
{
    laws::law_tasks_form_a_numbered_tree(view, layouts, roots);
}

/// The stack of a task is the backtrace of the chain that starts with its
/// coroutine: a frame for every coroutine and one for the leaf, for a chain of up
/// to 64 coroutines.
pub proof fn law_the_stack_of_a_task_shows_its_chain<V: ProcessView + ?Sized>(
    view: &V,
    layouts: LayoutMap,
    roots: Seq<TaskRootSpec>,
    tasks: Seq<DecodedNodeSpec>,
    k: int,
    links: Seq<Link>,
    leaf: ChildRefSpec,
)
    requires
        decoder::all_tasks(view, layouts, roots) == Ok::<_, DecoderErrorSpec>(tasks),
        0 <= k < tasks.len(),
        forall|i: int| 0 <= i < k ==> (#[trigger] tasks[i]).id != tasks[k].id,
        chain_laws::is_chain(view, layouts, links),
        0 < links.len() <= 64,
        links[0].base == tasks[k].base,
        links[0].type_path == tasks[k].type_path,
        chain_laws::awaits_leaf(layouts, links.last(), leaf),
    ensures
        decoder_trait::stack_read(
            Reading::Coroutines(layouts, roots),
            view,
            tasks[k].id,
        ) matches Some(Ok(frames)) && {
            &&& frames.len() == links.len() + 1
            &&& chain_laws::are_frames_of(frames, layouts, links)
            &&& frames.last().display_name == state::short_name_of(leaf.type_path)
        },
        decoder_trait::wake_read(
            Reading::Coroutines(layouts, roots),
            view,
            tasks[k].id,
        ) matches Some(Ok(wake)) && wake == state::leaf_class(leaf.type_path).wake,
        decoder_trait::locals_read(
            Reading::Coroutines(layouts, roots),
            view,
            tasks[k].id,
        ) matches Some(Ok(locals)) && locals.len() == 0,
{
    lemma_first(tasks, k, 0);
    chain_laws::law_a_backtrace_shows_the_whole_chain(view, layouts, links, leaf, 64);
    chain_laws::law_a_chain_is_woken_by_its_leaf(view, layouts, links, leaf);
    law_every_root_and_branch_is_a_task(view, layouts, roots, tasks);
    let origins = choose|origins: Seq<Origin>|
        are_origins(view, layouts, roots, tasks, origins);
    assert(comes_from(view, layouts, roots, tasks, tasks[k], origins[k]));
}

proof fn lemma_first(tasks: Seq<DecodedNodeSpec>, k: int, from: nat)
    requires
        from <= k < tasks.len(),
        forall|i: int| 0 <= i < k ==> (#[trigger] tasks[i]).id != tasks[k].id,
    ensures
        decoder::first_with_id(tasks, tasks[k].id, from) == Some(tasks[k]),
    decreases k - from,
{
    if from < k {
        lemma_first(tasks, k, from + 1);
    }
}

} // verus!
