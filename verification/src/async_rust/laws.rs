//! What holds of every decoded Tokio target.
use vstd::prelude::*;

use super::decode::LayoutMap;
use super::decoder::{self, DecodedNodeSpec, PendingSpec};
use super::roots::TaskRootSpec;
use crate::error::DecoderErrorSpec;
use crate::model::tree;
use crate::model::{TaskId, TaskNodeSpec};
use crate::process_view::ProcessView;

verus! {

/// No two roots share an id, and the numbering of branches cannot run past the
/// greatest task id.
pub open spec fn sound_roots(roots: Seq<TaskRootSpec>) -> bool {
    &&& forall|i: int, j: int|
        #![trigger roots[i], roots[j]]
        0 <= i < roots.len() && 0 <= j < roots.len() && roots[i].id == roots[j].id ==> i == j
    &&& decoder::greatest_id(roots) + 1 + decoder::MAX_TASKS <= u64::MAX
}

/// The ids of the roots among what is pending, in order.
pub open spec fn pending_root_ids(pending: Seq<PendingSpec>) -> Seq<TaskId>
    decreases pending.len(),
{
    if pending.len() == 0 {
        Seq::empty()
    } else {
        match pending[0].id {
            Some(id) => seq![id] + pending_root_ids(pending.skip(1)),
            None => pending_root_ids(pending.skip(1)),
        }
    }
}

/// The ids of the branches (tasks with a parent) among the visited coroutines,
/// in the order in which they were visited.
pub open spec fn branch_ids(done: Seq<DecodedNodeSpec>) -> Seq<TaskId>
    decreases done.len(),
{
    if done.len() == 0 {
        Seq::empty()
    } else if done.last().parent is None {
        branch_ids(done.drop_last())
    } else {
        branch_ids(done.drop_last()).push(done.last().id)
    }
}

/// `count` ids, from `first` on.
pub open spec fn consecutive(first: int, count: nat) -> Seq<TaskId> {
    Seq::new(count, |i: int| TaskId((first + i) as u64))
}

spec fn was_visited(done: Seq<DecodedNodeSpec>, id: TaskId) -> bool {
    exists|i: int| 0 <= i < done.len() && (#[trigger] done[i]).id == id
}

/// What holds at every step of the walk: `top` is the greatest root id.
spec fn in_step(
    pending: Seq<PendingSpec>,
    next: u64,
    done: Seq<DecodedNodeSpec>,
    top: u64,
    root_ids: Seq<TaskId>,
) -> bool {
    &&& top < next <= top + 1 + done.len()
    &&& top + 1 + decoder::MAX_TASKS <= u64::MAX
    &&& done.len() <= decoder::MAX_TASKS
    // ids
    &&& forall|i: int, j: int|
        #![trigger done[i], done[j]]
        0 <= i < done.len() && 0 <= j < done.len() && done[i].id == done[j].id ==> i == j
    &&& forall|i: int| 0 <= i < done.len() ==> (#[trigger] done[i]).id.0 < next
    &&& forall|i: int|
        0 <= i < pending.len() ==> match (#[trigger] pending[i]).id {
            Some(id) => id.0 <= top && !was_visited(done, id) && pending[i].parent is None,
            None => pending[i].parent is Some,
        }
    &&& forall|i: int, j: int|
        #![trigger pending[i], pending[j]]
        0 <= i < pending.len() && 0 <= j < pending.len() && pending[i].id is Some && pending[i].id
            == pending[j].id ==> i == j
    // parents
    &&& forall|i: int|
        0 <= i < pending.len() ==> ((#[trigger] pending[i]).parent matches Some(p) ==> was_visited(
            done,
            p,
        ))
    &&& forall|i: int|
        0 <= i < done.len() ==> ((#[trigger] done[i]).parent matches Some(p) ==> p != done[i].id
            && was_visited(done, p))
    // numbering
    &&& tree::roots_of(decoder::task_nodes(done)) + pending_root_ids(pending) == root_ids
    &&& branch_ids(done) == consecutive(top + 1, (next - top - 1) as nat)
}

proof fn lemma_branches_hold_no_roots(found: Seq<(u64, Seq<char>)>, id: TaskId, rest: Seq<PendingSpec>)
    ensures
        pending_root_ids(decoder::pending_branches(found, id) + rest) == pending_root_ids(rest),
    decreases found.len(),
{
    let branches = decoder::pending_branches(found, id);
    if found.len() > 0 {
        let all = branches + rest;
        assert(all[0] == branches[0]);
        assert(all.skip(1) =~= decoder::pending_branches(found.skip(1), id) + rest);
        lemma_branches_hold_no_roots(found.skip(1), id, rest);
    } else {
        assert(branches + rest =~= rest);
    }
}

/// The walk is over, and the invariant still holds.
spec fn is_over(all: Seq<DecodedNodeSpec>, top: u64, root_ids: Seq<TaskId>) -> bool {
    exists|last: u64| in_step(Seq::empty(), last, all, top, root_ids)
}

proof fn lemma_visit<V: ProcessView + ?Sized>(
    view: &V,
    layouts: LayoutMap,
    pending: Seq<PendingSpec>,
    next: u64,
    done: Seq<DecodedNodeSpec>,
    top: u64,
    root_ids: Seq<TaskId>,
)
    requires
        in_step(pending, next, done, top, root_ids),
    ensures
        decoder::visit(view, layouts, pending, next, done) matches Ok(all) ==> is_over(
            all,
            top,
            root_ids,
        ),
    decreases decoder::MAX_TASKS - done.len(),
{
    if pending.len() == 0 {
        assert(pending =~= Seq::empty());
        assert(in_step(Seq::empty(), next, done, top, root_ids));
        assert(is_over(done, top, root_ids));
    } else if done.len() < decoder::MAX_TASKS {
        let item = pending[0];
        let id = match item.id {
            Some(given) => given,
            None => TaskId(next),
        };
        let after = match item.id {
            Some(_) => next,
            None => next.wrapping_add(1),
        };
        if let Ok((node, found)) = decoder::visit_one(view, layouts, item, id) {
            let branches = decoder::pending_branches(found, id);
            let todo = branches + pending.skip(1);
            let now = done.push(node);
            assert(node.id == id && node.parent == item.parent);
            assert(!was_visited(done, id)) by {
                if item.id is None && was_visited(done, id) {
                    let i = choose|i: int| 0 <= i < done.len() && (#[trigger] done[i]).id == id;
                    assert(done[i].id.0 < next);
                }
            }
            assert forall|x: TaskId| was_visited(done, x) implies was_visited(now, x) by {
                let i = choose|i: int| 0 <= i < done.len() && (#[trigger] done[i]).id == x;
                assert(now[i].id == x);
            }
            assert(was_visited(now, id)) by {
                assert(now[done.len() as int].id == id);
            }
            assert forall|i: int, j: int|
                #![trigger now[i], now[j]]
                0 <= i < now.len() && 0 <= j < now.len() && now[i].id == now[j].id implies i
                == j by {
                if i < done.len() {
                    assert(now[i] == done[i]);
                }
                if j < done.len() {
                    assert(now[j] == done[j]);
                }
            }
            assert forall|i: int| 0 <= i < now.len() implies (#[trigger] now[i]).id.0 < after by {
                if i < done.len() {
                    assert(now[i] == done[i]);
                }
            }
            assert forall|i: int| 0 <= i < todo.len() implies match (#[trigger] todo[i]).id {
                Some(t) => t.0 <= top && !was_visited(now, t) && todo[i].parent is None,
                None => todo[i].parent is Some,
            } by {
                if i < branches.len() {
                    assert(todo[i] == branches[i]);
                } else {
                    let k = i - branches.len() + 1;
                    assert(todo[i] == pending[k]);
                    if let Some(t) = pending[k].id {
                        if was_visited(now, t) {
                            let m = choose|m: int|
                                0 <= m < now.len() && (#[trigger] now[m]).id == t;
                            if m < done.len() {
                                assert(done[m].id == t);
                            } else {
                                assert(pending[0].id == pending[k].id || item.id is None);
                            }
                        }
                    }
                }
            }
            assert forall|i: int, j: int|
                #![trigger todo[i], todo[j]]
                0 <= i < todo.len() && 0 <= j < todo.len() && todo[i].id is Some && todo[i].id
                    == todo[j].id implies i == j by {
                if i < branches.len() {
                    assert(todo[i] == branches[i]);
                }
                if j < branches.len() {
                    assert(todo[j] == branches[j]);
                }
                if i >= branches.len() && j >= branches.len() {
                    assert(todo[i] == pending[i - branches.len() + 1]);
                    assert(todo[j] == pending[j - branches.len() + 1]);
                }
            }
            assert forall|i: int| 0 <= i < todo.len() implies ((
            #[trigger] todo[i]).parent matches Some(p) ==> was_visited(now, p)) by {
                if i < branches.len() {
                    assert(todo[i] == branches[i]);
                } else {
                    assert(todo[i] == pending[i - branches.len() + 1]);
                }
            }
            assert forall|i: int| 0 <= i < now.len() implies ((
            #[trigger] now[i]).parent matches Some(p) ==> p != now[i].id && was_visited(
                now,
                p,
            )) by {
                if i < done.len() {
                    assert(now[i] == done[i]);
                } else if let Some(p) = now[i].parent {
                    assert(was_visited(done, p));
                }
            }
            // numbering
            assert(now.drop_last() =~= done);
            let shown = decoder::task_nodes(now);
            assert(shown.drop_last() =~= decoder::task_nodes(done));
            assert(shown.last() == decoder::task_node(node));
            lemma_branches_hold_no_roots(found, id, pending.skip(1));
            let before = tree::roots_of(decoder::task_nodes(done));
            let left = pending_root_ids(pending.skip(1));
            if item.id is Some {
                assert(before.push(id) + left =~= before + (seq![id] + left));
            } else {
                assert(consecutive(top + 1, (next - top - 1) as nat).push(TaskId(next))
                    =~= consecutive(top + 1, (after - top - 1) as nat));
            }
            lemma_visit(view, layouts, todo, after, now, top, root_ids);
            assert(decoder::visit(view, layouts, pending, next, done) == decoder::visit(
                view,
                layouts,
                todo,
                after,
                now,
            ));
        }
    }
}

proof fn lemma_greatest(roots: Seq<TaskRootSpec>)
    ensures
        forall|i: int| 0 <= i < roots.len() ==> (#[trigger] roots[i]).id <= decoder::greatest_id(
            roots,
        ),
    decreases roots.len(),
{
    if roots.len() > 0 {
        lemma_greatest(roots.drop_last());
        assert forall|i: int| 0 <= i < roots.len() implies (#[trigger] roots[i]).id
            <= decoder::greatest_id(roots) by {
            if i < roots.len() - 1 {
                assert(roots.drop_last()[i] == roots[i]);
            }
        }
    }
}

/// The ids of the roots, in order.
pub open spec fn given_ids(roots: Seq<TaskRootSpec>) -> Seq<TaskId> {
    roots.map_values(|root: TaskRootSpec| TaskId(root.id))
}

proof fn lemma_given_ids(roots: Seq<TaskRootSpec>)
    ensures
        pending_root_ids(decoder::pending_roots(roots)) == given_ids(roots),
    decreases roots.len(),
{
    let pending = decoder::pending_roots(roots);
    if roots.len() > 0 {
        lemma_given_ids(roots.skip(1));
        assert(pending.skip(1) =~= decoder::pending_roots(roots.skip(1)));
        assert(seq![TaskId(roots[0].id)] + given_ids(roots.skip(1)) =~= given_ids(roots));
    } else {
        assert(pending_root_ids(pending) =~= given_ids(roots));
    }
}

proof fn lemma_start(roots: Seq<TaskRootSpec>)
    requires
        sound_roots(roots),
    ensures
        in_step(
            decoder::pending_roots(roots),
            (decoder::greatest_id(roots) + 1) as u64,
            Seq::empty(),
            decoder::greatest_id(roots),
            given_ids(roots),
        ),
{
    let pending = decoder::pending_roots(roots);
    let top = decoder::greatest_id(roots);
    lemma_greatest(roots);
    lemma_given_ids(roots);
    assert forall|i: int| 0 <= i < pending.len() implies match (#[trigger] pending[i]).id {
        Some(id) => id.0 <= top && pending[i].parent is None,
        None => false,
    } by {
        assert(roots[i].id <= top);
    }
    assert forall|i: int, j: int|
        #![trigger pending[i], pending[j]]
        0 <= i < pending.len() && 0 <= j < pending.len() && pending[i].id is Some && pending[i].id
            == pending[j].id implies i == j by {
        assert(roots[i].id == roots[j].id);
    }
    let shown = decoder::task_nodes(Seq::empty());
    assert(shown =~= Seq::empty());
    assert(tree::roots_of(shown) + given_ids(roots) =~= given_ids(roots));
    assert(branch_ids(Seq::empty()) =~= consecutive(top + 1, 0));
}

/// Roots keep their given ids and order; branches are numbered one after the
/// other from one past the greatest root id, in the order in which they are
/// visited; and the tasks always form a tree.
pub proof fn law_tasks_form_a_numbered_tree<V: ProcessView + ?Sized>(
    view: &V,
    layouts: LayoutMap,
    roots: Seq<TaskRootSpec>,
)
    requires
        sound_roots(roots),
    ensures
        decoder::all_tasks(view, layouts, roots) matches Ok(all) ==> {
            let nodes = decoder::task_nodes(all);
            &&& decoder::task_tree(view, layouts, roots) == Ok::<
                Seq<TaskNodeSpec>,
                DecoderErrorSpec,
            >(nodes)
            &&& tree::roots_of(nodes) == given_ids(roots)
            &&& branch_ids(all) == consecutive(
                decoder::greatest_id(roots) + 1,
                branch_ids(all).len(),
            )
        },
{
    if let Ok(all) = decoder::all_tasks(view, layouts, roots) {
        let top = decoder::greatest_id(roots);
        lemma_start(roots);
        lemma_visit(
            view,
            layouts,
            decoder::pending_roots(roots),
            (top + 1) as u64,
            Seq::empty(),
            top,
            given_ids(roots),
        );
        assert(is_over(all, top, given_ids(roots)));
        let last = choose|last: u64| in_step(Seq::empty(), last, all, top, given_ids(roots));
        let nodes = decoder::task_nodes(all);
        assert(pending_root_ids(Seq::empty()) =~= Seq::empty());
        assert(tree::roots_of(nodes) + Seq::<TaskId>::empty() =~= tree::roots_of(nodes));
        assert forall|i: int, j: int|
            #![trigger nodes[i], nodes[j]]
            0 <= i < nodes.len() && 0 <= j < nodes.len() && nodes[i].id == nodes[j].id implies i
            == j by {
            assert(all[i].id == all[j].id);
        }
        assert forall|i: int| 0 <= i < nodes.len() implies !tree::is_dangling(
            nodes,
            #[trigger] nodes[i],
        ) by {
            if let Some(p) = all[i].parent {
                let k = choose|k: int| 0 <= k < all.len() && (#[trigger] all[k]).id == p;
                assert(nodes[k].id == p);
            }
        }
        tree::lemma_none_dangling(nodes, nodes);
    }
}

proof fn lemma_first_with_id(all: Seq<DecodedNodeSpec>, id: TaskId, from: nat)
    ensures
        match decoder::first_with_id(all, id, from) {
            Some(n) => n.id == id && exists|i: int| from <= i < all.len() && #[trigger] all[i] == n,
            None => forall|i: int| from <= i < all.len() ==> (#[trigger] all[i]).id != id,
        },
    decreases all.len() - from,
{
    if from < all.len() && all[from as int].id != id {
        lemma_first_with_id(all, id, from + 1);
    }
}

/// A task is known to the decoder if and only if it is among the decoded tasks;
/// any other is reported as unknown.
pub proof fn law_known_tasks_are_the_decoded_ones<V: ProcessView + ?Sized>(
    view: &V,
    layouts: LayoutMap,
    roots: Seq<TaskRootSpec>,
    task: TaskId,
)
    ensures
        decoder::all_tasks(view, layouts, roots) matches Ok(all) ==> {
            if tree::has_id(decoder::task_nodes(all), task) {
                decoder::coroutine_of(view, layouts, roots, task) is Ok
            } else {
                decoder::coroutine_of(view, layouts, roots, task) == Err::<
                    DecodedNodeSpec,
                    DecoderErrorSpec,
                >(DecoderErrorSpec::UnknownTask(task))
            }
        },
{
    if let Ok(all) = decoder::all_tasks(view, layouts, roots) {
        let nodes = decoder::task_nodes(all);
        lemma_first_with_id(all, task, 0);
        if tree::has_id(nodes, task) {
            let k = choose|k: int| 0 <= k < nodes.len() && (#[trigger] nodes[k]).id == task;
            assert(all[k].id == task);
        }
        if let Some(n) = decoder::first_with_id(all, task, 0) {
            let i = choose|i: int| 0 <= i < all.len() && #[trigger] all[i] == n;
            assert(nodes[i].id == task);
        }
    }
}

} // verus!
