//! What holds of every decoded Go target.
use vstd::prelude::*;

use super::decoder;
use super::gwalk::{self, GoroutineSpec};
use super::offsets::GoLayout;
use crate::error::DecoderErrorSpec;
use crate::model::tree;
use crate::model::{TaskId, TaskNodeSpec};
use crate::process_view::ProcessView;

verus! {

pub(super) proof fn lemma_ids_round_trip(goid: i64)
    requires
        goid > 0,
    ensures
        (goid as u64) == goid,
        ((goid as u64) as i64) == goid,
{
    assert(goid > 0 ==> ((goid as u64) as i64) == goid) by (bit_vector);
}

pub(super) proof fn lemma_task_number(raw: u64)
    ensures
        (raw as i64) > 0 ==> (raw as i64) as u64 == raw && (raw as i64) == raw,
        0 < raw <= 0x7fff_ffff_ffff_ffff ==> (raw as i64) == raw,
{
    assert((raw as i64) > 0 ==> (raw as i64) as u64 == raw) by (bit_vector);
    assert(0 < raw <= 0x7fff_ffff_ffff_ffffu64 ==> (raw as i64) > 0) by (bit_vector);
    if (raw as i64) > 0 {
        lemma_ids_round_trip(raw as i64);
    }
}

/// The tasks of the first `n` goroutines have distinct ids, and each user
/// goroutine among them has its task.
proof fn lemma_nodes(all: Seq<GoroutineSpec>, n: nat)
    requires
        n <= all.len(),
    ensures
        tree::distinct_ids(decoder::goroutine_nodes(all, n)),
        forall|k: int|
            0 <= k < decoder::goroutine_nodes(all, n).len() ==> exists|i: int|
                0 <= i < n && all[i].goid > 0 && #[trigger] decoder::goroutine_nodes(all, n)[k]
                    == decoder::goroutine_node(#[trigger] all[i], all),
        forall|i: int|
            0 <= i < n && (#[trigger] all[i]).goid > 0 ==> tree::has_id(
                decoder::goroutine_nodes(all, n),
                TaskId(all[i].goid as u64),
            ),
    decreases n,
{
    if n > 0 {
        let m = (n - 1) as nat;
        lemma_nodes(all, m);
        let rest = decoder::goroutine_nodes(all, m);
        let s = decoder::goroutine_nodes(all, n);
        let g = all[m as int];
        let prefix = all.take(m as int);
        if g.goid <= 0 || decoder::is_live(prefix, g.goid) {
            if g.goid > 0 {
                let j = choose|j: int|
                    0 <= j < prefix.len() && (#[trigger] prefix[j]).goid == g.goid;
                assert(all[j] == prefix[j]);
                assert(tree::has_id(rest, TaskId(all[j].goid as u64)));
            }
        } else {
            let node = decoder::goroutine_node(g, all);
            lemma_ids_round_trip(g.goid);
            assert forall|k: int| 0 <= k < rest.len() implies (#[trigger] rest[k]).id != node.id by {
                let i = choose|i: int|
                    0 <= i < m && all[i].goid > 0 && rest[k] == decoder::goroutine_node(
                        #[trigger] all[i],
                        all,
                    );
                lemma_ids_round_trip(all[i].goid);
                if rest[k].id == node.id {
                    assert(prefix[i].goid == g.goid);
                }
            }
            assert forall|i: int, j: int|
                #![trigger s[i], s[j]]
                0 <= i < s.len() && 0 <= j < s.len() && s[i].id == s[j].id implies i == j by {
                if i < rest.len() {
                    assert(s[i] == rest[i]);
                }
                if j < rest.len() {
                    assert(s[j] == rest[j]);
                }
            }
            assert forall|k: int| 0 <= k < s.len() implies exists|i: int|
                0 <= i < n && all[i].goid > 0 && #[trigger] s[k] == decoder::goroutine_node(
                    #[trigger] all[i],
                    all,
                ) by {
                if k < rest.len() {
                    assert(s[k] == rest[k]);
                } else {
                    assert(s[k] == decoder::goroutine_node(all[m as int], all));
                }
            }
            assert forall|i: int| 0 <= i < n && (#[trigger] all[i]).goid > 0 implies tree::has_id(
                s,
                TaskId(all[i].goid as u64),
            ) by {
                if i < m {
                    let k = choose|k: int|
                        0 <= k < rest.len() && (#[trigger] rest[k]).id == TaskId(
                            all[i].goid as u64,
                        );
                    assert(s[k] == rest[k]);
                } else {
                    assert(s[rest.len() as int] == node);
                }
            }
        }
    }
}

/// Goroutines always form a tree: once they could be read, decoding succeeds,
/// with one task per user goroutine id.
pub proof fn law_goroutines_form_a_tree(all: Seq<GoroutineSpec>)
    ensures
        tree::assembled(decoder::goroutine_nodes(all, all.len())) == Ok::<
            Seq<TaskNodeSpec>,
            DecoderErrorSpec,
        >(decoder::goroutine_nodes(all, all.len())),
{
    let s = decoder::goroutine_nodes(all, all.len());
    lemma_nodes(all, all.len());
    assert forall|k: int| 0 <= k < s.len() implies !tree::is_dangling(s, #[trigger] s[k]) by {
        let i = choose|i: int|
            0 <= i < all.len() && all[i].goid > 0 && s[k] == decoder::goroutine_node(
                #[trigger] all[i],
                all,
            );
        if let Some(p) = all[i].parent_goid {
            if p > 0 && p != all[i].goid && decoder::is_live(all, p) {
                let j = choose|j: int| 0 <= j < all.len() && (#[trigger] all[j]).goid == p;
                assert(tree::has_id(s, TaskId(all[j].goid as u64)));
                lemma_ids_round_trip(p);
                lemma_ids_round_trip(all[i].goid);
            }
        }
    }
    tree::lemma_none_dangling(s, s);
}

pub(super) proof fn lemma_first_with_id(all: Seq<GoroutineSpec>, goid: i64, from: nat)
    ensures
        match decoder::first_with_id(all, goid, from) {
            Some(g) => g.goid == goid && exists|i: int|
                from <= i < all.len() && #[trigger] all[i] == g,
            None => forall|i: int| from <= i < all.len() ==> (#[trigger] all[i]).goid != goid,
        },
    decreases all.len() - from,
{
    if from < all.len() && all[from as int].goid != goid {
        lemma_first_with_id(all, goid, from + 1);
    }
}

/// A task is known to the decoder if and only if it is in the decoded tree.
pub proof fn law_known_goroutines_are_those_of_the_tree<V: ProcessView + ?Sized>(
    view: &V,
    layout: GoLayout,
    task: TaskId,
)
    requires
        gwalk::live_goroutines(view, layout) is Ok,
    ensures
        decoder::goroutine_tree(view, layout) matches Ok(nodes) && (decoder::goroutine_of(
            view,
            layout,
            task,
        ) is Ok <==> tree::has_id(nodes, task)),
        decoder::goroutine_of(view, layout, task) matches Err(e) ==> e
            == DecoderErrorSpec::UnknownTask(task),
{
    let all = gwalk::live_goroutines(view, layout)->Ok_0;
    let s = decoder::goroutine_nodes(all, all.len());
    law_goroutines_form_a_tree(all);
    lemma_nodes(all, all.len());
    let goid = task.0 as i64;
    lemma_first_with_id(all, goid, 0);
    lemma_task_number(task.0);
    if decoder::goroutine_of(view, layout, task) is Ok {
        let g = decoder::first_with_id(all, goid, 0)->0;
        let i = choose|i: int| 0 <= i < all.len() && #[trigger] all[i] == g;
        assert(tree::has_id(s, TaskId(all[i].goid as u64)));
    }
    if tree::has_id(s, task) {
        let k = choose|k: int| 0 <= k < s.len() && (#[trigger] s[k]).id == task;
        let i = choose|i: int|
            0 <= i < all.len() && all[i].goid > 0 && s[k] == decoder::goroutine_node(
                #[trigger] all[i],
                all,
            );
        lemma_ids_round_trip(all[i].goid);
    }
}

/// No walk ever yields a dead goroutine.
pub proof fn law_dead_goroutines_are_omitted<V: ProcessView + ?Sized>(
    view: &V,
    layout: GoLayout,
    i: int,
)
    ensures
        gwalk::live_goroutines(view, layout) matches Ok(all) ==> (0 <= i < all.len()
            ==> !all[i].status.dead()),
{
    if let Ok((data, len)) = gwalk::allgs_header(view, layout) {
        lemma_none_dead(view, layout, data, 0, len as nat);
    }
}

proof fn lemma_none_dead<V: ProcessView + ?Sized>(
    view: &V,
    layout: GoLayout,
    data: u64,
    index: nat,
    len: nat,
)
    ensures
        gwalk::live_from(view, layout, data, index, len) matches Ok(all) ==> forall|i: int|
            0 <= i < all.len() ==> !(#[trigger] all[i]).status.dead(),
    decreases len - index,
{
    if index < len {
        lemma_none_dead(view, layout, data, index + 1, len);
    }
}

} // verus!
