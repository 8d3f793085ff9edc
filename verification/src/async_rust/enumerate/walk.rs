//! Walking Tokio's `OwnedTasks`: from a thread's `CONTEXT` through the scheduler
//! handle and the sharded list to every spawned task.
//!
//! Addresses wrap around at 64 bits.
use vstd::prelude::*;

use super::error::{EnumerateError, EnumerateErrorSpec};
use super::layout::TokioRuntimeLayout;
use crate::bytes;
use crate::error::{self, DecoderError, DecoderErrorSpec};
use crate::process_view::ProcessView;
use crate::text;

verus! {

/// Upper bound on the number of shards, against a misresolved length.
pub const MAX_SHARDS: u64 = 0x1_0000;

/// Upper bound on the number of tasks, against a cyclic list.
pub const MAX_TASKS: usize = 0x10_0000;

/// One task discovered by the walk, before its type is resolved.
#[derive(Debug, Clone, Copy, PartialEq, Eq, Structural)]
pub struct RawTask {
    /// Absolute address of the task's header.
    pub header: u64,
    /// Absolute address of the task's poll function.
    pub poll_runtime: u64,
    /// Absolute address of the task's inline future.
    pub future: u64,
}

// ---------------------------------------------------------------------------
// What the memory says
// ---------------------------------------------------------------------------

/// The word at `addr`.
pub open spec fn word_at<V: ProcessView + ?Sized>(view: &V, addr: u64) -> Result<
    u64,
    DecoderErrorSpec,
> {
    match view.memory(addr, 8) {
        Ok(data) => if data.len() == 8 {
            Ok(bytes::le(data) as u64)
        } else {
            Err(DecoderErrorSpec::MemoryReadFailed { addr, len: 8, reason: "short read"@ })
        },
        Err(e) => Err(e),
    }
}

/// The word at `addr`; a failed read makes the runtime implausible.
pub open spec fn pointer_at<V: ProcessView + ?Sized>(view: &V, addr: u64) -> Result<
    u64,
    EnumerateErrorSpec,
> {
    match word_at(view, addr) {
        Ok(n) => Ok(n),
        Err(e) => Err(EnumerateErrorSpec::Implausible(e.message())),
    }
}

/// The address of the `OwnedTasks` that a context leads to, if the thread holds
/// a live runtime handle.
pub open spec fn owned_tasks<V: ProcessView + ?Sized>(
    view: &V,
    context_addr: u64,
    layout: TokioRuntimeLayout,
) -> Result<Option<u64>, EnumerateErrorSpec> {
    let cell = context_addr.wrapping_add(layout.context_current);
    match pointer_at(view, cell.wrapping_add(layout.handle_cell_value)) {
        Err(e) => Err(e),
        Ok(arc) => if arc == 0 {
            Ok(None)
        } else {
            Ok(
                Some(
                    arc.wrapping_add(layout.arc_data).wrapping_add(
                        layout.handle_shared,
                    ).wrapping_add(layout.shared_owned),
                ),
            )
        },
    }
}

/// The task whose header is at `node`, and the header after it.
pub open spec fn task_at<V: ProcessView + ?Sized>(
    view: &V,
    node: u64,
    layout: TokioRuntimeLayout,
) -> Result<(RawTask, Result<u64, EnumerateErrorSpec>), EnumerateErrorSpec> {
    match pointer_at(view, node.wrapping_add(layout.header_vtable)) {
        Err(e) => Err(e),
        Ok(vtable) => match pointer_at(view, vtable.wrapping_add(layout.vtable_poll)) {
            Err(e) => Err(e),
            Ok(poll_runtime) => match pointer_at(
                view,
                vtable.wrapping_add(layout.vtable_trailer_offset),
            ) {
                Err(e) => Err(e),
                Ok(trailer_offset) => Ok(
                    (
                        RawTask {
                            header: node,
                            poll_runtime,
                            future: node.wrapping_add(layout.future_offset),
                        },
                        pointer_at(
                            view,
                            node.wrapping_add(trailer_offset).wrapping_add(
                                layout.trailer_owned_next,
                            ),
                        ),
                    ),
                ),
            },
        },
    }
}

/// The tasks found so far, and whether the walk went through.
pub type Walk = (Seq<RawTask>, Result<(), EnumerateErrorSpec>);

/// Walking one shard from `node` on, after `found`.
pub open spec fn shard_from<V: ProcessView + ?Sized>(
    view: &V,
    node: u64,
    layout: TokioRuntimeLayout,
    found: Seq<RawTask>,
) -> Walk
    decreases MAX_TASKS - found.len(),
{
    if node == 0 {
        (found, Ok(()))
    } else if found.len() >= MAX_TASKS {
        (
            found,
            Err(
                EnumerateErrorSpec::Implausible(
                    "task count exceeded MAX_TASKS; list likely cyclic"@,
                ),
            ),
        )
    } else {
        match task_at(view, node, layout) {
            Err(e) => (found, Err(e)),
            Ok((task, next)) => match next {
                Err(e) => (found.push(task), Err(e)),
                Ok(after) => shard_from(view, after, layout, found.push(task)),
            },
        }
    }
}

/// Walking the shards from number `shard` on, after `found`.
pub open spec fn shards_from<V: ProcessView + ?Sized>(
    view: &V,
    data_ptr: u64,
    shard: nat,
    len: nat,
    layout: TokioRuntimeLayout,
    found: Seq<RawTask>,
) -> Walk
    decreases len - shard,
{
    if shard >= len {
        (found, Ok(()))
    } else {
        let mutex = data_ptr.wrapping_add((shard as u64).wrapping_mul(layout.shard_stride));
        match pointer_at(
            view,
            mutex.wrapping_add(layout.mutex_data).wrapping_add(layout.list_head),
        ) {
            Err(e) => (found, Err(e)),
            Ok(head) => match shard_from(view, head, layout, found) {
                (more, Err(e)) => (more, Err(e)),
                (more, Ok(_)) => shards_from(view, data_ptr, shard + 1, len, layout, more),
            },
        }
    }
}

/// Walking every shard of the `OwnedTasks` at `owned`, after `found`.
pub open spec fn owned_walk<V: ProcessView + ?Sized>(
    view: &V,
    owned: u64,
    layout: TokioRuntimeLayout,
    found: Seq<RawTask>,
) -> Walk {
    let lists = owned.wrapping_add(layout.owned_list).wrapping_add(layout.sharded_lists);
    match pointer_at(view, lists) {
        Err(e) => (found, Err(e)),
        Ok(data_ptr) => match pointer_at(view, lists.wrapping_add(8)) {
            Err(e) => (found, Err(e)),
            Ok(len) => if len > MAX_SHARDS {
                (
                    found,
                    Err(
                        EnumerateErrorSpec::Implausible(
                            "ShardedList reports "@ + text::decimal(len as nat) + " shards"@,
                        ),
                    ),
                )
            } else {
                shards_from(view, data_ptr, 0, len as nat, layout, found)
            },
        },
    }
}

/// Walking everything that a context leads to: whether there was a runtime, and
/// the tasks after those found already.
pub open spec fn context_walk<V: ProcessView + ?Sized>(
    view: &V,
    context_addr: u64,
    layout: TokioRuntimeLayout,
    found: Seq<RawTask>,
) -> (Seq<RawTask>, Result<bool, EnumerateErrorSpec>) {
    match owned_tasks(view, context_addr, layout) {
        Err(e) => (found, Err(e)),
        Ok(None) => (found, Ok(false)),
        Ok(Some(owned)) => match owned_walk(view, owned, layout, found) {
            (all, Ok(_)) => (all, Ok(true)),
            (all, Err(e)) => (all, Err(e)),
        },
    }
}

// ---------------------------------------------------------------------------
// Reading it
// ---------------------------------------------------------------------------

/// Read a little-endian `u64` from the target at `addr`.
fn read_u64<V: ProcessView + ?Sized>(view: &V, addr: u64) -> (r: Result<u64, DecoderError>)
    ensures
        error::outcome(r) == word_at(view, addr),
{
    let data = view.read_memory(addr, 8)?;
    if data.len() != 8 {
        return Err(
            DecoderError::MemoryReadFailed { addr, len: 8, reason: "short read".to_owned() },
        );
    }
    Ok(bytes::read_le(data.as_slice()))
}

/// Read a word; a failed read makes the runtime implausible.
fn read<V: ProcessView + ?Sized>(view: &V, addr: u64) -> (r: Result<u64, EnumerateError>)
    ensures
        error::outcome(r) == pointer_at(view, addr),
{
    match read_u64(view, addr) {
        Ok(n) => Ok(n),
        Err(e) => Err(EnumerateError::Implausible(e.message())),
    }
}

/// Resolve the `OwnedTasks` address from a thread's context.
fn owned_tasks_addr<V: ProcessView + ?Sized>(
    view: &V,
    context_addr: u64,
    layout: &TokioRuntimeLayout,
) -> (r: Result<Option<u64>, EnumerateError>)
    ensures
        error::outcome(r) == owned_tasks(view, context_addr, *layout),
{
    let cell: u64 = context_addr.wrapping_add(layout.context_current);
    let arc: u64 = read(view, cell.wrapping_add(layout.handle_cell_value))?;
    if arc == 0 {
        return Ok(None);
    }
    let handle: u64 = arc.wrapping_add(layout.arc_data);
    let shared: u64 = handle.wrapping_add(layout.handle_shared);
    Ok(Some(shared.wrapping_add(layout.shared_owned)))
}

/// Walk one shard's list starting at `head` (0 = empty).
fn walk_shard<V: ProcessView + ?Sized>(
    view: &V,
    head: u64,
    layout: &TokioRuntimeLayout,
    out: &mut Vec<RawTask>,
) -> (r: Result<(), EnumerateError>)
    ensures
        (final(out)@, error::outcome(r)) == shard_from(view, head, *layout, old(out)@),
{
    let ghost want = shard_from(view, head, *layout, out@);
    let mut node: u64 = head;
    while node != 0
        invariant
            want == shard_from(view, head, *layout, old(out)@),
            want == shard_from(view, node, *layout, out@),
        decreases
                if out.len() < MAX_TASKS {
                    MAX_TASKS - out.len()
                } else {
                    0
                },
    {
        if out.len() >= MAX_TASKS {
            return Err(
                EnumerateError::Implausible(
                    "task count exceeded MAX_TASKS; list likely cyclic".to_owned(),
                ),
            );
        }
        let vtable: u64 = read(view, node.wrapping_add(layout.header_vtable))?;
        let poll_runtime: u64 = read(view, vtable.wrapping_add(layout.vtable_poll))?;
        let trailer_offset: u64 = read(view, vtable.wrapping_add(layout.vtable_trailer_offset))?;
        out.push(
            RawTask {
                header: node,
                poll_runtime,
                future: node.wrapping_add(layout.future_offset),
            },
        );
        let trailer: u64 = node.wrapping_add(trailer_offset);
        node = read(view, trailer.wrapping_add(layout.trailer_owned_next))?;
    }
    Ok(())
}

/// Walk every shard, collecting each task.
fn collect_from_owned<V: ProcessView + ?Sized>(
    view: &V,
    owned: u64,
    layout: &TokioRuntimeLayout,
    out: &mut Vec<RawTask>,
) -> (r: Result<(), EnumerateError>)
    ensures
        (final(out)@, error::outcome(r)) == owned_walk(view, owned, *layout, old(out)@),
{
    let ghost want = owned_walk(view, owned, *layout, out@);
    let list: u64 = owned.wrapping_add(layout.owned_list);
    let lists: u64 = list.wrapping_add(layout.sharded_lists);
    let data_ptr: u64 = read(view, lists)?;
    let len: u64 = read(view, lists.wrapping_add(8))?;
    if len > MAX_SHARDS {
        let mut why = "ShardedList reports ".to_owned();
        text::push_decimal(&mut why, len);
        why.append(" shards");
        return Err(EnumerateError::Implausible(why));
    }
    let mut shard: u64 = 0;
    while shard < len
        invariant
            shard <= len,
            want == owned_walk(view, owned, *layout, old(out)@),
            want == shards_from(view, data_ptr, shard as nat, len as nat, *layout, out@),
        decreases len - shard,
    {
        let mutex: u64 = data_ptr.wrapping_add(shard.wrapping_mul(layout.shard_stride));
        let head: u64 = read(
            view,
            mutex.wrapping_add(layout.mutex_data).wrapping_add(layout.list_head),
        )?;
        walk_shard(view, head, layout, out)?;
        shard += 1;
    }
    Ok(())
}

/// Walk the `OwnedTasks` reachable from `context_addr`, appending every live
/// task to `out`. `Ok(false)`, with nothing appended, when the thread holds no
/// live runtime handle.
///
/// Fails on a bad shard count, a cyclic list or an unreadable pointer; `out`
/// then holds the tasks found before.
pub fn walk_context<V: ProcessView + ?Sized>(
    view: &V,
    context_addr: u64,
    layout: &TokioRuntimeLayout,
    out: &mut Vec<RawTask>,
) -> (r: Result<bool, EnumerateError>)
    ensures
        (final(out)@, error::outcome(r)) == context_walk(view, context_addr, *layout, old(out)@),
{
    match owned_tasks_addr(view, context_addr, layout)? {
        Some(owned) => {
            collect_from_owned(view, owned, layout, out)?;
            Ok(true)
        },
        None => Ok(false),
    }
}

} // verus!
