//! What a decoded Go target shows, in terms of its memory.
use vstd::prelude::*;

use super::decoder;
use super::gwalk::{self, GoroutineSpec};
use super::laws;
use super::offsets::GoLayout;
use super::status;
use crate::bytes;
use crate::decoder_trait::{self, Reading};
use crate::error::DecoderErrorSpec;
use crate::model::frame;
use crate::model::tree;
use crate::model::{BlockReasonSpec, FrameOrigin, LogicalFrameSpec, SuspendKind, TaskId, TaskKind};
use crate::model::{TaskNodeSpec, TaskStateSpec, WakeCauseSpec};
use crate::process_view::{self, ProcessView};
use crate::text;

verus! {

// ---------------------------------------------------------------------------
// One goroutine
// ---------------------------------------------------------------------------

/// The number of an `i64`, as its bytes spell it.
pub open spec fn unsigned_of(n: i64) -> int {
    if n < 0 {
        n + 0x1_0000_0000_0000_0000
    } else {
        n as int
    }
}

/// A word of the `g` struct at `gp`.
pub open spec fn field_shows<V: ProcessView + ?Sized>(
    view: &V,
    gp: u64,
    offset: u64,
    n: int,
) -> bool {
    process_view::shows(view, gp.wrapping_add(offset), 8, n)
}

/// A goroutine runs on a thread: its status, the scan bit aside, is 2 (running) or
/// 3 (in a syscall).
pub open spec fn is_on_thread(g: GoroutineSpec) -> bool {
    status::unscanned(g.raw_status) == 2 || status::unscanned(g.raw_status) == 3
}

/// The thread of a goroutine: the number at `procid` in its M, where it runs on a
/// thread, has an M, and that place is known; else none.
pub open spec fn is_thread_of<V: ProcessView + ?Sized>(
    view: &V,
    layout: GoLayout,
    g: GoroutineSpec,
) -> bool {
    if is_on_thread(g) && g.m_ptr != 0 && layout.m_procid is Some {
        g.thread matches Some(thread) && field_shows(
            view,
            g.m_ptr,
            layout.m_procid->Some_0,
            thread.0 as int,
        )
    } else {
        g.thread is None
    }
}

/// The goroutine that the `g` struct at `gp` holds, field by field.
pub open spec fn is_goroutine_at<V: ProcessView + ?Sized>(
    view: &V,
    layout: GoLayout,
    gp: u64,
    g: GoroutineSpec,
) -> bool {
    let at = layout.g;
    &&& field_shows(view, gp, at.goid, unsigned_of(g.goid))
    &&& process_view::shows(view, gp.wrapping_add(at.atomicstatus), 4, g.raw_status as int)
    &&& view.memory(gp.wrapping_add(at.waitreason), 1) matches Ok(data) && data.len() > 0 && data[0]
        == g.wait_reason
    &&& field_shows(view, gp, at.gopc, g.gopc as int)
    &&& field_shows(view, gp, at.startpc, g.startpc as int)
    &&& field_shows(view, gp, at.sched_pc, g.sched_pc as int)
    &&& field_shows(view, gp, at.sched_sp, g.sched_sp as int)
    &&& field_shows(view, gp, at.stack_lo, g.stack_lo as int)
    &&& field_shows(view, gp, at.stack_hi, g.stack_hi as int)
    &&& field_shows(view, gp, at.m, g.m_ptr as int)
    &&& match at.parent_goid {
        Some(offset) => g.parent_goid matches Some(parent) && field_shows(
            view,
            gp,
            offset,
            unsigned_of(parent),
        ),
        None => g.parent_goid is None,
    }
    &&& is_thread_of(view, layout, g)
    &&& g.status == status::GoStatus::of_raw(g.raw_status)
    &&& g.state == g.status.task_state(g.wait_reason)
    &&& g.wait_reason_str == status::wait_reason_text(g.wait_reason)
}

proof fn lemma_word<V: ProcessView + ?Sized>(view: &V, addr: u64, len: usize)
    requires
        len == 4 || len == 8,
    ensures
        gwalk::word(view, addr, len) matches Ok(n) ==> process_view::shows(
            view,
            addr,
            len,
            n as int,
        ) && (len == 4 ==> n <= u32::MAX),
        forall|n: int| #[trigger] process_view::shows(view, addr, len, n) ==> gwalk::word(
            view,
            addr,
            len,
        ) == Ok::<u64, DecoderErrorSpec>(n as u64) && 0 <= n <= u64::MAX,
{
    if let Ok(data) = view.memory(addr, len) {
        bytes::lemma_le_bound(data);
        bytes::lemma_pow256_values();
        bytes::law_bytes_read_as_what_they_spell(data, bytes::le(data) as int);
        assert forall|n: int| #[trigger] process_view::shows(view, addr, len, n) implies gwalk::word(
            view,
            addr,
            len,
        ) == Ok::<u64, DecoderErrorSpec>(n as u64) && 0 <= n <= u64::MAX by {
            bytes::law_bytes_read_as_what_they_spell(data, n);
        }
    }
}

proof fn lemma_signed(n: u64)
    ensures
        unsigned_of(n as i64) == n,
{
    assert((n as i64) < 0 ==> n >= 0x8000_0000_0000_0000u64) by (bit_vector);
    assert((n as i64) >= 0 ==> n < 0x8000_0000_0000_0000u64) by (bit_vector);
    assert(n < 0x8000_0000_0000_0000u64 ==> (n as i64) as u64 == n && (n as i64) >= 0) by (bit_vector);
    assert(n >= 0x8000_0000_0000_0000u64 ==> (n as i64) == n - 0x1_0000_0000_0000_0000) by (bit_vector);
}

proof fn lemma_unsigned(n: i64)
    ensures
        (unsigned_of(n) as u64) as i64 == n,
        0 <= unsigned_of(n) <= u64::MAX,
{
    let u = unsigned_of(n) as u64;
    lemma_signed(u);
}

/// A goroutine is read if and only if the memory holds it, field by field: a
/// goroutine on a thread is mapped to the thread that its M names, and no other
/// goroutine is mapped to one.
pub proof fn law_a_goroutine_is_what_its_struct_holds<V: ProcessView + ?Sized>(
    view: &V,
    layout: GoLayout,
    gp: u64,
    g: GoroutineSpec,
)
    ensures
        gwalk::goroutine_at(view, layout, gp) == Ok::<GoroutineSpec, DecoderErrorSpec>(g)
            <==> is_goroutine_at(view, layout, gp, g),
{
    reveal_with_fuel(gwalk::first_failure, 8);
    let at = layout.g;
    lemma_word(view, gp.wrapping_add(at.goid), 8);
    lemma_word(view, gp.wrapping_add(at.atomicstatus), 4);
    lemma_word(view, gp.wrapping_add(at.gopc), 8);
    lemma_word(view, gp.wrapping_add(at.startpc), 8);
    lemma_word(view, gp.wrapping_add(at.sched_pc), 8);
    lemma_word(view, gp.wrapping_add(at.sched_sp), 8);
    lemma_word(view, gp.wrapping_add(at.stack_lo), 8);
    lemma_word(view, gp.wrapping_add(at.stack_hi), 8);
    lemma_word(view, gp.wrapping_add(at.m), 8);
    if let Some(offset) = at.parent_goid {
        lemma_word(view, gp.wrapping_add(offset), 8);
        if let Ok(n) = gwalk::word(view, gp.wrapping_add(offset), 8) {
            lemma_signed(n);
        }
    }
    if let Some(parent) = g.parent_goid {
        lemma_unsigned(parent);
    }
    lemma_unsigned(g.goid);
    if let Some(procid) = layout.m_procid {
        lemma_word(view, g.m_ptr.wrapping_add(procid), 8);
    }
    if let Ok(n) = gwalk::word(view, gp.wrapping_add(at.goid), 8) {
        lemma_signed(n);
    }
    status::law_a_status_goes_by_its_number(g.raw_status, g.wait_reason);
    if let Ok(raw) = gwalk::word(view, gp.wrapping_add(at.atomicstatus), 4) {
        status::law_a_status_goes_by_its_number(raw as u32, g.wait_reason);
    }
    let late = gwalk::late_fields(view, layout, gp);
    assert(late.skip(1)[0] == late[1]);
    assert(late.skip(1).skip(1)[0] == late[2]);
    assert(late.skip(1).skip(1).skip(1)[0] == late[3]);
    assert(late.skip(1).skip(1).skip(1).skip(1)[0] == late[4]);
    assert(late.skip(1).skip(1).skip(1).skip(1).skip(1)[0] == late[5]);
    assert(late.skip(1).skip(1).skip(1).skip(1).skip(1).skip(1)[0] == late[6]);
}

// ---------------------------------------------------------------------------
// All goroutines
// ---------------------------------------------------------------------------

/// The pointer in a slot of the list of goroutines.
pub open spec fn slot_shows<V: ProcessView + ?Sized>(
    view: &V,
    layout: GoLayout,
    data: u64,
    slot: int,
    gp: u64,
) -> bool {
    process_view::shows(
        view,
        data.wrapping_add((slot * layout.ptr_size) as u64),
        8,
        gp as int,
    )
}

/// A slot holds a goroutine that is live: one whose status, the scan bit aside, is
/// none of 5, 6 and 7.
pub open spec fn holds_live<V: ProcessView + ?Sized>(
    view: &V,
    layout: GoLayout,
    data: u64,
    slot: int,
    g: GoroutineSpec,
) -> bool {
    exists|gp: u64|
        gp != 0 && #[trigger] slot_shows(view, layout, data, slot, gp) && is_goroutine_at(
            view,
            layout,
            gp,
            g,
        ) && !(5 <= status::unscanned(g.raw_status) <= 7)
}

/// A slot is passed over: it is null, or its goroutine is not live.
pub open spec fn is_passed_over<V: ProcessView + ?Sized>(
    view: &V,
    layout: GoLayout,
    data: u64,
    slot: int,
) -> bool {
    slot_shows(view, layout, data, slot, 0) || exists|gp: u64, g: GoroutineSpec|
        #[trigger] slot_shows(view, layout, data, slot, gp) && #[trigger] is_goroutine_at(
            view,
            layout,
            gp,
            g,
        ) && 5 <= status::unscanned(g.raw_status) <= 7
}

/// Goroutines are those of some slots, in order, and every other slot from `from`
/// to `len` is passed over.
pub open spec fn are_slots_of<V: ProcessView + ?Sized>(
    view: &V,
    layout: GoLayout,
    data: u64,
    from: int,
    len: int,
    slots: Seq<int>,
    all: Seq<GoroutineSpec>,
) -> bool {
    &&& slots.len() == all.len()
    &&& forall|i: int|
        0 <= i < slots.len() ==> from <= (#[trigger] slots[i]) < len && holds_live(
            view,
            layout,
            data,
            slots[i],
            all[i],
        )
    &&& forall|i: int, j: int| 0 <= i < j < slots.len() ==> slots[i] < slots[j]
    &&& forall|k: int|
        from <= k < len ==> slots.contains(k) || #[trigger] is_passed_over(view, layout, data, k)
}

proof fn lemma_slots<V: ProcessView + ?Sized>(
    view: &V,
    layout: GoLayout,
    data: u64,
    index: nat,
    len: nat,
) -> (slots: Seq<int>)
    requires
        gwalk::live_from(view, layout, data, index, len) is Ok,
    ensures
        are_slots_of(
            view,
            layout,
            data,
            index as int,
            len as int,
            slots,
            gwalk::live_from(view, layout, data, index, len)->Ok_0,
        ),
    decreases len - index,
{
    if index >= len {
        Seq::empty()
    } else {
        let slot = data.wrapping_add((index * layout.ptr_size) as u64);
        lemma_word(view, slot, 8);
        let gp = gwalk::word(view, slot, 8)->Ok_0;
        assert(slot_shows(view, layout, data, index as int, gp));
        let rest = lemma_slots(view, layout, data, index + 1, len);
        let more = gwalk::live_from(view, layout, data, index + 1, len)->Ok_0;
        if gp == 0 {
            assert(is_passed_over(view, layout, data, index as int));
            rest
        } else {
            let g = gwalk::goroutine_at(view, layout, gp)->Ok_0;
            law_a_goroutine_is_what_its_struct_holds(view, layout, gp, g);
            status::law_a_status_goes_by_its_number(g.raw_status, g.wait_reason);
            if g.status.dead() {
                assert(is_passed_over(view, layout, data, index as int));
                rest
            } else {
                let slots = seq![index as int] + rest;
                let all = seq![g] + more;
                assert(holds_live(view, layout, data, index as int, g));
                assert forall|i: int| 0 <= i < slots.len() implies index <= (#[trigger] slots[i])
                    < len && holds_live(view, layout, data, slots[i], all[i]) by {
                    if i > 0 {
                        assert(slots[i] == rest[i - 1]);
                        assert(all[i] == more[i - 1]);
                    }
                }
                assert forall|i: int, j: int| 0 <= i < j < slots.len() implies slots[i]
                    < slots[j] by {
                    assert(slots[j] == rest[j - 1]);
                    if i > 0 {
                        assert(slots[i] == rest[i - 1]);
                    }
                }
                assert forall|k: int| index <= k < len implies slots.contains(k)
                    || #[trigger] is_passed_over(view, layout, data, k) by {
                    if k == index {
                        assert(slots[0] == k);
                    } else if rest.contains(k) {
                        let i = rest.index_of(k);
                        assert(slots[i + 1] == k);
                    }
                }
                slots
            }
        }
    }
}

/// The list of goroutines starts at `data` and has `len` slots, as the slice header
/// of `runtime.allgs` says.
pub open spec fn is_list<V: ProcessView + ?Sized>(
    view: &V,
    layout: GoLayout,
    data: u64,
    len: u64,
) -> bool {
    let header = layout.allgs_addr.wrapping_add(layout.load_bias);
    &&& process_view::shows(view, header, 8, data as int)
    &&& process_view::shows(view, header.wrapping_add(layout.ptr_size as u64), 8, len as int)
}

/// A walk finds every live goroutine of the list, in the order of its slots, and
/// nothing else.
pub proof fn law_a_walk_finds_every_live_goroutine<V: ProcessView + ?Sized>(
    view: &V,
    layout: GoLayout,
    data: u64,
    len: u64,
)
    requires
        is_list(view, layout, data, len),
    ensures
        match gwalk::live_goroutines(view, layout) {
            Ok(all) => len <= 0x10_0000 && exists|slots: Seq<int>|
                are_slots_of(view, layout, data, 0, len as int, slots, all),
            Err(_) => true,
        },
        len > 0x10_0000 ==> gwalk::live_goroutines(view, layout) matches Err(
            DecoderErrorSpec::NotApplicable { .. },
        ),
{
    let header = layout.allgs_addr.wrapping_add(layout.load_bias);
    lemma_word(view, header, 8);
    lemma_word(view, header.wrapping_add(layout.ptr_size as u64), 8);
    if len <= 0x10_0000 && gwalk::live_goroutines(view, layout) is Ok {
        let slots = lemma_slots(view, layout, data, 0, len as nat);
        assert(are_slots_of(
            view,
            layout,
            data,
            0,
            len as int,
            slots,
            gwalk::live_goroutines(view, layout)->Ok_0,
        ));
    }
}

/// A walk does not fail where the list can be read: every slot is passed over or
/// holds a live goroutine.
pub proof fn law_a_readable_list_is_walked<V: ProcessView + ?Sized>(
    view: &V,
    layout: GoLayout,
    data: u64,
    len: u64,
)
    requires
        is_list(view, layout, data, len),
        len <= 0x10_0000,
        forall|k: int|
            0 <= k < len ==> #[trigger] is_passed_over(view, layout, data, k) || exists|
                g: GoroutineSpec,
            |
                holds_live(view, layout, data, k, g),
    ensures
        gwalk::live_goroutines(view, layout) is Ok,
{
    let header = layout.allgs_addr.wrapping_add(layout.load_bias);
    lemma_word(view, header, 8);
    lemma_word(view, header.wrapping_add(layout.ptr_size as u64), 8);
    lemma_walked(view, layout, data, 0, len as nat);
}

proof fn lemma_walked<V: ProcessView + ?Sized>(
    view: &V,
    layout: GoLayout,
    data: u64,
    index: nat,
    len: nat,
)
    requires
        forall|k: int|
            index <= k < len ==> #[trigger] is_passed_over(view, layout, data, k) || exists|
                g: GoroutineSpec,
            |
                holds_live(view, layout, data, k, g),
    ensures
        gwalk::live_from(view, layout, data, index, len) is Ok,
    decreases len - index,
{
    if index < len {
        let slot = data.wrapping_add((index * layout.ptr_size) as u64);
        lemma_word(view, slot, 8);
        lemma_walked(view, layout, data, index + 1, len);
        let k = index as int;
        if slot_shows(view, layout, data, k, 0) {
        } else if is_passed_over(view, layout, data, k) {
            let (gp, g) = choose|gp: u64, g: GoroutineSpec|
                #[trigger] slot_shows(view, layout, data, k, gp) && #[trigger] is_goroutine_at(
                    view,
                    layout,
                    gp,
                    g,
                ) && 5 <= status::unscanned(g.raw_status) <= 7;
            law_a_goroutine_is_what_its_struct_holds(view, layout, gp, g);
        } else {
            let g = choose|g: GoroutineSpec| holds_live(view, layout, data, k, g);
            let gp = choose|gp: u64|
                gp != 0 && #[trigger] slot_shows(view, layout, data, k, gp) && is_goroutine_at(
                    view,
                    layout,
                    gp,
                    g,
                ) && !(5 <= status::unscanned(g.raw_status) <= 7);
            law_a_goroutine_is_what_its_struct_holds(view, layout, gp, g);
        }
    }
}

// ---------------------------------------------------------------------------
// Tasks
// ---------------------------------------------------------------------------

/// Some goroutine has this id.
pub open spec fn is_among(all: Seq<GoroutineSpec>, goid: i64) -> bool {
    exists|i: int| 0 <= i < all.len() && (#[trigger] all[i]).goid == goid
}

/// A task stands for a goroutine: of the same number, named after it, and below
/// the goroutine that created it, where that is another one that is still there.
pub open spec fn stands_for(node: TaskNodeSpec, g: GoroutineSpec, all: Seq<GoroutineSpec>) -> bool {
    &&& node.id.0 == g.goid
    &&& node.name.len() > 10
    &&& node.name.take(10) == "goroutine "@
    &&& text::digits_value(node.name.skip(10), 10) == g.goid
    &&& node.kind == TaskKind::Goroutine
    &&& node.state == g.state
    &&& match g.parent_goid {
        Some(p) if p > 0 && p != g.goid && is_among(all, p) => node.parent matches Some(id) && id.0
            == p,
        _ => node.parent is None,
    }
}

/// The tasks stand for some of the first `n` goroutines, in order: those with a
/// positive id, each id the first time that it comes.
pub open spec fn are_tasks_of(
    nodes: Seq<TaskNodeSpec>,
    all: Seq<GoroutineSpec>,
    n: int,
    picks: Seq<int>,
) -> bool {
    &&& picks.len() == nodes.len()
    &&& forall|i: int|
        0 <= i < picks.len() ==> 0 <= (#[trigger] picks[i]) < n && all[picks[i]].goid > 0
            && stands_for(nodes[i], all[picks[i]], all)
    &&& forall|i: int, j: int| 0 <= i < j < picks.len() ==> picks[i] < picks[j]
    &&& forall|k: int|
        #![trigger all[k]]
        0 <= k < n && all[k].goid > 0 ==> (picks.contains(k) <==> !is_among(
            all.take(k),
            all[k].goid,
        ))
}

/// The tasks stand for the user goroutines, in order, each id once.
pub open spec fn are_user_goroutines(nodes: Seq<TaskNodeSpec>, all: Seq<GoroutineSpec>) -> bool {
    exists|picks: Seq<int>| are_tasks_of(nodes, all, all.len() as int, picks)
}

proof fn lemma_tasks(all: Seq<GoroutineSpec>, n: nat) -> (picks: Seq<int>)
    requires
        n <= all.len(),
    ensures
        are_tasks_of(decoder::goroutine_nodes(all, n), all, n as int, picks),
    decreases n,
{
    if n == 0 {
        Seq::empty()
    } else {
        let m = (n - 1) as nat;
        let before = lemma_tasks(all, m);
        let rest = decoder::goroutine_nodes(all, m);
        let g = all[m as int];
        let now = decoder::goroutine_nodes(all, n);
        assert(is_among(all.take(m as int), g.goid) == decoder::is_live(
            all.take(m as int),
            g.goid,
        ));
        if g.goid <= 0 || decoder::is_live(all.take(m as int), g.goid) {
            assert forall|k: int|
                #![trigger all[k]]
                0 <= k < n && all[k].goid > 0 implies (before.contains(k) <==> !is_among(
                all.take(k),
                all[k].goid,
            )) by {
                if k == m && before.contains(k) {
                    let i = before.index_of(k);
                    assert(before[i] < m);
                }
            }
            before
        } else {
            let picks = before.push(m as int);
            let node = decoder::goroutine_node(g, all);
            assert(stands_for(node, g, all)) by {
                reveal_strlit("goroutine ");
                let digits = text::decimal(g.goid as nat);
                text::lemma_decimal(g.goid as nat);
                assert(node.name == "goroutine "@ + digits);
                assert(("goroutine "@ + digits).take(10) =~= "goroutine "@);
                assert(("goroutine "@ + digits).skip(10) =~= digits);
                laws::lemma_ids_round_trip(g.goid);
                if let Some(p) = g.parent_goid {
                    assert(is_among(all, p) == decoder::is_live(all, p));
                    if p > 0 {
                        laws::lemma_ids_round_trip(p);
                    }
                }
            }
            assert forall|i: int| 0 <= i < picks.len() implies 0 <= (#[trigger] picks[i]) < n
                && all[picks[i]].goid > 0 && stands_for(now[i], all[picks[i]], all) by {
                if i < before.len() {
                    assert(picks[i] == before[i]);
                    assert(now[i] == rest[i]);
                }
            }
            assert forall|i: int, j: int| 0 <= i < j < picks.len() implies picks[i] < picks[j] by {
                assert(picks[i] == before[i]);
                if j < before.len() {
                    assert(picks[j] == before[j]);
                }
            }
            assert forall|k: int|
                #![trigger all[k]]
                0 <= k < n && all[k].goid > 0 implies (picks.contains(k) <==> !is_among(
                all.take(k),
                all[k].goid,
            )) by {
                if k == m {
                    assert(picks[before.len() as int] == k);
                } else {
                    if before.contains(k) {
                        let i = before.index_of(k);
                        assert(picks[i] == k);
                    }
                    if picks.contains(k) {
                        let i = picks.index_of(k);
                        assert(before[i] == k);
                    }
                }
            }
            picks
        }
    }
}

/// The tasks of a Go process are its user goroutines, in the order of the walk:
/// each id once, each goroutine below its creator.
pub proof fn law_the_tasks_are_the_user_goroutines<V: ProcessView + ?Sized>(
    view: &V,
    layout: GoLayout,
    all: Seq<GoroutineSpec>,
)
    requires
        gwalk::live_goroutines(view, layout) == Ok::<Seq<GoroutineSpec>, DecoderErrorSpec>(all),
    ensures
        decoder_trait::tasks_read(Reading::Goroutines(layout), view) matches Some(Ok(nodes))
            && are_user_goroutines(nodes, all),
{
    laws::law_goroutines_form_a_tree(all);
    let picks = lemma_tasks(all, all.len());
    let nodes = decoder::goroutine_nodes(all, all.len());
    assert(decoder::goroutine_tree(view, layout) == Ok::<Seq<TaskNodeSpec>, DecoderErrorSpec>(
        nodes,
    ));
    assert(decoder_trait::tasks_read(Reading::Goroutines(layout), view) == Some(
        Ok::<Seq<TaskNodeSpec>, DecoderErrorSpec>(nodes),
    ));
    assert(are_tasks_of(nodes, all, all.len() as int, picks));
}

// ---------------------------------------------------------------------------
// Stacks and causes
// ---------------------------------------------------------------------------

/// The kind of suspend point that a reason for blocking is shown as.
pub open spec fn is_kind_for(kind: SuspendKind, on: BlockReasonSpec) -> bool {
    &&& on is Channel <==> kind == SuspendKind::ChannelRecv
    &&& on is Lock <==> kind == SuspendKind::Lock
    &&& on is Io <==> kind == SuspendKind::Io
    &&& on is Join <==> kind == SuspendKind::Join
    &&& on is Timer <==> kind == SuspendKind::Timer
    &&& on is Unknown <==> kind == SuspendKind::Other
}

/// The frame of a goroutine that is on no thread: it says which goroutine it is and
/// where it will resume and, where it is blocked, what it waits for.
pub open spec fn is_parked_frame(frame: LogicalFrameSpec, g: GoroutineSpec) -> bool {
    &&& frame.display_name == "goroutine "@ + text::decimal(g.goid as nat) + " (parked @ 0x"@
        + text::hex(g.sched_pc as nat) + ")"@
    &&& frame.location is None
    &&& frame.origin == FrameOrigin::Synthesized
    &&& match g.state {
        TaskStateSpec::Blocked { on } => frame.suspend matches Some(point) && is_kind_for(
            point.kind,
            on,
        ) && point.detail == Some(g.wait_reason_str),
        _ => frame.suspend is None,
    }
}

/// The goroutine at `k` is the one behind a task: a user goroutine with the task's
/// number, the first of that id.
pub open spec fn is_behind(all: Seq<GoroutineSpec>, k: int, task: TaskId) -> bool {
    &&& 0 <= k < all.len()
    &&& all[k].goid > 0
    &&& all[k].goid == task.0
    &&& !is_among(all.take(k), all[k].goid)
}

proof fn lemma_behind(all: Seq<GoroutineSpec>, k: int, task: TaskId, from: nat)
    requires
        is_behind(all, k, task),
        from <= k,
    ensures
        decoder::first_with_id(all, task.0 as i64, from) == Some(all[k]),
    decreases k - from,
{
    laws::lemma_task_number(task.0);
    if from < k {
        if all[from as int].goid == all[k].goid {
            assert(all.take(k)[from as int].goid == all[k].goid);
        }
        lemma_behind(all, k, task, from + 1);
    }
}

/// A goroutine on a thread has the stack of that thread, frame by frame; any other
/// has the one frame that tells where it is parked.
pub proof fn law_a_goroutine_has_the_stack_of_its_thread<V: ProcessView + ?Sized>(
    view: &V,
    layout: GoLayout,
    all: Seq<GoroutineSpec>,
    k: int,
    task: TaskId,
)
    requires
        gwalk::live_goroutines(view, layout) == Ok::<Seq<GoroutineSpec>, DecoderErrorSpec>(all),
        is_behind(all, k, task),
    ensures
        match all[k].thread {
            Some(thread) => match view.frames(thread) {
                Ok(frames) => decoder_trait::stack_read(
                    Reading::Goroutines(layout),
                    view,
                    task,
                ) matches Some(Ok(stack)) && frame::shows_stack(stack, frames),
                Err(_) => decoder_trait::stack_read(Reading::Goroutines(layout), view, task)
                    == Some(
                    Err::<Seq<LogicalFrameSpec>, DecoderErrorSpec>(
                        DecoderErrorSpec::UnknownThread(thread),
                    ),
                ),
            },
            None => decoder_trait::stack_read(Reading::Goroutines(layout), view, task) matches Some(
                Ok(stack),
            ) && stack.len() == 1 && is_parked_frame(stack[0], all[k]),
        },
{
    lemma_behind(all, k, task, 0);
    if let Some(thread) = all[k].thread {
        if let Ok(frames) = view.frames(thread) {
            frame::law_a_physical_stack_is_shown_frame_by_frame(frames);
        }
    }
}

/// What will wake a goroutine goes by its wait reason, where it is blocked; of any
/// other nothing is claimed.
pub proof fn law_a_blocked_goroutine_is_woken_by_what_it_waits_for<V: ProcessView + ?Sized>(
    view: &V,
    layout: GoLayout,
    all: Seq<GoroutineSpec>,
    k: int,
    task: TaskId,
)
    requires
        gwalk::live_goroutines(view, layout) == Ok::<Seq<GoroutineSpec>, DecoderErrorSpec>(all),
        is_behind(all, k, task),
    ensures
        decoder_trait::wake_read(Reading::Goroutines(layout), view, task) matches Some(Ok(wake)) && (
        if all[k].state is Blocked {
            wake == status::wake_cause_of(all[k].wait_reason)
        } else {
            wake == WakeCauseSpec::Unknown
        }),
        decoder_trait::locals_read(Reading::Goroutines(layout), view, task) matches Some(
            Ok(locals),
        ) && locals.len() == 0,
{
    lemma_behind(all, k, task, 0);
}

/// A task that is no user goroutine's is unknown.
pub proof fn law_a_task_without_a_goroutine_is_unknown<V: ProcessView + ?Sized>(
    view: &V,
    layout: GoLayout,
    all: Seq<GoroutineSpec>,
    task: TaskId,
)
    requires
        gwalk::live_goroutines(view, layout) == Ok::<Seq<GoroutineSpec>, DecoderErrorSpec>(all),
        forall|i: int| 0 <= i < all.len() ==> (#[trigger] all[i]).goid <= 0 || all[i].goid != task.0,
    ensures
        decoder_trait::stack_read(Reading::Goroutines(layout), view, task) == Some(
            Err::<Seq<LogicalFrameSpec>, DecoderErrorSpec>(DecoderErrorSpec::UnknownTask(task)),
        ),
        decoder_trait::wake_read(Reading::Goroutines(layout), view, task) == Some(
            Err::<WakeCauseSpec, DecoderErrorSpec>(DecoderErrorSpec::UnknownTask(task)),
        ),
{
    laws::lemma_first_with_id(all, task.0 as i64, 0);
    laws::lemma_task_number(task.0);
    if let Some(g) = decoder::first_with_id(all, task.0 as i64, 0) {
        let i = choose|i: int| 0 <= i < all.len() && #[trigger] all[i] == g;
        assert(all[i].goid == g.goid);
    }
}

} // verus!
