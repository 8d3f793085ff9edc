//! Walking `runtime.allgs`: every live goroutine's `g` struct, read over a
//! process view.
//!
//! Addresses wrap around at 64 bits.
use vstd::prelude::*;

use super::offsets::GoLayout;
use super::status::{self, GoStatus};
use crate::bytes;
use crate::error::{self, DecoderError, DecoderErrorSpec};
use crate::model::{TaskState, TaskStateSpec};
use crate::process_view::{ProcessView, ThreadId};
use crate::text;

verus! {

/// Upper bound on the goroutine count, against a misresolved slice length.
pub const MAX_GOROUTINES: u64 = 0x10_0000;

/// One goroutine's decoded runtime state.
#[derive(Debug, Clone, PartialEq, Eq)]
pub struct GoroutineInfo {
    /// `g.goid`.
    pub goid: i64,
    /// Raw `g.atomicstatus`, with any `_Gscan` bit preserved.
    pub raw_status: u32,
    /// Decoded run status.
    pub status: GoStatus,
    /// Portable lifecycle state.
    pub state: TaskState,
    /// Raw `g.waitreason` byte.
    pub wait_reason: u8,
    /// The runtime's phrase for the wait reason.
    pub wait_reason_str: &'static str,
    /// `g.gopc`: PC of the creating `go` statement.
    pub gopc: u64,
    /// `g.startpc`: entry-function PC.
    pub startpc: u64,
    /// `g.sched.pc`: saved resume PC (meaningful when parked).
    pub sched_pc: u64,
    /// `g.sched.sp`: saved stack pointer (meaningful when parked).
    pub sched_sp: u64,
    /// `g.stack.lo`: goroutine stack low bound.
    pub stack_lo: u64,
    /// `g.stack.hi`: goroutine stack high bound.
    pub stack_hi: u64,
    /// `g.m`: pointer to the running M, or 0.
    pub m_ptr: u64,
    /// `g.parentGoid`, when the field exists on this Go version.
    pub parent_goid: Option<i64>,
    /// OS thread running this goroutine. `None` when parked or unresolved.
    pub thread: Option<ThreadId>,
}

/// The value of a `GoroutineInfo`.
#[verifier::ext_equal]
pub struct GoroutineSpec {
    pub goid: i64,
    pub raw_status: u32,
    pub status: GoStatus,
    pub state: TaskStateSpec,
    pub wait_reason: u8,
    pub wait_reason_str: Seq<char>,
    pub gopc: u64,
    pub startpc: u64,
    pub sched_pc: u64,
    pub sched_sp: u64,
    pub stack_lo: u64,
    pub stack_hi: u64,
    pub m_ptr: u64,
    pub parent_goid: Option<i64>,
    pub thread: Option<ThreadId>,
}

impl DeepView for GoroutineInfo {
    type V = GoroutineSpec;

    open spec fn deep_view(&self) -> GoroutineSpec {
        GoroutineSpec {
            goid: self.goid,
            raw_status: self.raw_status,
            status: self.status,
            state: self.state.deep_view(),
            wait_reason: self.wait_reason,
            wait_reason_str: self.wait_reason_str@,
            gopc: self.gopc,
            startpc: self.startpc,
            sched_pc: self.sched_pc,
            sched_sp: self.sched_sp,
            stack_lo: self.stack_lo,
            stack_hi: self.stack_hi,
            m_ptr: self.m_ptr,
            parent_goid: self.parent_goid,
            thread: self.thread,
        }
    }
}

// ---------------------------------------------------------------------------
// Reading integers
// ---------------------------------------------------------------------------

/// The error for a view that hands out fewer bytes than asked for.
pub open spec fn short_read_error(addr: u64, len: usize) -> DecoderErrorSpec {
    DecoderErrorSpec::MemoryReadFailed { addr, len, reason: "short read from process view"@ }
}

/// The little-endian integer of `len` bytes at `addr`.
pub open spec fn word<V: ProcessView + ?Sized>(view: &V, addr: u64, len: usize) -> Result<
    u64,
    DecoderErrorSpec,
> {
    match view.memory(addr, len) {
        Ok(data) => if data.len() == len {
            Ok(bytes::le(data) as u64)
        } else {
            Err(short_read_error(addr, len))
        },
        Err(e) => Err(e),
    }
}

/// The byte at `addr`: the first one that the view hands out.
pub open spec fn byte<V: ProcessView + ?Sized>(view: &V, addr: u64) -> Result<
    u8,
    DecoderErrorSpec,
> {
    match view.memory(addr, 1) {
        Ok(data) => if data.len() > 0 {
            Ok(data[0])
        } else {
            Err(short_read_error(addr, 1))
        },
        Err(e) => Err(e),
    }
}

fn short_read(addr: u64, len: usize) -> (r: DecoderError)
    ensures
        r.deep_view() == short_read_error(addr, len),
{
    DecoderError::MemoryReadFailed { addr, len, reason: "short read from process view".to_owned() }
}

/// Read a little-endian integer of `len` bytes from the target.
fn read_word<V: ProcessView + ?Sized>(view: &V, addr: u64, len: usize) -> (r: Result<
    u64,
    DecoderError,
>)
    requires
        len <= 8,
    ensures
        error::outcome(r) == word(view, addr, len),
{
    let data = view.read_memory(addr, len)?;
    if data.len() != len {
        return Err(short_read(addr, len));
    }
    Ok(bytes::read_le(data.as_slice()))
}

/// Read a little-endian `u64` from the target at `addr`.
fn read_u64<V: ProcessView + ?Sized>(view: &V, addr: u64) -> (r: Result<u64, DecoderError>)
    ensures
        error::outcome(r) == word(view, addr, 8),
{
    read_word(view, addr, 8)
}

/// Read a little-endian `u32` from the target at `addr`.
fn read_u32<V: ProcessView + ?Sized>(view: &V, addr: u64) -> (r: Result<u32, DecoderError>)
    ensures
        match r {
            Ok(n) => word(view, addr, 4) == Ok::<u64, DecoderErrorSpec>(n as u64),
            Err(e) => word(view, addr, 4) == Err::<u64, DecoderErrorSpec>(e.deep_view()),
        },
{
    let n: u64 = read_word(view, addr, 4)?;
    proof {
        let data = view.memory(addr, 4)->Ok_0;
        bytes::lemma_le_bound(data);
        bytes::lemma_pow256_values();
    }
    Ok(n as u32)
}

/// Read a single byte from the target at `addr`.
fn read_u8<V: ProcessView + ?Sized>(view: &V, addr: u64) -> (r: Result<u8, DecoderError>)
    ensures
        error::outcome(r) == byte(view, addr),
{
    let data = view.read_memory(addr, 1)?;
    if data.len() == 0 {
        return Err(short_read(addr, 1));
    }
    Ok(data[0])
}

// ---------------------------------------------------------------------------
// The slice of goroutines
// ---------------------------------------------------------------------------

/// The data pointer and length in the `runtime.allgs` slice header.
pub open spec fn allgs_header<V: ProcessView + ?Sized>(view: &V, layout: GoLayout) -> Result<
    (u64, u64),
    DecoderErrorSpec,
> {
    let allgs = layout.allgs_addr.wrapping_add(layout.load_bias);
    match word(view, allgs, 8) {
        Err(e) => Err(e),
        Ok(data) => match word(view, allgs.wrapping_add(layout.ptr_size as u64), 8) {
            Err(e) => Err(e),
            Ok(len) => if len > MAX_GOROUTINES {
                Err(
                    DecoderErrorSpec::NotApplicable {
                        reason: "runtime.allgs length "@ + text::decimal(len as nat)
                            + " is implausible; layout likely misresolved"@,
                    },
                )
            } else {
                Ok((data, len))
            },
        },
    }
}

/// The OS thread that a goroutine occupies: the `procid` of its M, where it runs
/// or is in a syscall, has an M, and the offset is known.
pub open spec fn thread_of<V: ProcessView + ?Sized>(
    view: &V,
    layout: GoLayout,
    status: GoStatus,
    m_ptr: u64,
) -> Result<Option<ThreadId>, DecoderErrorSpec> {
    let on_m = status == GoStatus::Running || status == GoStatus::Syscall;
    match layout.m_procid {
        Some(procid) if on_m && m_ptr != 0 => {
            match word(view, m_ptr.wrapping_add(procid), 8) {
                Ok(tid) => Ok(Some(ThreadId(tid))),
                Err(e) => Err(e),
            }
        },
        _ => Ok(None),
    }
}

/// The creator's id, where the field exists.
pub open spec fn parent_of<V: ProcessView + ?Sized>(view: &V, layout: GoLayout, gp: u64) -> Result<
    Option<i64>,
    DecoderErrorSpec,
> {
    match layout.g.parent_goid {
        Some(off) => match word(view, gp.wrapping_add(off), 8) {
            Ok(n) => Ok(Some(n as i64)),
            Err(e) => Err(e),
        },
        None => Ok(None),
    }
}

/// The first of the results that is an error.
pub open spec fn first_failure(results: Seq<Result<u64, DecoderErrorSpec>>) -> Option<
    DecoderErrorSpec,
>
    decreases results.len(),
{
    if results.len() == 0 {
        None
    } else {
        match results[0] {
            Err(e) => Some(e),
            Ok(_) => first_failure(results.skip(1)),
        }
    }
}

/// The word-sized fields that are read last, in the order in which they are
/// read: goid, gopc, startpc, sched.pc, sched.sp, stack.lo, stack.hi.
pub open spec fn late_fields<V: ProcessView + ?Sized>(view: &V, layout: GoLayout, gp: u64) -> Seq<
    Result<u64, DecoderErrorSpec>,
> {
    let g = layout.g;
    seq![
        word(view, gp.wrapping_add(g.goid), 8),
        word(view, gp.wrapping_add(g.gopc), 8),
        word(view, gp.wrapping_add(g.startpc), 8),
        word(view, gp.wrapping_add(g.sched_pc), 8),
        word(view, gp.wrapping_add(g.sched_sp), 8),
        word(view, gp.wrapping_add(g.stack_lo), 8),
        word(view, gp.wrapping_add(g.stack_hi), 8),
    ]
}

/// The goroutine whose `g` struct is at `gp`, or the error of the first read
/// that fails.
pub open spec fn goroutine_at<V: ProcessView + ?Sized>(view: &V, layout: GoLayout, gp: u64) -> Result<
    GoroutineSpec,
    DecoderErrorSpec,
> {
    let g = layout.g;
    match word(view, gp.wrapping_add(g.atomicstatus), 4) {
        Err(e) => Err(e),
        Ok(raw) => match byte(view, gp.wrapping_add(g.waitreason)) {
            Err(e) => Err(e),
            Ok(wait_reason) => match word(view, gp.wrapping_add(g.m), 8) {
                Err(e) => Err(e),
                Ok(m_ptr) => match parent_of(view, layout, gp) {
                    Err(e) => Err(e),
                    Ok(parent_goid) => {
                        let status = GoStatus::of_raw(raw as u32);
                        match thread_of(view, layout, status, m_ptr) {
                            Err(e) => Err(e),
                            Ok(thread) => {
                                let late = late_fields(view, layout, gp);
                                match first_failure(late) {
                                    Some(e) => Err(e),
                                    None => Ok(
                                        GoroutineSpec {
                                            goid: late[0]->Ok_0 as i64,
                                            raw_status: raw as u32,
                                            status,
                                            state: status.task_state(wait_reason),
                                            wait_reason,
                                            wait_reason_str: status::wait_reason_text(wait_reason),
                                            gopc: late[1]->Ok_0,
                                            startpc: late[2]->Ok_0,
                                            sched_pc: late[3]->Ok_0,
                                            sched_sp: late[4]->Ok_0,
                                            stack_lo: late[5]->Ok_0,
                                            stack_hi: late[6]->Ok_0,
                                            m_ptr,
                                            parent_goid,
                                            thread,
                                        },
                                    ),
                                }
                            },
                        }
                    },
                },
            },
        },
    }
}

/// The live goroutines in the slots from `index` on: null slots are skipped and
/// dead goroutines omitted.
pub open spec fn live_from<V: ProcessView + ?Sized>(
    view: &V,
    layout: GoLayout,
    data: u64,
    index: nat,
    len: nat,
) -> Result<Seq<GoroutineSpec>, DecoderErrorSpec>
    decreases len - index,
{
    if index >= len {
        Ok(Seq::empty())
    } else {
        let slot = data.wrapping_add((index * layout.ptr_size) as u64);
        match word(view, slot, 8) {
            Err(e) => Err(e),
            Ok(gp) => if gp == 0 {
                live_from(view, layout, data, index + 1, len)
            } else {
                match goroutine_at(view, layout, gp) {
                    Err(e) => Err(e),
                    Ok(g) => if g.status.dead() {
                        live_from(view, layout, data, index + 1, len)
                    } else {
                        after(seq![g], live_from(view, layout, data, index + 1, len))
                    },
                }
            },
        }
    }
}

/// What was found already, followed by what the rest gives.
pub open spec fn after<T>(found: Seq<T>, rest: Result<Seq<T>, DecoderErrorSpec>) -> Result<
    Seq<T>,
    DecoderErrorSpec,
> {
    match rest {
        Ok(more) => Ok(found + more),
        Err(e) => Err(e),
    }
}

/// Every live goroutine of the target.
pub open spec fn live_goroutines<V: ProcessView + ?Sized>(view: &V, layout: GoLayout) -> Result<
    Seq<GoroutineSpec>,
    DecoderErrorSpec,
> {
    match allgs_header(view, layout) {
        Err(e) => Err(e),
        Ok((data, len)) => live_from(view, layout, data, 0, len as nat),
    }
}

/// Read the `runtime.allgs` slice header.
fn read_allgs_header<V: ProcessView + ?Sized>(view: &V, layout: &GoLayout) -> (r: Result<
    (u64, u64),
    DecoderError,
>)
    ensures
        error::outcome(r) == allgs_header(view, *layout),
        r matches Ok((_, len)) ==> len <= MAX_GOROUTINES,
{
    let allgs: u64 = layout.allgs_addr.wrapping_add(layout.load_bias);
    let data: u64 = read_u64(view, allgs)?;
    let len: u64 = read_u64(view, allgs.wrapping_add(layout.slice_len_offset()))?;
    if len > MAX_GOROUTINES {
        let mut reason = "runtime.allgs length ".to_owned();
        text::push_decimal(&mut reason, len);
        reason.append(" is implausible; layout likely misresolved");
        return Err(DecoderError::NotApplicable { reason });
    }
    Ok((data, len))
}

/// Map a running or syscall goroutine to its OS thread.
fn resolve_thread<V: ProcessView + ?Sized>(
    view: &V,
    layout: &GoLayout,
    status: GoStatus,
    m_ptr: u64,
) -> (r: Result<Option<ThreadId>, DecoderError>)
    ensures
        match r {
            Ok(thread) => thread_of(view, *layout, status, m_ptr) == Ok::<
                Option<ThreadId>,
                DecoderErrorSpec,
            >(thread),
            Err(e) => thread_of(view, *layout, status, m_ptr) == Err::<
                Option<ThreadId>,
                DecoderErrorSpec,
            >(e.deep_view()),
        },
{
    let on_m = match status {
        GoStatus::Running | GoStatus::Syscall => true,
        _ => false,
    };
    match layout.m_procid {
        Some(procid) if on_m && m_ptr != 0 => {
            let tid: u64 = read_u64(view, m_ptr.wrapping_add(procid))?;
            Ok(Some(ThreadId::new(tid)))
        },
        _ => Ok(None),
    }
}

/// Read one goroutine's `g` struct.
fn read_goroutine<V: ProcessView + ?Sized>(view: &V, layout: &GoLayout, gp: u64) -> (r: Result<
    GoroutineInfo,
    DecoderError,
>)
    ensures
        error::outcome(r) == goroutine_at(view, *layout, gp),
{
    let g = &layout.g;
    proof {
        reveal_with_fuel(first_failure, 8);
    }
    let raw_status: u32 = read_u32(view, gp.wrapping_add(g.atomicstatus))?;
    let status = GoStatus::from_raw(raw_status);
    let wait_reason: u8 = read_u8(view, gp.wrapping_add(g.waitreason))?;
    let m_ptr: u64 = read_u64(view, gp.wrapping_add(g.m))?;
    let parent_goid: Option<i64> = match g.parent_goid {
        Some(off) => Some(read_u64(view, gp.wrapping_add(off))? as i64),
        None => None,
    };
    let thread = resolve_thread(view, layout, status, m_ptr)?;
    let goid: u64 = read_u64(view, gp.wrapping_add(g.goid))?;
    let gopc: u64 = read_u64(view, gp.wrapping_add(g.gopc))?;
    let startpc: u64 = read_u64(view, gp.wrapping_add(g.startpc))?;
    let sched_pc: u64 = read_u64(view, gp.wrapping_add(g.sched_pc))?;
    let sched_sp: u64 = read_u64(view, gp.wrapping_add(g.sched_sp))?;
    let stack_lo: u64 = read_u64(view, gp.wrapping_add(g.stack_lo))?;
    let stack_hi: u64 = read_u64(view, gp.wrapping_add(g.stack_hi))?;
    Ok(
        GoroutineInfo {
            goid: goid as i64,
            raw_status,
            status,
            state: status.to_task_state(wait_reason),
            wait_reason,
            wait_reason_str: status::wait_reason_str(wait_reason),
            gopc,
            startpc,
            sched_pc,
            sched_sp,
            stack_lo,
            stack_hi,
            m_ptr,
            parent_goid,
            thread,
        },
    )
}

/// Walk `runtime.allgs` and return every live goroutine, in slot order. Null
/// slots are skipped; dead slots are omitted.
///
/// Fails where a read fails, and where the slice length is implausibly large.
pub fn walk_goroutines<V: ProcessView + ?Sized>(view: &V, layout: &GoLayout) -> (r: Result<
    Vec<GoroutineInfo>,
    DecoderError,
>)
    ensures
        error::outcome(r) == live_goroutines(view, *layout),
{
    let (data, len) = read_allgs_header(view, layout)?;
    let mut out: Vec<GoroutineInfo> = Vec::new();
    let mut index: u64 = 0;
    assert(after(
        out.deep_view(),
        live_from(view, *layout, data, 0, len as nat),
    ) =~= live_goroutines(view, *layout)) by {
        if let Ok(more) = live_from(view, *layout, data, 0, len as nat) {
            assert(out.deep_view() + more =~= more);
        }
    }
    while index < len
        invariant
            index <= len <= MAX_GOROUTINES,
            live_goroutines(view, *layout) == after(
                out.deep_view(),
                live_from(view, *layout, data, index as nat, len as nat),
            ),
        decreases len - index,
    {
        assert(index * layout.ptr_size <= 0x10_0000 * 255) by (nonlinear_arith)
            requires
                index <= 0x10_0000,
                layout.ptr_size <= 255,
        ;
        let slot: u64 = data.wrapping_add(index * (layout.ptr_size as u64));
        let gp: u64 = read_u64(view, slot)?;
        if gp != 0 {
            let info = read_goroutine(view, layout, gp)?;
            if !info.status.is_dead() {
                let ghost before = out.deep_view();
                let ghost rest = live_from(view, *layout, data, index as nat + 1, len as nat);
                out.push(info);
                proof {
                    assert(out.deep_view() =~= before.push(info.deep_view()));
                    if let Ok(more) = rest {
                        assert(before + (seq![info.deep_view()] + more) =~= out.deep_view() + more);
                    }
                }
            }
        }
        index += 1;
    }
    proof {
        assert(out.deep_view() + Seq::<GoroutineSpec>::empty() =~= out.deep_view());
    }
    Ok(out)
}

} // verus!
