//! What the kernel side decides: whether the current task is the target, where
//! a syscall's arguments lie, and what is recorded.
use vstd::prelude::*;

use super::event::{RawSyscallEvent, KIND_ENTER, KIND_EXIT};

verus! {

/// The architecture that a kernel program is built for.
#[derive(Debug, Clone, Copy, PartialEq, Eq, Structural)]
pub enum Arch {
    /// 64-bit x86.
    X86_64,
    /// 64-bit ARM.
    Aarch64,
}

/// The process and thread of the current task, where it belongs to the target:
/// the process is the upper half of the word, the thread the lower. A target of
/// 0 means that none is set.
pub open spec fn matching(target: u32, pid_tgid: u64) -> Option<(u32, u32)> {
    let tgid = (pid_tgid / 0x1_0000_0000) as u32;
    if target == 0 || tgid != target {
        None
    } else {
        Some((tgid, (pid_tgid % 0x1_0000_0000) as u32))
    }
}

/// The process and thread of the current task, where it belongs to the target.
#[must_use]
pub fn matching_target(target: u32, pid_tgid: u64) -> (r: Option<(u32, u32)>)
    ensures
        r == matching(target, pid_tgid),
{
    if target == 0 {
        return None;
    }
    let tgid: u32 = (pid_tgid / 0x1_0000_0000) as u32;
    if tgid != target {
        return None;
    }
    Some((tgid, (pid_tgid % 0x1_0000_0000) as u32))
}

/// Where the six argument registers lie in the kernel's `pt_regs`: on x86-64
/// `rdi`, `rsi`, `rdx`, `r10`, `r8`, `r9`; on ARM `x0` to `x5`.
pub open spec fn argument_places(arch: Arch) -> Seq<usize> {
    match arch {
        Arch::X86_64 => seq![112usize, 104, 96, 56, 72, 64],
        Arch::Aarch64 => seq![0usize, 8, 16, 24, 32, 40],
    }
}

/// Where the six argument registers lie in the kernel's `pt_regs`.
#[must_use]
pub fn argument_offsets(arch: Arch) -> (r: [usize; 6])
    ensures
        r@ == argument_places(arch),
{
    let r: [usize; 6] = match arch {
        Arch::X86_64 => [112, 104, 96, 56, 72, 64],
        Arch::Aarch64 => [0, 8, 16, 24, 32, 40],
    };
    assert(r@ =~= argument_places(arch));
    r
}

/// The record of a syscall's entry.
#[must_use]
pub fn enter_event(tgid: u32, tid: u32, timestamp_ns: u64, nr: u64, args: [u64; 6]) -> (r:
    RawSyscallEvent)
    ensures
        r == (RawSyscallEvent { kind: KIND_ENTER, tgid, tid, timestamp_ns, nr, args, ret: 0 }),
{
    RawSyscallEvent { kind: KIND_ENTER, tgid, tid, timestamp_ns, nr, args, ret: 0 }
}

/// The record of a syscall's exit. Its number is not known here.
#[must_use]
pub fn exit_event(tgid: u32, tid: u32, timestamp_ns: u64, ret: i64) -> (r: RawSyscallEvent)
    ensures
        r.kind == KIND_EXIT,
        r.tgid == tgid,
        r.tid == tid,
        r.timestamp_ns == timestamp_ns,
        r.nr == 0,
        r.args@ == seq![0u64, 0, 0, 0, 0, 0],
        r.ret == ret,
{
    let args: [u64; 6] = [0, 0, 0, 0, 0, 0];
    assert(args@ =~= seq![0u64, 0, 0, 0, 0, 0]);
    RawSyscallEvent { kind: KIND_EXIT, tgid, tid, timestamp_ns, nr: 0, args, ret }
}

/// A task of process `tgid` and thread `tid` belongs to the target if, and only
/// if, a target is set and is that process. Its word holds the process above
/// the thread.
pub proof fn law_a_task_belongs_to_its_process(target: u32, tgid: u32, tid: u32)
    ensures
        ({
            let word = (tgid * 0x1_0000_0000 + tid) as u64;
            &&& matching(target, word) is Some <==> target != 0 && target == tgid
            &&& matching(target, word) matches Some(found) ==> found.0 == tgid && found.1 == tid
        }),
{
    assert((tgid as u64 * 0x1_0000_0000 + tid) / 0x1_0000_0000 == tgid) by (nonlinear_arith)
        requires
            tid < 0x1_0000_0000,
    ;
}

} // verus!
