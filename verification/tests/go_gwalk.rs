use std::collections::BTreeMap;

use mirrorscope::go::gwalk::{walk_goroutines, MAX_GOROUTINES};
use mirrorscope::go::{GStructOffsets, GoLayout, GoVersion, LayoutSource};
use mirrorscope::model::{BlockReason, TaskState};
use mirrorscope::process_view::{PhysicalFrame, Registers, ThreadId};
use mirrorscope::{DecoderError, ProcessView};

/// A fake process image: a flat address->byte map a decoder reads over.
struct FakeMemory {
    bytes: BTreeMap<u64, u8>,
}

impl FakeMemory {
    fn new() -> Self {
        Self {
            bytes: BTreeMap::new(),
        }
    }
    fn put_u64(&mut self, addr: u64, v: u64) {
        for (i, b) in v.to_le_bytes().iter().enumerate() {
            self.bytes.insert(addr + i as u64, *b);
        }
    }
    fn put_u32(&mut self, addr: u64, v: u32) {
        for (i, b) in v.to_le_bytes().iter().enumerate() {
            self.bytes.insert(addr + i as u64, *b);
        }
    }
    fn put_u8(&mut self, addr: u64, v: u8) {
        self.bytes.insert(addr, v);
    }
}

impl ProcessView for FakeMemory {
    fn thread_ids(&self) -> Vec<ThreadId> {
        vec![ThreadId::new(4242)]
    }
    fn registers(&self, _t: ThreadId) -> Result<Registers, DecoderError> {
        Ok(Registers { pc: 0, sp: 0 })
    }
    fn read_memory(&self, addr: u64, len: usize) -> Result<Vec<u8>, DecoderError> {
        let mut out = Vec::with_capacity(len);
        for i in 0..len as u64 {
            let b = self.bytes.get(&(addr + i)).copied().ok_or_else(|| {
                DecoderError::MemoryReadFailed {
                    addr,
                    len,
                    reason: "unmapped".to_string(),
                }
            })?;
            out.push(b);
        }
        Ok(out)
    }
    fn physical_frames(&self, _t: ThreadId) -> Result<Vec<PhysicalFrame>, DecoderError> {
        Ok(vec![])
    }
}

fn layout() -> GoLayout {
    GoLayout {
        ptr_size: 8,
        allgs_addr: 0x1_0000,
        allglen_addr: None,
        load_bias: 0,
        g: GStructOffsets::vendored(GoVersion::new(1, 24, 0)).expect("1.24"),
        m_procid: Some(72),
        source: LayoutSource::Vendored(GoVersion::new(1, 24, 0)),
    }
}

/// Lay out `count` g pointers at `data_base`, each g struct spaced 0x400
/// apart starting at `g_base`. Returns the g base addresses.
fn build_slice(mem: &mut FakeMemory, layout: &GoLayout, g_addrs: &[u64]) {
    mem.put_u64(layout.allgs_addr, 0x2_0000); // data ptr
    mem.put_u64(layout.allgs_addr + 8, g_addrs.len() as u64); // len
    for (i, gp) in g_addrs.iter().enumerate() {
        mem.put_u64(0x2_0000 + i as u64 * 8, *gp);
    }
}

fn write_g(
    mem: &mut FakeMemory,
    layout: &GoLayout,
    gp: u64,
    goid: i64,
    status: u32,
    waitreason: u8,
    parent: i64,
) {
    let g = &layout.g;
    mem.put_u64(gp + g.goid, goid as u64);
    mem.put_u32(gp + g.atomicstatus, status);
    mem.put_u8(gp + g.waitreason, waitreason);
    mem.put_u64(gp + g.gopc, 0xAAAA + goid as u64);
    mem.put_u64(gp + g.startpc, 0xBBBB + goid as u64);
    mem.put_u64(gp + g.sched_pc, 0xCCCC + goid as u64);
    mem.put_u64(gp + g.sched_sp, 0xDDDD + goid as u64);
    mem.put_u64(gp + g.stack_lo, 0x7000);
    mem.put_u64(gp + g.stack_hi, 0x8000);
    mem.put_u64(gp + g.m, 0);
    if let Some(off) = g.parent_goid {
        mem.put_u64(gp + off, parent as u64);
    }
}

#[test]
fn walks_three_goroutines_in_distinct_states() {
    let layout = layout();
    let mut mem = FakeMemory::new();
    let g_addrs = [0x10_0000, 0x10_0400, 0x10_0800];
    build_slice(&mut mem, &layout, &g_addrs);
    // g1: running (main). g2: waiting/chan receive (14). g3: waiting/sleep (19).
    write_g(&mut mem, &layout, g_addrs[0], 1, 2, 0, 0);
    write_g(&mut mem, &layout, g_addrs[1], 2, 4, 14, 1);
    write_g(&mut mem, &layout, g_addrs[2], 3, 4, 19, 1);

    let gs = walk_goroutines(&mem, &layout).expect("walk succeeds");
    assert_eq!(gs.len(), 3);
    assert_eq!(gs[0].goid, 1);
    assert_eq!(gs[0].state, TaskState::Running);
    assert_eq!(
        gs[1].state,
        TaskState::Blocked {
            on: BlockReason::Channel {
                detail: Some("chan receive".to_string())
            }
        }
    );
    assert_eq!(
        gs[2].state,
        TaskState::Blocked {
            on: BlockReason::Timer
        }
    );
    assert_eq!(gs[1].parent_goid, Some(1));
    assert_eq!(gs[2].wait_reason_str, "sleep");
}

#[test]
fn skips_dead_and_null_slots() {
    let layout = layout();
    let mut mem = FakeMemory::new();
    // slot 0 -> null, slot 1 -> a dead g, slot 2 -> a live g.
    mem.put_u64(layout.allgs_addr, 0x2_0000);
    mem.put_u64(layout.allgs_addr + 8, 3);
    mem.put_u64(0x2_0000, 0);
    mem.put_u64(0x2_0000 + 8, 0x10_0400);
    mem.put_u64(0x2_0000 + 16, 0x10_0800);
    write_g(&mut mem, &layout, 0x10_0400, 5, 6, 0, 0); // _Gdead
    write_g(&mut mem, &layout, 0x10_0800, 7, 1, 0, 0); // _Grunnable

    let gs = walk_goroutines(&mem, &layout).expect("walk succeeds");
    assert_eq!(gs.len(), 1);
    assert_eq!(gs[0].goid, 7);
    assert_eq!(gs[0].state, TaskState::Runnable);
}

#[test]
fn resolves_running_goroutine_thread_via_procid() {
    let layout = layout();
    let mut mem = FakeMemory::new();
    build_slice(&mut mem, &layout, &[0x10_0000]);
    write_g(&mut mem, &layout, 0x10_0000, 1, 2, 0, 0);
    // Point g.m at an M whose procid (offset 72) is tid 4242.
    mem.put_u64(0x10_0000 + layout.g.m, 0x30_0000);
    mem.put_u64(0x30_0000 + 72, 4242);

    let gs = walk_goroutines(&mem, &layout).expect("walk succeeds");
    assert_eq!(gs[0].thread, Some(ThreadId::new(4242)));
}

#[test]
fn rejects_implausible_slice_length() {
    let layout = layout();
    let mut mem = FakeMemory::new();
    mem.put_u64(layout.allgs_addr, 0x2_0000);
    mem.put_u64(layout.allgs_addr + 8, MAX_GOROUTINES + 1);
    let err = walk_goroutines(&mem, &layout).expect_err("implausible length rejected");
    assert!(matches!(err, DecoderError::NotApplicable { .. }));
}
