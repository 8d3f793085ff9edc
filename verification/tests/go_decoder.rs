use std::collections::BTreeMap;

use mirrorscope::go::{GStructOffsets, GoLayout, GoVersion, GoroutineDecoder, LayoutSource};
use mirrorscope::model::{
    BlockReason, FrameOrigin, LogicalFrame, SuspendKind, TaskId, TaskKind, TaskState, WakeCause,
};
use mirrorscope::process_view::{PhysicalFrame, Registers, ThreadId};
use mirrorscope::{DecoderError, ProcessView};

struct FakeMemory {
    bytes: BTreeMap<u64, u8>,
    frames: Vec<PhysicalFrame>,
}

impl FakeMemory {
    fn put_u64(&mut self, addr: u64, v: u64) {
        for (i, b) in v.to_le_bytes().iter().enumerate() {
            self.bytes.insert(addr + i as u64, *b);
        }
    }
    fn put_u32(&mut self, addr: u64, v: u32) {
        for (i, b) in v.to_le_bytes().iter().enumerate() {
            self.bytes.insert(addr + i as u64, *b);
        }
    }
    fn put_u8(&mut self, addr: u64, v: u8) {
        self.bytes.insert(addr, v);
    }
}

impl ProcessView for FakeMemory {
    fn thread_ids(&self) -> Vec<ThreadId> {
        vec![ThreadId::new(4242)]
    }
    fn registers(&self, _t: ThreadId) -> Result<Registers, DecoderError> {
        Ok(Registers { pc: 0, sp: 0 })
    }
    fn read_memory(&self, addr: u64, len: usize) -> Result<Vec<u8>, DecoderError> {
        let mut out = Vec::with_capacity(len);
        for i in 0..len as u64 {
            out.push(self.bytes.get(&(addr + i)).copied().ok_or(
                DecoderError::MemoryReadFailed {
                    addr,
                    len,
                    reason: "unmapped".to_string(),
                },
            )?);
        }
        Ok(out)
    }
    fn physical_frames(&self, thread: ThreadId) -> Result<Vec<PhysicalFrame>, DecoderError> {
        if thread == ThreadId::new(4242) {
            Ok(self.frames.clone())
        } else {
            Err(DecoderError::UnknownThread(thread))
        }
    }
}

fn layout() -> GoLayout {
    GoLayout {
        ptr_size: 8,
        allgs_addr: 0x1_0000,
        allglen_addr: None,
        load_bias: 0,
        g: GStructOffsets::vendored(GoVersion::new(1, 24, 0)).expect("1.24"),
        m_procid: Some(72),
        source: LayoutSource::Vendored(GoVersion::new(1, 24, 0)),
    }
}

fn write_g(
    mem: &mut FakeMemory,
    layout: &GoLayout,
    gp: u64,
    goid: i64,
    status: u32,
    waitreason: u8,
    parent: i64,
) {
    let g = &layout.g;
    mem.put_u64(gp + g.goid, goid as u64);
    mem.put_u32(gp + g.atomicstatus, status);
    mem.put_u8(gp + g.waitreason, waitreason);
    mem.put_u64(gp + g.gopc, 0xAAAA);
    mem.put_u64(gp + g.startpc, 0xBBBB);
    mem.put_u64(gp + g.sched_pc, 0xC0DE + goid as u64);
    mem.put_u64(gp + g.sched_sp, 0xDDDD);
    mem.put_u64(gp + g.stack_lo, 0x7000);
    mem.put_u64(gp + g.stack_hi, 0x8000);
    mem.put_u64(gp + g.m, 0);
    if let Some(off) = g.parent_goid {
        mem.put_u64(gp + off, parent as u64);
    }
}

/// Build a process with: main(1) running on thread 4242, child(2)
/// chan-receive-blocked with parent 1, child(3) sleep-blocked parent 1,
/// plus a g0 (goid 0) that must be skipped.
fn scenario() -> (GoLayout, FakeMemory) {
    let layout = layout();
    let mut mem = FakeMemory {
        bytes: BTreeMap::new(),
        frames: vec![PhysicalFrame {
            pc: 0x1234,
            sp: 0x7fff,
            function_name: Some("main.spinForever".to_string()),
            location: None,
        }],
    };
    let addrs = [0x10_0000, 0x10_0400, 0x10_0800, 0x10_0c00];
    mem.put_u64(layout.allgs_addr, 0x2_0000);
    mem.put_u64(layout.allgs_addr + 8, addrs.len() as u64);
    for (i, a) in addrs.iter().enumerate() {
        mem.put_u64(0x2_0000 + i as u64 * 8, *a);
    }
    // main goroutine, running, m -> procid 4242.
    write_g(&mut mem, &layout, addrs[0], 1, 2, 0, 0);
    mem.put_u64(addrs[0] + layout.g.m, 0x30_0000);
    mem.put_u64(0x30_0000 + 72, 4242);
    write_g(&mut mem, &layout, addrs[1], 2, 4, 14, 1); // chan receive
    write_g(&mut mem, &layout, addrs[2], 3, 4, 19, 1); // sleep
    write_g(&mut mem, &layout, addrs[3], 0, 3, 0, 0); // g0 syscall, skipped
    (layout, mem)
}

#[test]
fn decode_tasks_builds_goroutine_tree_with_parent_edges() {
    let (layout, mem) = scenario();
    let decoder = GoroutineDecoder::from_layout(layout);
    let tree = decoder.decode_tasks(&mem).expect("decode");
    // goid 0 skipped -> three tasks.
    assert_eq!(tree.len(), 3);
    assert_eq!(tree.roots(), &[TaskId::new(1)]);
    assert_eq!(
        tree.children(TaskId::new(1)),
        &[TaskId::new(2), TaskId::new(3)]
    );
    let main = tree.node(TaskId::new(1)).expect("main node");
    assert_eq!(main.kind, TaskKind::Goroutine);
    assert_eq!(main.state, TaskState::Running);
}

#[test]
fn blocked_states_carry_reasons() {
    let (layout, mem) = scenario();
    let decoder = GoroutineDecoder::from_layout(layout);
    let tree = decoder.decode_tasks(&mem).expect("decode");
    assert_eq!(
        tree.node(TaskId::new(2)).expect("g2").state,
        TaskState::Blocked {
            on: BlockReason::Channel {
                detail: Some("chan receive".to_string())
            }
        }
    );
    assert_eq!(
        tree.node(TaskId::new(3)).expect("g3").state,
        TaskState::Blocked { on: BlockReason::Timer }
    );
}

#[test]
fn logical_stack_of_running_goroutine_is_thread_stack() {
    let (layout, mem) = scenario();
    let decoder = GoroutineDecoder::from_layout(layout);
    let stack = decoder
        .logical_stack(&mem, TaskId::new(1))
        .expect("running stack");
    assert_eq!(stack.len(), 1);
    assert_eq!(stack[0].display_name, "main.spinForever");
    assert_eq!(stack[0].origin, FrameOrigin::Physical);
}

#[test]
fn logical_stack_of_parked_goroutine_is_synthesized_start() {
    let (layout, mem) = scenario();
    let decoder = GoroutineDecoder::from_layout(layout);
    let stack = decoder
        .logical_stack(&mem, TaskId::new(2))
        .expect("parked stack");
    assert_eq!(stack.len(), 1);
    assert_eq!(stack[0].origin, FrameOrigin::Synthesized);
    assert!(stack[0].display_name.contains("parked"));
    assert_eq!(
        stack[0].suspend.as_ref().map(|s| s.kind),
        Some(SuspendKind::ChannelRecv)
    );
}

#[test]
fn wake_cause_reflects_wait_reason() {
    let (layout, mem) = scenario();
    let decoder = GoroutineDecoder::from_layout(layout);
    assert_eq!(
        decoder.wake_cause(&mem, TaskId::new(3)).expect("g3 wake"),
        WakeCause::Timer
    );
    assert_eq!(
        decoder.wake_cause(&mem, TaskId::new(1)).expect("g1 wake"),
        WakeCause::Unknown
    );
}

#[test]
fn unknown_task_errors() {
    let (layout, mem) = scenario();
    let decoder = GoroutineDecoder::from_layout(layout);
    let err = decoder
        .logical_stack(&mem, TaskId::new(999))
        .expect_err("no such goroutine");
    assert!(matches!(err, DecoderError::UnknownTask(_)));
}

#[test]
fn locals_are_empty_but_validate_task() {
    let (layout, mem) = scenario();
    let decoder = GoroutineDecoder::from_layout(layout);
    let frame = LogicalFrame {
        display_name: "x".to_string(),
        location: None,
        suspend: None,
        origin: FrameOrigin::Synthesized,
    };
    assert!(decoder
        .locals_at(&mem, TaskId::new(1), &frame)
        .expect("known task")
        .is_empty());
}
