use std::collections::{BTreeMap, HashMap};

use mirrorscope::async_rust::layout::{
    AsyncFnLayout, AsyncLayouts, ChildRef, VariantInfo, VariantKind,
};
use mirrorscope::async_rust::{RustcVersion, TaskRoot, TokioDecoder};
use mirrorscope::model::{BlockReason, SourceLocation, TaskId, TaskState, WakeCause};
use mirrorscope::process_view::{PhysicalFrame, Registers, ThreadId};
use mirrorscope::{DecoderError, ProcessView};

struct FakeMemory {
    bytes: HashMap<u64, u8>,
}
impl FakeMemory {
    fn new() -> Self {
        Self {
            bytes: HashMap::new(),
        }
    }
    fn put_u8(&mut self, addr: u64, v: u8) {
        self.bytes.insert(addr, v);
    }
}
impl ProcessView for FakeMemory {
    fn thread_ids(&self) -> Vec<ThreadId> {
        vec![]
    }
    fn registers(&self, _t: ThreadId) -> Result<Registers, DecoderError> {
        Ok(Registers { pc: 0, sp: 0 })
    }
    fn read_memory(&self, addr: u64, len: usize) -> Result<Vec<u8>, DecoderError> {
        (0..len as u64)
            .map(|i| {
                self.bytes.get(&(addr + i)).copied().ok_or(DecoderError::MemoryReadFailed {
                    addr,
                    len,
                    reason: "unmapped".to_string(),
                })
            })
            .collect()
    }
    fn physical_frames(&self, _t: ThreadId) -> Result<Vec<PhysicalFrame>, DecoderError> {
        Ok(vec![])
    }
}

fn suspend(kind: VariantKind, awaitee: ChildRef, children: Vec<ChildRef>) -> VariantInfo {
    VariantInfo {
        kind,
        await_location: Some(SourceLocation {
            path: "src/main.rs".to_string(),
            line: 1,
            column: 0,
        }),
        awaitee: Some(awaitee),
        children,
    }
}

fn one_suspend_layout(
    name: &str,
    byte_size: u64,
    discr_offset: u64,
    awaitee: ChildRef,
    children: Vec<ChildRef>,
) -> AsyncFnLayout {
    let mut variants = BTreeMap::new();
    variants.insert(0, VariantInfo::terminal(VariantKind::Unresumed));
    variants.insert(3, suspend(VariantKind::Suspend(0), awaitee, children));
    AsyncFnLayout {
        type_path: name.to_string(),
        byte_size,
        discr_offset,
        discr_size: 1,
        variants,
    }
}

fn layouts() -> AsyncLayouts {
    let mut l = AsyncLayouts::new();
    l.insert(one_suspend_layout(
        "p::sleeper::{async_fn_env#0}",
        128,
        120,
        ChildRef::new(8, "tokio::time::Sleep"),
        vec![],
    ));
    l.insert(one_suspend_layout(
        "p::joiner::{async_fn_env#0}",
        296,
        288,
        ChildRef::new(272, "core::future::poll_fn::PollFn"),
        vec![
            ChildRef::new(0, "p::sleeper::{async_fn_env#0}"),
            ChildRef::new(128, "p::sleeper::{async_fn_env#0}"),
        ],
    ));
    l
}

fn decoder(roots: Vec<TaskRoot>) -> TokioDecoder {
    TokioDecoder::from_parts(layouts(), RustcVersion::new(1, 85, 1), roots)
}

#[test]
fn empty_roots_decline() {
    let mem = FakeMemory::new();
    let err = decoder(vec![]).decode_tasks(&mem).expect_err("no roots");
    assert!(matches!(err, DecoderError::NotApplicable { .. }));
}

#[test]
fn decodes_two_root_tasks_with_states() {
    let mut mem = FakeMemory::new();
    mem.put_u8(0x1000 + 120, 3); // sleeper parked
    mem.put_u8(0x2000 + 288, 3); // joiner parked
    // joiner's two inline sleepers, both parked:
    mem.put_u8(0x2000 + 120, 3);
    mem.put_u8(0x2000 + 128 + 120, 3);
    let dec = decoder(vec![
        TaskRoot::new(1, 0x1000, "p::sleeper::{async_fn_env#0}"),
        TaskRoot::new(2, 0x2000, "p::joiner::{async_fn_env#0}"),
    ]);
    let tree = dec.decode_tasks(&mem).expect("decode");
    // 2 roots + 2 join children.
    assert_eq!(tree.len(), 4);
    assert_eq!(tree.roots(), &[TaskId::new(1), TaskId::new(2)]);
    // joiner (id 2) fans out to two children.
    assert_eq!(tree.children(TaskId::new(2)).len(), 2);
    // sleeper root is timer-blocked.
    assert_eq!(
        tree.node(TaskId::new(1)).expect("root node").state,
        TaskState::Blocked { on: BlockReason::Timer }
    );
    assert_eq!(tree.node(TaskId::new(1)).expect("root node").name, "sleeper");
}

#[test]
fn logical_stack_and_wake_for_known_task() {
    let mut mem = FakeMemory::new();
    mem.put_u8(0x1000 + 120, 3);
    let dec = decoder(vec![TaskRoot::new(1, 0x1000, "p::sleeper::{async_fn_env#0}")]);
    let stack = dec.logical_stack(&mem, TaskId::new(1)).expect("stack");
    assert!(!stack.is_empty());
    assert_eq!(dec.wake_cause(&mem, TaskId::new(1)).expect("wake"), WakeCause::Timer);
}

#[test]
fn decoder_unknown_task_errors() {
    let mut mem = FakeMemory::new();
    mem.put_u8(0x1000 + 120, 3);
    let dec = decoder(vec![TaskRoot::new(1, 0x1000, "p::sleeper::{async_fn_env#0}")]);
    let err = dec.logical_stack(&mem, TaskId::new(99)).expect_err("no such task");
    assert!(matches!(err, DecoderError::UnknownTask(_)));
}

#[test]
fn locals_validate_task_but_are_empty() {
    let mut mem = FakeMemory::new();
    mem.put_u8(0x1000 + 120, 3);
    let dec = decoder(vec![TaskRoot::new(1, 0x1000, "p::sleeper::{async_fn_env#0}")]);
    let stack = dec.logical_stack(&mem, TaskId::new(1)).expect("stack");
    assert!(dec.locals_at(&mem, TaskId::new(1), &stack[0]).expect("known").is_empty());
}
