use std::collections::{BTreeMap, HashMap};

use mirrorscope::async_rust::decode::{
    active_variant, fan_out_children, leaf_type, logical_stack, task_state, wake_cause,
};
use mirrorscope::async_rust::layout::{
    AsyncFnLayout, AsyncLayouts, ChildRef, VariantInfo, VariantKind,
};
use mirrorscope::async_rust::state;
use mirrorscope::model::{BlockReason, SourceLocation, SuspendKind, TaskState, WakeCause};
use mirrorscope::process_view::{PhysicalFrame, Registers, ThreadId};
use mirrorscope::{DecoderError, ProcessView};

/// Flat address->byte fake process image (mirrors the Go decoder tests).
struct FakeMemory {
    bytes: HashMap<u64, u8>,
}
impl FakeMemory {
    fn new() -> Self {
        Self {
            bytes: HashMap::new(),
        }
    }
    fn put_u8(&mut self, addr: u64, v: u8) {
        self.bytes.insert(addr, v);
    }
}
impl ProcessView for FakeMemory {
    fn thread_ids(&self) -> Vec<ThreadId> {
        vec![]
    }
    fn registers(&self, _t: ThreadId) -> Result<Registers, DecoderError> {
        Ok(Registers { pc: 0, sp: 0 })
    }
    fn read_memory(&self, addr: u64, len: usize) -> Result<Vec<u8>, DecoderError> {
        (0..len as u64)
            .map(|i| {
                self.bytes
                    .get(&(addr + i))
                    .copied()
                    .ok_or(DecoderError::MemoryReadFailed {
                        addr,
                        len,
                        reason: "unmapped".to_string(),
                    })
            })
            .collect()
    }
    fn physical_frames(&self, _t: ThreadId) -> Result<Vec<PhysicalFrame>, DecoderError> {
        Ok(vec![])
    }
}

fn loc(line: u32) -> SourceLocation {
    SourceLocation {
        path: "src/main.rs".to_string(),
        line,
        column: 0,
    }
}

/// sleeper: Suspend0 (discr 3) awaits a leaf `Sleep` at offset 8.
fn sleeper_layout() -> AsyncFnLayout {
    let mut variants = BTreeMap::new();
    variants.insert(0, VariantInfo::terminal(VariantKind::Unresumed));
    variants.insert(1, VariantInfo::terminal(VariantKind::Returned));
    variants.insert(2, VariantInfo::terminal(VariantKind::Panicked));
    variants.insert(
        3,
        VariantInfo {
            kind: VariantKind::Suspend(0),
            await_location: Some(loc(20)),
            awaitee: Some(ChildRef::new(8, "tokio::time::sleep::Sleep")),
            children: vec![],
        },
    );
    AsyncFnLayout {
        type_path: "probe::sleeper::{async_fn_env#0}".to_string(),
        byte_size: 128,
        discr_offset: 120,
        discr_size: 1,
        variants,
    }
}

/// inner_leaf: Suspend0 awaits a leaf channel `Recv` at offset 16.
fn inner_leaf_layout() -> AsyncFnLayout {
    let mut variants = BTreeMap::new();
    variants.insert(0, VariantInfo::terminal(VariantKind::Unresumed));
    variants.insert(
        3,
        VariantInfo {
            kind: VariantKind::Suspend(0),
            await_location: Some(loc(5)),
            awaitee: Some(ChildRef::new(16, "tokio::sync::mpsc::bounded::Recv<u32>")),
            children: vec![],
        },
    );
    AsyncFnLayout {
        type_path: "probe::inner_leaf::{async_fn_env#0}".to_string(),
        byte_size: 48,
        discr_offset: 40,
        discr_size: 1,
        variants,
    }
}

/// nested_parent: Suspend0 awaits the inner_leaf coroutine at offset 8.
fn nested_parent_layout() -> AsyncFnLayout {
    let mut variants = BTreeMap::new();
    variants.insert(0, VariantInfo::terminal(VariantKind::Unresumed));
    variants.insert(
        3,
        VariantInfo {
            kind: VariantKind::Suspend(0),
            await_location: Some(loc(10)),
            awaitee: Some(ChildRef::new(8, "probe::inner_leaf::{async_fn_env#0}")),
            children: vec![],
        },
    );
    AsyncFnLayout {
        type_path: "probe::nested_parent::{async_fn_env#0}".to_string(),
        byte_size: 64,
        discr_offset: 56,
        discr_size: 1,
        variants,
    }
}

/// joiner: Suspend0 awaits a leaf poll_fn, with two inline sleeper children.
fn joiner_layout() -> AsyncFnLayout {
    let mut variants = BTreeMap::new();
    variants.insert(0, VariantInfo::terminal(VariantKind::Unresumed));
    variants.insert(
        3,
        VariantInfo {
            kind: VariantKind::Suspend(0),
            await_location: Some(loc(18)),
            awaitee: Some(ChildRef::new(272, "core::future::poll_fn::PollFn")),
            children: vec![
                ChildRef::new(0, "probe::sleeper::{async_fn_env#0}"),
                ChildRef::new(128, "probe::sleeper::{async_fn_env#0}"),
            ],
        },
    );
    AsyncFnLayout {
        type_path: "probe::joiner::{async_fn_env#0}".to_string(),
        byte_size: 296,
        discr_offset: 288,
        discr_size: 1,
        variants,
    }
}

fn layouts() -> AsyncLayouts {
    let mut l = AsyncLayouts::new();
    l.insert(sleeper_layout());
    l.insert(inner_leaf_layout());
    l.insert(nested_parent_layout());
    l.insert(joiner_layout());
    l
}

#[test]
fn reads_discriminant_and_selects_suspend_variant() {
    let mut mem = FakeMemory::new();
    mem.put_u8(0x1000 + 120, 3); // sleeper parked at Suspend0
    let layout = sleeper_layout();
    let (discr, variant) = active_variant(&mem, 0x1000, &layout).expect("active variant");
    assert_eq!(discr, 3);
    assert_eq!(variant.kind, VariantKind::Suspend(0));
}

#[test]
fn unknown_discriminant_declines() {
    let mut mem = FakeMemory::new();
    mem.put_u8(0x1000 + 120, 9);
    let err = active_variant(&mem, 0x1000, &sleeper_layout()).expect_err("no such variant");
    assert!(matches!(err, DecoderError::NotApplicable { .. }));
}

#[test]
fn sleeper_leaf_is_the_timer() {
    let mut mem = FakeMemory::new();
    mem.put_u8(0x1000 + 120, 3);
    let leaf = leaf_type(&mem, 0x1000, &sleeper_layout(), &layouts())
        .expect("leaf")
        .expect("some leaf");
    assert!(leaf.contains("Sleep"));
}

#[test]
fn nested_stack_names_both_async_fns_and_leaf() {
    let mut mem = FakeMemory::new();
    mem.put_u8(0x2000 + 56, 3); // nested_parent Suspend0
    mem.put_u8(0x2000 + 8 + 40, 3); // inner_leaf (at +8) Suspend0
    let frames = logical_stack(
        &mem,
        0x2000,
        "probe::nested_parent::{async_fn_env#0}",
        &layouts(),
    )
    .expect("stack");
    let names: Vec<&str> = frames.iter().map(|f| f.display_name.as_str()).collect();
    assert!(names.contains(&"nested_parent"), "frames: {names:?}");
    assert!(names.contains(&"inner_leaf"), "frames: {names:?}");
    // Innermost is the channel-recv leaf.
    assert_eq!(
        frames
            .last()
            .expect("leaf frame")
            .suspend
            .as_ref()
            .expect("suspend")
            .kind,
        SuspendKind::ChannelRecv
    );
    // The nested_parent frame carries its await source line.
    assert_eq!(
        frames[0].location.as_ref().expect("await location").line,
        10
    );
}

#[test]
fn state_of_parked_sleeper_is_timer_blocked() {
    let mut mem = FakeMemory::new();
    mem.put_u8(0x1000 + 120, 3);
    let st = task_state(&mem, 0x1000, &sleeper_layout(), &layouts(), None).expect("state");
    assert_eq!(
        st,
        TaskState::Blocked {
            on: BlockReason::Timer
        }
    );
}

#[test]
fn state_uses_header_bits_when_available() {
    let mut mem = FakeMemory::new();
    mem.put_u8(0x1000 + 120, 3);
    // Header word at 0x9000: COMPLETE bit set -> Completed regardless of
    // variant. Map the full usize-wide word (low byte carries the bits).
    mem.put_u8(0x9000, state::bits::COMPLETE as u8);
    for i in 1..8 {
        mem.put_u8(0x9000 + i, 0);
    }
    let st =
        task_state(&mem, 0x1000, &sleeper_layout(), &layouts(), Some(0x9000)).expect("state");
    assert_eq!(st, TaskState::Completed);
}

#[test]
fn wake_cause_of_sleeper_is_timer() {
    let mut mem = FakeMemory::new();
    mem.put_u8(0x1000 + 120, 3);
    let wc = wake_cause(&mem, 0x1000, &sleeper_layout(), &layouts()).expect("wake");
    assert_eq!(wc, WakeCause::Timer);
}

#[test]
fn joiner_fans_out_to_two_children() {
    let mut mem = FakeMemory::new();
    mem.put_u8(0x3000 + 288, 3); // joiner Suspend0
    let children = fan_out_children(&mem, 0x3000, &joiner_layout()).expect("children");
    assert_eq!(children.len(), 2);
    assert_eq!(
        children[0],
        (0x3000, "probe::sleeper::{async_fn_env#0}".to_string())
    );
    assert_eq!(
        children[1],
        (0x3000 + 128, "probe::sleeper::{async_fn_env#0}".to_string())
    );
}

#[test]
fn unresumed_task_is_runnable_with_single_frame() {
    let mut mem = FakeMemory::new();
    mem.put_u8(0x1000 + 120, 0); // Unresumed
    let st = task_state(&mem, 0x1000, &sleeper_layout(), &layouts(), None).expect("state");
    assert_eq!(st, TaskState::Runnable);
    let frames = logical_stack(&mem, 0x1000, "probe::sleeper::{async_fn_env#0}", &layouts())
        .expect("stack");
    assert_eq!(frames.len(), 1);
}
