//! The laws of the library, each on concrete values.
use std::collections::BTreeMap;

use mirrorscope::async_rust::layout::{
    AsyncFnLayout, AsyncLayouts, ChildRef, VariantInfo, VariantKind,
};
use mirrorscope::async_rust::state::classify_header_state;
use mirrorscope::async_rust::{RustcVersion, TaskRoot, TokioDecoder};
use mirrorscope::go::status::{block_reason, wait_reason_str, GoStatus};
use mirrorscope::go::{GStructOffsets, GoLayout, GoVersion, GoroutineDecoder, LayoutSource};
use mirrorscope::model::{
    BlockReason, LogicalFrame, TaskId, TaskKind, TaskNode, TaskState, TaskTree, WakeCause,
};
use mirrorscope::process_view::{PhysicalFrame, Registers, ThreadId};
use mirrorscope::{DecoderError, NativeThreadsDecoder, ProcessView};

#[derive(Default)]
struct Memory {
    bytes: BTreeMap<u64, u8>,
    threads: Vec<u64>,
}

impl Memory {
    fn put(&mut self, addr: u64, v: u64) {
        for (i, b) in v.to_le_bytes().iter().enumerate() {
            self.bytes.insert(addr + i as u64, *b);
        }
    }
}

impl ProcessView for Memory {
    fn thread_ids(&self) -> Vec<ThreadId> {
        self.threads.iter().map(|t| ThreadId::new(*t)).collect()
    }
    fn registers(&self, _t: ThreadId) -> Result<Registers, DecoderError> {
        Ok(Registers { pc: 0, sp: 0 })
    }
    fn read_memory(&self, addr: u64, len: usize) -> Result<Vec<u8>, DecoderError> {
        Ok((0..len as u64)
            .map(|i| self.bytes.get(&(addr + i)).copied().unwrap_or(0))
            .collect())
    }
    fn physical_frames(&self, thread: ThreadId) -> Result<Vec<PhysicalFrame>, DecoderError> {
        Err(DecoderError::UnknownThread(thread))
    }
}

fn node(id: u64, parent: Option<u64>) -> TaskNode {
    TaskNode {
        id: TaskId::new(id),
        name: format!("task {id}"),
        kind: TaskKind::AsyncTask,
        state: TaskState::Runnable,
        parent: parent.map(TaskId::new),
    }
}

fn ids(list: &[u64]) -> Vec<TaskId> {
    list.iter().map(|id| TaskId::new(*id)).collect()
}

#[test]
fn children_and_parents_agree_and_keep_the_given_order() {
    let tree = TaskTree::try_from_nodes(vec![
        node(5, Some(9)),
        node(9, None),
        node(2, Some(9)),
        node(1, None),
        node(7, Some(5)),
    ])
    .expect("a tree");
    assert_eq!(tree.roots(), ids(&[9, 1]));
    assert_eq!(tree.children(TaskId::new(9)), ids(&[5, 2]));
    assert_eq!(tree.children(TaskId::new(5)), ids(&[7]));
    // Each task once, parents before their children, and all of them.
    assert_eq!(tree.flatten_preorder(), ids(&[9, 5, 7, 2, 1]));
    for root in tree.roots() {
        assert_eq!(tree.node(*root).expect("a node").parent, None);
    }
}

#[test]
fn what_hangs_under_no_root_is_not_listed() {
    let tree = TaskTree::try_from_nodes(vec![node(1, None), node(2, Some(3)), node(3, Some(2))])
        .expect("every parent is there");
    assert_eq!(tree.len(), 3);
    assert_eq!(tree.flatten_preorder(), ids(&[1]));
    assert!(TaskTree::try_from_nodes(vec![node(4, Some(4))]).is_err());
}

#[test]
fn native_threads_are_roots_of_the_same_number() {
    let view = Memory {
        threads: vec![30, 10, 20],
        ..Memory::default()
    };
    let tree = NativeThreadsDecoder::new()
        .decode_tasks(&view)
        .expect("a tree");
    assert_eq!(tree.roots(), ids(&[30, 10, 20]));
    assert_eq!(tree.flatten_preorder(), ids(&[30, 10, 20]));
    let first = tree.node(TaskId::new(30)).expect("a node");
    assert_eq!(first.name, "thread 30");
    assert_eq!(first.kind, TaskKind::Thread);
}

#[test]
fn the_scan_bit_and_foreign_reasons_do_not_mislead() {
    for raw in 0..16u32 {
        assert_eq!(GoStatus::from_raw(raw | 0x1000), GoStatus::from_raw(raw));
    }
    for reason in [44u8, 100, 255] {
        assert_eq!(wait_reason_str(reason), "?");
        assert_eq!(block_reason(reason), BlockReason::Unknown);
    }
}

#[test]
fn only_the_lifecycle_bits_of_a_header_matter() {
    for low in 0..64usize {
        for high in [64usize, 640, 64 << 20] {
            assert_eq!(
                classify_header_state(low | high),
                classify_header_state(low),
                "{low:#x}"
            );
        }
    }
}

fn go_layout() -> GoLayout {
    GoLayout {
        ptr_size: 8,
        allgs_addr: 0x1000,
        allglen_addr: None,
        load_bias: 0x10_0000,
        g: GStructOffsets::vendored(GoVersion::new(1, 24, 0)).expect("a table"),
        m_procid: None,
        source: LayoutSource::Dwarf,
    }
}

/// Goroutines, each with its id, status and creator.
fn go_memory(goroutines: &[(u64, u64, u64)]) -> Memory {
    let layout = go_layout();
    let mut memory = Memory::default();
    memory.put(0x10_1000, 0x20_0000);
    memory.put(0x10_1008, goroutines.len() as u64);
    for (i, (goid, status, parent)) in goroutines.iter().enumerate() {
        let g = 0x30_0000 + 0x1000 * i as u64;
        memory.put(0x20_0000 + 8 * i as u64, g);
        memory.put(g + layout.g.goid, *goid);
        memory.put(g + layout.g.atomicstatus, *status);
        if let Some(offset) = layout.g.parent_goid {
            memory.put(g + offset, *parent);
        }
    }
    memory
}

#[test]
fn goroutines_form_a_tree_without_the_dead_and_the_system() {
    let decoder = GoroutineDecoder::from_layout(go_layout());
    // 4 waits, 6 is dead; 0 is a system stack; 8 was made by one that is gone;
    // 3 comes twice.
    let memory = go_memory(&[
        (1, 1, 0),
        (0, 2, 0),
        (6, 6, 1),
        (4, 4, 1),
        (8, 1, 6),
        (3, 1, 4),
        (3, 1, 1),
    ]);
    let tree = decoder.decode_tasks(&memory).expect("a tree");
    assert_eq!(tree.roots(), ids(&[1, 8]));
    assert_eq!(tree.children(TaskId::new(1)), ids(&[4]));
    assert_eq!(tree.children(TaskId::new(4)), ids(&[3]));
    assert_eq!(tree.len(), 4);
    // Exactly the tasks of the tree are known.
    for id in [1u64, 3, 4, 8] {
        assert!(decoder.logical_stack(&memory, TaskId::new(id)).is_ok());
    }
    for id in [0u64, 6, 7, u64::MAX] {
        assert_eq!(
            decoder
                .wake_cause(&memory, TaskId::new(id))
                .expect_err("no such task")
                .message(),
            format!("unknown task TaskId({id})")
        );
    }
}

fn coroutine(name: &str, branches: Vec<ChildRef>) -> AsyncFnLayout {
    let mut variants = BTreeMap::new();
    variants.insert(0, VariantInfo::terminal(VariantKind::Unresumed));
    variants.insert(
        3,
        VariantInfo {
            kind: VariantKind::Suspend(0),
            await_location: None,
            awaitee: None,
            children: branches,
        },
    );
    AsyncFnLayout {
        type_path: format!("app::{name}::{{async_fn_env#0}}"),
        byte_size: 64,
        discr_offset: 0,
        discr_size: 1,
        variants,
    }
}

#[test]
fn branches_of_tasks_are_numbered_on_after_the_roots() {
    let leaf = "app::leaf::{async_fn_env#0}";
    let mut layouts = AsyncLayouts::new();
    layouts.insert(coroutine("leaf", vec![]));
    layouts.insert(coroutine(
        "joiner",
        vec![ChildRef::new(16, leaf), ChildRef::new(32, leaf)],
    ));
    let decoder = TokioDecoder::from_parts(
        layouts,
        RustcVersion::new(1, 83, 0),
        vec![
            TaskRoot::new(1, 0x1000, "app::joiner::{async_fn_env#0}"),
            TaskRoot::new(2, 0x2000, leaf),
        ],
    );
    let mut memory = Memory::default();
    memory.bytes.insert(0x1000, 3);
    let tree = decoder.decode_tasks(&memory).expect("a tree");
    assert_eq!(tree.roots(), ids(&[1, 2]));
    assert_eq!(tree.children(TaskId::new(1)), ids(&[3, 4]));
    assert_eq!(tree.flatten_preorder(), ids(&[1, 3, 4, 2]));
    // Exactly the tasks of the tree are known.
    for id in 1..=4u64 {
        let stack = decoder
            .logical_stack(&memory, TaskId::new(id))
            .expect("a stack");
        let frame: &LogicalFrame = &stack[0];
        assert!(decoder
            .locals_at(&memory, TaskId::new(id), frame)
            .expect("known")
            .is_empty());
        assert_eq!(
            decoder.wake_cause(&memory, TaskId::new(id)).expect("known"),
            WakeCause::Unknown
        );
    }
    assert!(matches!(
        decoder.logical_stack(&memory, TaskId::new(5)),
        Err(DecoderError::UnknownTask(_))
    ));
}
