use mirrorscope::model::{FrameOrigin, TaskId, TaskKind, WakeCause};
use mirrorscope::process_view::{PhysicalFrame, Registers, ThreadId};
use mirrorscope::{
    select_decoder, select_decoder_for_binary, DecoderError, NativeThreadsDecoder, ProcessView, SemanticDecoder,
};

struct SingleThreadView {
    thread: ThreadId,
    frames: Vec<PhysicalFrame>,
}

impl ProcessView for SingleThreadView {
    fn thread_ids(&self) -> Vec<ThreadId> {
        vec![self.thread]
    }

    fn registers(&self, thread: ThreadId) -> Result<Registers, DecoderError> {
        if thread == self.thread {
            Ok(Registers { pc: 0, sp: 0 })
        } else {
            Err(DecoderError::UnknownThread(thread))
        }
    }

    fn read_memory(&self, _addr: u64, len: usize) -> Result<Vec<u8>, DecoderError> {
        Ok(vec![0; len])
    }

    fn physical_frames(&self, thread: ThreadId) -> Result<Vec<PhysicalFrame>, DecoderError> {
        if thread == self.thread {
            Ok(self.frames.clone())
        } else {
            Err(DecoderError::UnknownThread(thread))
        }
    }
}

fn view() -> SingleThreadView {
    SingleThreadView {
        thread: ThreadId::new(1),
        frames: vec![PhysicalFrame {
            pc: 0x1000,
            sp: 0x7fff,
            function_name: Some("main".to_string()),
            location: None,
        }],
    }
}

#[test]
fn decode_tasks_maps_one_thread_to_one_root_task() {
    let decoder = NativeThreadsDecoder::new();
    let tree = decoder.decode_tasks(&view()).expect("decode succeeds");
    assert_eq!(tree.roots(), &[TaskId::new(1)]);
    let node = tree.node(TaskId::new(1)).expect("node exists");
    assert_eq!(node.kind, TaskKind::Thread);
    assert!(tree.children(TaskId::new(1)).is_empty());
}

#[test]
fn logical_stack_copies_physical_frames_marked_physical() {
    let decoder = NativeThreadsDecoder::new();
    let stack = decoder
        .logical_stack(&view(), TaskId::new(1))
        .expect("stack lookup succeeds");
    assert_eq!(stack.len(), 1);
    assert_eq!(stack[0].display_name, "main");
    assert_eq!(stack[0].origin, FrameOrigin::Physical);
}

#[test]
fn logical_stack_unknown_task_errors() {
    let decoder = NativeThreadsDecoder::new();
    let err = decoder
        .logical_stack(&view(), TaskId::new(404))
        .expect_err("task 404 does not exist");
    assert!(matches!(err, DecoderError::UnknownTask(_)));
}

#[test]
fn wake_cause_is_honestly_unknown() {
    let decoder = NativeThreadsDecoder::new();
    let cause = decoder
        .wake_cause(&view(), TaskId::new(1))
        .expect("known task");
    assert_eq!(cause, WakeCause::Unknown);
}

#[test]
fn locals_at_is_empty_for_native_threads() {
    let decoder = NativeThreadsDecoder::new();
    let stack = decoder
        .logical_stack(&view(), TaskId::new(1))
        .expect("stack lookup succeeds");
    let locals = decoder
        .locals_at(&view(), TaskId::new(1), &stack[0])
        .expect("known task");
    assert!(locals.is_empty());
}

struct TwoThreadView;

impl ProcessView for TwoThreadView {
    fn thread_ids(&self) -> Vec<ThreadId> {
        vec![ThreadId::new(1), ThreadId::new(2)]
    }

    fn registers(&self, thread: ThreadId) -> Result<Registers, DecoderError> {
        match thread.0 {
            1 | 2 => Ok(Registers { pc: 0, sp: 0 }),
            _ => Err(DecoderError::UnknownThread(thread)),
        }
    }

    fn read_memory(&self, _addr: u64, len: usize) -> Result<Vec<u8>, DecoderError> {
        Ok(vec![0; len])
    }

    fn physical_frames(&self, thread: ThreadId) -> Result<Vec<PhysicalFrame>, DecoderError> {
        match thread.0 {
            1 => Ok(vec![PhysicalFrame {
                pc: 0x1000,
                sp: 0x7f00,
                function_name: Some("main".to_string()),
                location: None,
            }]),
            2 => Ok(vec![PhysicalFrame {
                pc: 0x2000,
                sp: 0x7e00,
                function_name: Some("worker".to_string()),
                location: None,
            }]),
            _ => Err(DecoderError::UnknownThread(thread)),
        }
    }
}

/// Holding a `Box<dyn SemanticDecoder>` and calling every method through
/// the trait object is the object-safety proof: this would fail to compile
/// if any method took a generic parameter or a `Self: Sized` bound.
#[test]
fn semantic_decoder_is_object_safe_and_usable_boxed() {
    let decoder: Box<dyn SemanticDecoder> = Box::new(NativeThreadsDecoder::new());
    let view = TwoThreadView;

    let tree = decoder.decode_tasks(&view).expect("decode succeeds");
    assert_eq!(tree.len(), 2);

    for &task in tree.flatten_preorder().iter() {
        let node = tree.node(task).expect("node exists");
        assert_eq!(node.kind, TaskKind::Thread);

        let stack = decoder
            .logical_stack(&view, task)
            .expect("logical stack resolves");
        assert_eq!(stack.len(), 1);
        assert_eq!(stack[0].origin, FrameOrigin::Physical);

        let wake = decoder
            .wake_cause(&view, task)
            .expect("wake cause resolves");
        assert_eq!(wake, WakeCause::Unknown);

        let locals = decoder
            .locals_at(&view, task, &stack[0])
            .expect("locals resolve");
        assert!(locals.is_empty());
    }
}

#[test]
fn select_decoder_returns_a_usable_boxed_decoder() {
    let decoder = select_decoder().decoder;
    let view = TwoThreadView;
    let tree = decoder.decode_tasks(&view).expect("decode succeeds");
    assert_eq!(tree.len(), 2);
}

#[test]
fn unknown_task_id_is_reported_not_guessed() {
    let decoder = NativeThreadsDecoder::new();
    let view = TwoThreadView;
    let err = decoder
        .logical_stack(&view, TaskId::new(999))
        .expect_err("task 999 does not exist");
    assert!(matches!(err, DecoderError::UnknownTask(TaskId(999))));
}

#[test]
fn the_fallback_for_a_binary_decodes_native_threads() {
    let fallback = select_decoder_for_binary(b"not an elf file at all").decoder;
    let native = NativeThreadsDecoder::new();
    let view = view();
    let tree = fallback.decode_tasks(&view).expect("decode succeeds");
    assert_eq!(tree.roots(), native.decode_tasks(&view).expect("native").roots());
    let known = TaskId::new(1);
    let stack = fallback.logical_stack(&view, known).expect("a stack");
    assert_eq!(stack, native.logical_stack(&view, known).expect("native"));
    assert_eq!(stack[0].display_name, "main");
    assert_eq!(
        fallback.wake_cause(&view, known).expect("known"),
        WakeCause::Unknown
    );
    assert!(fallback.locals_at(&view, known, &stack[0]).expect("known").is_empty());
    let unknown = TaskId::new(9);
    assert!(matches!(
        fallback.logical_stack(&view, unknown),
        Err(DecoderError::UnknownTask(t)) if t == unknown
    ));
    assert!(matches!(
        fallback.wake_cause(&view, unknown),
        Err(DecoderError::UnknownTask(t)) if t == unknown
    ));
    assert!(matches!(
        fallback.locals_at(&view, unknown, &stack[0]),
        Err(DecoderError::UnknownTask(t)) if t == unknown
    ));
}
