use mirrorscope::dap::backend::{BackendError, ResumeKind, StopInfo};
use mirrorscope::dap::render::{
    checkpoints_body, file_name, no_variables_body, registers_body, scopes_body, stack_body,
    stack_trace, task_timeline, tasks_body, threads, threads_body, wants_registers, RegisterFile,
};
use mirrorscope::dap::replay_backend::{
    exit_seqs, jump_target, Drive, ExitOutcome, Recorded, Timeline,
};
use mirrorscope::model::{LogicalFrame, SourceLocation, TaskId, TaskKind, TaskNode, TaskState};
use mirrorscope::model::{BlockReason, TaskTree};
use mirrorscope::process_view::{PhysicalFrame, Registers, ThreadId};
use mirrorscope::{DecoderError, ProcessView};
use serde_json::Value;

fn parse(text: &str) -> Value {
    serde_json::from_str(text).expect("valid JSON")
}

#[test]
fn a_launch_drives_to_the_first_event() {
    let mut timeline = Timeline::new(vec![3, 5, 9]);
    let drive = timeline.plan_launch();
    assert_eq!(drive, Drive::To { index: 0, seq: 3 });
    assert_eq!(
        timeline.settle(drive, ExitOutcome::Running, true),
        StopInfo::stopped("entry")
    );
    assert!(!timeline.has_exited());
    assert_eq!(Timeline::new(vec![]).plan_launch(), Drive::ToEnd);
}

#[test]
fn a_step_back_undoes_a_step() {
    let mut timeline = Timeline::new(vec![3, 5, 9]);
    let drive = timeline.plan_resume(ResumeKind::Next).expect("a drive");
    assert_eq!(drive, Drive::To { index: 1, seq: 5 });
    assert_eq!(
        timeline.settle(drive, ExitOutcome::Running, false),
        StopInfo::stopped("step")
    );
    let back = timeline.plan_resume(ResumeKind::StepBack).expect("a drive");
    assert_eq!(back, Drive::To { index: 0, seq: 3 });
    timeline.settle(back, ExitOutcome::Running, false);
    // The first event is as far back as it goes.
    assert_eq!(
        timeline.plan_resume(ResumeKind::StepBack).expect("a drive"),
        Drive::To { index: 0, seq: 3 }
    );
}

#[test]
fn stepping_past_the_last_event_runs_to_the_end() {
    let mut timeline = Timeline::new(vec![3, 5]);
    let drive = timeline.plan_resume(ResumeKind::StepIn).expect("a drive");
    timeline.settle(drive, ExitOutcome::Running, false);
    let drive = timeline.plan_resume(ResumeKind::StepOut).expect("a drive");
    assert_eq!(drive, Drive::ToEnd);
    assert_eq!(
        timeline.settle(drive, ExitOutcome::Exited(4), false),
        StopInfo::Exited { code: 4 }
    );
    assert!(timeline.has_exited());
    assert!(matches!(timeline.tracee_pid("77"), Err(BackendError::NoTracee)));
    // From past the end back to the last event, or to the first.
    assert_eq!(
        timeline.plan_resume(ResumeKind::StepBack).expect("a drive"),
        Drive::To { index: 1, seq: 5 }
    );
    let drive = timeline
        .plan_resume(ResumeKind::ReverseContinue)
        .expect("a drive");
    assert_eq!(drive, Drive::To { index: 0, seq: 3 });
    timeline.settle(drive, ExitOutcome::Running, false);
    assert!(!timeline.has_exited());
    assert_eq!(
        timeline.plan_resume(ResumeKind::Continue).expect("a drive"),
        Drive::ToEnd
    );
    assert_eq!(
        timeline.settle(Drive::ToEnd, ExitOutcome::Signaled(9), false),
        StopInfo::Exited { code: 137 }
    );
}

#[test]
fn an_empty_recording_cannot_be_stepped_back_over() {
    let timeline = Timeline::new(vec![]);
    let error = timeline
        .plan_resume(ResumeKind::StepBack)
        .expect_err("nothing recorded");
    assert_eq!(error.message(), "no recorded events to step back over");
    assert_eq!(
        timeline
            .plan_resume(ResumeKind::ReverseContinue)
            .expect("a drive"),
        Drive::ToEnd
    );
    assert_eq!(
        timeline.plan_resume(ResumeKind::Next).expect("a drive"),
        Drive::ToEnd
    );
}

#[test]
fn a_jump_lands_on_the_last_event_until_then() {
    let mut timeline = Timeline::new(vec![3, 5, 9]);
    assert_eq!(
        timeline.settle_jump(Some(8), ExitOutcome::Running),
        StopInfo::stopped("step")
    );
    assert_eq!(
        timeline.plan_resume(ResumeKind::Next).expect("a drive"),
        Drive::To { index: 2, seq: 9 }
    );
    timeline.settle_jump(None, ExitOutcome::Running);
    assert_eq!(
        timeline.plan_resume(ResumeKind::Next).expect("a drive"),
        Drive::To { index: 1, seq: 5 }
    );
    timeline.settle_jump(Some(100), ExitOutcome::Exited(0));
    assert!(timeline.has_exited());
}

#[test]
fn a_jump_needs_the_number_of_an_event() {
    assert_eq!(jump_target(&parse(r#"{ "seq": 10 }"#)).expect("a number"), 10);
    for arguments in ["{}", r#"{ "seq": "10" }"#, r#"{ "seq": -1 }"#, "null"] {
        let error = jump_target(&parse(arguments)).expect_err("no number");
        assert_eq!(
            error.message(),
            "invalid request arguments: jumpToEvent requires a numeric \"seq\""
        );
    }
}

#[test]
fn the_only_child_is_inspected() {
    let timeline = Timeline::new(vec![]);
    assert_eq!(timeline.tracee_pid(" 4711 \n").expect("one child"), 4711);
    assert!(matches!(timeline.tracee_pid(""), Err(BackendError::NoTracee)));
    assert!(matches!(timeline.tracee_pid("x y"), Err(BackendError::NoTracee)));
    assert!(matches!(
        timeline.tracee_pid("1 x 2"),
        Err(BackendError::Engine(_))
    ));
}

#[test]
fn only_exits_are_events() {
    let record = |seq, is_exit| Recorded { seq, is_exit };
    assert_eq!(
        exit_seqs(&vec![
            record(0, false),
            record(1, true),
            record(2, false),
            record(4, true)
        ]),
        vec![1, 4]
    );
}

fn tree() -> TaskTree {
    TaskTree::try_from_nodes(vec![
        TaskNode::root(TaskId::new(10), "main", TaskKind::Thread, TaskState::Running),
        TaskNode::child(
            TaskId::new(11),
            "worker",
            TaskKind::AsyncTask,
            TaskState::Blocked {
                on: BlockReason::Timer,
            },
            TaskId::new(10),
        ),
        TaskNode::root(TaskId::new(12), "idle", TaskKind::Goroutine, TaskState::Runnable),
        TaskNode::root(TaskId::new(13), "done", TaskKind::Coroutine, TaskState::Completed),
    ])
    .expect("a tree")
}

#[test]
fn threads_are_the_roots_numbered_from_one() {
    assert_eq!(
        threads_body(&tree()),
        parse(r#"{ "threads": [{ "id": 1, "name": "main" }, { "id": 2, "name": "idle" }, { "id": 3, "name": "done" }] }"#)
    );
}

#[test]
fn the_timeline_shows_every_task_parents_first() {
    assert_eq!(
        tasks_body(&tree()),
        parse(
            r#"{ "tasks": [
                { "id": 10, "name": "main", "kind": "thread", "state": "running", "parent": null },
                { "id": 11, "name": "worker", "kind": "async_task", "state": "blocked", "parent": 10 },
                { "id": 12, "name": "idle", "kind": "goroutine", "state": "runnable", "parent": null },
                { "id": 13, "name": "done", "kind": "coroutine", "state": "completed", "parent": null }
            ] }"#
        )
    );
}

#[test]
fn frames_show_their_place_in_the_source() {
    let with_place = LogicalFrame::from_physical(&PhysicalFrame {
        pc: 0x10,
        sp: 0,
        function_name: Some("app::main".to_string()),
        location: Some(SourceLocation {
            path: "/src/app/main.rs".to_string(),
            line: 7,
            column: 3,
        }),
    });
    let without = LogicalFrame::from_physical(&PhysicalFrame {
        pc: 0x20,
        sp: 0,
        function_name: Some("start".to_string()),
        location: None,
    });
    assert_eq!(
        stack_body(&vec![with_place, without]),
        parse(
            r#"{ "stackFrames": [
                { "id": 1, "name": "app::main", "line": 7, "column": 3,
                  "source": { "name": "main.rs", "path": "/src/app/main.rs" } },
                { "id": 2, "name": "start", "line": 0, "column": 0 }
            ], "totalFrames": 2 }"#
        )
    );
}

#[test]
fn file_names_are_those_of_paths() {
    for path in [
        "main.rs", "/a/b.c", "a/b/", "a/b//", "a/b/.", "a/./b", "..", "a/..", "/", "", ".", "./x",
        "a/../b", "a\\b",
    ] {
        let expected = std::path::Path::new(path)
            .file_name()
            .and_then(|name| name.to_str())
            .unwrap_or(path);
        assert_eq!(file_name(path), expected, "{path}");
    }
}

#[test]
fn registers_are_shown_with_sixteen_digits() {
    let body = registers_body(RegisterFile {
        pc: 0x55_aa,
        sp: u64::MAX,
        fp: 0,
        lr: 0x0123_4567_89ab_cdef,
    });
    let variables = body["variables"].as_array().expect("variables");
    assert_eq!(variables.len(), 5);
    assert_eq!(
        variables[0],
        parse(r#"{ "name": "pc", "value": "0x00000000000055aa", "type": "u64", "variablesReference": 0 }"#)
    );
    assert_eq!(variables[1]["value"], "0xffffffffffffffff");
    assert_eq!(variables[2]["value"], "0x0000000000000000");
    assert_eq!(variables[3]["name"], "lr");
    assert_eq!(variables[3]["value"], format!("{:#018x}", 0x0123_4567_89ab_cdef_u64));
    assert_eq!(variables[4]["name"], "(locals)");
    assert_eq!(variables[4]["variablesReference"], 0);
}

#[test]
fn the_registers_are_the_only_scope() {
    assert_eq!(
        scopes_body(),
        parse(r#"{ "scopes": [{ "name": "Registers", "variablesReference": 1000, "expensive": false }] }"#)
    );
    assert!(wants_registers(&parse(r#"{ "variablesReference": 1000 }"#)));
    assert!(!wants_registers(&parse(r#"{ "variablesReference": 1001 }"#)));
    assert!(!wants_registers(&parse(r#"{ "variablesReference": "1000" }"#)));
    assert!(!wants_registers(&parse("[]")));
    assert_eq!(no_variables_body(), parse(r#"{ "variables": [] }"#));
    assert_eq!(
        checkpoints_body(&vec![4, 8]),
        parse(r#"{ "checkpoints": [{ "seq": 4 }, { "seq": 8 }] }"#)
    );
}

struct Paused {
    threads: Vec<u64>,
}

impl ProcessView for Paused {
    fn thread_ids(&self) -> Vec<ThreadId> {
        self.threads.iter().map(|t| ThreadId::new(*t)).collect()
    }
    fn registers(&self, thread: ThreadId) -> Result<Registers, DecoderError> {
        Err(DecoderError::UnknownThread(thread))
    }
    fn read_memory(&self, addr: u64, len: usize) -> Result<Vec<u8>, DecoderError> {
        Err(DecoderError::MemoryReadFailed {
            addr,
            len,
            reason: "unmapped".to_string(),
        })
    }
    fn physical_frames(&self, thread: ThreadId) -> Result<Vec<PhysicalFrame>, DecoderError> {
        if thread == ThreadId::new(7) {
            Ok(vec![PhysicalFrame {
                pc: 0x1000,
                sp: 0,
                function_name: Some("main".to_string()),
                location: None,
            }])
        } else {
            Err(DecoderError::UnknownThread(thread))
        }
    }
}

#[test]
fn a_paused_target_shows_its_threads_and_the_first_stack() {
    let view = Paused { threads: vec![7, 8] };
    assert_eq!(
        threads(&view).expect("threads")["threads"][1],
        parse(r#"{ "id": 2, "name": "thread 8" }"#)
    );
    assert_eq!(
        stack_trace(&view).expect("a stack"),
        parse(r#"{ "stackFrames": [{ "id": 1, "name": "main", "line": 0, "column": 0 }], "totalFrames": 1 }"#)
    );
    assert_eq!(
        task_timeline(&view).expect("tasks")["tasks"][0]["name"],
        "thread 7"
    );
    let none = Paused { threads: vec![] };
    assert_eq!(
        stack_trace(&none).expect("a stack"),
        parse(r#"{ "stackFrames": [], "totalFrames": 0 }"#)
    );
    let other = Paused { threads: vec![9] };
    assert_eq!(
        stack_trace(&other).expect_err("cannot be unwound").message(),
        "unknown task TaskId(9)"
    );
    let twice = Paused { threads: vec![7, 7] };
    assert!(matches!(threads(&twice), Err(BackendError::Engine(_))));
}
