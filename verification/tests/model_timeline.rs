use mirrorscope::model::{BlockReason, TaskId, TaskState, TaskTimelineEvent};

fn event(seq_start: u64, seq_end: u64) -> TaskTimelineEvent {
    TaskTimelineEvent {
        task: TaskId::new(1),
        seq_start,
        seq_end,
        from_state: TaskState::Running,
        to_state: TaskState::Blocked {
            on: BlockReason::Timer,
        },
    }
}

#[test]
fn covers_is_inclusive_start_exclusive_end() {
    let event = event(100, 200);
    assert!(event.covers(100));
    assert!(event.covers(150));
    assert!(!event.covers(200));
    assert!(!event.covers(99));
}
