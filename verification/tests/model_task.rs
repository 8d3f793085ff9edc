use mirrorscope::model::{BlockReason, TaskId, TaskKind, TaskNode, TaskState};

#[test]
fn root_constructor_has_no_parent() {
    let node = TaskNode::root(TaskId::new(1), "main", TaskKind::Thread, TaskState::Running);
    assert_eq!(node.parent, None);
    assert_eq!(node.name, "main");
}

#[test]
fn child_constructor_records_parent() {
    let node = TaskNode::child(
        TaskId::new(2),
        "select branch 0",
        TaskKind::AsyncTask,
        TaskState::Runnable,
        TaskId::new(1),
    );
    assert_eq!(node.parent, Some(TaskId::new(1)));
}

#[test]
fn block_reason_join_carries_target_task() {
    let reason = BlockReason::Join {
        on: Some(TaskId::new(7)),
    };
    assert_eq!(
        reason,
        BlockReason::Join {
            on: Some(TaskId::new(7))
        }
    );
}
