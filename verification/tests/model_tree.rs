use mirrorscope::model::{TaskId, TaskKind, TaskNode, TaskState, TaskTree};
use mirrorscope::DecoderError;

fn node(id: u64, parent: Option<u64>) -> TaskNode {
    TaskNode {
        id: TaskId::new(id),
        name: format!("task-{id}"),
        kind: TaskKind::AsyncTask,
        state: TaskState::Runnable,
        parent: parent.map(TaskId::new),
    }
}

#[test]
fn single_root_with_no_children() {
    let tree = TaskTree::try_from_nodes(vec![node(1, None)]).expect("valid tree");
    assert_eq!(tree.roots(), &[TaskId::new(1)]);
    assert!(tree.children(TaskId::new(1)).is_empty());
    assert_eq!(tree.len(), 1);
}

#[test]
fn join_fan_out_becomes_ordered_children() {
    // A `join!(a, b)` shaped tree: one parent, two branches in order.
    let tree =
        TaskTree::try_from_nodes(vec![node(1, None), node(2, Some(1)), node(3, Some(1))])
            .expect("valid tree");

    assert_eq!(tree.roots(), &[TaskId::new(1)]);
    assert_eq!(
        tree.children(TaskId::new(1)),
        &[TaskId::new(2), TaskId::new(3)]
    );
    assert_eq!(
        tree.flatten_preorder(),
        vec![TaskId::new(1), TaskId::new(2), TaskId::new(3)]
    );
}

#[test]
fn select_nested_branches_flatten_depth_first() {
    // select! branch 2 itself spawns a nested join! pair.
    let tree = TaskTree::try_from_nodes(vec![
        node(1, None),
        node(2, Some(1)),
        node(3, Some(1)),
        node(4, Some(3)),
        node(5, Some(3)),
    ])
    .expect("valid tree");

    assert_eq!(
        tree.flatten_preorder(),
        vec![
            TaskId::new(1),
            TaskId::new(2),
            TaskId::new(3),
            TaskId::new(4),
            TaskId::new(5)
        ]
    );
}

#[test]
fn rejects_duplicate_ids() {
    let err = TaskTree::try_from_nodes(vec![node(1, None), node(1, None)])
        .expect_err("duplicate id must be rejected");
    assert!(matches!(err, DecoderError::InvalidTaskTree { .. }));
}

#[test]
fn rejects_dangling_parent() {
    let err = TaskTree::try_from_nodes(vec![node(1, Some(99))])
        .expect_err("dangling parent must be rejected");
    assert!(matches!(err, DecoderError::InvalidTaskTree { .. }));
}

#[test]
fn unknown_id_lookups_return_empty_or_none() {
    let tree = TaskTree::try_from_nodes(vec![node(1, None)]).expect("valid tree");
    assert!(tree.node(TaskId::new(404)).is_none());
    assert!(tree.children(TaskId::new(404)).is_empty());
}

#[test]
fn empty_tree_is_empty() {
    let tree = TaskTree::try_from_nodes(vec![]).expect("valid tree");
    assert!(tree.is_empty());
    assert!(tree.flatten_preorder().is_empty());
}
