use mirrorscope::model::TaskId;

#[test]
fn round_trips_raw_value() {
    let id = TaskId::new(42);
    assert_eq!(id.raw(), 42);
    assert_eq!(id, TaskId(42));
}

#[test]
fn orders_by_raw_value() {
    assert!(TaskId::new(1) < TaskId::new(2));
}
