use mirrorscope::model::{IoWakeDetail, WakeCause};

#[test]
fn io_wake_cause_carries_fd_and_description() {
    let cause = WakeCause::Io {
        detail: IoWakeDetail {
            fd: Some(4),
            description: Some("socket readable".to_string()),
        },
    };
    match cause {
        WakeCause::Io { detail } => {
            assert_eq!(detail.fd, Some(4));
            assert_eq!(detail.description.as_deref(), Some("socket readable"));
        }
        other => panic!("expected Io variant, got {other:?}"),
    }
}

#[test]
fn unknown_is_distinct_from_manual() {
    assert_ne!(WakeCause::Unknown, WakeCause::Manual);
}
