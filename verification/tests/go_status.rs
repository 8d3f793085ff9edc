use mirrorscope::go::status::{block_reason, wait_reason_str, wake_cause, GoStatus, G_SCAN};
use mirrorscope::model::{BlockReason, TaskState, WakeCause};

#[test]
fn decodes_base_statuses() {
    assert_eq!(GoStatus::from_raw(2), GoStatus::Running);
    assert_eq!(GoStatus::from_raw(4), GoStatus::Waiting);
    assert_eq!(GoStatus::from_raw(9), GoStatus::Preempted);
}

#[test]
fn masks_scan_bit() {
    // _Gscanrunning (0x1002) decodes to the same base as _Grunning.
    assert_eq!(GoStatus::from_raw(G_SCAN | 2), GoStatus::Running);
    assert_eq!(GoStatus::from_raw(G_SCAN | 4), GoStatus::Waiting);
}

#[test]
fn dead_and_reserved_are_dead() {
    assert!(GoStatus::from_raw(6).is_dead());
    assert!(GoStatus::from_raw(5).is_dead());
    assert!(GoStatus::from_raw(7).is_dead());
    assert!(!GoStatus::from_raw(4).is_dead());
}

#[test]
fn running_and_syscall_map_to_running() {
    assert_eq!(GoStatus::Running.to_task_state(0), TaskState::Running);
    assert_eq!(GoStatus::Syscall.to_task_state(0), TaskState::Running);
}

#[test]
fn waiting_carries_block_reason() {
    // waitReasonChanReceive == 14.
    assert_eq!(
        GoStatus::Waiting.to_task_state(14),
        TaskState::Blocked {
            on: BlockReason::Channel {
                detail: Some("chan receive".to_string())
            }
        }
    );
}

#[test]
fn sleep_reason_is_timer() {
    assert_eq!(block_reason(19), BlockReason::Timer);
    assert_eq!(wake_cause(19), WakeCause::Timer);
}

#[test]
fn mutex_reason_is_lock() {
    assert_eq!(
        block_reason(21),
        BlockReason::Lock {
            detail: Some("sync.Mutex.Lock".to_string())
        }
    );
}

#[test]
fn out_of_range_wait_reason_is_unknown_not_panic() {
    assert_eq!(wait_reason_str(250), "?");
    assert_eq!(block_reason(250), BlockReason::Unknown);
    assert_eq!(wake_cause(250), WakeCause::Unknown);
}

#[test]
fn wait_reason_strings_cover_known_indices() {
    assert_eq!(wait_reason_str(0), "");
    assert_eq!(wait_reason_str(2), "IO wait");
    assert_eq!(wait_reason_str(19), "sleep");
}
