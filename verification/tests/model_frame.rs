use mirrorscope::model::{FrameOrigin, LogicalFrame, SuspendKind, SuspendPoint};
use mirrorscope::process_view::PhysicalFrame;

#[test]
fn from_physical_uses_pc_when_name_missing() {
    let physical = PhysicalFrame {
        pc: 0xdead_beef,
        sp: 0,
        function_name: None,
        location: None,
    };
    let frame = LogicalFrame::from_physical(&physical);
    assert_eq!(frame.display_name, "0xdeadbeef");
    assert_eq!(frame.origin, FrameOrigin::Physical);
    assert!(frame.suspend.is_none());
}

#[test]
fn from_physical_prefers_function_name() {
    let physical = PhysicalFrame {
        pc: 1,
        sp: 0,
        function_name: Some("main".to_string()),
        location: None,
    };
    assert_eq!(LogicalFrame::from_physical(&physical).display_name, "main");
}

#[test]
fn describe_suspend_composes_kind_and_detail() {
    let frame = LogicalFrame {
        display_name: "poll".to_string(),
        location: None,
        suspend: Some(SuspendPoint {
            kind: SuspendKind::ChannelRecv,
            detail: Some("#4".to_string()),
        }),
        origin: FrameOrigin::Synthesized,
    };
    assert_eq!(
        frame.describe_suspend(),
        Some("awaiting: recv on channel #4".to_string())
    );
}

#[test]
fn describe_suspend_without_detail() {
    let frame = LogicalFrame {
        display_name: "poll".to_string(),
        location: None,
        suspend: Some(SuspendPoint {
            kind: SuspendKind::Timer,
            detail: None,
        }),
        origin: FrameOrigin::Synthesized,
    };
    assert_eq!(
        frame.describe_suspend(),
        Some("awaiting: timer".to_string())
    );
}

#[test]
fn describe_suspend_none_when_not_suspended() {
    let frame = LogicalFrame {
        display_name: "main".to_string(),
        location: None,
        suspend: None,
        origin: FrameOrigin::Physical,
    };
    assert_eq!(frame.describe_suspend(), None);
}
