use mirrorscope::ebpf::capture::{next_step, Capture, CapturedEvent, DrainStep, TargetStatus};
use mirrorscope::ebpf::program::{
    argument_offsets, enter_event, exit_event, matching_target, Arch,
};
use mirrorscope::ebpf::{RawSyscallEvent, KIND_ENTER, KIND_EXIT, RAW_EVENT_LEN};

#[test]
fn the_wire_format_is_little_endian() {
    let event = RawSyscallEvent {
        kind: KIND_EXIT,
        tgid: 0x0403_0201,
        tid: 0x0807_0605,
        timestamp_ns: 1,
        nr: 2,
        args: [3, 4, 5, 6, 7, 8],
        ret: -1,
    };
    let bytes = event.encode();
    assert_eq!(bytes.len(), 84);
    assert_eq!(RAW_EVENT_LEN, 84);
    assert_eq!(&bytes[0..12], &[KIND_EXIT, 0, 0, 0, 1, 2, 3, 4, 5, 6, 7, 8]);
    assert_eq!(bytes[12], 1);
    assert_eq!(bytes[20], 2);
    assert_eq!(bytes[28], 3);
    assert_eq!(&bytes[76..84], &[0xff; 8]);
    // More bytes than needed do no harm.
    let mut longer = bytes.to_vec();
    longer.push(9);
    assert_eq!(RawSyscallEvent::decode(&longer), Some(event));
    assert_eq!(RawSyscallEvent::decode(&bytes[..83]), None);
}

#[test]
fn an_exit_carries_the_number_of_its_entry() {
    let mut capture = Capture::new();
    let entered = capture
        .record(enter_event(1, 10, 100, 63, [1, 2, 3, 4, 5, 6]))
        .expect("an event");
    assert_eq!(
        entered,
        CapturedEvent::Enter {
            timestamp_ns: 100,
            tid: 10,
            nr: 63,
            args: [1, 2, 3, 4, 5, 6]
        }
    );
    capture.record(enter_event(1, 11, 101, 64, [0; 6]));
    let left = capture.record(exit_event(1, 10, 102, -11)).expect("an event");
    assert_eq!(
        left,
        CapturedEvent::Exit {
            timestamp_ns: 102,
            tid: 10,
            nr: 63,
            ret: -11
        }
    );
    // The entry was taken; the next exit of the thread has none.
    let again = capture.record(exit_event(1, 10, 103, 0)).expect("an event");
    assert!(matches!(again, CapturedEvent::Exit { nr: 0, .. }));
    let other = capture.record(exit_event(1, 11, 104, 0)).expect("an event");
    assert!(matches!(other, CapturedEvent::Exit { nr: 64, .. }));
}

#[test]
fn items_that_are_no_records_are_passed_over() {
    let mut capture = Capture::new();
    assert_eq!(capture.take_item(&[0; 10]), None);
    let mut odd = enter_event(1, 2, 3, 4, [0; 6]);
    odd.kind = 9;
    assert_eq!(capture.take_item(&odd.encode()), None);
    let item = enter_event(1, 2, 3, 4, [0; 6]).encode();
    assert!(matches!(
        capture.take_item(&item),
        Some(CapturedEvent::Enter { nr: 4, .. })
    ));
}

#[test]
fn the_capture_ends_with_the_target() {
    assert_eq!(next_step(TargetStatus::Alive), DrainStep::Wait);
    assert_eq!(next_step(TargetStatus::Exited(3)), DrainStep::Finish(Some(3)));
    assert_eq!(next_step(TargetStatus::Signaled), DrainStep::Finish(None));
    assert_eq!(next_step(TargetStatus::Other), DrainStep::Again);
}

#[test]
fn only_the_target_is_captured() {
    assert_eq!(matching_target(7, (7 << 32) | 9), Some((7, 9)));
    assert_eq!(matching_target(8, (7 << 32) | 9), None);
    assert_eq!(matching_target(0, 9), None);
}

#[test]
fn events_are_made_of_what_the_kernel_saw() {
    let entered = enter_event(1, 2, 3, 4, [5; 6]);
    assert_eq!(entered.kind, KIND_ENTER);
    assert_eq!(entered.ret, 0);
    let left = exit_event(1, 2, 3, -4);
    assert_eq!(left.kind, KIND_EXIT);
    assert_eq!((left.nr, left.args, left.ret), (0, [0; 6], -4));
    assert_eq!(argument_offsets(Arch::X86_64), [112, 104, 96, 56, 72, 64]);
    assert_eq!(argument_offsets(Arch::Aarch64), [0, 8, 16, 24, 32, 40]);
}
