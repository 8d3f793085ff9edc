use mirrorscope::ebpf::{RawSyscallEvent, KIND_ENTER, KIND_EXIT, RAW_EVENT_LEN};

#[test]
fn enter_event_round_trips() {
    let ev = RawSyscallEvent {
        kind: KIND_ENTER,
        tgid: 4242,
        tid: 4243,
        timestamp_ns: 123_456_789,
        nr: 63,
        args: [3, 0x7fff_0000, 4096, 0, u64::MAX, 7],
        ret: 0,
    };
    assert_eq!(RawSyscallEvent::decode(&ev.encode()).expect("decode"), ev);
}

#[test]
fn exit_event_round_trips_negative_ret() {
    let ev = RawSyscallEvent {
        kind: KIND_EXIT,
        tgid: 1,
        tid: 1,
        timestamp_ns: 42,
        nr: 63,
        args: [0; 6],
        ret: -11, // -EAGAIN
    };
    assert_eq!(RawSyscallEvent::decode(&ev.encode()).expect("decode"), ev);
}

#[test]
fn decode_rejects_short_buffer() {
    assert!(RawSyscallEvent::decode(&[0u8; 10]).is_none());
}

#[test]
fn encoded_len_matches_constant() {
    let ev = RawSyscallEvent {
        kind: KIND_ENTER,
        tgid: 0,
        tid: 0,
        timestamp_ns: 0,
        nr: 0,
        args: [0; 6],
        ret: 0,
    };
    assert_eq!(ev.encode().len(), RAW_EVENT_LEN);
}
