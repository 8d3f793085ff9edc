use mirrorscope::async_rust::layout::VariantKind;
use mirrorscope::async_rust::state::{
    bits, classify_header_state, classify_leaf, ref_count, short_name, state_from_variant,
};
use mirrorscope::model::{BlockReason, SuspendKind, TaskState, WakeCause};

#[test]
fn running_bit_is_running() {
    assert_eq!(
        classify_header_state(bits::RUNNING | (3 << 6)),
        TaskState::Running
    );
}

#[test]
fn complete_and_cancelled_are_completed() {
    assert_eq!(classify_header_state(bits::COMPLETE), TaskState::Completed);
    assert_eq!(classify_header_state(bits::CANCELLED), TaskState::Completed);
}

#[test]
fn notified_only_is_runnable() {
    assert_eq!(
        classify_header_state(bits::NOTIFIED | bits::JOIN_INTEREST | (3 << 6)),
        TaskState::Runnable
    );
}

#[test]
fn idle_is_blocked_unknown() {
    // JOIN_INTEREST set but no lifecycle bit: a parked, idle task.
    assert_eq!(
        classify_header_state(bits::JOIN_INTEREST | (2 << 6)),
        TaskState::Blocked {
            on: BlockReason::Unknown
        }
    );
}

#[test]
fn ref_count_reads_high_bits() {
    assert_eq!(ref_count((3 << 6) | bits::NOTIFIED), 3);
}

#[test]
fn variant_maps_to_state() {
    assert_eq!(
        state_from_variant(VariantKind::Unresumed),
        TaskState::Runnable
    );
    assert_eq!(
        state_from_variant(VariantKind::Returned),
        TaskState::Completed
    );
    assert_eq!(
        state_from_variant(VariantKind::Suspend(0)),
        TaskState::Blocked {
            on: BlockReason::Unknown
        }
    );
}

#[test]
fn classifies_sleep_as_timer() {
    let c = classify_leaf("tokio::time::sleep::Sleep");
    assert_eq!(c.suspend, SuspendKind::Timer);
    assert_eq!(c.wake, WakeCause::Timer);
    assert_eq!(c.block, BlockReason::Timer);
}

#[test]
fn classifies_channel_recv() {
    let c = classify_leaf("tokio::sync::mpsc::bounded::Recv<u32>");
    assert_eq!(c.suspend, SuspendKind::ChannelRecv);
    assert!(matches!(c.block, BlockReason::Channel { .. }));
    assert!(matches!(c.wake, WakeCause::Channel { .. }));
}

#[test]
fn unrecognized_leaf_is_honestly_unknown() {
    let c = classify_leaf("my_crate::CustomFuture");
    assert_eq!(c.suspend, SuspendKind::Other);
    assert_eq!(c.wake, WakeCause::Unknown);
    assert_eq!(c.block, BlockReason::Unknown);
}

#[test]
fn short_name_strips_path_and_generics() {
    assert_eq!(short_name("tokio::sync::mpsc::Recv<u32>"), "Recv");
}

#[test]
fn the_io_module_is_a_whole_component_of_the_path() {
    let unknown = |name: &str| {
        let c = classify_leaf(name);
        assert_eq!(c.suspend, SuspendKind::Other, "{name}");
        assert_eq!(c.wake, WakeCause::Unknown, "{name}");
        assert_eq!(c.block, BlockReason::Unknown, "{name}");
    };
    unknown("tokio::task::yield_now::YieldNow");
    unknown("my_io::Thing");
    unknown("audio::Frame");
    unknown("größeio::X");
    for name in [
        "tokio::io::util::read::Read",
        "io::Read",
        "tokio::net::UdpSocket",
        "net::Lookup",
        "subnet::Lookup",
        "Ready<std::io::Error>",
        "(io::X,)",
        "x::AsyncFdReady",
        "tokio::task::yield_now::TcpStream",
    ] {
        assert_eq!(classify_leaf(name).suspend, SuspendKind::Io, "{name}");
    }
    assert_eq!(classify_leaf("time::Sleep").suspend, SuspendKind::Timer);
    assert_eq!(classify_leaf("mytime::Sleep").suspend, SuspendKind::Timer);
    assert_eq!(classify_leaf("tokio::time::Timeout<X>").suspend, SuspendKind::Timer);
}
