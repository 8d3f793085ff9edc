use mirrorscope::cli::{
    command, format_value, hit_line, parse_int, parse_record_args, parse_replay_args,
    parse_watch_args, recorded_line, replayed_line, watch_line, Command, WatchHit,
};
use mirrorscope::dap::replay_backend::ExitOutcome;
use mirrorscope::ptrace_view::UnwoundFrame;

fn args(text: &str) -> Vec<String> {
    text.split_whitespace().map(str::to_owned).collect()
}

#[test]
fn commands_are_named_by_the_first_argument() {
    for (text, expected) in [
        ("", Command::Nothing),
        ("dap --x", Command::Dap),
        ("record", Command::Record),
        ("replay -t x", Command::Replay),
        ("watch", Command::Watch),
        ("--version", Command::Version),
        ("Dap", Command::Unknown),
    ] {
        assert_eq!(command(&args(text)), expected, "{text}");
    }
}

#[test]
fn record_takes_options_before_the_separator() {
    let parsed = parse_record_args(&args(
        "-o a --ebpf --ebpf-object obj -o out.mscope -- ls -o x -- y",
    ))
    .expect("parsed");
    assert_eq!(parsed.trace_path, "out.mscope");
    assert!(parsed.ebpf);
    assert_eq!(parsed.ebpf_object.as_deref(), Some("obj"));
    assert_eq!(parsed.program, "ls");
    assert_eq!(parsed.program_args, args("-o x -- y"));

    let parsed = parse_record_args(&args("-- true")).expect("parsed");
    assert_eq!(parsed.trace_path, "trace.mscope");
    assert!(!parsed.ebpf);
    assert_eq!(parsed.ebpf_object, None);
    assert!(parsed.program_args.is_empty());
}

#[test]
fn record_refuses_what_it_does_not_know() {
    for text in ["", "ls", "--", "-o --", "-o -- ls", "--ebpf-object -- ls", "-x -- ls", "a b -- ls"] {
        assert!(parse_record_args(&args(text)).is_none(), "{text}");
    }
}

#[test]
fn replay_takes_a_trace_and_an_event() {
    let parsed = parse_replay_args(&[]).expect("parsed");
    assert_eq!(parsed.trace_path, "trace.mscope");
    assert_eq!(parsed.to, None);
    let parsed = parse_replay_args(&args("--to 12 -t x.mscope --to +13")).expect("parsed");
    assert_eq!(parsed.trace_path, "x.mscope");
    assert_eq!(parsed.to, Some(13));
    for text in ["-t", "--to", "--to x", "--to 18446744073709551616", "x", "-q z"] {
        assert!(parse_replay_args(&args(text)).is_none(), "{text}");
    }
}

#[test]
fn watch_takes_a_trace_an_address_and_a_length() {
    let parsed = parse_watch_args(&args("--addr 0x7fFf t.mscope --len 8 --rw")).expect("parsed");
    assert_eq!(parsed.trace_path, "t.mscope");
    assert_eq!(parsed.addr, 0x7fff);
    assert_eq!(parsed.len, 8);
    assert!(parsed.reads);
    assert!(!parse_watch_args(&args("t --addr 1 --len 1")).expect("parsed").reads);
    for text in [
        "--addr 1 --len 1",
        "t --addr 1",
        "t --len 1",
        "t --addr 1 --len",
        "t --addr",
        "t u --addr 1 --len 1",
        "t --addr 1 --len 1 --ro",
        "t --addr zz --len 1",
    ] {
        assert!(parse_watch_args(&args(text)).is_none(), "{text}");
    }
}

#[test]
fn watch_takes_only_lengths_that_can_be_watched() {
    for len in [1, 2, 4, 8] {
        assert!(parse_watch_args(&args(&format!("t --addr 1 --len {len}"))).is_some());
    }
    for len in [0, 3, 5, 6, 7, 9, 16, 255, 256, 264] {
        assert!(parse_watch_args(&args(&format!("t --addr 1 --len {len}"))).is_none());
    }
}

#[test]
fn integers_are_decimal_or_prefixed() {
    assert_eq!(parse_int("0x10"), Some(16));
    assert_eq!(parse_int("0Xff"), Some(255));
    assert_eq!(parse_int("10"), Some(10));
    assert_eq!(parse_int("0x+f"), Some(15));
    assert_eq!(parse_int("0xffffffffffffffff"), Some(u64::MAX));
    for text in ["", "0x", "0x10000000000000000", "-1", "f", "0x-1", " 1"] {
        assert_eq!(parse_int(text), None, "{text}");
    }
}

#[test]
fn values_are_shown_as_integers() {
    assert_eq!(format_value(&[]), "0x0");
    assert_eq!(format_value(&[0x34, 0x12]), "0x1234");
    assert_eq!(format_value(&[0xff; 16]), format!("{:#x}", u128::MAX));
    assert_eq!(format_value(&[0, 0, 1, 0]), "0x10000");
    // What is shown can be given as an address.
    assert_eq!(parse_int(&format_value(&[0x78, 0x56, 0x34])), Some(0x34_5678));
}

#[test]
fn reports_say_what_happened() {
    assert_eq!(
        recorded_line(12, "t.mscope", false, Some(0)),
        "recorded 12 events to t.mscope (target exit: Some(0))"
    );
    assert_eq!(
        recorded_line(0, "t", true, None),
        "recorded 0 events to t via eBPF (target exit: None)"
    );
    assert_eq!(
        recorded_line(1, "t", false, Some(-3)),
        "recorded 1 events to t (target exit: Some(-3))"
    );
    assert_eq!(
        replayed_line(ExitOutcome::Exited(3), None),
        "replay finished: target exited with code 3"
    );
    assert_eq!(
        replayed_line(ExitOutcome::Signaled(11), Some(5)),
        "replay finished: target killed by signal 11"
    );
    assert_eq!(
        replayed_line(ExitOutcome::Running, Some(5)),
        "replay stopped at seq Some(5)"
    );
    assert_eq!(
        replayed_line(ExitOutcome::Running, None),
        "replay stopped at seq None"
    );
    assert_eq!(
        watch_line(2, 0xabc, 4),
        "2 access(es) to 4 byte(s) at 0xabc across history:"
    );
}

#[test]
fn accesses_are_reported_with_their_place() {
    let frame = |function: Option<&str>, file: Option<&str>, line| {
        Some(UnwoundFrame {
            address: 1,
            function: function.map(str::to_owned),
            file: file.map(str::to_owned),
            line,
        })
    };
    let hit = |seq, frame| WatchHit {
        seq,
        pc: 0x401234,
        frame,
        new_value: vec![5, 0],
    };
    assert_eq!(
        hit_line(&hit(Some(9), frame(Some("f"), Some("a.c"), Some(3)))),
        "  seq 9  pc 0x0000000000401234  f  (a.c:3)  = 0x5"
    );
    assert_eq!(
        hit_line(&hit(None, frame(None, Some("a.c"), None))),
        "  seq -  pc 0x0000000000401234  <unknown>  (a.c)  = 0x5"
    );
    assert_eq!(
        hit_line(&hit(None, frame(Some("f"), None, Some(3)))),
        "  seq -  pc 0x0000000000401234  f  (<no source>)  = 0x5"
    );
    assert_eq!(
        hit_line(&hit(None, None)),
        "  seq -  pc 0x0000000000401234  <unknown>  (<no source>)  = 0x5"
    );
}
