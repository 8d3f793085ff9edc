//! Laws of the command line: each option says its own thing, a later one replaces
//! an earlier one, and what is not understood is refused.
use vstd::prelude::*;

use crate::bytes;
use crate::cli::{self, Command, RecordSpec, ReplaySpec, WatchDraft, WatchHitSpec};
use crate::dap::replay_backend::ExitOutcome;
use crate::text;
use crate::text::laws as text_laws;

verus! {

/// Each command has its name, and no other name is a command's.
pub proof fn law_a_command_goes_by_its_name(args: Seq<Seq<char>>)
    ensures
        args.len() == 0 <==> cli::command_of(args) == Command::Nothing,
        args.len() > 0 && args[0] == "dap"@ <==> cli::command_of(args) == Command::Dap,
        args.len() > 0 && args[0] == "record"@ <==> cli::command_of(args) == Command::Record,
        args.len() > 0 && args[0] == "replay"@ <==> cli::command_of(args) == Command::Replay,
        args.len() > 0 && args[0] == "watch"@ <==> cli::command_of(args) == Command::Watch,
        args.len() > 0 && args[0] == "--version"@ <==> cli::command_of(args) == Command::Version,
{
    reveal_strlit("dap");
    reveal_strlit("record");
    reveal_strlit("replay");
    reveal_strlit("watch");
    reveal_strlit("--version");
    assert("dap"@.len() == 3 && "record"@.len() == 6 && "replay"@.len() == 6);
    assert("watch"@.len() == 5 && "--version"@.len() == 9);
    assert("record"@[2] == 'c' && "replay"@[2] == 'p');
}

// ---------------------------------------------------------------------------
// Recording
// ---------------------------------------------------------------------------

proof fn lemma_separator(args: Seq<Seq<char>>, from: int, at: int)
    requires
        0 <= from <= at <= args.len(),
        forall|i: int| from <= i < at ==> (#[trigger] args[i]) != "--"@,
        at < args.len() ==> args[at] == "--"@,
    ensures
        at < args.len() ==> cli::separator(args, from) == Some(at),
        at == args.len() ==> cli::separator(args, from) is None,
    decreases at - from,
{
    if from < at {
        lemma_separator(args, from + 1, at);
    }
}

/// Options, the separator, a program and its arguments, as they are given.
pub open spec fn record_line(
    options: Seq<Seq<char>>,
    program: Seq<char>,
    rest: Seq<Seq<char>>,
) -> Seq<Seq<char>> {
    options + seq!["--"@, program] + rest
}

/// The options hold no separator.
pub open spec fn are_options(options: Seq<Seq<char>>) -> bool {
    forall|i: int| 0 <= i < options.len() ==> (#[trigger] options[i]) != "--"@
}

spec fn asked_of(program: Seq<char>, rest: Seq<Seq<char>>) -> RecordSpec {
    RecordSpec {
        trace_path: "trace.mscope"@,
        ebpf: false,
        ebpf_object: None,
        program,
        program_args: rest,
    }
}

proof fn lemma_record_line(options: Seq<Seq<char>>, program: Seq<char>, rest: Seq<Seq<char>>)
    requires
        are_options(options),
    ensures
        cli::record_request(record_line(options, program, rest)) == cli::record_options(
            options,
            0,
            asked_of(program, rest),
        ),
{
    let args = record_line(options, program, rest);
    let n = options.len() as int;
    assert forall|i: int| 0 <= i < n implies (#[trigger] args[i]) != "--"@ by {
        assert(args[i] == options[i]);
    }
    assert(args[n] == "--"@ && args[n + 1] == program);
    lemma_separator(args, 0, n);
    assert(args.take(n) =~= options);
    assert(args.skip(n + 2) =~= rest);
}

proof fn lemma_record_options(
    options: Seq<Seq<char>>,
    more: Seq<Seq<char>>,
    from: int,
    asked: RecordSpec,
)
    requires
        0 <= from <= options.len(),
        cli::record_options(options, from, asked) is Some,
    ensures
        cli::record_options(options + more, from, asked) == cli::record_options(
            options + more,
            options.len() as int,
            cli::record_options(options, from, asked)->Some_0,
        ),
    decreases options.len() - from,
{
    let all = options + more;
    if from < options.len() {
        assert(all[from] == options[from]);
        if options[from] == "--ebpf"@ {
            lemma_record_options(options, more, from + 1, RecordSpec { ebpf: true, ..asked });
        } else {
            assert(all[from + 1] == options[from + 1]);
            if options[from] == "-o"@ {
                lemma_record_options(
                    options,
                    more,
                    from + 2,
                    RecordSpec { trace_path: options[from + 1], ..asked },
                );
            } else {
                lemma_record_options(
                    options,
                    more,
                    from + 2,
                    RecordSpec { ebpf_object: Some(options[from + 1]), ..asked },
                );
            }
        }
    }
}

proof fn lemma_are_options(options: Seq<Seq<char>>, more: Seq<Seq<char>>)
    requires
        are_options(options),
        are_options(more),
    ensures
        are_options(options + more),
{
    let all = options + more;
    assert forall|i: int| 0 <= i < all.len() implies (#[trigger] all[i]) != "--"@ by {
        if i < options.len() {
            assert(all[i] == options[i]);
        } else {
            assert(all[i] == more[i - options.len()]);
        }
    }
}

/// Without options a program is recorded as it is given, with all its arguments,
/// to `trace.mscope`, not by eBPF and with no object of its own.
pub proof fn law_a_program_is_recorded_as_given(program: Seq<char>, rest: Seq<Seq<char>>)
    ensures
        cli::record_request(record_line(Seq::empty(), program, rest)) matches Some(asked)
            && asked.trace_path == "trace.mscope"@ && !asked.ebpf && asked.ebpf_object is None
            && asked.program == program && asked.program_args == rest,
{
    lemma_record_line(Seq::empty(), program, rest);
}

/// Whatever options stand before it, one more says its own thing and leaves the
/// rest as it was: `-o` where to write, `--ebpf` how to capture, `--ebpf-object`
/// with what. One that lacks its value, or is none of these, is refused.
pub proof fn law_an_option_of_record_says_one_thing(
    options: Seq<Seq<char>>,
    value: Seq<char>,
    program: Seq<char>,
    rest: Seq<Seq<char>>,
)
    requires
        are_options(options),
        value != "--"@,
        cli::record_request(record_line(options, program, rest)) is Some,
    ensures
        ({
            let asked = cli::record_request(record_line(options, program, rest))->Some_0;
            &&& cli::record_request(record_line(options + seq!["-o"@, value], program, rest))
                == Some(RecordSpec { trace_path: value, ..asked })
            &&& cli::record_request(record_line(options + seq!["--ebpf"@], program, rest)) == Some(
                RecordSpec { ebpf: true, ..asked },
            )
            &&& cli::record_request(
                record_line(options + seq!["--ebpf-object"@, value], program, rest),
            ) == Some(RecordSpec { ebpf_object: Some(value), ..asked })
            &&& cli::record_request(
                record_line(options + seq!["-o"@], program, rest),
            ) is None
            &&& cli::record_request(
                record_line(options + seq!["--ebpf-object"@], program, rest),
            ) is None
            &&& value != "-o"@ && value != "--ebpf"@ && value != "--ebpf-object"@
                ==> cli::record_request(record_line(options + seq![value], program, rest)) is None
        }),
{
    reveal_strlit("-o");
    reveal_strlit("--");
    reveal_strlit("--ebpf");
    reveal_strlit("--ebpf-object");
    assert("-o"@[1] == 'o' && "--"@[1] == '-');
    assert("-o"@.len() == 2 && "--"@.len() == 2 && "--ebpf"@.len() == 6);
    assert("--ebpf-object"@.len() == 13);
    let start = asked_of(program, rest);
    lemma_record_line(options, program, rest);
    let n = options.len() as int;
    let asked = cli::record_options(options, 0, start)->Some_0;
    let a = seq!["-o"@, value];
    let b = seq!["--ebpf"@];
    let c = seq!["--ebpf-object"@, value];
    let d = seq!["-o"@];
    let e = seq!["--ebpf-object"@];
    let f = seq![value];
    lemma_are_options(options, a);
    lemma_are_options(options, b);
    lemma_are_options(options, c);
    lemma_are_options(options, d);
    lemma_are_options(options, e);
    lemma_are_options(options, f);
    lemma_record_line(options + a, program, rest);
    lemma_record_line(options + b, program, rest);
    lemma_record_line(options + c, program, rest);
    lemma_record_line(options + d, program, rest);
    lemma_record_line(options + e, program, rest);
    lemma_record_line(options + f, program, rest);
    lemma_record_options(options, a, 0, start);
    lemma_record_options(options, b, 0, start);
    lemma_record_options(options, c, 0, start);
    lemma_record_options(options, d, 0, start);
    lemma_record_options(options, e, 0, start);
    lemma_record_options(options, f, 0, start);
    reveal_with_fuel(cli::record_options, 2);
    assert((options + a)[n] == "-o"@ && (options + a)[n + 1] == value);
    assert((options + b)[n] == "--ebpf"@);
    assert((options + c)[n] == "--ebpf-object"@ && (options + c)[n + 1] == value);
    assert((options + d)[n] == "-o"@);
    assert((options + e)[n] == "--ebpf-object"@);
    assert((options + f)[n] == value);
}

/// Without a separator, or with nothing after it, there is nothing to record.
pub proof fn law_without_a_program_nothing_is_recorded(options: Seq<Seq<char>>)
    requires
        are_options(options),
    ensures
        cli::record_request(options) is None,
        cli::record_request(options + seq!["--"@]) is None,
{
    lemma_separator(options, 0, options.len() as int);
    let all = options + seq!["--"@];
    assert forall|i: int| 0 <= i < options.len() implies (#[trigger] all[i]) != "--"@ by {
        assert(all[i] == options[i]);
    }
    assert(all[options.len() as int] == "--"@);
    lemma_separator(all, 0, options.len() as int);
}

// ---------------------------------------------------------------------------
// Replaying
// ---------------------------------------------------------------------------

proof fn lemma_replay_options(
    args: Seq<Seq<char>>,
    more: Seq<Seq<char>>,
    from: int,
    asked: ReplaySpec,
)
    requires
        0 <= from <= args.len(),
        cli::replay_options(args, from, asked) is Some,
    ensures
        cli::replay_options(args + more, from, asked) == cli::replay_options(
            args + more,
            args.len() as int,
            cli::replay_options(args, from, asked)->Some_0,
        ),
    decreases args.len() - from,
{
    let all = args + more;
    if from < args.len() {
        assert(all[from] == args[from]);
        assert(all[from + 1] == args[from + 1]);
        if args[from] == "-t"@ {
            lemma_replay_options(
                args,
                more,
                from + 2,
                ReplaySpec { trace_path: args[from + 1], ..asked },
            );
        } else {
            let seq = text::unsigned(args[from + 1], 10, u64::MAX as nat)->Some_0;
            lemma_replay_options(
                args,
                more,
                from + 2,
                ReplaySpec { to: Some(seq as u64), ..asked },
            );
        }
    }
}

/// Without options `trace.mscope` is replayed to its end. Whatever options stand
/// before it, one more says its own thing and leaves the rest as it was: `-t`
/// which recording, `--to` how far. One that lacks its value, a place that is no
/// number, or anything else, is refused.
pub proof fn law_an_option_of_replay_says_one_thing(
    args: Seq<Seq<char>>,
    value: Seq<char>,
    next: Seq<char>,
    to: u64,
)
    requires
        cli::replay_request(args) is Some,
    ensures
        cli::replay_request(Seq::empty()) == Some(
            ReplaySpec { trace_path: "trace.mscope"@, to: None },
        ),
        ({
            let asked = cli::replay_request(args)->Some_0;
            &&& cli::replay_request(args + seq!["-t"@, value]) == Some(
                ReplaySpec { trace_path: value, ..asked },
            )
            &&& cli::replay_request(args + seq!["--to"@, text::decimal(to as nat)]) == Some(
                ReplaySpec { to: Some(to), ..asked },
            )
            &&& text::unsigned(value, 10, u64::MAX as nat) is None ==> cli::replay_request(
                args + seq!["--to"@, value],
            ) is None
            &&& cli::replay_request(args + seq![value]) is None
            &&& value != "-t"@ && value != "--to"@ ==> cli::replay_request(
                args + seq![value, next],
            ) is None
        }),
{
    reveal_strlit("-t");
    reveal_strlit("--to");
    assert("-t"@.len() == 2 && "--to"@.len() == 4);
    let start = ReplaySpec { trace_path: "trace.mscope"@, to: None };
    let n = args.len() as int;
    let number = text::decimal(to as nat);
    text_laws::law_a_number_reads_as_written(to as nat, u64::MAX as nat);
    let a = seq!["-t"@, value];
    let b = seq!["--to"@, number];
    let c = seq!["--to"@, value];
    let d = seq![value];
    lemma_replay_options(args, a, 0, start);
    lemma_replay_options(args, b, 0, start);
    lemma_replay_options(args, c, 0, start);
    lemma_replay_options(args, d, 0, start);
    reveal_with_fuel(cli::replay_options, 2);
    assert((args + a)[n] == "-t"@ && (args + a)[n + 1] == value);
    assert((args + b)[n] == "--to"@ && (args + b)[n + 1] == number);
    assert((args + c)[n] == "--to"@ && (args + c)[n + 1] == value);
    assert((args + d)[n] == value);
    lemma_replay_options(args, seq![value, next], 0, start);
    assert((args + seq![value, next])[n] == value);
}

// ---------------------------------------------------------------------------
// Watching
// ---------------------------------------------------------------------------

spec fn nothing_asked() -> WatchDraft {
    WatchDraft { trace_path: None, addr: None, len: None, reads: false }
}

/// What some arguments of `watch` ask for, all of it or not.
pub open spec fn watch_draft(args: Seq<Seq<char>>) -> Option<WatchDraft> {
    cli::watch_options(
        args,
        0,
        WatchDraft { trace_path: None, addr: None, len: None, reads: false },
    )
}

proof fn lemma_watch_options(
    args: Seq<Seq<char>>,
    more: Seq<Seq<char>>,
    from: int,
    asked: WatchDraft,
)
    requires
        0 <= from <= args.len(),
        cli::watch_options(args, from, asked) is Some,
    ensures
        cli::watch_options(args + more, from, asked) == cli::watch_options(
            args + more,
            args.len() as int,
            cli::watch_options(args, from, asked)->Some_0,
        ),
    decreases args.len() - from,
{
    let all = args + more;
    if from < args.len() {
        assert(all[from] == args[from]);
        if args[from] == "--addr"@ {
            assert(all[from + 1] == args[from + 1]);
            let addr = cli::int_of(args[from + 1])->Some_0;
            lemma_watch_options(
                args,
                more,
                from + 2,
                WatchDraft { addr: Some(addr as u64), ..asked },
            );
        } else if args[from] == "--len"@ {
            assert(all[from + 1] == args[from + 1]);
            let len = text::unsigned(args[from + 1], 10, u8::MAX as nat)->Some_0;
            lemma_watch_options(
                args,
                more,
                from + 2,
                WatchDraft { len: Some(len as u8), ..asked },
            );
        } else if args[from] == "--rw"@ {
            lemma_watch_options(args, more, from + 1, WatchDraft { reads: true, ..asked });
        } else {
            lemma_watch_options(
                args,
                more,
                from + 1,
                WatchDraft { trace_path: Some(args[from]), ..asked },
            );
        }
    }
}

/// Whatever stands before it, one more option of `watch` says its own thing and
/// leaves the rest as it was: `--addr` where, `--len` how much, 1, 2, 4 or 8
/// bytes and no other number, `--rw` that reads count too. A word that starts
/// with no dash is the recording, if none was named. One that lacks its value,
/// has one that is no number, or is none of these, is refused.
pub proof fn law_an_option_of_watch_says_one_thing(
    args: Seq<Seq<char>>,
    value: Seq<char>,
    addr: u64,
    len: nat,
)
    requires
        watch_draft(args) is Some,
    ensures
        ({
            let asked = watch_draft(args)->Some_0;
            let dashed = value.len() > 0 && value[0] == '-';
            &&& watch_draft(args + seq!["--addr"@, text::decimal(addr as nat)]) == Some(
                WatchDraft { addr: Some(addr), ..asked },
            )
            &&& cli::int_of(value) is None ==> watch_draft(args + seq!["--addr"@, value]) is None
            &&& len == 1 || len == 2 || len == 4 || len == 8 ==> watch_draft(
                args + seq!["--len"@, text::decimal(len)],
            ) == Some(WatchDraft { len: Some(len as u8), ..asked })
            &&& !(len == 1 || len == 2 || len == 4 || len == 8) ==> watch_draft(
                args + seq!["--len"@, text::decimal(len)],
            ) is None
            &&& watch_draft(args + seq!["--rw"@]) == Some(WatchDraft { reads: true, ..asked })
            &&& watch_draft(args + seq!["--addr"@]) is None
            &&& watch_draft(args + seq!["--len"@]) is None
            &&& !dashed && asked.trace_path is None ==> watch_draft(args + seq![value]) == Some(
                WatchDraft { trace_path: Some(value), ..asked },
            )
            &&& !dashed && asked.trace_path is Some ==> watch_draft(args + seq![value]) is None
            &&& dashed && value != "--rw"@ ==> watch_draft(args + seq![value]) is None
        }),
{
    reveal_strlit("--addr");
    reveal_strlit("--len");
    reveal_strlit("--rw");
    assert("--addr"@.len() == 6 && "--len"@.len() == 5 && "--rw"@.len() == 4);
    assert("--addr"@[0] == '-' && "--len"@[0] == '-' && "--rw"@[0] == '-');
    let start = nothing_asked();
    let n = args.len() as int;
    let (x, y) = (text::decimal(addr as nat), text::decimal(len));
    lemma_int_of_decimal(addr);
    text_laws::law_a_number_reads_as_written(len, u8::MAX as nat);
    let a = seq!["--addr"@, x];
    let b = seq!["--addr"@, value];
    let c = seq!["--len"@, y];
    let d = seq!["--rw"@];
    let e = seq!["--addr"@];
    let f = seq!["--len"@];
    let g = seq![value];
    lemma_watch_options(args, a, 0, start);
    lemma_watch_options(args, b, 0, start);
    lemma_watch_options(args, c, 0, start);
    lemma_watch_options(args, d, 0, start);
    lemma_watch_options(args, e, 0, start);
    lemma_watch_options(args, f, 0, start);
    lemma_watch_options(args, g, 0, start);
    reveal_with_fuel(cli::watch_options, 2);
    assert((args + a)[n] == "--addr"@ && (args + a)[n + 1] == x);
    assert((args + b)[n] == "--addr"@ && (args + b)[n + 1] == value);
    assert((args + c)[n] == "--len"@ && (args + c)[n + 1] == y);
    assert((args + d)[n] == "--rw"@);
    assert((args + e)[n] == "--addr"@);
    assert((args + f)[n] == "--len"@);
    assert((args + g)[n] == value);
}

/// What is asked of `watch` is what its arguments say, once they name a
/// recording, an address and a length; reads count where that was asked.
pub proof fn law_a_watch_needs_a_recording_an_address_and_a_length(args: Seq<Seq<char>>)
    ensures
        watch_draft(Seq::empty()) matches Some(asked) && asked.trace_path is None
            && asked.addr is None && asked.len is None && !asked.reads,
        cli::watch_request(args) is Some <==> (watch_draft(args) matches Some(asked)
            && asked.trace_path is Some && asked.addr is Some && asked.len is Some),
        cli::watch_request(args) matches Some(request) ==> (watch_draft(args) matches Some(asked)
            && asked.trace_path == Some(request.trace_path) && asked.addr == Some(request.addr)
            && asked.len == Some(request.len) && asked.reads == request.reads),
{
}

proof fn lemma_int_of_decimal(n: u64)
    ensures
        cli::int_of(text::decimal(n as nat)) == Some(n as nat),
{
    let s = text::decimal(n as nat);
    text::lemma_decimal(n as nat);
    text_laws::law_a_number_reads_as_written(n as nat, u64::MAX as nat);
    reveal_strlit("0x");
    reveal_strlit("0X");
    if text::starts_with(s, "0x"@) {
        assert(s.subrange(0, 2)[1] == 'x');
        assert(s[1] == 'x');
    }
    if text::starts_with(s, "0X"@) {
        assert(s.subrange(0, 2)[1] == 'X');
        assert(s[1] == 'X');
    }
}

/// A number is read in hexadecimal after `0x` or `0X`, and in decimal without.
pub proof fn law_a_prefix_makes_a_number_hexadecimal(n: u64)
    ensures
        cli::int_of(text::decimal(n as nat)) == Some(n as nat),
        cli::int_of(seq!['0', 'x'] + text::hex(n as nat)) == Some(n as nat),
        cli::int_of(seq!['0', 'X'] + text::hex(n as nat)) == Some(n as nat),
{
    lemma_int_of_decimal(n);
    text_laws::law_a_number_reads_as_written(n as nat, u64::MAX as nat);
    reveal_strlit("0x");
    reveal_strlit("0X");
    let (a, b) = (seq!['0', 'x'] + text::hex(n as nat), seq!['0', 'X'] + text::hex(n as nat));
    assert(a.subrange(0, 2) =~= "0x"@);
    assert(b.subrange(0, 2) =~= "0X"@);
    assert(a.skip(2) =~= text::hex(n as nat));
    assert(b.skip(2) =~= text::hex(n as nat));
}

// ---------------------------------------------------------------------------
// Reports
// ---------------------------------------------------------------------------

/// The report of a recording tells how many events were recorded and where, and
/// ends with the exit code of the target, if it exited; that eBPF was used is
/// told in addition.
pub proof fn law_a_recording_is_reported(
    events: u64,
    path: Seq<char>,
    ebpf: bool,
    exit_code: Option<i32>,
)
    ensures
        ({
            let line = cli::recorded_text(events, path, ebpf, exit_code);
            let end = match exit_code {
                Some(code) => "(target exit: Some("@ + text::signed_decimal(code as int) + "))"@,
                None => "(target exit: None)"@,
            };
            &&& text::contains(line, text::decimal(events as nat))
            &&& text::contains(line, path)
            &&& text::contains(line, end)
            &&& ebpf ==> text::contains(line, " via eBPF"@)
            &&& cli::recorded_text(events, path, true, exit_code).len() == cli::recorded_text(
                events,
                path,
                false,
                exit_code,
            ).len() + " via eBPF"@.len()
        }),
{
    let line = cli::recorded_text(events, path, ebpf, exit_code);
    let n = text::decimal(events as nat);
    let (a, b) = ("recorded "@, " events to "@);
    let c = if ebpf {
        " via eBPF"@
    } else {
        ""@
    };
    let d = " (target exit: "@;
    let x = cli::shown_option(
        match exit_code {
            Some(code) => Some(code as int),
            None => None,
        },
    );
    let e = ")"@;
    reveal_strlit("");
    reveal_strlit(" (target exit: ");
    reveal_strlit(")");
    reveal_strlit("))");
    reveal_strlit("None");
    reveal_strlit("(target exit: None)");
    reveal_strlit("(target exit: Some(");
    reveal_strlit("Some(");
    reveal_strlit(" via eBPF");
    assert(""@ =~= Seq::empty());
    assert(line =~= a + n + (b + path + c + d + x + e));
    text_laws::law_a_text_stands_in_what_holds_it(a, n, b + path + c + d + x + e);
    assert(line =~= (a + n + b) + path + (c + d + x + e));
    text_laws::law_a_text_stands_in_what_holds_it(a + n + b, path, c + d + x + e);
    if ebpf {
        assert(line =~= (a + n + b + path) + c + (d + x + e));
        text_laws::law_a_text_stands_in_what_holds_it(a + n + b + path, c, d + x + e);
    }
    let end = match exit_code {
        Some(code) => "(target exit: Some("@ + text::signed_decimal(code as int) + "))"@,
        None => "(target exit: None)"@,
    };
    assert(d + x + e =~= seq![' '] + end);
    assert(line =~= (a + n + b + path + c + seq![' ']) + end);
    text_laws::law_a_text_stands_in_what_holds_it(
        a + n + b + path + c + seq![' '],
        end,
        Seq::empty(),
    );
}

/// The report of a replay tells how it ended: with which code or signal, or at
/// which event it stopped.
pub proof fn law_a_replay_is_reported(ended: ExitOutcome, seq: Option<u64>)
    ensures
        ({
            let line = cli::replayed_text(ended, seq);
            match ended {
                ExitOutcome::Exited(code) => text::contains(line, "exited with code "@
                    + text::signed_decimal(code as int)),
                ExitOutcome::Signaled(signal) => text::contains(line, "killed by signal "@
                    + text::signed_decimal(signal as int)),
                ExitOutcome::Running => match seq {
                    Some(seq) => text::contains(line, "stopped at seq Some("@ + text::decimal(
                        seq as nat,
                    ) + ")"@),
                    None => text::contains(line, "stopped at seq None"@),
                },
            }
        }),
{
    let line = cli::replayed_text(ended, seq);
    let none = Seq::<char>::empty();
    match ended {
        ExitOutcome::Exited(code) => {
            reveal_strlit("replay finished: target exited with code ");
            reveal_strlit("exited with code ");
            reveal_strlit("replay finished: target ");
            let x = "exited with code "@ + text::signed_decimal(code as int);
            assert(line =~= "replay finished: target "@ + x);
            text_laws::law_a_text_stands_in_what_holds_it("replay finished: target "@, x, none);
        },
        ExitOutcome::Signaled(signal) => {
            reveal_strlit("replay finished: target killed by signal ");
            reveal_strlit("killed by signal ");
            reveal_strlit("replay finished: target ");
            let x = "killed by signal "@ + text::signed_decimal(signal as int);
            assert(line =~= "replay finished: target "@ + x);
            text_laws::law_a_text_stands_in_what_holds_it("replay finished: target "@, x, none);
        },
        ExitOutcome::Running => {
            reveal_strlit("replay stopped at seq ");
            reveal_strlit("replay ");
            reveal_strlit("stopped at seq Some(");
            reveal_strlit("stopped at seq None");
            reveal_strlit("Some(");
            reveal_strlit("None");
            let x = match seq {
                Some(seq) => "stopped at seq Some("@ + text::decimal(seq as nat) + ")"@,
                None => "stopped at seq None"@,
            };
            assert(line =~= "replay "@ + x);
            text_laws::law_a_text_stands_in_what_holds_it("replay "@, x, none);
        },
    }
}

/// The report of an access tells the event and the address of the instruction,
/// and its function, if that is known.
pub proof fn law_an_access_is_reported(hit: WatchHitSpec)
    ensures
        ({
            let line = cli::hit_text(hit);
            &&& hit.seq matches Some(seq) ==> text::contains(line, text::decimal(seq as nat))
            &&& hit.seq is None ==> text::contains(line, "-"@)
            &&& text::contains(line, text::padded_hex(hit.pc as nat))
            &&& hit.frame is Some && hit.frame->Some_0.function is Some ==> text::contains(
                line,
                hit.frame->Some_0.function->Some_0,
            )
            &&& hit.frame is None || hit.frame->Some_0.function is None ==> text::contains(
                line,
                "<unknown>"@,
            )
        }),
{
    let line = cli::hit_text(hit);
    let s = cli::seq_text(hit.seq);
    let p = text::padded_hex(hit.pc as nat);
    let f = cli::function_text(hit.frame);
    let a = "  seq "@;
    let rest = "  ("@ + cli::place_text(hit.frame) + ")  = "@ + cli::value_text(hit.new_value);
    let c = "  "@;
    let tail = c + f + rest;
    let b = "  pc "@;
    assert(line =~= a + s + (b + p + tail));
    text_laws::law_a_text_stands_in_what_holds_it(a, s, b + p + tail);
    assert(line =~= (a + s + b) + p + tail);
    text_laws::law_a_text_stands_in_what_holds_it(a + s + b, p, tail);
    assert(line =~= (a + s + b + p + c) + f + rest);
    text_laws::law_a_text_stands_in_what_holds_it(a + s + b + p + c, f, rest);
}

/// The report of an access tells the file, with the line, as far as they are
/// known, and ends with the value that the bytes spell, in hexadecimal.
pub proof fn law_the_value_of_an_access_is_reported(hit: WatchHitSpec) -> (n: nat)
    ensures
        bytes::spells(hit.new_value, n as int),
        ({
            let line = cli::hit_text(hit);
            let end = "= 0x"@ + text::hex(n);
            &&& line.len() >= end.len() && line.skip(line.len() - end.len()) == end
            &&& hit.frame is Some && hit.frame->Some_0.file is Some && hit.frame->Some_0.line is Some
                ==> text::contains(
                line,
                hit.frame->Some_0.file->Some_0 + ":"@ + text::decimal(
                    hit.frame->Some_0.line->Some_0 as nat,
                ),
            )
            &&& hit.frame is Some && hit.frame->Some_0.file is Some && hit.frame->Some_0.line is None
                ==> text::contains(line, hit.frame->Some_0.file->Some_0)
            &&& hit.frame is None || hit.frame->Some_0.file is None ==> text::contains(
                line,
                "<no source>"@,
            )
        }),
{
    let line = cli::hit_text(hit);
    let before = "  seq "@ + cli::seq_text(hit.seq) + "  pc "@ + text::padded_hex(hit.pc as nat)
        + "  "@ + cli::function_text(hit.frame) + "  ("@;
    let w = cli::place_text(hit.frame);
    let e = ")  = "@;
    let v = cli::value_text(hit.new_value);
    assert(line =~= before + w + (e + v));
    text_laws::law_a_text_stands_in_what_holds_it(before, w, e + v);
    let n = bytes::le(hit.new_value);
    bytes::law_bytes_read_as_what_they_spell(hit.new_value, n as int);
    let end = "= 0x"@ + text::hex(n);
    lemma_value_end(before + w, text::hex(n));
    assert(line =~= before + w + e + ("0x"@ + text::hex(n)));
    n
}

proof fn lemma_value_end(before: Seq<char>, digits: Seq<char>)
    ensures
        ({
            let line = before + ")  = "@ + ("0x"@ + digits);
            let end = "= 0x"@ + digits;
            line.len() >= end.len() && line.skip(line.len() - end.len()) == end
        }),
{
    reveal_strlit(")  = ");
    reveal_strlit("= 0x");
    reveal_strlit("0x");
    let line = before + ")  = "@ + ("0x"@ + digits);
    let end = "= 0x"@ + digits;
    assert(line.skip(line.len() - end.len()) =~= end);
}

/// The line above the accesses tells how many there are, and to how many bytes
/// at which address.
pub proof fn law_the_accesses_are_counted(hits: nat, addr: u64, len: u8)
    ensures
        ({
            let line = cli::watch_text(hits, addr, len);
            &&& text::starts_with(line, text::decimal(hits) + " access(es) to "@)
            &&& text::contains(line, text::decimal(len as nat) + " byte(s) at 0x"@ + text::hex(
                addr as nat,
            ))
        }),
{
    let line = cli::watch_text(hits, addr, len);
    let a = text::decimal(hits) + " access(es) to "@;
    let b = text::decimal(len as nat) + " byte(s) at 0x"@ + text::hex(addr as nat);
    assert(line =~= a + b + " across history:"@);
    text_laws::law_a_text_stands_in_what_holds_it(a, b, " across history:"@);
    assert(line.subrange(0, a.len() as int) =~= a);
}

} // verus!
