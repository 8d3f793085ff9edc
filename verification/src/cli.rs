//! The command line: which command was given, with which options, and the lines
//! that report what came of it.
pub mod laws;

use vstd::prelude::*;

use crate::bytes;
use crate::dap::replay_backend::ExitOutcome;
use crate::ptrace_view::{UnwoundFrame, UnwoundFrameSpec};
use crate::text;

verus! {

// ---------------------------------------------------------------------------
// Commands
// ---------------------------------------------------------------------------

/// The command that was given.
#[derive(Debug, Clone, Copy, PartialEq, Eq, Structural)]
pub enum Command {
    /// None.
    Nothing,
    /// Serve the debug adapter.
    Dap,
    /// Record a target.
    Record,
    /// Replay a recording.
    Replay,
    /// Find the accesses to an address.
    Watch,
    /// Print the version.
    Version,
    /// One that is not known.
    Unknown,
}

/// The command that the first argument names.
pub open spec fn command_of(args: Seq<Seq<char>>) -> Command {
    if args.len() == 0 {
        Command::Nothing
    } else if args[0] == "dap"@ {
        Command::Dap
    } else if args[0] == "record"@ {
        Command::Record
    } else if args[0] == "replay"@ {
        Command::Replay
    } else if args[0] == "watch"@ {
        Command::Watch
    } else if args[0] == "--version"@ {
        Command::Version
    } else {
        Command::Unknown
    }
}

/// The command that the first argument names.
#[must_use]
pub fn command(args: &[String]) -> (r: Command)
    ensures
        r == command_of(args.deep_view()),
{
    if args.len() == 0 {
        return Command::Nothing;
    }
    let first = args[0].as_str();
    assert(args.deep_view()[0] == first@);
    if text::same(first, "dap") {
        Command::Dap
    } else if text::same(first, "record") {
        Command::Record
    } else if text::same(first, "replay") {
        Command::Replay
    } else if text::same(first, "watch") {
        Command::Watch
    } else if text::same(first, "--version") {
        Command::Version
    } else {
        Command::Unknown
    }
}

// ---------------------------------------------------------------------------
// Recording
// ---------------------------------------------------------------------------

/// What to record, and how.
#[derive(Debug)]
pub struct RecordArgs {
    /// Where to write the recording.
    pub trace_path: String,
    /// Capture by eBPF rather than by ptrace.
    pub ebpf: bool,
    /// Where the compiled eBPF object lies, if given.
    pub ebpf_object: Option<String>,
    /// The program to run.
    pub program: String,
    /// Its arguments.
    pub program_args: Vec<String>,
}

/// The value of a `RecordArgs`.
#[verifier::ext_equal]
pub struct RecordSpec {
    pub trace_path: Seq<char>,
    pub ebpf: bool,
    pub ebpf_object: Option<Seq<char>>,
    pub program: Seq<char>,
    pub program_args: Seq<Seq<char>>,
}

impl DeepView for RecordArgs {
    type V = RecordSpec;

    open spec fn deep_view(&self) -> RecordSpec {
        RecordSpec {
            trace_path: self.trace_path@,
            ebpf: self.ebpf,
            ebpf_object: self.ebpf_object.deep_view(),
            program: self.program@,
            program_args: self.program_args.deep_view(),
        }
    }
}

/// Where the first `--` stands, at `from` or later.
pub open spec fn separator(args: Seq<Seq<char>>, from: int) -> Option<int>
    decreases args.len() - from,
{
    if from >= args.len() {
        None
    } else if args[from] == "--"@ {
        Some(from)
    } else {
        separator(args, from + 1)
    }
}

/// What the options from `from` on make of what is asked so far: a later option
/// replaces an earlier one. `None` where one is unknown or lacks its value.
pub open spec fn record_options(options: Seq<Seq<char>>, from: int, asked: RecordSpec) -> Option<
    RecordSpec,
>
    decreases options.len() - from,
{
    if from >= options.len() {
        Some(asked)
    } else if options[from] == "--ebpf"@ {
        record_options(options, from + 1, RecordSpec { ebpf: true, ..asked })
    } else if from + 1 >= options.len() {
        None
    } else if options[from] == "-o"@ {
        record_options(options, from + 2, RecordSpec { trace_path: options[from + 1], ..asked })
    } else if options[from] == "--ebpf-object"@ {
        record_options(
            options,
            from + 2,
            RecordSpec { ebpf_object: Some(options[from + 1]), ..asked },
        )
    } else {
        None
    }
}

/// What `[-o <trace>] [--ebpf [--ebpf-object <path>]] -- <cmd> [args…]` asks for.
pub open spec fn record_request(args: Seq<Seq<char>>) -> Option<RecordSpec> {
    match separator(args, 0) {
        Some(at) => if at + 1 < args.len() {
            record_options(
                args.take(at),
                0,
                RecordSpec {
                    trace_path: "trace.mscope"@,
                    ebpf: false,
                    ebpf_object: None,
                    program: args[at + 1],
                    program_args: args.skip(at + 2),
                },
            )
        } else {
            None
        },
        None => None,
    }
}

fn find_separator(args: &[String]) -> (r: Option<usize>)
    ensures
        match r {
            Some(at) => separator(args.deep_view(), 0) == Some(at as int) && at < args@.len(),
            None => separator(args.deep_view(), 0) is None,
        },
{
    let mut i: usize = 0;
    while i < args.len()
        invariant
            i <= args.len(),
            separator(args.deep_view(), 0) == separator(args.deep_view(), i as int),
        decreases args.len() - i,
    {
        assert(args.deep_view()[i as int] == args@[i as int]@);
        if text::same(args[i].as_str(), "--") {
            return Some(i);
        }
        i += 1;
    }
    None
}

fn copies_from(args: &[String], from: usize) -> (r: Vec<String>)
    requires
        from <= args@.len(),
    ensures
        r.deep_view() == args.deep_view().skip(from as int),
{
    let mut out: Vec<String> = Vec::new();
    let mut i: usize = from;
    while i < args.len()
        invariant
            from <= i <= args@.len(),
            out.len() == i - from,
            forall|j: int| 0 <= j < out.len() ==> (#[trigger] out@[j])@ == args@[from + j]@,
        decreases args.len() - i,
    {
        out.push(args[i].clone());
        i += 1;
    }
    assert(out.deep_view() =~= args.deep_view().skip(from as int));
    out
}

/// Read the arguments of `record`.
#[must_use]
pub fn parse_record_args(args: &[String]) -> (r: Option<RecordArgs>)
    ensures
        r.deep_view() == record_request(args.deep_view()),
{
    let at: usize = match find_separator(args) {
        Some(at) => at,
        None => {
            return None;
        },
    };
    if args.len() - at <= 1 {
        return None;
    }
    let ghost options = args.deep_view().take(at as int);
    let mut asked = RecordArgs {
        trace_path: "trace.mscope".to_owned(),
        ebpf: false,
        ebpf_object: None,
        program: args[at + 1].clone(),
        program_args: copies_from(args, at + 2),
    };
    let ghost start = asked.deep_view();
    let mut i: usize = 0;
    while i < at
        invariant
            i <= at < args@.len(),
            options == args.deep_view().take(at as int),
            record_request(args.deep_view()) == record_options(options, 0, start),
            record_options(options, 0, start) == record_options(
                options,
                i as int,
                asked.deep_view(),
            ),
        decreases at - i,
    {
        assert(options[i as int] == args@[i as int]@);
        let option = args[i].as_str();
        if text::same(option, "--ebpf") {
            asked.ebpf = true;
            i += 1;
        } else if i + 1 >= at {
            return None;
        } else {
            assert(options[i + 1] == args@[i + 1]@);
            if text::same(option, "-o") {
                asked.trace_path = args[i + 1].clone();
            } else if text::same(option, "--ebpf-object") {
                asked.ebpf_object = Some(args[i + 1].clone());
            } else {
                return None;
            }
            i += 2;
        }
    }
    Some(asked)
}

// ---------------------------------------------------------------------------
// Replaying
// ---------------------------------------------------------------------------

/// What to replay.
#[derive(Debug)]
pub struct ReplayArgs {
    /// Where the recording lies.
    pub trace_path: String,
    /// The event to stop at, if not at the end.
    pub to: Option<u64>,
}

/// The value of a `ReplayArgs`.
#[verifier::ext_equal]
pub struct ReplaySpec {
    pub trace_path: Seq<char>,
    pub to: Option<u64>,
}

impl DeepView for ReplayArgs {
    type V = ReplaySpec;

    open spec fn deep_view(&self) -> ReplaySpec {
        ReplaySpec { trace_path: self.trace_path@, to: self.to }
    }
}

/// What the options from `from` on make of what is asked so far.
pub open spec fn replay_options(args: Seq<Seq<char>>, from: int, asked: ReplaySpec) -> Option<
    ReplaySpec,
>
    decreases args.len() - from,
{
    if from >= args.len() {
        Some(asked)
    } else if from + 1 >= args.len() {
        None
    } else if args[from] == "-t"@ {
        replay_options(args, from + 2, ReplaySpec { trace_path: args[from + 1], ..asked })
    } else if args[from] == "--to"@ {
        match text::unsigned(args[from + 1], 10, u64::MAX as nat) {
            Some(seq) => replay_options(
                args,
                from + 2,
                ReplaySpec { to: Some(seq as u64), ..asked },
            ),
            None => None,
        }
    } else {
        None
    }
}

/// What `[-t <trace>] [--to <seq>]` asks for.
pub open spec fn replay_request(args: Seq<Seq<char>>) -> Option<ReplaySpec> {
    replay_options(args, 0, ReplaySpec { trace_path: "trace.mscope"@, to: None })
}

/// Read the arguments of `replay`.
#[must_use]
pub fn parse_replay_args(args: &[String]) -> (r: Option<ReplayArgs>)
    ensures
        r.deep_view() == replay_request(args.deep_view()),
{
    let ghost all = args.deep_view();
    let mut asked = ReplayArgs { trace_path: "trace.mscope".to_owned(), to: None };
    let mut i: usize = 0;
    while i < args.len()
        invariant
            i <= args@.len(),
            all == args.deep_view(),
            replay_request(all) == replay_options(all, i as int, asked.deep_view()),
        decreases args.len() - i,
    {
        assert(all[i as int] == args@[i as int]@);
        if args.len() - i <= 1 {
            return None;
        }
        assert(all[i + 1] == args@[i + 1]@);
        let option = args[i].as_str();
        if text::same(option, "-t") {
            asked.trace_path = args[i + 1].clone();
        } else if text::same(option, "--to") {
            let digits = text::chars_of(args[i + 1].as_str());
            match text::parse_unsigned(digits.as_slice(), 10, u64::MAX) {
                Some(seq) => {
                    asked.to = Some(seq);
                },
                None => {
                    return None;
                },
            }
        } else {
            return None;
        }
        i += 2;
    }
    Some(asked)
}

// ---------------------------------------------------------------------------
// Watching
// ---------------------------------------------------------------------------

/// What to watch.
#[derive(Debug)]
pub struct WatchArgs {
    /// Where the recording lies.
    pub trace_path: String,
    /// The address.
    pub addr: u64,
    /// How many bytes: one, two, four or eight.
    pub len: u8,
    /// Reads count too.
    pub reads: bool,
}

/// The value of a `WatchArgs`.
#[verifier::ext_equal]
pub struct WatchSpec {
    pub trace_path: Seq<char>,
    pub addr: u64,
    pub len: u8,
    pub reads: bool,
}

impl DeepView for WatchArgs {
    type V = WatchSpec;

    open spec fn deep_view(&self) -> WatchSpec {
        WatchSpec {
            trace_path: self.trace_path@,
            addr: self.addr,
            len: self.len,
            reads: self.reads,
        }
    }
}

/// What was asked of `watch` so far.
#[verifier::ext_equal]
pub struct WatchDraft {
    pub trace_path: Option<Seq<char>>,
    pub addr: Option<u64>,
    pub len: Option<u8>,
    pub reads: bool,
}

/// The number that a text writes, in hexadecimal with a prefix or in decimal.
pub open spec fn int_of(s: Seq<char>) -> Option<nat> {
    if text::starts_with(s, "0x"@) || text::starts_with(s, "0X"@) {
        text::unsigned(s.skip(2), 16, u64::MAX as nat)
    } else {
        text::unsigned(s, 10, u64::MAX as nat)
    }
}

/// A length that the hardware can watch.
pub open spec fn is_watchable(len: nat) -> bool {
    len == 1 || len == 2 || len == 4 || len == 8
}

/// What the arguments from `from` on make of what is asked so far.
pub open spec fn watch_options(args: Seq<Seq<char>>, from: int, asked: WatchDraft) -> Option<
    WatchDraft,
>
    decreases args.len() - from,
{
    if from >= args.len() {
        Some(asked)
    } else if args[from] == "--addr"@ {
        if from + 1 >= args.len() {
            None
        } else {
            match int_of(args[from + 1]) {
                Some(addr) => watch_options(
                    args,
                    from + 2,
                    WatchDraft { addr: Some(addr as u64), ..asked },
                ),
                None => None,
            }
        }
    } else if args[from] == "--len"@ {
        if from + 1 >= args.len() {
            None
        } else {
            match text::unsigned(args[from + 1], 10, u8::MAX as nat) {
                Some(len) => if is_watchable(len) {
                    watch_options(args, from + 2, WatchDraft { len: Some(len as u8), ..asked })
                } else {
                    None
                },
                None => None,
            }
        }
    } else if args[from] == "--rw"@ {
        watch_options(args, from + 1, WatchDraft { reads: true, ..asked })
    } else if (args[from].len() > 0 && args[from][0] == '-') || asked.trace_path is Some {
        None
    } else {
        watch_options(args, from + 1, WatchDraft { trace_path: Some(args[from]), ..asked })
    }
}

/// What `<trace> --addr <addr> --len <n> [--rw]` asks for.
pub open spec fn watch_request(args: Seq<Seq<char>>) -> Option<WatchSpec> {
    match watch_options(
        args,
        0,
        WatchDraft { trace_path: None, addr: None, len: None, reads: false },
    ) {
        Some(WatchDraft { trace_path: Some(trace_path), addr: Some(addr), len: Some(len), reads }) =>
        Some(WatchSpec { trace_path, addr, len, reads }),
        _ => None,
    }
}

/// Read a number in hexadecimal with a prefix or in decimal.
#[must_use]
pub fn parse_int(s: &str) -> (r: Option<u64>)
    ensures
        match r {
            Some(n) => int_of(s@) == Some(n as nat),
            None => int_of(s@) is None,
        },
{
    let chars = text::chars_of(s);
    let all = chars.as_slice();
    if text::begins_with(all, "0x") || text::begins_with(all, "0X") {
        proof {
            reveal_strlit("0x");
            reveal_strlit("0X");
        }
        let digits = vstd::slice::slice_subrange(all, 2, all.len());
        assert(digits@ =~= s@.skip(2));
        text::parse_unsigned(digits, 16, u64::MAX)
    } else {
        text::parse_unsigned(all, 10, u64::MAX)
    }
}

fn parse_len(s: &str) -> (r: Option<u8>)
    ensures
        r == (match text::unsigned(s@, 10, u8::MAX as nat) {
            Some(len) => if is_watchable(len) {
                Some(len as u8)
            } else {
                None
            },
            None => None,
        }),
{
    let digits = text::chars_of(s);
    match text::parse_unsigned(digits.as_slice(), 10, 255) {
        Some(len) => if len == 1 || len == 2 || len == 4 || len == 8 {
            Some(len as u8)
        } else {
            None
        },
        None => None,
    }
}

/// Read the arguments of `watch`.
#[must_use]
pub fn parse_watch_args(args: &[String]) -> (r: Option<WatchArgs>)
    ensures
        r.deep_view() == watch_request(args.deep_view()),
{
    let ghost all = args.deep_view();
    let ghost start = WatchDraft { trace_path: None, addr: None, len: None, reads: false };
    let mut trace_path: Option<String> = None;
    let mut addr: Option<u64> = None;
    let mut len: Option<u8> = None;
    let mut reads = false;
    let mut i: usize = 0;
    while i < args.len()
        invariant
            i <= args@.len(),
            all == args.deep_view(),
            start == (WatchDraft { trace_path: None, addr: None, len: None, reads: false }),
            watch_options(all, 0, start) == watch_options(
                all,
                i as int,
                WatchDraft { trace_path: trace_path.deep_view(), addr, len, reads },
            ),
        decreases args.len() - i,
    {
        assert(all[i as int] == args@[i as int]@);
        let arg = args[i].as_str();
        if text::same(arg, "--addr") {
            if args.len() - i <= 1 {
                return None;
            }
            assert(all[i + 1] == args@[i + 1]@);
            match parse_int(args[i + 1].as_str()) {
                Some(n) => {
                    addr = Some(n);
                },
                None => {
                    return None;
                },
            }
            i += 2;
        } else if text::same(arg, "--len") {
            if args.len() - i <= 1 {
                return None;
            }
            assert(all[i + 1] == args@[i + 1]@);
            match parse_len(args[i + 1].as_str()) {
                Some(n) => {
                    len = Some(n);
                },
                None => {
                    return None;
                },
            }
            i += 2;
        } else if text::same(arg, "--rw") {
            reads = true;
            i += 1;
        } else {
            let chars = text::chars_of(arg);
            if chars.len() > 0 && chars[0] == '-' {
                return None;
            }
            if trace_path.is_some() {
                return None;
            }
            trace_path = Some(args[i].clone());
            i += 1;
        }
    }
    match (trace_path, addr, len) {
        (Some(trace_path), Some(addr), Some(len)) => Some(
            WatchArgs { trace_path, addr, len, reads },
        ),
        _ => None,
    }
}

// ---------------------------------------------------------------------------
// Reports
// ---------------------------------------------------------------------------

/// An optional number as it is reported.
pub open spec fn shown_option(n: Option<int>) -> Seq<char> {
    match n {
        Some(n) => "Some("@ + text::signed_decimal(n) + ")"@,
        None => "None"@,
    }
}

/// The report of a recording.
pub open spec fn recorded_text(
    events: u64,
    trace_path: Seq<char>,
    ebpf: bool,
    exit_code: Option<i32>,
) -> Seq<char> {
    "recorded "@ + text::decimal(events as nat) + " events to "@ + trace_path + (if ebpf {
        " via eBPF"@
    } else {
        ""@
    }) + " (target exit: "@ + shown_option(
        match exit_code {
            Some(code) => Some(code as int),
            None => None,
        },
    ) + ")"@
}

/// The report of a recording.
#[must_use]
pub fn recorded_line(events: u64, trace_path: &str, ebpf: bool, exit_code: Option<i32>) -> (r:
    String)
    ensures
        r@ == recorded_text(events, trace_path@, ebpf, exit_code),
{
    let mut out = "recorded ".to_owned();
    text::push_decimal(&mut out, events);
    out.append(" events to ");
    out.append(trace_path);
    if ebpf {
        out.append(" via eBPF");
    } else {
        out.append("");
    }
    out.append(" (target exit: ");
    let ghost head = out@;
    match exit_code {
        Some(code) => {
            out.append("Some(");
            text::push_signed(&mut out, code as i64);
            out.append(")");
            assert(out@ =~= head + shown_option(Some(code as int)));
        },
        None => {
            out.append("None");
        },
    }
    out.append(")");
    out
}

/// The report of a replay, which stopped at `seq`.
pub open spec fn replayed_text(ended: ExitOutcome, seq: Option<u64>) -> Seq<char> {
    match ended {
        ExitOutcome::Exited(code) => {
            "replay finished: target exited with code "@ + text::signed_decimal(code as int)
        },
        ExitOutcome::Signaled(signal) => {
            "replay finished: target killed by signal "@ + text::signed_decimal(signal as int)
        },
        ExitOutcome::Running => "replay stopped at seq "@ + shown_option(
            match seq {
                Some(seq) => Some(seq as int),
                None => None,
            },
        ),
    }
}

/// The report of a replay, which stopped at `seq`.
#[must_use]
pub fn replayed_line(ended: ExitOutcome, seq: Option<u64>) -> (r: String)
    ensures
        r@ == replayed_text(ended, seq),
{
    match ended {
        ExitOutcome::Exited(code) => {
            let mut out = "replay finished: target exited with code ".to_owned();
            text::push_signed(&mut out, code as i64);
            out
        },
        ExitOutcome::Signaled(signal) => {
            let mut out = "replay finished: target killed by signal ".to_owned();
            text::push_signed(&mut out, signal as i64);
            out
        },
        ExitOutcome::Running => {
            let mut out = "replay stopped at seq ".to_owned();
            let ghost head = out@;
            match seq {
                Some(seq) => {
                    out.append("Some(");
                    text::push_decimal(&mut out, seq);
                    out.append(")");
                    assert(out@ =~= head + shown_option(Some(seq as int)));
                },
                None => {
                    out.append("None");
                },
            }
            out
        },
    }
}

/// An access to the watched bytes.
#[derive(Debug)]
pub struct WatchHit {
    /// The event that it follows, if any.
    pub seq: Option<u64>,
    /// Where it was executed.
    pub pc: u64,
    /// The frame that it was executed in, if known.
    pub frame: Option<UnwoundFrame>,
    /// The bytes after it, least significant first.
    pub new_value: Vec<u8>,
}

/// The value of a `WatchHit`.
#[verifier::ext_equal]
pub struct WatchHitSpec {
    pub seq: Option<u64>,
    pub pc: u64,
    pub frame: Option<UnwoundFrameSpec>,
    pub new_value: Seq<u8>,
}

impl DeepView for WatchHit {
    type V = WatchHitSpec;

    open spec fn deep_view(&self) -> WatchHitSpec {
        WatchHitSpec {
            seq: self.seq,
            pc: self.pc,
            frame: self.frame.deep_view(),
            new_value: self.new_value@,
        }
    }
}

/// The value that bytes hold, least significant first, in hexadecimal.
pub open spec fn value_text(bytes: Seq<u8>) -> Seq<char> {
    "0x"@ + text::hex(bytes::le(bytes))
}

/// The function of a frame.
pub open spec fn function_text(frame: Option<UnwoundFrameSpec>) -> Seq<char> {
    match frame {
        Some(UnwoundFrameSpec { function: Some(function), .. }) => function,
        _ => "<unknown>"@,
    }
}

/// The place of a frame in its source.
pub open spec fn place_text(frame: Option<UnwoundFrameSpec>) -> Seq<char> {
    match frame {
        Some(UnwoundFrameSpec { file: Some(file), line: Some(line), .. }) => {
            file + ":"@ + text::decimal(line as nat)
        },
        Some(UnwoundFrameSpec { file: Some(file), line: None, .. }) => file,
        _ => "<no source>"@,
    }
}

/// The number of an event.
pub open spec fn seq_text(seq: Option<u64>) -> Seq<char> {
    match seq {
        Some(seq) => text::decimal(seq as nat),
        None => "-"@,
    }
}

/// The line that reports an access.
pub open spec fn hit_text(hit: WatchHitSpec) -> Seq<char> {
    "  seq "@ + seq_text(hit.seq) + "  pc "@ + text::padded_hex(hit.pc as nat) + "  "@
        + function_text(hit.frame) + "  ("@ + place_text(hit.frame) + ")  = "@ + value_text(
        hit.new_value,
    )
}

/// The line above the accesses.
pub open spec fn watch_text(hits: nat, addr: u64, len: u8) -> Seq<char> {
    text::decimal(hits) + " access(es) to "@ + text::decimal(len as nat) + " byte(s) at 0x"@
        + text::hex(addr as nat) + " across history:"@
}

/// The value that bytes hold, in hexadecimal.
#[must_use]
pub fn format_value(value: &[u8]) -> (r: String)
    requires
        value@.len() <= 16,
    ensures
        r@ == value_text(value@),
{
    let mut out = "0x".to_owned();
    text::push_hex_wide(&mut out, bytes::read_le_wide(value));
    out
}

fn push_place(out: &mut String, frame: &Option<UnwoundFrame>)
    ensures
        final(out)@ == old(out)@ + place_text(frame.deep_view()),
{
    if let Some(frame) = frame {
        if let Some(file) = &frame.file {
            out.append(file.as_str());
            if let Some(line) = frame.line {
                out.append(":");
                text::push_decimal(out, line as u64);
            }
            assert(out@ =~= old(out)@ + place_text(Some(frame.deep_view())));
            return ;
        }
    }
    out.append("<no source>");
}

fn push_function(out: &mut String, frame: &Option<UnwoundFrame>)
    ensures
        final(out)@ == old(out)@ + function_text(frame.deep_view()),
{
    if let Some(frame) = frame {
        if let Some(function) = &frame.function {
            out.append(function.as_str());
            return ;
        }
    }
    out.append("<unknown>");
}

/// The line that reports an access.
#[must_use]
pub fn hit_line(hit: &WatchHit) -> (r: String)
    requires
        hit.new_value@.len() <= 16,
    ensures
        r@ == hit_text(hit.deep_view()),
{
    let mut out = "  seq ".to_owned();
    match hit.seq {
        Some(seq) => text::push_decimal(&mut out, seq),
        None => out.append("-"),
    }
    out.append("  pc ");
    text::push_padded_hex(&mut out, hit.pc);
    out.append("  ");
    push_function(&mut out, &hit.frame);
    out.append("  (");
    push_place(&mut out, &hit.frame);
    out.append(")  = ");
    let value = format_value(hit.new_value.as_slice());
    out.append(value.as_str());
    out
}

/// The line above the accesses.
#[must_use]
pub fn watch_line(hits: usize, addr: u64, len: u8) -> (r: String)
    ensures
        r@ == watch_text(hits as nat, addr, len),
{
    let mut out = String::new();
    text::push_decimal(&mut out, hits as u64);
    assert(out@ =~= text::decimal(hits as nat));
    out.append(" access(es) to ");
    text::push_decimal(&mut out, len as u64);
    out.append(" byte(s) at 0x");
    text::push_hex(&mut out, addr);
    out.append(" across history:");
    out
}

// ---------------------------------------------------------------------------
// Laws
// ---------------------------------------------------------------------------

/// A value of up to eight bytes that a report shows can be given back as an
/// address: it reads as the same number.
pub proof fn law_a_reported_value_reads_back(value: Seq<u8>)
    requires
        value.len() <= 8,
    ensures
        int_of(value_text(value)) == Some(bytes::le(value)),
{
    let n = bytes::le(value);
    let digits = text::hex(n);
    let s = value_text(value);
    bytes::lemma_le_bound(value);
    bytes::lemma_pow256_grows(value.len(), 8);
    bytes::lemma_pow256_values();
    text::lemma_hex(n);
    reveal_strlit("0x");
    assert(s.skip(2) =~= digits);
    assert(s.subrange(0, 2) =~= "0x"@);
    assert(text::without_plus(digits) == digits);
}

/// What `watch` is asked for has a length that the hardware can watch.
pub proof fn law_only_watchable_lengths_are_asked_for(args: Seq<Seq<char>>)
    ensures
        watch_request(args) matches Some(asked) ==> is_watchable(asked.len as nat),
{
    lemma_watchable(
        args,
        0,
        WatchDraft { trace_path: None, addr: None, len: None, reads: false },
    );
}

proof fn lemma_watchable(args: Seq<Seq<char>>, from: int, asked: WatchDraft)
    requires
        asked.len matches Some(len) ==> is_watchable(len as nat),
    ensures
        watch_options(args, from, asked) matches Some(WatchDraft { len: Some(len), .. })
            ==> is_watchable(len as nat),
    decreases args.len() - from,
{
    if from < args.len() {
        if args[from] == "--addr"@ {
            if from + 1 < args.len() {
                if let Some(addr) = int_of(args[from + 1]) {
                    lemma_watchable(
                        args,
                        from + 2,
                        WatchDraft { addr: Some(addr as u64), ..asked },
                    );
                }
            }
        } else if args[from] == "--len"@ {
            if from + 1 < args.len() {
                if let Some(len) = text::unsigned(args[from + 1], 10, u8::MAX as nat) {
                    if is_watchable(len) {
                        lemma_watchable(
                            args,
                            from + 2,
                            WatchDraft { len: Some(len as u8), ..asked },
                        );
                    }
                }
            }
        } else if args[from] == "--rw"@ {
            lemma_watchable(args, from + 1, WatchDraft { reads: true, ..asked });
        } else {
            lemma_watchable(
                args,
                from + 1,
                WatchDraft { trace_path: Some(args[from]), ..asked },
            );
        }
    }
}

} // verus!
