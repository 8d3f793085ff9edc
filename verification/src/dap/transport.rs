//! The protocol's framing: `Content-Length: N`, an empty line, and N bytes of
//! JSON.
use serde_json::Value;
use vstd::prelude::*;

use crate::json::{self, Json};
use crate::text::{self, laws};

verus! {

/// What goes wrong in framing messages.
#[derive(Debug)]
pub enum TransportError {
    /// The headers ended without a length.
    MissingContentLength,
    /// The length is no number.
    InvalidContentLength(String),
    /// The payload is not JSON.
    MalformedJson(String),
    /// Reading or writing failed.
    Io(String),
}

/// The value of a `TransportError`.
#[verifier::ext_equal]
pub enum TransportErrorSpec {
    MissingContentLength,
    InvalidContentLength(Seq<char>),
    MalformedJson(Seq<char>),
    Io(Seq<char>),
}

impl DeepView for TransportError {
    type V = TransportErrorSpec;

    open spec fn deep_view(&self) -> TransportErrorSpec {
        match self {
            TransportError::MissingContentLength => TransportErrorSpec::MissingContentLength,
            TransportError::InvalidContentLength(s) => {
                TransportErrorSpec::InvalidContentLength(s@)
            },
            TransportError::MalformedJson(s) => TransportErrorSpec::MalformedJson(s@),
            TransportError::Io(s) => TransportErrorSpec::Io(s@),
        }
    }
}

impl TransportErrorSpec {
    /// The message that describes the error.
    pub open spec fn message(self) -> Seq<char> {
        match self {
            TransportErrorSpec::MissingContentLength => "missing Content-Length header"@,
            TransportErrorSpec::InvalidContentLength(s) => {
                "invalid Content-Length header: "@ + s
            },
            TransportErrorSpec::MalformedJson(s) => "malformed JSON payload: "@ + s,
            TransportErrorSpec::Io(s) => "transport I/O error: "@ + s,
        }
    }
}

impl TransportError {
    /// The message that describes the error.
    #[must_use]
    pub fn message(&self) -> (r: String)
        ensures
            r@ == self.deep_view().message(),
    {
        match self {
            TransportError::MissingContentLength => "missing Content-Length header".to_owned(),
            TransportError::InvalidContentLength(s) => {
                let mut out = "invalid Content-Length header: ".to_owned();
                out.append(s.as_str());
                out
            },
            TransportError::MalformedJson(s) => {
                let mut out = "malformed JSON payload: ".to_owned();
                out.append(s.as_str());
                out
            },
            TransportError::Io(s) => {
                let mut out = "transport I/O error: ".to_owned();
                out.append(s.as_str());
                out
            },
        }
    }
}

// ---------------------------------------------------------------------------
// Headers
// ---------------------------------------------------------------------------

/// What the headers read so far say.
#[derive(Debug, Clone, Copy, PartialEq, Eq, Structural)]
pub struct Headers {
    /// The length, once a header gave it.
    pub content_length: Option<usize>,
    /// Some line was read.
    pub saw_any_byte: bool,
}

/// What a line of the headers means.
#[derive(Debug, Clone, Copy, PartialEq, Eq, Structural)]
pub enum HeaderStep {
    /// More headers follow.
    More,
    /// The client hung up before a message.
    HungUp,
    /// The headers are over; the payload has this many bytes.
    Payload(usize),
}

/// No headers yet.
pub open spec fn no_headers() -> Headers {
    Headers { content_length: None, saw_any_byte: false }
}

/// What a line means after the headers before it, and what they all say. A line
/// without bytes is the end of the input.
pub open spec fn line_read(before: Headers, line: Seq<u8>) -> (
    Result<HeaderStep, TransportErrorSpec>,
    Headers,
) {
    let after = Headers { content_length: before.content_length, saw_any_byte: true };
    if line.len() == 0 {
        (
            if before.saw_any_byte {
                Err(TransportErrorSpec::MissingContentLength)
            } else {
                Ok(HeaderStep::HungUp)
            },
            before,
        )
    } else if !vstd::utf8::valid_utf8(line) {
        (Err(TransportErrorSpec::Io("stream did not contain valid UTF-8"@)), before)
    } else {
        let header = text::trim_end(vstd::utf8::decode_utf8(line));
        if header.len() == 0 {
            (
                match before.content_length {
                    Some(n) => Ok(HeaderStep::Payload(n)),
                    None => Err(TransportErrorSpec::MissingContentLength),
                },
                after,
            )
        } else if text::starts_with(header, "Content-Length:"@) {
            let value = text::trim(header.skip(15));
            match text::unsigned(value, 10, usize::MAX as nat) {
                Some(n) => (
                    Ok(HeaderStep::More),
                    Headers { content_length: Some(n as usize), saw_any_byte: true },
                ),
                None => (Err(TransportErrorSpec::InvalidContentLength(value)), after),
            }
        } else {
            (Ok(HeaderStep::More), after)
        }
    }
}

impl Headers {
    /// No headers yet.
    #[must_use]
    pub fn new() -> (r: Self)
        ensures
            r == no_headers(),
    {
        Headers { content_length: None, saw_any_byte: false }
    }

    /// Take the next line, with the newline that ends it; no bytes at the end of
    /// the input.
    ///
    /// # Errors
    /// Fails where the headers end without a length, or give one that is no
    /// number, or are no text.
    pub fn read_line(&mut self, line: &[u8]) -> (r: Result<HeaderStep, TransportError>)
        ensures
            (
                match r {
                    Ok(step) => Ok(step),
                    Err(e) => Err(e.deep_view()),
                },
                *final(self),
            ) == line_read(*old(self), line@),
    {
        if line.len() == 0 {
            return if self.saw_any_byte {
                Err(TransportError::MissingContentLength)
            } else {
                Ok(HeaderStep::HungUp)
            };
        }
        let s = match std::str::from_utf8(line) {
            Ok(s) => s,
            Err(_) => {
                return Err(TransportError::Io("stream did not contain valid UTF-8".to_owned()));
            },
        };
        proof {
            vstd::utf8::encode_utf8_decode_utf8(s@);
            reveal_strlit("Content-Length:");
        }
        self.saw_any_byte = true;
        let chars = text::chars_of(s);
        let header = text::trimmed_end(chars.as_slice());
        if header.len() == 0 {
            return match self.content_length {
                Some(n) => Ok(HeaderStep::Payload(n)),
                None => Err(TransportError::MissingContentLength),
            };
        }
        if text::begins_with(header, "Content-Length:") {
            let end: usize = header.len();
            let rest = vstd::slice::slice_subrange(header, 15, end);
            assert(rest@ =~= header@.skip(15));
            let value = text::trimmed(rest);
            match text::parse_unsigned(value, 10, usize::MAX as u64) {
                Some(n) => {
                    self.content_length = Some(n as usize);
                },
                None => {
                    return Err(TransportError::InvalidContentLength(text::text_of(value)));
                },
            }
        }
        Ok(HeaderStep::More)
    }
}

/// Where the line that starts at `from` ends: after its newline, else at the end
/// of the input.
pub open spec fn line_end(input: Seq<u8>, from: int) -> int
    decreases input.len() - from,
{
    if from >= input.len() {
        input.len() as int
    } else if input[from] == 10 {
        from + 1
    } else {
        line_end(input, from + 1)
    }
}

/// A line ends within the input, and after its start unless the input is over.
pub proof fn lemma_line_end(input: Seq<u8>, from: int)
    requires
        0 <= from <= input.len(),
    ensures
        from <= line_end(input, from) <= input.len(),
        from < input.len() ==> from < line_end(input, from),
    decreases input.len() - from,
{
    if from < input.len() && input[from] != 10 {
        lemma_line_end(input, from + 1);
    }
}

/// What the headers from `from` on say after those before: the payload's length,
/// nothing where the client hung up, or an error; and where the reading stops.
pub open spec fn headers_read(input: Seq<u8>, from: int, before: Headers) -> (
    Result<Option<usize>, TransportErrorSpec>,
    int,
)
    decreases input.len() - from,
    when 0 <= from <= input.len()
{
    let end = line_end(input, from);
    match line_read(before, input.subrange(from, end)) {
        (Err(e), _) => (Err(e), end),
        (Ok(HeaderStep::HungUp), _) => (Ok(None), end),
        (Ok(HeaderStep::Payload(n)), _) => (Ok(Some(n)), end),
        (Ok(HeaderStep::More), after) => {
            proof {
                lemma_line_end(input, from);
            }
            headers_read(input, end, after)
        },
    }
}

/// Headers that give a length take some of the input.
pub proof fn lemma_headers_advance(input: Seq<u8>, from: int, before: Headers)
    requires
        0 <= from <= input.len(),
    ensures
        headers_read(input, from, before).0 matches Ok(Some(_)) ==> from < headers_read(
            input,
            from,
            before,
        ).1 <= input.len(),
    decreases input.len() - from,
{
    let end = line_end(input, from);
    lemma_line_end(input, from);
    if let (Ok(HeaderStep::More), after) = line_read(before, input.subrange(from, end)) {
        lemma_headers_advance(input, end, after);
    }
}

fn find_line_end(input: &[u8], from: usize) -> (r: usize)
    requires
        from <= input@.len(),
    ensures
        r == line_end(input@, from as int),
        from <= r <= input@.len(),
        from < input@.len() ==> from < r,
{
    let mut at: usize = from;
    while at < input.len()
        invariant
            from <= at <= input@.len(),
            line_end(input@, from as int) == line_end(input@, at as int),
        decreases input@.len() - at,
    {
        if input[at] == 10 {
            return at + 1;
        }
        at += 1;
    }
    at
}

/// Read the headers from `from` on; where the reading stops.
fn read_headers(input: &[u8], from: usize) -> (r: (Result<Option<usize>, TransportError>, usize))
    requires
        from <= input@.len(),
    ensures
        (
            match r.0 {
                Ok(n) => Ok(n),
                Err(e) => Err(e.deep_view()),
            },
            r.1 as int,
        ) == headers_read(input@, from as int, no_headers()),
        from <= r.1 <= input@.len(),
{
    let ghost all = headers_read(input@, from as int, no_headers());
    let mut headers = Headers::new();
    let mut at: usize = from;
    loop
        invariant
            from <= at <= input@.len(),
            all == headers_read(input@, from as int, no_headers()),
            all == headers_read(input@, at as int, headers),
        decreases input@.len() - at,
    {
        let end: usize = find_line_end(input, at);
        let line = vstd::slice::slice_subrange(input, at, end);
        match headers.read_line(line) {
            Err(e) => return (Err(e), end),
            Ok(HeaderStep::HungUp) => return (Ok(None), end),
            Ok(HeaderStep::Payload(n)) => return (Ok(Some(n)), end),
            Ok(HeaderStep::More) => {},
        }
        at = end;
    }
}

// ---------------------------------------------------------------------------
// Frames
// ---------------------------------------------------------------------------

/// The first message of an input: nothing where the client hung up, or an error;
/// and where the reading stops.
pub open spec fn frame_read(input: Seq<u8>) -> (Result<Option<Json>, TransportErrorSpec>, int) {
    match headers_read(input, 0, no_headers()) {
        (Err(e), at) => (Err(e), at),
        (Ok(None), at) => (Ok(None), at),
        (Ok(Some(n)), at) => if at + n > input.len() {
            (Err(TransportErrorSpec::Io("failed to fill whole buffer"@)), input.len() as int)
        } else {
            (
                match json::json_read(input.subrange(at, at + n)) {
                    Ok(message) => Ok(Some(message)),
                    Err(e) => Err(TransportErrorSpec::MalformedJson(e)),
                },
                at + n,
            )
        },
    }
}

/// The headers of a message of `n` bytes.
pub open spec fn header_text(n: nat) -> Seq<char> {
    "Content-Length: "@ + text::decimal(n) + "\r\n\r\n"@
}

/// A message as it is sent.
pub open spec fn frame_of(message: Json) -> Seq<u8> {
    let payload = json::json_written(message);
    vstd::utf8::encode_utf8(header_text(payload.len())) + payload
}

/// Make a value of a payload.
///
/// # Errors
/// Fails where the payload is not JSON.
pub fn read_payload(payload: &[u8]) -> (r: Result<Value, TransportError>)
    ensures
        match r {
            Ok(message) => json::json_read(payload@) == Ok::<Json, Seq<char>>(
                json::json(message),
            ),
            Err(e) => json::json_read(payload@) matches Err(why) && e.deep_view()
                == TransportErrorSpec::MalformedJson(why),
        },
{
    match json::read(payload) {
        Ok(message) => Ok(message),
        Err(e) => Err(TransportError::MalformedJson(e)),
    }
}

/// Read one message, and advance the reader past it. `Ok(None)` where the client
/// hung up.
///
/// # Errors
/// See `TransportError`. The reader is then past what was read.
pub fn read_frame(reader: &mut &[u8]) -> (r: Result<Option<Value>, TransportError>)
    ensures
        match r {
            Ok(Some(message)) => frame_read((*old(reader))@).0 == Ok::<
                Option<Json>,
                TransportErrorSpec,
            >(Some(json::json(message))),
            Ok(None) => frame_read((*old(reader))@).0 == Ok::<Option<Json>, TransportErrorSpec>(
                None,
            ),
            Err(e) => frame_read((*old(reader))@).0 == Err::<Option<Json>, TransportErrorSpec>(
                e.deep_view(),
            ),
        },
        0 <= frame_read((*old(reader))@).1 <= (*old(reader))@.len(),
        (*final(reader))@ == (*old(reader))@.skip(frame_read((*old(reader))@).1),
{
    let input = *reader;
    let len: usize = input.len();
    let (length, at) = read_headers(input, 0);
    let n: usize = match length {
        Err(e) => {
            *reader = vstd::slice::slice_subrange(input, at, len);
            assert((*reader)@ =~= input@.skip(at as int));
            return Err(e);
        },
        Ok(None) => {
            *reader = vstd::slice::slice_subrange(input, at, len);
            assert((*reader)@ =~= input@.skip(at as int));
            return Ok(None);
        },
        Ok(Some(n)) => n,
    };
    if n > len - at {
        *reader = vstd::slice::slice_subrange(input, len, len);
        assert((*reader)@ =~= input@.skip(len as int));
        return Err(TransportError::Io("failed to fill whole buffer".to_owned()));
    }
    let payload = vstd::slice::slice_subrange(input, at, at + n);
    *reader = vstd::slice::slice_subrange(input, at + n, len);
    assert((*reader)@ =~= input@.skip(at + n));
    let message = read_payload(payload)?;
    Ok(Some(message))
}

/// Write one message with its headers.
///
/// What is written is read back, whatever follows it, where the message has no
/// fractions and is not nested too deep.
///
/// # Errors
/// None.
pub fn write_frame(writer: &mut Vec<u8>, message: &Value) -> (r: Result<(), TransportError>)
    ensures
        r is Ok,
        final(writer)@ == old(writer)@ + frame_of(json::json(*message)),
        json::is_plain(json::json(*message), json::depth_limit()) ==> forall|rest: Seq<u8>|
            #[trigger] frame_read(frame_of(json::json(*message)) + rest) == (
                Ok::<Option<Json>, TransportErrorSpec>(Some(json::json(*message))),
                frame_of(json::json(*message)).len() as int,
            ),
{
    let mut payload = match json::write(message) {
        Ok(payload) => payload,
        Err(e) => return Err(TransportError::MalformedJson(e)),
    };
    let ghost j = json::json(*message);
    let ghost written = payload@;
    let mut header = "Content-Length: ".to_owned();
    text::push_decimal(&mut header, payload.len() as u64);
    header.append("\r\n\r\n");
    let mut head = vstd::slice::slice_to_vec(header.as_str().as_bytes());
    assert(head@ =~= vstd::utf8::encode_utf8(header_text(written.len())));
    writer.append(&mut head);
    writer.append(&mut payload);
    assert(writer@ =~= old(writer)@ + frame_of(j));
    proof {
        if json::is_plain(j, json::depth_limit()) {
            assert forall|rest: Seq<u8>| #[trigger] frame_read(frame_of(j) + rest) == (
                Ok::<Option<Json>, TransportErrorSpec>(Some(j)),
                frame_of(j).len() as int,
            ) by {
                lemma_frame_is_read(j, rest);
            }
        }
    }
    Ok(())
}

// ---------------------------------------------------------------------------
// What is written is read
// ---------------------------------------------------------------------------

proof fn lemma_trim_ended(s: Seq<char>, c: char)
    requires
        text::is_space(c),
    ensures
        text::trim_end(s.push(c)) == text::trim_end(s),
{
    assert(s.push(c).drop_last() =~= s);
}

/// The line of the length header says the length.
proof fn lemma_length_line(n: nat, before: Headers)
    requires
        n <= usize::MAX,
    ensures
        ({
            let line = "Content-Length: "@ + text::decimal(n) + "\r\n"@;
            line_read(before, vstd::utf8::encode_utf8(line)) == (
                Ok::<HeaderStep, TransportErrorSpec>(HeaderStep::More),
                Headers { content_length: Some(n as usize), saw_any_byte: true },
            )
        }),
{
    let digits = text::decimal(n);
    let line = "Content-Length: "@ + digits + "\r\n"@;
    text::lemma_decimal(n);
    reveal_strlit("Content-Length: ");
    reveal_strlit("Content-Length:");
    reveal_strlit("\r\n");
    vstd::utf8::encode_utf8_valid_utf8(line);
    vstd::utf8::encode_utf8_decode_utf8(line);
    assert(line.len() > 0);
    if vstd::utf8::encode_utf8(line).len() == 0 {
        assert(vstd::utf8::decode_utf8(vstd::utf8::encode_utf8(line)) =~= Seq::empty());
    }
    let header = "Content-Length: "@ + digits;
    assert(line =~= header.push('\r').push('\n'));
    lemma_trim_ended(header.push('\r'), '\n');
    lemma_trim_ended(header, '\r');
    assert(header.last() == digits.last());
    assert(!text::is_space(digits[digits.len() - 1]));
    assert(text::trim_end(header) == header);
    assert(header.take(15) =~= "Content-Length:"@);
    let value = header.skip(15);
    assert(value =~= seq![' '] + digits);
    assert(value.skip(1) =~= digits);
    assert(!text::is_space(digits[0]));
    assert(text::trim_start(digits) == digits);
    assert(text::trim_start(value) == digits);
    assert(text::trim_end(digits) == digits);
    assert(text::without_plus(digits) == digits);
}

proof fn lemma_blank_line(before: Headers)
    ensures
        line_read(before, vstd::utf8::encode_utf8("\r\n"@)).0 == (match before.content_length {
            Some(n) => Ok::<HeaderStep, TransportErrorSpec>(HeaderStep::Payload(n)),
            None => Err(TransportErrorSpec::MissingContentLength),
        }),
{
    let line = "\r\n"@;
    reveal_strlit("\r\n");
    vstd::utf8::encode_utf8_valid_utf8(line);
    vstd::utf8::encode_utf8_decode_utf8(line);
    if vstd::utf8::encode_utf8(line).len() == 0 {
        assert(vstd::utf8::decode_utf8(vstd::utf8::encode_utf8(line)) =~= Seq::empty());
    }
    let none = Seq::<char>::empty();
    assert(line =~= none.push('\r').push('\n'));
    lemma_trim_ended(none.push('\r'), '\n');
    lemma_trim_ended(none, '\r');
}

proof fn lemma_line_ends_at(input: Seq<u8>, from: int, at: int)
    requires
        0 <= from <= at < input.len(),
        input[at] == 10,
        forall|i: int| from <= i < at ==> (#[trigger] input[i]) != 10,
    ensures
        line_end(input, from) == at + 1,
    decreases at - from,
{
    if from < at {
        lemma_line_ends_at(input, from + 1, at);
    }
}

proof fn lemma_frame_is_read(j: Json, rest: Seq<u8>)
    requires
        json::json_read(json::json_written(j)) == Ok::<Json, Seq<char>>(j),
        json::json_written(j).len() <= usize::MAX,
    ensures
        frame_read(frame_of(j) + rest) == (
            Ok::<Option<Json>, TransportErrorSpec>(Some(j)),
            frame_of(j).len() as int,
        ),
{
    let payload = json::json_written(j);
    let n = payload.len();
    let digits = text::decimal(n);
    let first = "Content-Length: "@ + digits + "\r\n"@;
    let second = "\r\n"@;
    let head = header_text(n);
    let input = frame_of(j) + rest;
    text::lemma_decimal(n);
    reveal_strlit("Content-Length: ");
    reveal_strlit("\r\n");
    reveal_strlit("\r\n\r\n");
    assert(head =~= first + second);
    assert(vstd::utf8::is_ascii_chars(first));
    assert(vstd::utf8::is_ascii_chars(second));
    assert(vstd::utf8::is_ascii_chars(head));
    vstd::utf8::is_ascii_chars_encode_utf8(first);
    vstd::utf8::is_ascii_chars_encode_utf8(second);
    vstd::utf8::is_ascii_chars_encode_utf8(head);
    let a = vstd::utf8::encode_utf8(first);
    let b = vstd::utf8::encode_utf8(second);
    let h = vstd::utf8::encode_utf8(head);
    assert(h =~= a + b);
    assert(input =~= a + b + payload + rest);
    let p = a.len() as int;
    // The first line ends at its newline, which is the first there is.
    assert(input[p - 1] == 10);
    assert forall|i: int| 0 <= i < p - 1 implies (#[trigger] input[i]) != 10 by {
        assert(input[i] == a[i]);
        assert(a[i] == first[i] as u8);
        if 16 <= i < 16 + digits.len() {
            assert(first[i] == digits[i - 16]);
        }
    }
    lemma_line_ends_at(input, 0, p - 1);
    assert(input.subrange(0, p) =~= a);
    lemma_length_line(n, no_headers());
    // The second line is empty.
    let after = Headers { content_length: Some(n as usize), saw_any_byte: true };
    assert(input[p] == 13 && input[p + 1] == 10);
    lemma_line_ends_at(input, p, p + 1);
    assert(input.subrange(p, p + 2) =~= b);
    lemma_blank_line(after);
    reveal_with_fuel(headers_read, 2);
    assert(headers_read(input, 0, no_headers()) == headers_read(input, p, after));
    assert(input.subrange(p + 2, p + 2 + n) =~= payload);
}

proof fn lemma_text_line(line: Seq<char>)
    requires
        line.len() > 0,
    ensures
        vstd::utf8::encode_utf8(line).len() > 0,
        vstd::utf8::valid_utf8(vstd::utf8::encode_utf8(line)),
        vstd::utf8::decode_utf8(vstd::utf8::encode_utf8(line)) == line,
{
    vstd::utf8::encode_utf8_valid_utf8(line);
    vstd::utf8::encode_utf8_decode_utf8(line);
    if vstd::utf8::encode_utf8(line).len() == 0 {
        assert(vstd::utf8::decode_utf8(vstd::utf8::encode_utf8(line)) =~= Seq::empty());
    }
}

/// A line that gives the length counts if it writes a number, whatever white
/// space stands around that, and replaces what an earlier line gave; with
/// anything else it is refused, by what it wrote.
pub proof fn law_a_length_line_gives_the_length(
    before: Headers,
    a: Seq<char>,
    value: Seq<char>,
    b: Seq<char>,
)
    requires
        forall|i: int| 0 <= i < a.len() ==> text::is_space(#[trigger] a[i]),
        forall|i: int| 0 <= i < b.len() ==> text::is_space(#[trigger] b[i]),
        value.len() > 0,
        !text::is_space(value[0]),
        !text::is_space(value.last()),
    ensures
        ({
            let line = "Content-Length:"@ + a + value + b;
            let (step, after) = line_read(before, vstd::utf8::encode_utf8(line));
            match text::unsigned(value, 10, usize::MAX as nat) {
                Some(n) => step == Ok::<_, TransportErrorSpec>(HeaderStep::More)
                    && after.content_length == Some(n as usize),
                None => step == Err::<HeaderStep, _>(
                    TransportErrorSpec::InvalidContentLength(value),
                ),
            }
        }),
{
    reveal_strlit("Content-Length:");
    let name = "Content-Length:"@;
    let line = name + a + value + b;
    let none = Seq::<char>::empty();
    lemma_text_line(line);
    let header = name + a + value;
    assert(line =~= none + header + b);
    assert(header[0] == 'C');
    laws::law_trimming_takes_all_the_space_around(none, header, b);
    assert(none + header =~= header);
    assert(header.subrange(0, 15) =~= name);
    assert(header.skip(15) =~= a + value + none);
    laws::law_trimming_takes_all_the_space_around(a, value, none);
}

/// Any other line that is not blank changes nothing of the length; a blank one
/// ends the headers: with the length that was given, or refused without one. The
/// end of the input ends them too: in good order only before the first line.
pub proof fn law_other_lines_keep_the_length(before: Headers, line: Seq<char>)
    requires
        line.len() > 0,
    ensures
        ({
            let (step, after) = line_read(before, vstd::utf8::encode_utf8(line));
            let is_blank = forall|i: int| 0 <= i < line.len() ==> text::is_space(#[trigger] line[i]);
            &&& !is_blank && !text::starts_with(line, "Content-Length:"@) ==> step == Ok::<
                _,
                TransportErrorSpec,
            >(HeaderStep::More) && after.content_length == before.content_length
            &&& is_blank && before.content_length is Some ==> step == Ok::<_, TransportErrorSpec>(
                HeaderStep::Payload(before.content_length->Some_0),
            )
            &&& is_blank && before.content_length is None ==> step == Err::<HeaderStep, _>(
                TransportErrorSpec::MissingContentLength,
            )
        }),
        before.saw_any_byte ==> line_read(before, Seq::empty()).0 == Err::<HeaderStep, _>(
            TransportErrorSpec::MissingContentLength,
        ),
        !before.saw_any_byte ==> line_read(before, Seq::empty()).0 == Ok::<_, TransportErrorSpec>(
            HeaderStep::HungUp,
        ),
        line_read(before, vstd::utf8::encode_utf8(line)).1.saw_any_byte,
{
    lemma_text_line(line);
    let header = text::trim_end(line);
    let n = lemma_trimmed_part(line);
    if !(forall|i: int| 0 <= i < line.len() ==> text::is_space(#[trigger] line[i])) {
        assert(n > 0) by {
            if n == 0 {
                assert forall|i: int| 0 <= i < line.len() implies text::is_space(
                    #[trigger] line[i],
                ) by {}
            }
        }
        if text::starts_with(header, "Content-Length:"@) {
            reveal_strlit("Content-Length:");
            assert(header.subrange(0, 15) =~= line.subrange(0, 15));
            assert(text::starts_with(line, "Content-Length:"@));
        }
    } else {
        assert(n == 0) by {
            if n > 0 {
                assert(text::is_space(line[n - 1]));
            }
        }
    }
}

proof fn lemma_trimmed_part(s: Seq<char>) -> (n: int)
    ensures
        0 <= n <= s.len(),
        text::trim_end(s) == s.take(n),
        n > 0 ==> !text::is_space(s[n - 1]),
        forall|i: int| n <= i < s.len() ==> text::is_space(#[trigger] s[i]),
    decreases s.len(),
{
    if s.len() > 0 && text::is_space(s.last()) {
        let t = s.drop_last();
        let n = lemma_trimmed_part(t);
        assert(t.take(n) =~= s.take(n));
        assert forall|i: int| n <= i < s.len() implies text::is_space(#[trigger] s[i]) by {
            if i < t.len() {
                assert(t[i] == s[i]);
            }
        }
        assert(n > 0 ==> t[n - 1] == s[n - 1]);
        n
    } else {
        assert(s.take(s.len() as int) =~= s);
        s.len() as int
    }
}

/// A line goes up to its newline, the first there is, or to the end of the input.
pub proof fn law_a_line_ends_after_its_newline(input: Seq<u8>, from: int, at: int)
    requires
        0 <= from <= at <= input.len(),
        forall|i: int| from <= i < at ==> (#[trigger] input[i]) != 0x0a,
        at < input.len() ==> input[at] == 0x0a,
    ensures
        at < input.len() ==> line_end(input, from) == at + 1,
        at == input.len() ==> line_end(input, from) == at,
    decreases at - from,
{
    if from < at {
        law_a_line_ends_after_its_newline(input, from + 1, at);
    }
}

/// After the headers come as many bytes as they say, which are the message: all
/// of them are taken, whether they can be read or not, and fewer are an error.
/// An input without a byte is the end of the conversation.
pub proof fn law_a_message_has_the_length_it_is_given(input: Seq<u8>)
    ensures
        input.len() == 0 ==> frame_read(input) == (Ok::<Option<Json>, TransportErrorSpec>(None), 0int),
        headers_read(input, 0, no_headers()) matches (Ok(Some(n)), at) ==> {
            &&& at + n <= input.len() ==> frame_read(input).1 == at + n
            &&& at + n <= input.len() && json::json_read(input.subrange(at, at + n)) is Ok
                ==> frame_read(input).0 == Ok::<_, TransportErrorSpec>(
                Some(json::json_read(input.subrange(at, at + n))->Ok_0),
            )
            &&& at + n <= input.len() && json::json_read(input.subrange(at, at + n)) is Err ==> (
            frame_read(input).0 matches Err(e) && e is MalformedJson)
            &&& at + n > input.len() ==> (frame_read(input).0 matches Err(e) && e is Io)
        },
{
    if input.len() == 0 {
        assert(line_end(input, 0) == 0);
        assert(input.subrange(0, 0) =~= Seq::empty());
    }
}

} // verus!
