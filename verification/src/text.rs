//! Text as sequences of characters: searching, splitting, numbers.
//!
//! Every function here has a mathematical counterpart over `Seq<char>`, which
//! the contracts of the decoders speak of.
pub mod laws;
pub mod parts;

use vstd::prelude::*;

verus! {

/// `String::push` appends one character to the end of the string.
pub assume_specification[ String::push ](s: &mut String, ch: char)
    ensures
        final(s)@ == old(s)@.push(ch),
;

/// `std::str::Utf8Error`: why bytes are not a string.
#[verifier::external_type_specification]
#[verifier::external_body]
pub struct ExUtf8Error(std::str::Utf8Error);

/// `std::str::from_utf8` gives the string whose UTF-8 encoding the bytes are,
/// and fails exactly where they are not valid UTF-8.
pub assume_specification<'a>[ std::str::from_utf8 ](v: &'a [u8]) -> (r: Result<
    &'a str,
    std::str::Utf8Error,
>)
    ensures
        match r {
            Ok(s) => vstd::utf8::valid_utf8(v@) && vstd::utf8::encode_utf8(s@) == v@,
            Err(_) => !vstd::utf8::valid_utf8(v@),
        },
;

// ---------------------------------------------------------------------------
// Between strings and character vectors
// ---------------------------------------------------------------------------

/// The characters of `s`, in order.
pub fn chars_of(s: &str) -> (r: Vec<char>)
    ensures
        r@ == s@,
{
    let mut out: Vec<char> = Vec::new();
    for c in it: s.chars()
        invariant
            it.seq() == s@,
            out@ == s@.take(it.index()),
    {
        out.push(c);
        assert(out@ == s@.take(it.index() + 1));
    }
    assert(s@.take(s@.len() as int) == s@);
    out
}

/// The string made of `chars`.
pub fn text_of(chars: &[char]) -> (r: String)
    ensures
        r@ == chars@,
{
    let mut out = String::new();
    let mut i: usize = 0;
    while i < chars.len()
        invariant
            i <= chars.len(),
            out@ == chars@.take(i as int),
        decreases chars.len() - i,
    {
        out.push(chars[i]);
        i += 1;
        assert(out@ == chars@.take(i as int));
    }
    assert(chars@.take(i as int) == chars@);
    out
}

/// Two strings with the same UTF-8 encoding have the same characters.
pub proof fn lemma_same_encoding(a: Seq<char>, b: Seq<char>)
    requires
        vstd::utf8::encode_utf8(a) == vstd::utf8::encode_utf8(b),
    ensures
        a == b,
{
    vstd::utf8::encode_utf8_decode_utf8(a);
    vstd::utf8::encode_utf8_decode_utf8(b);
}

/// Whether two strings hold the same characters.
pub fn same(a: &str, b: &str) -> (r: bool)
    ensures
        r == (a@ == b@),
{
    let x = a.as_bytes();
    let y = b.as_bytes();
    if x.len() != y.len() {
        return false;
    }
    let mut i: usize = 0;
    while i < x.len()
        invariant
            i <= x.len(),
            x.len() == y.len(),
            x@ == vstd::utf8::encode_utf8(a@),
            y@ == vstd::utf8::encode_utf8(b@),
            forall|j: int| 0 <= j < i ==> x@[j] == y@[j],
        decreases x.len() - i,
    {
        if x[i] != y[i] {
            return false;
        }
        i += 1;
    }
    proof {
        assert(x@ =~= y@);
        lemma_same_encoding(a@, b@);
    }
    true
}

/// Whether two slices of characters hold the same characters.
pub fn same_chars(a: &[char], b: &[char]) -> (r: bool)
    ensures
        r == (a@ == b@),
{
    if a.len() != b.len() {
        return false;
    }
    let mut i: usize = 0;
    while i < a.len()
        invariant
            i <= a.len(),
            a.len() == b.len(),
            forall|j: int| 0 <= j < i ==> a@[j] == b@[j],
        decreases a.len() - i,
    {
        if a[i] != b[i] {
            return false;
        }
        i += 1;
    }
    assert(a@ =~= b@);
    true
}

/// What can become an owned string: a string, or a string slice.
pub trait IntoText: Sized {
    /// The characters.
    spec fn text(&self) -> Seq<char>;

    /// The owned string with those characters.
    fn into_text(self) -> (r: String)
        ensures
            r@ == self.text(),
    ;
}

impl IntoText for String {
    open spec fn text(&self) -> Seq<char> {
        self@
    }

    fn into_text(self) -> (r: String) {
        self
    }
}

impl<'a> IntoText for &'a str {
    open spec fn text(&self) -> Seq<char> {
        self@
    }

    fn into_text(self) -> (r: String) {
        self.to_owned()
    }
}

/// A copy of an optional string.
pub fn clone_optional(s: &Option<String>) -> (r: Option<String>)
    ensures
        r == *s,
{
    match s {
        Some(t) => Some(t.clone()),
        None => None,
    }
}

// ---------------------------------------------------------------------------
// Numbers as text
// ---------------------------------------------------------------------------

/// The character of the digit `d`, in base ten or sixteen (lower case).
pub open spec fn digit(d: nat) -> char {
    if d < 10 {
        (48 + d) as char
    } else {
        (87 + d) as char
    }
}

/// `n` in base ten, without leading zeros.
pub open spec fn decimal(n: nat) -> Seq<char>
    decreases n,
{
    if n < 10 {
        seq![digit(n)]
    } else {
        decimal(n / 10).push(digit(n % 10))
    }
}

/// `n` in base sixteen, lower case, without leading zeros and prefix.
pub open spec fn hex(n: nat) -> Seq<char>
    decreases n,
{
    if n < 16 {
        seq![digit(n)]
    } else {
        hex(n / 16).push(digit(n % 16))
    }
}

/// `n` in base ten, with a minus sign in front where it is negative.
pub open spec fn signed_decimal(n: int) -> Seq<char> {
    if n < 0 {
        seq!['-'] + decimal((-n) as nat)
    } else {
        decimal(n as nat)
    }
}

fn digit_char(d: u8) -> (r: char)
    requires
        d < 16,
    ensures
        r == digit(d as nat),
{
    if d < 10 {
        (48 + d) as char
    } else {
        (87 + d) as char
    }
}

/// Append `n` in base ten.
pub fn push_decimal(out: &mut String, n: u64)
    ensures
        final(out)@ == old(out)@ + decimal(n as nat),
    decreases n,
{
    if n >= 10 {
        push_decimal(out, n / 10);
    }
    out.push(digit_char((n % 10) as u8));
    assert(out@ == old(out)@ + decimal(n as nat));
}

/// Append `n` in base sixteen, lower case, without a prefix.
pub fn push_hex(out: &mut String, n: u64)
    ensures
        final(out)@ == old(out)@ + hex(n as nat),
    decreases n,
{
    if n >= 16 {
        push_hex(out, n / 16);
    }
    out.push(digit_char((n % 16) as u8));
    assert(out@ == old(out)@ + hex(n as nat));
}

/// Append `n` in base sixteen, lower case, without a prefix.
pub fn push_hex_wide(out: &mut String, n: u128)
    ensures
        final(out)@ == old(out)@ + hex(n as nat),
    decreases n,
{
    if n >= 16 {
        push_hex_wide(out, n / 16);
    }
    out.push(digit_char((n % 16) as u8));
    assert(out@ == old(out)@ + hex(n as nat));
}

/// Append `n` in base ten, with its sign where it is negative.
pub fn push_signed(out: &mut String, n: i64)
    ensures
        final(out)@ == old(out)@ + signed_decimal(n as int),
{
    if n < 0 {
        out.push('-');
        let magnitude: u64 = if n == i64::MIN {
            0x8000_0000_0000_0000u64
        } else {
            (-n) as u64
        };
        push_decimal(out, magnitude);
        assert(out@ == old(out)@ + signed_decimal(n as int));
    } else {
        push_decimal(out, n as u64);
    }
}

/// `n` zeros.
pub open spec fn zeros(n: nat) -> Seq<char>
    decreases n,
{
    if n == 0 {
        Seq::empty()
    } else {
        zeros((n - 1) as nat).push('0')
    }
}

/// An address in hexadecimal, with prefix, filled up with zeros to sixteen
/// digits.
pub open spec fn padded_hex(n: nat) -> Seq<char> {
    let digits = hex(n);
    "0x"@ + (if digits.len() < 16 {
        zeros((16 - digits.len()) as nat)
    } else {
        Seq::empty()
    }) + digits
}

/// Append an address in hexadecimal, with prefix and sixteen digits.
pub fn push_padded_hex(out: &mut String, n: u64)
    ensures
        final(out)@ == old(out)@ + padded_hex(n as nat),
{
    let mut digits = String::new();
    push_hex(&mut digits, n);
    assert(digits@ =~= hex(n as nat));
    let len: usize = chars_of(digits.as_str()).len();
    out.append("0x");
    let ghost head = out@;
    let mut filled: usize = 0;
    assert(out@ =~= head + zeros(0));
    if len < 16 {
        while filled < 16 - len
            invariant
                len < 16,
                filled <= 16 - len,
                out@ == head + zeros(filled as nat),
            decreases 16 - len - filled,
        {
            out.push('0');
            filled += 1;
            assert(out@ =~= head + zeros(filled as nat));
        }
    }
    out.append(digits.as_str());
    assert(out@ =~= old(out)@ + padded_hex(n as nat));
}

// ---------------------------------------------------------------------------
// Searching and cutting
// ---------------------------------------------------------------------------

/// `needle` stands in `hay` at position `at`.
pub open spec fn occurs_at<T>(hay: Seq<T>, needle: Seq<T>, at: int) -> bool {
    &&& 0 <= at
    &&& at + needle.len() <= hay.len()
    &&& hay.subrange(at, at + needle.len()) == needle
}

/// The first position at or after `from` where `needle` stands in `hay`.
pub open spec fn find<T>(hay: Seq<T>, needle: Seq<T>, from: int) -> Option<int>
    decreases hay.len() + 1 - from,
{
    if from + needle.len() > hay.len() {
        None
    } else if occurs_at(hay, needle, from) {
        Some(from)
    } else {
        find(hay, needle, from + 1)
    }
}

/// The last position at or before `upto` where `needle` stands in `hay`.
pub open spec fn rfind<T>(hay: Seq<T>, needle: Seq<T>, upto: int) -> Option<int>
    decreases upto + 1,
{
    if upto < 0 {
        None
    } else if occurs_at(hay, needle, upto) {
        Some(upto)
    } else {
        rfind(hay, needle, upto - 1)
    }
}

/// `needle` stands somewhere in `hay`.
pub open spec fn contains<T>(hay: Seq<T>, needle: Seq<T>) -> bool {
    exists|at: int| occurs_at(hay, needle, at)
}

/// `s` begins with `prefix`.
pub open spec fn starts_with(s: Seq<char>, prefix: Seq<char>) -> bool {
    occurs_at(s, prefix, 0)
}

/// What stands in `s` before the first `mark`, or all of `s` without one.
pub open spec fn before(s: Seq<char>, mark: Seq<char>) -> Seq<char> {
    match find(s, mark, 0) {
        Some(at) => s.take(at),
        None => s,
    }
}

/// What stands in `s` after the last `mark`, or all of `s` without one.
pub open spec fn after_last(s: Seq<char>, mark: Seq<char>) -> Seq<char> {
    match rfind(s, mark, s.len() - mark.len()) {
        Some(at) => s.skip(at + mark.len()),
        None => s,
    }
}

/// The `k`-th of the pieces that `mark` cuts `s` into, if there are that many.
pub open spec fn field(s: Seq<char>, mark: Seq<char>, k: nat) -> Option<Seq<char>>
    decreases k,
{
    if k == 0 {
        Some(before(s, mark))
    } else {
        match find(s, mark, 0) {
            Some(at) => field(s.skip(at + mark.len()), mark, (k - 1) as nat),
            None => None,
        }
    }
}

/// The first match is a match with no match before it.
pub proof fn lemma_find<T>(hay: Seq<T>, needle: Seq<T>, from: int)
    requires
        0 <= from,
    ensures
        match find(hay, needle, from) {
            Some(at) => from <= at && occurs_at(hay, needle, at) && forall|j: int|
                from <= j < at ==> !occurs_at(hay, needle, j),
            None => forall|j: int| from <= j ==> !occurs_at(hay, needle, j),
        },
    decreases hay.len() + 1 - from,
{
    if from + needle.len() > hay.len() {
    } else if occurs_at(hay, needle, from) {
    } else {
        lemma_find(hay, needle, from + 1);
    }
}

/// The last match is a match with no match after it.
pub proof fn lemma_rfind<T>(hay: Seq<T>, needle: Seq<T>, upto: int)
    ensures
        match rfind(hay, needle, upto) {
            Some(at) => at <= upto && occurs_at(hay, needle, at) && forall|j: int|
                at < j <= upto ==> !occurs_at(hay, needle, j),
            None => forall|j: int| j <= upto ==> !occurs_at(hay, needle, j),
        },
    decreases upto + 1,
{
    if upto < 0 {
    } else if occurs_at(hay, needle, upto) {
    } else {
        lemma_rfind(hay, needle, upto - 1);
    }
}

fn stands_at(hay: &[char], needle: &[char], at: usize) -> (r: bool)
    requires
        at + needle.len() <= hay.len(),
    ensures
        r == occurs_at(hay@, needle@, at as int),
{
    let mut i: usize = 0;
    while i < needle.len()
        invariant
            i <= needle.len(),
            at + needle.len() <= hay.len(),
            forall|j: int| 0 <= j < i ==> hay@[at + j] == needle@[j],
        decreases needle.len() - i,
    {
        if hay[at + i] != needle[i] {
            assert(hay@.subrange(at as int, at + needle.len())[i as int] != needle@[i as int]);
            return false;
        }
        i += 1;
    }
    assert(hay@.subrange(at as int, at + needle.len()) =~= needle@);
    true
}

/// The first position at or after `from` where `needle` stands in `hay`.
pub fn find_chars(hay: &[char], needle: &[char], from: usize) -> (r: Option<usize>)
    ensures
        match r {
            Some(at) => find(hay@, needle@, from as int) == Some(at as int) && occurs_at(
                hay@,
                needle@,
                at as int,
            ),
            None => find(hay@, needle@, from as int) is None,
        },
{
    if needle.len() > hay.len() {
        return None;
    }
    let last: usize = hay.len() - needle.len();
    let mut at: usize = from;
    while at <= last
        invariant
            last == hay.len() - needle.len(),
            find(hay@, needle@, from as int) == find(hay@, needle@, at as int),
        decreases last + 1 - at,
    {
        if stands_at(hay, needle, at) {
            return Some(at);
        }
        if at == last {
            assert(find(hay@, needle@, at + 1) is None);
            return None;
        }
        at += 1;
    }
    None
}

/// The last position where `needle` stands in `hay`.
pub fn rfind_chars(hay: &[char], needle: &[char]) -> (r: Option<usize>)
    ensures
        match r {
            Some(at) => rfind(hay@, needle@, hay@.len() - needle@.len()) == Some(at as int)
                && occurs_at(hay@, needle@, at as int),
            None => rfind(hay@, needle@, hay@.len() - needle@.len()) is None,
        },
{
    if needle.len() > hay.len() {
        return None;
    }
    let mut at: usize = hay.len() - needle.len();
    loop
        invariant
            at + needle.len() <= hay.len(),
            rfind(hay@, needle@, hay@.len() - needle@.len()) == rfind(hay@, needle@, at as int),
        decreases at,
    {
        if stands_at(hay, needle, at) {
            return Some(at);
        }
        if at == 0 {
            assert(rfind(hay@, needle@, -1) is None);
            return None;
        }
        at -= 1;
    }
}

/// Whether `needle` stands somewhere in `hay`.
pub fn contains_text(hay: &str, needle: &str) -> (r: bool)
    ensures
        r == contains(hay@, needle@),
{
    contains_chars(chars_of(hay).as_slice(), needle)
}

/// Whether `needle` stands somewhere in the characters `hay`.
pub fn contains_chars(hay: &[char], needle: &str) -> (r: bool)
    ensures
        r == contains(hay@, needle@),
{
    let n = chars_of(needle);
    proof {
        lemma_find(hay@, n@, 0);
    }
    match find_chars(hay, n.as_slice(), 0) {
        Some(_) => true,
        None => false,
    }
}

/// Whether `s` begins with `prefix`.
pub fn begins_with(s: &[char], prefix: &str) -> (r: bool)
    ensures
        r == starts_with(s@, prefix@),
{
    let p = chars_of(prefix);
    p.len() <= s.len() && stands_at(s, p.as_slice(), 0)
}

/// What stands in `s` before the first `mark`, or all of `s` without one.
pub fn cut_before<'a>(s: &'a [char], mark: &[char]) -> (r: &'a [char])
    ensures
        r@ == before(s@, mark@),
{
    match find_chars(s, mark, 0) {
        Some(at) => {
            let r = vstd::slice::slice_subrange(s, 0, at);
            assert(r@ =~= s@.take(at as int));
            r
        },
        None => s,
    }
}

/// What stands in `s` after the last `mark`, or all of `s` without one.
pub fn cut_after_last<'a>(s: &'a [char], mark: &[char]) -> (r: &'a [char])
    ensures
        r@ == after_last(s@, mark@),
{
    match rfind_chars(s, mark) {
        Some(at) => {
            let end: usize = s.len();
            let r = vstd::slice::slice_subrange(s, at + mark.len(), end);
            assert(r@ =~= s@.skip(at + mark@.len()));
            r
        },
        None => s,
    }
}

/// The `k`-th of the pieces that `mark` cuts `s` into, if there are that many.
pub fn cut_field<'a>(s: &'a [char], mark: &[char], k: usize) -> (r: Option<&'a [char]>)
    ensures
        match r {
            Some(piece) => field(s@, mark@, k as nat) == Some(piece@),
            None => field(s@, mark@, k as nat) is None,
        },
    decreases k,
{
    if k == 0 {
        Some(cut_before(s, mark))
    } else {
        match find_chars(s, mark, 0) {
            Some(at) => {
                let end: usize = s.len();
                let rest = vstd::slice::slice_subrange(s, at + mark.len(), end);
                assert(rest@ =~= s@.skip(at + mark@.len()));
                cut_field(rest, mark, k - 1)
            },
            None => None,
        }
    }
}

// ---------------------------------------------------------------------------
// Reading numbers
// ---------------------------------------------------------------------------

/// The value of a character as a digit; 99 for one that is none.
pub open spec fn digit_value(c: char) -> nat {
    if '0' <= c <= '9' {
        (c as nat - 48) as nat
    } else if 'a' <= c <= 'z' {
        (c as nat - 87) as nat
    } else if 'A' <= c <= 'Z' {
        (c as nat - 55) as nat
    } else {
        99
    }
}

/// `c` is a digit in the given base.
pub open spec fn is_digit(c: char, base: nat) -> bool {
    digit_value(c) < base
}

/// The number that the digits `s` write in the given base.
pub open spec fn digits_value(s: Seq<char>, base: nat) -> nat
    decreases s.len(),
{
    if s.len() == 0 {
        0
    } else {
        digits_value(s.drop_last(), base) * base + digit_value(s.last())
    }
}

/// Every character of `s` is a digit in the given base.
pub open spec fn all_digits(s: Seq<char>, base: nat) -> bool {
    forall|i: int| 0 <= i < s.len() ==> is_digit(#[trigger] s[i], base)
}

/// `s` without one leading plus sign.
pub open spec fn without_plus(s: Seq<char>) -> Seq<char> {
    if s.len() > 0 && s[0] == '+' {
        s.skip(1)
    } else {
        s
    }
}

/// The unsigned number that `s` writes in the given base: digits only, at least
/// one, after an optional plus sign, and no more than `max`.
pub open spec fn unsigned(s: Seq<char>, base: nat, max: nat) -> Option<nat> {
    let body = without_plus(s);
    if body.len() > 0 && all_digits(body, base) && digits_value(body, base) <= max {
        Some(digits_value(body, base))
    } else {
        None
    }
}

/// The leading run of decimal digits of `s`.
pub open spec fn leading_digits(s: Seq<char>) -> Seq<char>
    decreases s.len(),
{
    if s.len() > 0 && is_digit(s[0], 10) {
        seq![s[0]] + leading_digits(s.skip(1))
    } else {
        Seq::empty()
    }
}

/// The number that the leading decimal digits of `s` write, where there is at
/// least one digit and the number is no more than `max`.
pub open spec fn leading_number(s: Seq<char>, max: nat) -> Option<nat> {
    let run = leading_digits(s);
    if run.len() > 0 && digits_value(run, 10) <= max {
        Some(digits_value(run, 10))
    } else {
        None
    }
}

/// What is written in decimal reads as the number: decimal digits, at least one,
/// whose value is the number.
pub proof fn lemma_decimal(n: nat)
    ensures
        decimal(n).len() > 0,
        all_digits(decimal(n), 10),
        digits_value(decimal(n), 10) == n,
        forall|i: int|
            0 <= i < decimal(n).len() ==> '0' <= (#[trigger] decimal(n)[i]) <= '9',
    decreases n,
{
    let s = decimal(n);
    if n < 10 {
        reveal_with_fuel(digits_value, 2);
        assert(s.drop_last() =~= Seq::empty());
        assert(s.last() == digit(n));
    } else {
        lemma_decimal(n / 10);
        let head = decimal(n / 10);
        assert(s.drop_last() =~= head);
        assert(s.last() == digit(n % 10));
        assert forall|i: int| 0 <= i < s.len() implies '0' <= (#[trigger] s[i]) <= '9' by {
            if i < head.len() {
                assert(s[i] == head[i]);
            }
        }
        assert(n == n / 10 * 10 + n % 10);
    }
}

/// What is written in hexadecimal reads as the number: hexadecimal digits, at
/// least one, none of them a sign, whose value is the number.
pub proof fn lemma_hex(n: nat)
    ensures
        hex(n).len() > 0,
        all_digits(hex(n), 16),
        digits_value(hex(n), 16) == n,
        hex(n)[0] != '+',
    decreases n,
{
    let s = hex(n);
    if n < 16 {
        reveal_with_fuel(digits_value, 2);
        assert(s.drop_last() =~= Seq::empty());
        assert(s.last() == digit(n));
    } else {
        lemma_hex(n / 16);
        let head = hex(n / 16);
        assert(s.drop_last() =~= head);
        assert(s.last() == digit(n % 16));
        assert forall|i: int| 0 <= i < s.len() implies is_digit(#[trigger] s[i], 16) by {
            if i < head.len() {
                assert(s[i] == head[i]);
            }
        }
        assert(s[0] == head[0]);
        assert(n == n / 16 * 16 + n % 16);
    }
}

/// More digits write a number that is no smaller.
pub proof fn lemma_digits_grow(s: Seq<char>, base: nat, i: int)
    requires
        0 <= i <= s.len(),
        base >= 1,
    ensures
        digits_value(s.take(i), base) <= digits_value(s, base),
    decreases s.len() - i,
{
    if i == s.len() {
        assert(s.take(i) == s);
    } else {
        lemma_digits_grow(s, base, i + 1);
        let t = s.take(i + 1);
        assert(t.drop_last() == s.take(i));
        assert(digits_value(t, base) == digits_value(s.take(i), base) * base + digit_value(
            t.last(),
        ));
        let low = digits_value(s.take(i), base);
        assert(low * base >= low) by (nonlinear_arith)
            requires
                base >= 1,
                low >= 0,
        ;
    }
}

/// The leading run of digits is the longest prefix of digits.
pub proof fn lemma_leading_digits(s: Seq<char>, n: int)
    requires
        0 <= n <= s.len(),
        forall|i: int| 0 <= i < n ==> is_digit(#[trigger] s[i], 10),
        n < s.len() ==> !is_digit(s[n], 10),
    ensures
        leading_digits(s) == s.take(n),
    decreases n,
{
    if n > 0 {
        let t = s.skip(1);
        assert forall|i: int| 0 <= i < n - 1 implies is_digit(#[trigger] t[i], 10) by {
            assert(t[i] == s[i + 1]);
        }
        if n - 1 < t.len() {
            assert(t[n - 1] == s[n]);
        }
        lemma_leading_digits(t, n - 1);
        assert(seq![s[0]] + t.take(n - 1) =~= s.take(n));
    } else {
        assert(s.take(0) =~= Seq::empty());
    }
}

fn value_of(c: char) -> (r: u64)
    ensures
        r == digit_value(c),
{
    if '0' <= c && c <= '9' {
        c as u64 - 48
    } else if 'a' <= c && c <= 'z' {
        c as u64 - 87
    } else if 'A' <= c && c <= 'Z' {
        c as u64 - 55
    } else {
        99
    }
}

/// The number that the digits `s` write in the given base, if they are digits
/// and the number is no more than `max`.
fn parse_digits(s: &[char], base: u64, max: u64) -> (r: Option<u64>)
    requires
        2 <= base <= 36,
    ensures
        match r {
            Some(v) => all_digits(s@, base as nat) && digits_value(s@, base as nat) == v && v
                <= max,
            None => !(all_digits(s@, base as nat) && digits_value(s@, base as nat) <= max),
        },
{
    let mut value: u128 = 0;
    let mut i: usize = 0;
    assert(s@.take(0) =~= Seq::empty());
    while i < s.len()
        invariant
            i <= s.len(),
            2 <= base <= 36,
            value == digits_value(s@.take(i as int), base as nat),
            value <= max,
            forall|j: int| 0 <= j < i ==> is_digit(#[trigger] s@[j], base as nat),
        decreases s.len() - i,
    {
        let d: u64 = value_of(s[i]);
        if d >= base {
            assert(!is_digit(s@[i as int], base as nat));
            return None;
        }
        proof {
            let t = s@.take(i + 1);
            assert(t.drop_last() == s@.take(i as int));
            assert(t.last() == s@[i as int]);
            assert(value * base + d <= 0x1_0000_0000_0000_0000 * 36 + 36) by (nonlinear_arith)
                requires
                    value <= 0xffff_ffff_ffff_ffff,
                    base <= 36,
                    d < base,
            ;
        }
        value = value * (base as u128) + (d as u128);
        if value > max as u128 {
            proof {
                lemma_digits_grow(s@, base as nat, i + 1);
            }
            return None;
        }
        i += 1;
    }
    assert(s@.take(s@.len() as int) =~= s@);
    Some(value as u64)
}

/// The unsigned number that `s` writes in the given base.
pub fn parse_unsigned(s: &[char], base: u64, max: u64) -> (r: Option<u64>)
    requires
        2 <= base <= 36,
    ensures
        match r {
            Some(v) => unsigned(s@, base as nat, max as nat) == Some(v as nat),
            None => unsigned(s@, base as nat, max as nat) is None,
        },
{
    let body: &[char] = if s.len() > 0 && s[0] == '+' {
        vstd::slice::slice_subrange(s, 1, s.len())
    } else {
        s
    };
    assert(body@ =~= without_plus(s@));
    if body.len() == 0 {
        None
    } else {
        parse_digits(body, base, max)
    }
}

/// The number that the leading decimal digits of `s` write.
pub fn parse_leading(s: &[char], max: u64) -> (r: Option<u64>)
    ensures
        match r {
            Some(v) => leading_number(s@, max as nat) == Some(v as nat),
            None => leading_number(s@, max as nat) is None,
        },
{
    let mut n: usize = 0;
    while n < s.len() && value_of(s[n]) < 10
        invariant
            n <= s.len(),
            forall|i: int| 0 <= i < n ==> is_digit(#[trigger] s@[i], 10),
        decreases s.len() - n,
    {
        n += 1;
    }
    proof {
        lemma_leading_digits(s@, n as int);
    }
    let run = vstd::slice::slice_subrange(s, 0, n);
    assert(run@ =~= s@.take(n as int));
    if n == 0 {
        None
    } else {
        parse_digits(run, 10, max)
    }
}

// ---------------------------------------------------------------------------
// Dotted versions
// ---------------------------------------------------------------------------

/// The version that `major.minor[.patch]` writes: each part is the number that
/// its leading digits write; a patch that is absent or no number counts as 0.
pub open spec fn dotted(s: Seq<char>) -> Option<(nat, nat, nat)> {
    match (field(s, "."@, 0), field(s, "."@, 1)) {
        (Some(a), Some(b)) => match (
            leading_number(a, 0xffff),
            leading_number(b, 0xffff),
        ) {
            (Some(major), Some(minor)) => Some(
                (
                    major,
                    minor,
                    match field(s, "."@, 2) {
                        Some(c) => match leading_number(c, 0xffff) {
                            Some(patch) => patch,
                            None => 0,
                        },
                        None => 0,
                    },
                ),
            ),
            _ => None,
        },
        _ => None,
    }
}

/// Parse `major.minor[.patch]`.
pub fn parse_dotted(s: &[char]) -> (r: Option<(u16, u16, u16)>)
    ensures
        match r {
            Some(v) => dotted(s@) == Some((v.0 as nat, v.1 as nat, v.2 as nat)),
            None => dotted(s@) is None,
        },
{
    let dot = chars_of(".");
    let major = match cut_field(s, dot.as_slice(), 0) {
        Some(a) => match parse_leading(a, 0xffff) {
            Some(n) => n,
            None => {
                return None;
            },
        },
        None => {
            return None;
        },
    };
    let minor = match cut_field(s, dot.as_slice(), 1) {
        Some(b) => match parse_leading(b, 0xffff) {
            Some(n) => n,
            None => {
                return None;
            },
        },
        None => {
            return None;
        },
    };
    let patch = match cut_field(s, dot.as_slice(), 2) {
        Some(c) => match parse_leading(c, 0xffff) {
            Some(n) => n,
            None => 0,
        },
        None => 0,
    };
    Some((major as u16, minor as u16, patch as u16))
}

// ---------------------------------------------------------------------------
// White space
// ---------------------------------------------------------------------------

/// The Unicode property `White_Space`.
pub open spec fn is_space(c: char) -> bool {
    let n = c as int;
    9 <= n <= 13 || n == 0x20 || n == 0x85 || n == 0xa0 || n == 0x1680 || 0x2000 <= n <= 0x200a
        || n == 0x2028 || n == 0x2029 || n == 0x202f || n == 0x205f || n == 0x3000
}

/// `s` without its leading white space.
pub open spec fn trim_start(s: Seq<char>) -> Seq<char>
    decreases s.len(),
{
    if s.len() > 0 && is_space(s[0]) {
        trim_start(s.skip(1))
    } else {
        s
    }
}

/// `s` without its trailing white space.
pub open spec fn trim_end(s: Seq<char>) -> Seq<char>
    decreases s.len(),
{
    if s.len() > 0 && is_space(s.last()) {
        trim_end(s.drop_last())
    } else {
        s
    }
}

/// `s` without white space at either end.
pub open spec fn trim(s: Seq<char>) -> Seq<char> {
    trim_end(trim_start(s))
}

/// Whether a character is white space.
pub fn is_white(c: char) -> (r: bool)
    ensures
        r == is_space(c),
{
    let n: u32 = c as u32;
    (9 <= n && n <= 13) || n == 0x20 || n == 0x85 || n == 0xa0 || n == 0x1680 || (0x2000 <= n && n
        <= 0x200a) || n == 0x2028 || n == 0x2029 || n == 0x202f || n == 0x205f || n == 0x3000
}

/// `s` without its trailing white space.
pub fn trimmed_end<'a>(s: &'a [char]) -> (r: &'a [char])
    ensures
        r@ == trim_end(s@),
{
    let mut to: usize = s.len();
    assert(s@.take(to as int) =~= s@);
    while to > 0 && is_white(s[to - 1])
        invariant
            to <= s.len(),
            trim_end(s@) == trim_end(s@.take(to as int)),
        decreases to,
    {
        assert(s@.take(to as int).drop_last() =~= s@.take(to - 1));
        to -= 1;
    }
    let r = vstd::slice::slice_subrange(s, 0, to);
    assert(r@ =~= s@.take(to as int));
    r
}

/// `s` without white space at either end.
pub fn trimmed<'a>(s: &'a [char]) -> (r: &'a [char])
    ensures
        r@ == trim(s@),
{
    let mut from: usize = 0;
    assert(s@.skip(0) =~= s@);
    while from < s.len() && is_white(s[from])
        invariant
            from <= s.len(),
            trim_start(s@) == trim_start(s@.skip(from as int)),
        decreases s.len() - from,
    {
        assert(s@.skip(from as int).skip(1) =~= s@.skip(from + 1));
        from += 1;
    }
    let mut to: usize = s.len();
    let ghost kept = s@.skip(from as int);
    assert(trim_start(s@) == kept);
    assert(s@.subrange(from as int, to as int) =~= kept);
    while from < to && is_white(s[to - 1])
        invariant
            from <= to <= s.len(),
            trim_end(kept) == trim_end(s@.subrange(from as int, to as int)),
        decreases to,
    {
        assert(s@.subrange(from as int, to as int).drop_last() =~= s@.subrange(
            from as int,
            to - 1,
        ));
        to -= 1;
    }
    vstd::slice::slice_subrange(s, from, to)
}

} // verus!
