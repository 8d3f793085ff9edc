//! Laws of reading text: numbers read as they were written, and texts come apart
//! as they were put together.
use vstd::prelude::*;

use super::parts;
use crate::bytes;
use crate::text;

verus! {

// ---------------------------------------------------------------------------
// Numbers
// ---------------------------------------------------------------------------

/// The ten figures count as 0 to 9, and in base sixteen the letters from `a` to
/// `f`, of either case, as 10 to 15; nothing else is a digit there.
pub proof fn law_digits_have_their_values(c: char)
    ensures
        '0' <= c <= '9' ==> text::digit_value(c) == c as int - '0' as int,
        'a' <= c <= 'f' ==> text::digit_value(c) == 10 + (c as int - 'a' as int),
        'A' <= c <= 'F' ==> text::digit_value(c) == 10 + (c as int - 'A' as int),
        text::is_digit(c, 10) <==> '0' <= c <= '9',
        text::is_digit(c, 16) <==> '0' <= c <= '9' || 'a' <= c <= 'f' || 'A' <= c <= 'F',
{
}

/// A number is read as it is written, in base ten and sixteen, with or without a
/// plus sign, if it is no more than the greatest that is asked for.
pub proof fn law_a_number_reads_as_written(n: nat, max: nat)
    ensures
        n <= max ==> text::unsigned(text::decimal(n), 10, max) == Some(n) && text::unsigned(
            seq!['+'] + text::decimal(n),
            10,
            max,
        ) == Some(n) && text::unsigned(text::hex(n), 16, max) == Some(n),
        n > max ==> text::unsigned(text::decimal(n), 10, max) is None && text::unsigned(
            text::hex(n),
            16,
            max,
        ) is None,
{
    text::lemma_decimal(n);
    text::lemma_hex(n);
    assert(text::decimal(n)[0] != '+');
    assert((seq!['+'] + text::decimal(n)).skip(1) =~= text::decimal(n));
}

/// A digit more multiplies by the base and adds its value.
pub proof fn law_each_digit_counts_by_its_place(s: Seq<char>, c: char, base: nat)
    ensures
        text::digits_value(s.push(c), base) == text::digits_value(s, base) * base
            + text::digit_value(c),
        text::digits_value(Seq::empty(), base) == 0,
{
    assert(s.push(c).drop_last() =~= s);
}

/// A text that holds anything but digits, after a plus sign or without one, or
/// no digit at all, is no number.
pub proof fn law_only_digits_are_a_number(s: Seq<char>, base: nat, max: nat, i: int)
    requires
        s.len() == 0 || s == seq!['+'] || (0 <= i < s.len() && !text::is_digit(s[i], base) && !(i
            == 0 && s[i] == '+')),
    ensures
        text::unsigned(s, base, max) is None,
{
    let body = text::without_plus(s);
    if s.len() > 0 && s != seq!['+'] {
        if s[0] == '+' {
            assert(body[i - 1] == s[i]);
        } else {
            assert(body[i] == s[i]);
        }
    }
}

/// A signed number is read as it is written, if it fits 32 bits.
pub proof fn law_a_signed_number_reads_as_written(n: int)
    ensures
        i32::MIN <= n <= i32::MAX <==> parts::signed(text::signed_decimal(n)) is Some,
        i32::MIN <= n <= i32::MAX ==> parts::signed(text::signed_decimal(n)) == Some(n as i32),
{
    if n < 0 {
        let m = (-n) as nat;
        text::lemma_decimal(m);
        assert((seq!['-'] + text::decimal(m)).skip(1) =~= text::decimal(m));
    } else {
        text::lemma_decimal(n as nat);
        law_a_number_reads_as_written(n as nat, 0x7fff_ffff);
        assert(text::decimal(n as nat)[0] != '-');
    }
}

// ---------------------------------------------------------------------------
// Fields
// ---------------------------------------------------------------------------

/// What stands before the first mark is the first field, and what follows the
/// mark holds the others; without a mark all is one field.
pub proof fn law_marks_part_the_fields(a: Seq<char>, c: char, rest: Seq<char>, k: nat)
    requires
        !a.contains(c),
    ensures
        text::field(a + seq![c] + rest, seq![c], 0) == Some(a),
        text::field(a + seq![c] + rest, seq![c], k + 1) == text::field(rest, seq![c], k),
        text::field(a, seq![c], 0) == Some(a),
        text::field(a, seq![c], k + 1) is None,
{
    let s = a + seq![c] + rest;
    let n = a.len() as int;
    lemma_first_mark(s, c, n);
    lemma_first_mark(a, c, n);
    assert(s.take(n) =~= a);
    assert(s.skip(n + 1) =~= rest);
    assert(s.subrange(0, n) =~= a);
}

/// A character that stands nowhere before a place is found there, or, where that
/// is the end, nowhere.
proof fn lemma_first_mark(s: Seq<char>, c: char, n: int)
    requires
        0 <= n <= s.len(),
        !s.take(n).contains(c),
        n < s.len() ==> s[n] == c,
    ensures
        n < s.len() ==> text::find(s, seq![c], 0) == Some(n),
        n == s.len() ==> text::find(s, seq![c], 0) is None,
{
    text::lemma_find(s, seq![c], 0);
    assert forall|j: int| 0 <= j < n implies !text::occurs_at(s, seq![c], j) by {
        assert(s.take(n)[j] == s[j]);
        if text::occurs_at(s, seq![c], j) {
            assert(s.subrange(j, j + 1)[0] == c);
        }
    }
    if n < s.len() {
        assert(s.subrange(n, n + 1) =~= seq![c]);
        assert(text::occurs_at(s, seq![c], n));
    }
}

/// The number that a text begins with, where something else than a digit
/// follows.
proof fn lemma_leading_number(n: nat, tail: Seq<char>)
    requires
        tail.len() > 0 ==> !text::is_digit(tail[0], 10),
        n <= 0xffff,
    ensures
        text::leading_number(text::decimal(n) + tail, 0xffff) == Some(n),
{
    text::lemma_decimal(n);
    let d = text::decimal(n);
    let s = d + tail;
    assert forall|i: int| 0 <= i < d.len() implies text::is_digit(#[trigger] s[i], 10) by {
        assert(s[i] == d[i]);
    }
    text::lemma_leading_digits(s, d.len() as int);
    assert(s.take(d.len() as int) =~= d);
}

/// A version reads as it is written: three numbers with dots between them, or
/// two where the third is 0. Something else than a digit may follow, and where
/// there are but two numbers, no dot.
pub proof fn law_a_version_reads_as_written(a: nat, b: nat, c: nat, tail: Seq<char>)
    requires
        a <= 0xffff,
        b <= 0xffff,
        c <= 0xffff,
        tail.len() > 0 ==> !text::is_digit(tail[0], 10),
    ensures
        text::dotted(
            text::decimal(a) + seq!['.'] + text::decimal(b) + seq!['.'] + text::decimal(c) + tail,
        ) == Some((a, b, c)),
        !tail.contains('.') ==> text::dotted(
            text::decimal(a) + seq!['.'] + text::decimal(b) + tail,
        ) == Some((a, b, 0nat)),
{
    reveal_strlit(".");
    assert("."@ =~= seq!['.']);
    let (x, y, z) = (text::decimal(a), text::decimal(b), text::decimal(c));
    text::lemma_decimal(a);
    text::lemma_decimal(b);
    text::lemma_decimal(c);
    let dot = seq!['.'];
    let none = Seq::<char>::empty();
    let third = z + tail;
    let second = y + dot + third;
    let whole = x + dot + y + dot + z + tail;
    assert(whole =~= x + dot + second);
    law_marks_part_the_fields(x, '.', second, 0);
    law_marks_part_the_fields(x, '.', second, 1);
    law_marks_part_the_fields(y, '.', third, 0);
    lemma_leading_number(a, none);
    lemma_leading_number(b, none);
    assert(x + none =~= x && y + none =~= y);
    let last = text::field(third, dot, 0)->Some_0;
    assert(text::field(whole, dot, 2) == text::field(third, dot, 0));
    assert(last == text::before(third, dot));
    text::lemma_find(third, dot, 0);
    match text::find(third, dot, 0) {
        Some(at) => {
            assert(third.subrange(at, at + 1)[0] == '.');
            assert(at >= z.len()) by {
                if at < z.len() {
                    assert(third[at] == z[at]);
                }
            }
            assert(last =~= z + tail.take(at - z.len()));
            lemma_leading_number(c, tail.take(at - z.len()));
        },
        None => {
            lemma_leading_number(c, tail);
        },
    }
    if !tail.contains('.') {
        let short = x + dot + y + tail;
        let rest = y + tail;
        assert(short =~= x + dot + rest);
        law_marks_part_the_fields(x, '.', rest, 0);
        law_marks_part_the_fields(x, '.', rest, 1);
        assert(!rest.contains('.')) by {
            if rest.contains('.') {
                let i = choose|i: int| 0 <= i < rest.len() && rest[i] == '.';
                if i < y.len() {
                    assert(y[i] == '.');
                } else {
                    assert(tail[i - y.len()] == '.');
                }
            }
        }
        law_marks_part_the_fields(rest, '.', none, 0);
        lemma_leading_number(b, tail);
    }
}

// ---------------------------------------------------------------------------
// White space, words and lines
// ---------------------------------------------------------------------------

/// Trimming takes white space from both ends, all of it and nothing else.
pub proof fn law_trimming_takes_all_the_space_around(a: Seq<char>, s: Seq<char>, b: Seq<char>)
    requires
        forall|i: int| 0 <= i < a.len() ==> text::is_space(#[trigger] a[i]),
        forall|i: int| 0 <= i < b.len() ==> text::is_space(#[trigger] b[i]),
        s.len() > 0 ==> !text::is_space(s[0]) && !text::is_space(s.last()),
    ensures
        text::trim(a + s + b) == s,
        s.len() > 0 ==> text::trim_end(a + s + b) == a + s,
{
    if s.len() == 0 {
        let whole = a + s + b;
        assert forall|i: int| 0 <= i < whole.len() implies text::is_space(#[trigger] whole[i]) by {
            if i < a.len() {
                assert(whole[i] == a[i]);
            } else {
                assert(whole[i] == b[i - a.len()]);
            }
        }
        lemma_trim_start(whole, Seq::empty());
        assert(whole + Seq::empty() =~= whole);
        assert(s =~= Seq::<char>::empty());
        assert(text::trim_end(s) == s);
    } else {
        assert(a + s + b =~= a + (s + b));
        lemma_trim_start(a, s + b);
        lemma_trim_end(s, b);
        lemma_trim_end(a + s, b);
    }
}

proof fn lemma_trim_start(a: Seq<char>, s: Seq<char>)
    requires
        forall|i: int| 0 <= i < a.len() ==> text::is_space(#[trigger] a[i]),
        s.len() > 0 ==> !text::is_space(s[0]),
    ensures
        text::trim_start(a + s) == s,
    decreases a.len(),
{
    if a.len() == 0 {
        assert(a + s =~= s);
    } else {
        assert((a + s)[0] == a[0]);
        assert((a + s).skip(1) =~= a.skip(1) + s);
        lemma_trim_start(a.skip(1), s);
    }
}

proof fn lemma_trim_end(s: Seq<char>, b: Seq<char>)
    requires
        forall|i: int| 0 <= i < b.len() ==> text::is_space(#[trigger] b[i]),
        s.len() > 0 ==> !text::is_space(s.last()),
    ensures
        text::trim_end(s + b) == s,
    decreases b.len(),
{
    if b.len() == 0 {
        assert(s + b =~= s);
    } else {
        assert((s + b).last() == b.last());
        assert((s + b).drop_last() =~= s + b.drop_last());
        lemma_trim_end(s, b.drop_last());
    }
}

/// Pieces are parted by separators: one without a separator stays whole, and the
/// pieces on either side of a separator follow each other.
pub proof fn law_separators_part_the_pieces(a: Seq<char>, sep: char, b: Seq<char>)
    ensures
        !a.contains(sep) ==> parts::pieces(a, sep) == seq![a],
        parts::pieces(a + seq![sep] + b, sep) == parts::pieces(a, sep) + parts::pieces(b, sep),
    decreases a.len() + b.len(),
{
    lemma_pieces_not_empty(a, sep);
    lemma_pieces_not_empty(b, sep);
    if !a.contains(sep) && a.len() > 0 {
        let c = a.drop_last();
        assert(!c.contains(sep)) by {
            if c.contains(sep) {
                let i = choose|i: int| 0 <= i < c.len() && c[i] == sep;
                assert(a[i] == sep);
            }
        }
        law_separators_part_the_pieces(c, sep, Seq::empty());
        assert(a[a.len() - 1] != sep);
        assert(seq![c].drop_last() =~= Seq::empty());
        assert(c.push(a.last()) =~= a);
        assert(parts::pieces(a, sep) =~= seq![a]);
    } else if !a.contains(sep) {
        assert(a =~= Seq::empty());
    }
    let s = a + seq![sep] + b;
    if b.len() == 0 {
        assert(s.drop_last() =~= a);
        assert(s.last() == sep);
        assert(parts::pieces(b, sep) =~= seq![Seq::<char>::empty()]);
        assert(parts::pieces(s, sep) =~= parts::pieces(a, sep) + parts::pieces(b, sep));
    } else {
        let t = b.drop_last();
        law_separators_part_the_pieces(a, sep, t);
        lemma_pieces_not_empty(t, sep);
        assert(s.drop_last() =~= a + seq![sep] + t);
        assert(s.last() == b.last());
        assert(parts::pieces(s, sep) =~= parts::pieces(a, sep) + parts::pieces(b, sep));
    }
}

proof fn lemma_pieces_not_empty(s: Seq<char>, sep: char)
    ensures
        parts::pieces(s, sep).len() > 0,
    decreases s.len(),
{
    if s.len() > 0 {
        lemma_pieces_not_empty(s.drop_last(), sep);
    }
}

/// A line ends at its newline, and a carriage return before that is no part of
/// it; the lines after it follow. Without a newline all that there is is one
/// line.
pub proof fn law_newlines_end_the_lines(line: Seq<char>, rest: Seq<char>)
    requires
        !line.contains('\n'),
    ensures
        line.len() == 0 || line.last() != '\r' ==> parts::lines_of(line + seq!['\n'] + rest)
            == seq![line] + parts::lines_of(rest),
        line.len() > 0 && line.last() == '\r' ==> parts::lines_of(line + seq!['\n'] + rest)
            == seq![line.drop_last()] + parts::lines_of(rest),
        line.len() > 0 ==> parts::lines_of(line) == seq![line],
        parts::lines_of(Seq::empty()) == Seq::<Seq<char>>::empty(),
{
    law_separators_part_the_pieces(line, '\n', rest);
    lemma_pieces_not_empty(rest, '\n');
    let all = parts::pieces(line + seq!['\n'] + rest, '\n');
    let more = parts::pieces(rest, '\n');
    assert(all == seq![line] + more);
    let cut = |p: Seq<char>| parts::without_return(p);
    assert(all.drop_last().map_values(cut) =~= seq![parts::without_return(line)]
        + more.drop_last().map_values(cut));
    assert(all.last() == more.last());
    let (x, y) = (seq![parts::without_return(line)], more.drop_last().map_values(cut));
    assert((x + y).push(more.last()) =~= x + y.push(more.last()));
    law_separators_part_the_pieces(Seq::empty(), '\n', Seq::empty());
    assert(seq![line].drop_last().map_values(cut) =~= Seq::empty());
    assert(Seq::<Seq<char>>::empty().push(line) =~= seq![line]);
    let empty = Seq::<char>::empty();
    assert(parts::pieces(empty, '\n') =~= seq![empty]);
    assert(seq![empty].drop_last().map_values(cut) =~= Seq::<Seq<char>>::empty());
}

/// Words are parted by white space, however much of it: one without any stays
/// whole, and the words on either side follow each other.
pub proof fn law_space_parts_the_words(a: Seq<char>, space: char, b: Seq<char>)
    requires
        text::is_space(space),
    ensures
        parts::words_of(a + seq![space] + b) == parts::words_of(a) + parts::words_of(b),
        a.len() > 0 && (forall|i: int| 0 <= i < a.len() ==> !text::is_space(#[trigger] a[i]))
            ==> parts::words_of(a) == seq![a],
        parts::words_of(Seq::empty()) == Seq::<Seq<char>>::empty(),
    decreases a.len() + b.len(),
{
    if a.len() > 0 && (forall|i: int| 0 <= i < a.len() ==> !text::is_space(#[trigger] a[i])) {
        let c = a.drop_last();
        if c.len() > 0 {
            assert forall|i: int| 0 <= i < c.len() implies !text::is_space(#[trigger] c[i]) by {
                assert(a[i] == c[i]);
            }
            law_space_parts_the_words(c, space, Seq::empty());
            assert(!text::is_space(a[a.len() - 2]));
            assert(seq![c].drop_last() =~= Seq::empty());
            assert(c.push(a.last()) =~= a);
            assert(!text::is_space(a[a.len() - 1]));
            assert(parts::words_of(a) =~= seq![a]);
        } else {
            assert(parts::words_of(c) =~= Seq::empty());
            assert(!text::is_space(a[a.len() - 1]));
            assert(seq![a.last()] =~= a);
            assert(parts::words_of(a) =~= seq![a]);
        }
    }
    let s = a + seq![space] + b;
    if b.len() == 0 {
        assert(s.drop_last() =~= a);
        assert(s.last() == space);
        assert(parts::words_of(s) =~= parts::words_of(a) + parts::words_of(b));
    } else {
        let t = b.drop_last();
        law_space_parts_the_words(a, space, t);
        assert(s.drop_last() =~= a + seq![space] + t);
        assert(s.last() == b.last());
        if t.len() == 0 {
            assert(s[s.len() - 2] == space);
        } else {
            assert(s[s.len() - 2] == b[b.len() - 2]);
            if !text::is_space(b[b.len() - 2]) {
                lemma_words_not_empty(t);
            }
        }
        assert(parts::words_of(s) =~= parts::words_of(a) + parts::words_of(b));
    }
}

proof fn lemma_words_not_empty(s: Seq<char>)
    requires
        s.len() > 0,
        !text::is_space(s.last()),
    ensures
        parts::words_of(s).len() > 0,
{
}

/// What is put before and after a text leaves the text in it.
pub proof fn law_a_text_stands_in_what_holds_it(a: Seq<char>, s: Seq<char>, b: Seq<char>)
    ensures
        text::contains(a + s + b, s),
        text::contains(a + s, s),
        text::contains(s + b, s),
{
    let n = a.len() as int;
    assert((a + s + b).subrange(n, n + s.len()) =~= s);
    assert(text::occurs_at(a + s + b, s, n));
    assert((a + s).subrange(n, n + s.len()) =~= s);
    assert(text::occurs_at(a + s, s, n));
    assert((s + b).subrange(0, s.len() as int) =~= s);
    assert(text::occurs_at(s + b, s, 0));
}

/// An address is written as `0x` and sixteen hexadecimal digits, which read as
/// the address.
pub proof fn law_an_address_is_written_in_sixteen_digits(n: u64)
    ensures
        text::padded_hex(n as nat).len() == 18,
        text::padded_hex(n as nat)[0] == '0',
        text::padded_hex(n as nat)[1] == 'x',
        text::all_digits(text::padded_hex(n as nat).skip(2), 16),
        text::digits_value(text::padded_hex(n as nat).skip(2), 16) == n,
{
    let digits = text::hex(n as nat);
    reveal_strlit("0x");
    text::lemma_hex(n as nat);
    bytes::lemma_pow256_values();
    lemma_hex_len(n as nat, 8);
    let k = (16 - digits.len()) as nat;
    lemma_zeros(k, digits);
    let all = text::padded_hex(n as nat);
    assert(all.skip(2) =~= text::zeros(k) + digits) by {
        if k == 0 {
            assert(text::zeros(0) =~= Seq::empty());
        }
    }
    assert(all[0] == "0x"@[0] && all[1] == "0x"@[1]);
}

proof fn lemma_hex_len(n: nat, k: nat)
    requires
        k >= 1,
        n < bytes::pow256(k),
    ensures
        text::hex(n).len() <= 2 * k,
    decreases k,
{
    reveal_with_fuel(text::hex, 3);
    if n >= 256 {
        assert(k > 1) by {
            if k == 1 {
                reveal_with_fuel(bytes::pow256, 2);
            }
        }
        assert(bytes::pow256(k) == 256 * bytes::pow256((k - 1) as nat));
        assert(n / 256 < bytes::pow256((k - 1) as nat));
        lemma_hex_len(n / 256, (k - 1) as nat);
        assert(n / 16 / 16 == n / 256);
    }
}

proof fn lemma_zeros(k: nat, digits: Seq<char>)
    requires
        text::all_digits(digits, 16),
    ensures
        text::zeros(k).len() == k,
        text::all_digits(text::zeros(k) + digits, 16),
        text::digits_value(text::zeros(k) + digits, 16) == text::digits_value(digits, 16),
    decreases k,
{
    if k == 0 {
        assert(text::zeros(0) + digits =~= digits);
    } else {
        let before = text::zeros((k - 1) as nat);
        lemma_zeros((k - 1) as nat, Seq::empty());
        assert(before + Seq::empty() =~= before);
        let zeros = text::zeros(k);
        law_each_digit_counts_by_its_place(before, '0', 16);
        assert(text::digits_value(zeros, 16) == 0);
        lemma_value_after_zeros(zeros, digits);
        assert forall|i: int| 0 <= i < (zeros + digits).len() implies text::is_digit(
            #[trigger] (zeros + digits)[i],
            16,
        ) by {
            if i < k - 1 {
                assert((zeros + digits)[i] == before[i]);
            } else if i == k - 1 {
                assert((zeros + digits)[i] == '0');
            } else {
                assert((zeros + digits)[i] == digits[i - k]);
            }
        }
    }
}

proof fn lemma_value_after_zeros(zeros: Seq<char>, digits: Seq<char>)
    requires
        text::digits_value(zeros, 16) == 0,
    ensures
        text::digits_value(zeros + digits, 16) == text::digits_value(digits, 16),
    decreases digits.len(),
{
    if digits.len() == 0 {
        assert(zeros + digits =~= zeros);
    } else {
        lemma_value_after_zeros(zeros, digits.drop_last());
        assert((zeros + digits).drop_last() =~= zeros + digits.drop_last());
        assert((zeros + digits).last() == digits.last());
    }
}

} // verus!
