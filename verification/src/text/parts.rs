//! Text taken apart: lines, words, the pieces between separators, signed
//! numbers.
use vstd::prelude::*;

use super::{is_white, parse_unsigned};
use crate::text;

verus! {

/// The pieces of `s` between separators: one more than there are separators.
pub open spec fn pieces(s: Seq<char>, sep: char) -> Seq<Seq<char>>
    decreases s.len(),
{
    if s.len() == 0 {
        seq![Seq::empty()]
    } else {
        let before = pieces(s.drop_last(), sep);
        if s.last() == sep {
            before.push(Seq::empty())
        } else {
            before.drop_last().push(before.last().push(s.last()))
        }
    }
}

proof fn lemma_pieces(s: Seq<char>, sep: char)
    ensures
        pieces(s, sep).len() > 0,
    decreases s.len(),
{
    if s.len() > 0 {
        lemma_pieces(s.drop_last(), sep);
    }
}

/// The pieces of `s` between separators.
pub fn split(s: &[char], sep: char) -> (r: Vec<Vec<char>>)
    ensures
        r.deep_view() == pieces(s@, sep),
{
    let mut out: Vec<Vec<char>> = Vec::new();
    let mut current: Vec<char> = Vec::new();
    let mut i: usize = 0;
    proof {
        assert(s@.take(0) =~= Seq::empty());
        assert(out.deep_view().push(current@) =~= seq![Seq::<char>::empty()]);
    }
    while i < s.len()
        invariant
            i <= s.len(),
            out.deep_view().push(current@) == pieces(s@.take(i as int), sep),
        decreases s.len() - i,
    {
        let ghost before = out.deep_view();
        let ghost piece = current@;
        proof {
            assert(s@.take(i + 1).drop_last() =~= s@.take(i as int));
            assert(s@.take(i + 1).last() == s@[i as int]);
            assert(before.push(piece).drop_last() =~= before);
            assert(before.push(piece).last() == piece);
        }
        if s[i] == sep {
            out.push(current);
            current = Vec::new();
            assert(out@[out.len() - 1].deep_view() =~= piece);
            assert(out.deep_view() =~= before.push(piece));
            assert(current@ =~= Seq::empty());
        } else {
            current.push(s[i]);
        }
        i += 1;
    }
    let ghost before = out.deep_view();
    let ghost piece = current@;
    out.push(current);
    assert(out@[out.len() - 1].deep_view() =~= piece);
    assert(out.deep_view() =~= before.push(piece));
    assert(s@.take(s.len() as int) =~= s@);
    out
}

/// `s` without one trailing carriage return.
pub open spec fn without_return(s: Seq<char>) -> Seq<char> {
    if s.len() > 0 && s.last() == '\r' {
        s.drop_last()
    } else {
        s
    }
}

/// The lines of `s`, without the newlines that end them, nor a carriage return
/// before one. A last line need not be ended.
pub open spec fn lines_of(s: Seq<char>) -> Seq<Seq<char>> {
    let all = pieces(s, '\n');
    let ended = all.drop_last().map_values(|p: Seq<char>| without_return(p));
    if all.last().len() == 0 {
        ended
    } else {
        ended.push(all.last())
    }
}

/// The lines of `s`.
pub fn lines(s: &[char]) -> (r: Vec<Vec<char>>)
    ensures
        r.deep_view() == lines_of(s@),
{
    let all = split(s, '\n');
    let ghost a = all.deep_view();
    let mut out: Vec<Vec<char>> = Vec::new();
    let mut i: usize = 0;
    proof {
        lemma_pieces(s@, '\n');
    }
    let last: usize = all.len() - 1;
    while i < last
        invariant
            i <= last,
            last == all.len() - 1,
            a == all.deep_view(),
            out.len() == i,
            forall|j: int|
                0 <= j < i ==> (#[trigger] out@[j]).deep_view() == without_return(a[j]),
        decreases last - i,
    {
        let piece = all[i].as_slice();
        assert(a[i as int] =~= piece@);
        let n: usize = piece.len();
        let end: usize = if n > 0 && piece[n - 1] == '\r' {
            n - 1
        } else {
            n
        };
        let line = vstd::slice::slice_to_vec(vstd::slice::slice_subrange(piece, 0, end));
        assert(line.deep_view() =~= without_return(a[i as int]));
        out.push(line);
        i += 1;
    }
    let ghost ended = a.drop_last().map_values(|p: Seq<char>| without_return(p));
    assert(out.deep_view() =~= ended);
    assert(a.last() =~= all@[last as int]@);
    if all[last].len() > 0 {
        let line = vstd::slice::slice_to_vec(all[last].as_slice());
        assert(line.deep_view() =~= a.last());
        out.push(line);
        assert(out.deep_view() =~= ended.push(a.last()));
    }
    out
}

/// The words of `s`: its longest runs without white space.
pub open spec fn words_of(s: Seq<char>) -> Seq<Seq<char>>
    decreases s.len(),
{
    if s.len() == 0 {
        Seq::empty()
    } else {
        let before = words_of(s.drop_last());
        if text::is_space(s.last()) {
            before
        } else if s.len() == 1 || text::is_space(s[s.len() - 2]) {
            before.push(seq![s.last()])
        } else {
            before.drop_last().push(before.last().push(s.last()))
        }
    }
}

/// The words of `s`.
pub fn words(s: &[char]) -> (r: Vec<Vec<char>>)
    ensures
        r.deep_view() == words_of(s@),
{
    let mut out: Vec<Vec<char>> = Vec::new();
    let mut current: Vec<char> = Vec::new();
    let mut i: usize = 0;
    proof {
        assert(s@.take(0) =~= Seq::empty());
        assert(out.deep_view() =~= Seq::empty());
    }
    while i < s.len()
        invariant
            i <= s.len(),
            (current@.len() > 0) == (i > 0 && !text::is_space(s@[i - 1])),
            words_of(s@.take(i as int)) == (if current@.len() > 0 {
                out.deep_view().push(current@)
            } else {
                out.deep_view()
            }),
        decreases s.len() - i,
    {
        let ghost before = out.deep_view();
        let ghost word = current@;
        proof {
            let t = s@.take(i + 1);
            assert(t.drop_last() =~= s@.take(i as int));
            assert(t.last() == s@[i as int]);
            if i > 0 {
                assert(t[t.len() - 2] == s@[i - 1]);
            }
            assert(before.push(word).drop_last() =~= before);
            assert(before.push(word).last() == word);
        }
        if is_white(s[i]) {
            if current.len() > 0 {
                out.push(current);
                current = Vec::new();
                assert(out@[out.len() - 1].deep_view() =~= word);
                assert(out.deep_view() =~= before.push(word));
            }
        } else {
            current.push(s[i]);
            assert(current@ =~= word.push(s@[i as int]));
            assert(word.len() == 0 ==> current@ =~= seq![s@[i as int]]);
        }
        i += 1;
    }
    let ghost before = out.deep_view();
    let ghost word = current@;
    if current.len() > 0 {
        out.push(current);
        assert(out@[out.len() - 1].deep_view() =~= word);
        assert(out.deep_view() =~= before.push(word));
    }
    assert(s@.take(s.len() as int) =~= s@);
    out
}

/// The number that `s` writes in decimal, with an optional sign, if it fits 32
/// bits.
pub open spec fn signed(s: Seq<char>) -> Option<i32> {
    if s.len() > 0 && s[0] == '-' {
        let body = s.skip(1);
        if body.len() > 0 && text::all_digits(body, 10) && text::digits_value(body, 10)
            <= 0x8000_0000 {
            Some((-(text::digits_value(body, 10) as int)) as i32)
        } else {
            None
        }
    } else {
        match text::unsigned(s, 10, 0x7fff_ffff) {
            Some(n) => Some(n as i32),
            None => None,
        }
    }
}

/// Read a signed number.
pub fn parse_signed(s: &[char]) -> (r: Option<i32>)
    ensures
        r == signed(s@),
{
    if s.len() > 0 && s[0] == '-' {
        let end: usize = s.len();
        let body = vstd::slice::slice_subrange(s, 1, end);
        assert(body@ =~= s@.skip(1));
        if body.len() > 0 && body[0] == '+' {
            assert(!text::is_digit(body@[0], 10));
            return None;
        }
        match parse_unsigned(body, 10, 0x8000_0000) {
            Some(n) => Some((-(n as i64)) as i32),
            None => None,
        }
    } else {
        match parse_unsigned(s, 10, 0x7fff_ffff) {
            Some(n) => Some(n as i32),
            None => None,
        }
    }
}

} // verus!
