//! Little-endian integers and byte searches.
use vstd::prelude::*;

use crate::text;

verus! {

/// The number that `bytes` write, least significant byte first.
pub open spec fn le(bytes: Seq<u8>) -> nat
    decreases bytes.len(),
{
    if bytes.len() == 0 {
        0
    } else {
        bytes[0] as nat + 256 * le(bytes.skip(1))
    }
}

/// The `k` least significant bytes of `n`, least significant byte first.
pub open spec fn le_bytes(n: nat, k: nat) -> Seq<u8>
    decreases k,
{
    if k == 0 {
        Seq::empty()
    } else {
        seq![(n % 256) as u8] + le_bytes(n / 256, (k - 1) as nat)
    }
}

/// `256` to the power `k`.
pub open spec fn pow256(k: nat) -> nat
    decreases k,
{
    if k == 0 {
        1
    } else {
        256 * pow256((k - 1) as nat)
    }
}

/// The number that `k` bytes write is below `256` to the power `k`.
pub proof fn lemma_le_bound(bytes: Seq<u8>)
    ensures
        le(bytes) < pow256(bytes.len()),
    decreases bytes.len(),
{
    if bytes.len() > 0 {
        lemma_le_bound(bytes.skip(1));
    }
}

/// Powers of `256` grow with their exponent.
pub proof fn lemma_pow256_grows(a: nat, b: nat)
    requires
        a <= b,
    ensures
        0 < pow256(a) <= pow256(b),
    decreases b,
{
    if a < b {
        lemma_pow256_grows(a, (b - 1) as nat);
    } else if a > 0 {
        lemma_pow256_grows((a - 1) as nat, (b - 1) as nat);
    }
}

/// The powers of `256` that bound the machine integers.
pub proof fn lemma_pow256_values()
    ensures
        pow256(1) == 0x100,
        pow256(2) == 0x1_0000,
        pow256(4) == 0x1_0000_0000,
        pow256(8) == 0x1_0000_0000_0000_0000,
{
    reveal_with_fuel(pow256, 9);
}

/// Writing a number in `k` bytes takes `k` bytes.
pub proof fn lemma_le_bytes_len(n: nat, k: nat)
    ensures
        le_bytes(n, k).len() == k,
    decreases k,
{
    if k > 0 {
        lemma_le_bytes_len(n / 256, (k - 1) as nat);
    }
}

/// Reading back what was written gives the number, where it fits.
pub proof fn lemma_le_round_trip(n: nat, k: nat)
    requires
        n < pow256(k),
    ensures
        le(le_bytes(n, k)) == n,
    decreases k,
{
    if k > 0 {
        lemma_le_round_trip(n / 256, (k - 1) as nat);
        let s = le_bytes(n, k);
        assert(s.skip(1) =~= le_bytes(n / 256, (k - 1) as nat));
    }
}

/// Writing back what was read gives the bytes.
pub proof fn lemma_le_bytes_round_trip(bytes: Seq<u8>)
    ensures
        le_bytes(le(bytes), bytes.len()) == bytes,
    decreases bytes.len(),
{
    if bytes.len() > 0 {
        let rest = bytes.skip(1);
        lemma_le_bytes_round_trip(rest);
        let n = le(bytes);
        assert(n % 256 == bytes[0] as nat);
        assert(n / 256 == le(rest));
        assert(seq![bytes[0]] + rest =~= bytes);
    } else {
        assert(bytes =~= Seq::empty());
    }
}

/// Bytes spell a number: each is its digit in base 256, the lowest digit first, and
/// there are enough of them.
pub open spec fn spells(bytes: Seq<u8>, n: int) -> bool {
    &&& 0 <= n < pow256(bytes.len())
    &&& forall|i: int|
        0 <= i < bytes.len() ==> (#[trigger] bytes[i]) as int == (n / pow256(i as nat) as int) % 256
}

/// Bytes read as the one number that they spell.
pub proof fn law_bytes_read_as_what_they_spell(bytes: Seq<u8>, n: int)
    ensures
        spells(bytes, n) <==> n == le(bytes),
    decreases bytes.len(),
{
    lemma_pow256_grows(0, bytes.len());
    lemma_le_bound(bytes);
    if bytes.len() > 0 {
        let rest = bytes.skip(1);
        let m = n / 256;
        law_bytes_read_as_what_they_spell(rest, m);
        law_bytes_read_as_what_they_spell(rest, le(rest) as int);
        let k = (bytes.len() - 1) as nat;
        if spells(bytes, n) {
            assert(pow256(0) == 1);
            assert(bytes[0] as int == n / 1 % 256);
            assert forall|i: int| 0 <= i < rest.len() implies (#[trigger] rest[i]) as int == (m
                / pow256(i as nat) as int) % 256 by {
                lemma_digit_below(n, i as nat);
                assert(rest[i] == bytes[i + 1]);
            }
            assert(pow256(bytes.len()) == 256 * pow256(k));
            assert(spells(rest, m));
        }
        if n == le(bytes) {
            assert(m == le(rest));
            assert forall|i: int| 0 <= i < bytes.len() implies (#[trigger] bytes[i]) as int == (n
                / pow256(i as nat) as int) % 256 by {
                if i == 0 {
                    assert(pow256(0) == 1);
                } else {
                    lemma_digit_below(n, (i - 1) as nat);
                    assert(rest[i - 1] == bytes[i]);
                }
            }
        }
    }
}

proof fn lemma_digit_below(n: int, i: nat)
    requires
        0 <= n,
    ensures
        n / pow256(i + 1) as int == (n / 256) / pow256(i) as int,
{
    lemma_pow256_grows(0, i);
    vstd::arithmetic::div_mod::lemma_div_denominator(n, 256, pow256(i) as int);
}

/// Bytes that are written spell the number, where it fits.
pub proof fn law_numbers_are_written_as_they_are_spelled(n: nat, k: nat)
    requires
        n < pow256(k),
    ensures
        spells(le_bytes(n, k), n as int),
        le_bytes(n, k).len() == k,
{
    lemma_le_bytes_len(n, k);
    lemma_le_round_trip(n, k);
    law_bytes_read_as_what_they_spell(le_bytes(n, k), n as int);
}

/// Most significant byte first: the bytes turned around spell the number.
pub proof fn law_turned_bytes_spell_the_number(bytes: Seq<u8>, n: int)
    ensures
        spells(bytes.reverse(), n) <==> n == be(bytes),
{
    law_bytes_read_as_what_they_spell(bytes.reverse(), n);
}

/// The number that the bytes write, least significant byte first. There are no
/// more than eight.
pub fn read_le(bytes: &[u8]) -> (r: u64)
    requires
        bytes.len() <= 8,
    ensures
        r == le(bytes@),
{
    let mut value: u64 = 0;
    let mut i: usize = bytes.len();
    assert(bytes@.skip(i as int) =~= Seq::empty());
    while i > 0
        invariant
            i <= bytes.len() <= 8,
            value == le(bytes@.skip(i as int)),
        decreases i,
    {
        i -= 1;
        proof {
            let s = bytes@.skip(i as int);
            assert(s.skip(1) =~= bytes@.skip(i + 1));
            lemma_le_bound(s);
            lemma_pow256_grows(s.len(), 8);
            lemma_pow256_values();
        }
        value = value * 256 + bytes[i] as u64;
    }
    assert(bytes@.skip(0) =~= bytes@);
    value
}

/// The number that the bytes write, least significant byte first. There are no
/// more than sixteen.
pub fn read_le_wide(bytes: &[u8]) -> (r: u128)
    requires
        bytes.len() <= 16,
    ensures
        r == le(bytes@),
{
    let mut value: u128 = 0;
    let mut i: usize = bytes.len();
    assert(bytes@.skip(i as int) =~= Seq::empty());
    while i > 0
        invariant
            i <= bytes.len() <= 16,
            value == le(bytes@.skip(i as int)),
        decreases i,
    {
        i -= 1;
        proof {
            let s = bytes@.skip(i as int);
            assert(s.skip(1) =~= bytes@.skip(i + 1));
            lemma_le_bound(s);
            lemma_pow256_grows(s.len(), 16);
            lemma_pow256_values();
            assert(pow256(16) == 0x1_0000_0000_0000_0000_0000_0000_0000_0000) by {
                reveal_with_fuel(pow256, 9);
            }
        }
        value = value * 256 + bytes[i] as u128;
    }
    assert(bytes@.skip(0) =~= bytes@);
    value
}

/// The number that the bytes write, most significant byte first.
pub open spec fn be(bytes: Seq<u8>) -> nat {
    le(bytes.reverse())
}

/// The number that the bytes write, most significant byte first. There are no
/// more than eight.
pub fn read_be(bytes: &[u8]) -> (r: u64)
    requires
        bytes.len() <= 8,
    ensures
        r == be(bytes@),
{
    let mut turned: Vec<u8> = Vec::new();
    let mut i: usize = bytes.len();
    while i > 0
        invariant
            i <= bytes.len(),
            turned@ == bytes@.skip(i as int).reverse(),
        decreases i,
    {
        i -= 1;
        turned.push(bytes[i]);
        assert(turned@ =~= bytes@.skip(i as int).reverse());
    }
    assert(bytes@.skip(0) =~= bytes@);
    read_le(turned.as_slice())
}

/// Append the `k` least significant bytes of `n`, least significant first.
pub fn push_le(out: &mut Vec<u8>, n: u64, k: usize)
    ensures
        final(out)@ == old(out)@ + le_bytes(n as nat, k as nat),
    decreases k,
{
    if k > 0 {
        out.push((n % 256) as u8);
        push_le(out, n / 256, k - 1);
    }
    assert(out@ =~= old(out)@ + le_bytes(n as nat, k as nat));
}

fn stands_at(hay: &[u8], needle: &[u8], at: usize) -> (r: bool)
    requires
        at + needle.len() <= hay.len(),
    ensures
        r == text::occurs_at(hay@, needle@, at as int),
{
    let mut i: usize = 0;
    while i < needle.len()
        invariant
            i <= needle.len(),
            at + needle.len() <= hay.len(),
            forall|j: int| 0 <= j < i ==> hay@[at + j] == needle@[j],
        decreases needle.len() - i,
    {
        if hay[at + i] != needle[i] {
            assert(hay@.subrange(at as int, at + needle.len())[i as int] != needle@[i as int]);
            return false;
        }
        i += 1;
    }
    assert(hay@.subrange(at as int, at + needle.len()) =~= needle@);
    true
}

/// The first position at or after `from` where `needle` stands in `hay`.
pub fn find_bytes(hay: &[u8], needle: &[u8], from: usize) -> (r: Option<usize>)
    ensures
        match r {
            Some(at) => text::find(hay@, needle@, from as int) == Some(at as int) && from <= at
                && text::occurs_at(hay@, needle@, at as int),
            None => text::find(hay@, needle@, from as int) is None,
        },
{
    if needle.len() > hay.len() {
        return None;
    }
    let last: usize = hay.len() - needle.len();
    let mut at: usize = from;
    while at <= last
        invariant
            from <= at,
            last == hay.len() - needle.len(),
            text::find(hay@, needle@, from as int) == text::find(hay@, needle@, at as int),
        decreases last + 1 - at,
    {
        if stands_at(hay, needle, at) {
            return Some(at);
        }
        if at == last {
            assert(text::find(hay@, needle@, at + 1) is None);
            return None;
        }
        at += 1;
    }
    None
}

// ---------------------------------------------------------------------------
// Tokens
// ---------------------------------------------------------------------------

/// A letter, digit or dot of ASCII.
pub open spec fn is_token_byte(b: u8) -> bool {
    48 <= b <= 57 || 65 <= b <= 90 || 97 <= b <= 122 || b == 46
}

/// The token that bytes begin with: their leading letters, digits and dots. What
/// follows it may be anything.
pub open spec fn token_of(s: Seq<u8>) -> Seq<char>
    decreases s.len(),
{
    if s.len() > 0 && is_token_byte(s[0]) {
        seq![s[0] as char] + token_of(s.skip(1))
    } else {
        Seq::empty()
    }
}

pub(crate) proof fn lemma_token(s: Seq<u8>, n: int)
    requires
        0 <= n <= s.len(),
        forall|i: int| 0 <= i < n ==> is_token_byte(#[trigger] s[i]),
        n < s.len() ==> !is_token_byte(s[n]),
    ensures
        token_of(s) == Seq::new(n as nat, |i: int| s[i] as char),
    decreases n,
{
    if n > 0 {
        let t = s.skip(1);
        assert forall|i: int| 0 <= i < n - 1 implies is_token_byte(#[trigger] t[i]) by {
            assert(t[i] == s[i + 1]);
        }
        lemma_token(t, n - 1);
        assert(seq![s[0] as char] + token_of(t) =~= Seq::new(n as nat, |i: int| s[i] as char));
    } else {
        assert(token_of(s) =~= Seq::new(0, |i: int| s[i] as char));
    }
}

/// The token that bytes begin with.
pub fn read_token(s: &[u8]) -> (r: Vec<char>)
    ensures
        r@ == token_of(s@),
{
    let mut out: Vec<char> = Vec::new();
    let mut n: usize = 0;
    while n < s.len() && ((48 <= s[n] && s[n] <= 57) || (65 <= s[n] && s[n] <= 90) || (97 <= s[n]
        && s[n] <= 122) || s[n] == 46)
        invariant
            n <= s.len(),
            forall|i: int| 0 <= i < n ==> is_token_byte(#[trigger] s@[i]),
            out@ == Seq::new(n as nat, |i: int| s@[i] as char),
        decreases s.len() - n,
    {
        out.push(s[n] as char);
        n += 1;
        assert(out@ =~= Seq::new(n as nat, |i: int| s@[i] as char));
    }
    proof {
        lemma_token(s@, n as int);
    }
    out
}

} // verus!
