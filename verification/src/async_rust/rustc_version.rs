//! The rustc-version gate on coroutine layouts.
//!
//! rustc stamps every compilation unit with a producer string such as `clang
//! LLVM (rustc version 1.85.1 (4eb161250 2025-03-15))`. A binary built outside
//! the validated window is declined.
use vstd::prelude::*;

use crate::text::{self, laws};

verus! {

/// A rustc toolchain version.
#[derive(Debug, Clone, Copy, PartialEq, Eq, Structural)]
pub struct RustcVersion {
    /// Major version.
    pub major: u16,
    /// Minor version.
    pub minor: u16,
    /// Patch version, `0` if absent.
    pub patch: u16,
}

impl DeepView for RustcVersion {
    type V = RustcVersion;

    open spec fn deep_view(&self) -> RustcVersion {
        *self
    }
}

/// First minor version of the validated window.
pub const SUPPORTED_MINOR_FIRST: u16 = 63;

/// Last minor version of the validated window.
pub const SUPPORTED_MINOR_LAST: u16 = 94;

/// The leading characters of `s` up to a space or a parenthesis.
pub open spec fn token_of(s: Seq<char>) -> Seq<char>
    decreases s.len(),
{
    if s.len() == 0 || s[0] == ' ' || s[0] == '(' || s[0] == ')' {
        Seq::empty()
    } else {
        seq![s[0]] + token_of(s.skip(1))
    }
}

proof fn lemma_token(s: Seq<char>, n: int)
    requires
        0 <= n <= s.len(),
        forall|i: int|
            0 <= i < n ==> (#[trigger] s[i]) != ' ' && s[i] != '(' && s[i] != ')',
        n < s.len() ==> s[n] == ' ' || s[n] == '(' || s[n] == ')',
    ensures
        token_of(s) == s.take(n),
    decreases n,
{
    if n > 0 {
        let t = s.skip(1);
        assert forall|i: int| 0 <= i < n - 1 implies (#[trigger] t[i]) != ' ' && t[i] != '(' && t[i]
            != ')' by {
            assert(t[i] == s[i + 1]);
        }
        lemma_token(t, n - 1);
        assert(seq![s[0]] + t.take(n - 1) =~= s.take(n));
    } else {
        assert(s.take(0) =~= Seq::empty());
    }
}

impl RustcVersion {
    /// The version in a producer string: the dotted version that follows the
    /// first `rustc version `.
    pub open spec fn of_producer(producer: Seq<char>) -> Option<RustcVersion> {
        match text::field(producer, "rustc version "@, 1) {
            Some(rest) => match text::dotted(token_of(rest)) {
                Some((major, minor, patch)) => Some(
                    RustcVersion { major: major as u16, minor: minor as u16, patch: patch as u16 },
                ),
                None => None,
            },
            None => None,
        }
    }

    /// The version lies in the validated window.
    pub open spec fn supported(self) -> bool {
        self.major == 1 && 63 <= self.minor <= 94
    }

    /// Construct a version triple.
    #[must_use]
    pub fn new(major: u16, minor: u16, patch: u16) -> (r: Self)
        ensures
            r == (RustcVersion { major, minor, patch }),
    {
        Self { major, minor, patch }
    }

    /// Extract the rustc version from a producer string; `None` for a producer
    /// without one.
    #[must_use]
    pub fn parse_producer(producer: &str) -> (r: Option<Self>)
        ensures
            r == Self::of_producer(producer@),
    {
        let chars = text::chars_of(producer);
        let mark = text::chars_of("rustc version ");
        match text::cut_field(chars.as_slice(), mark.as_slice(), 1) {
            Some(rest) => {
                let mut n: usize = 0;
                while n < rest.len() && rest[n] != ' ' && rest[n] != '(' && rest[n] != ')'
                    invariant
                        n <= rest.len(),
                        forall|i: int|
                            0 <= i < n ==> (#[trigger] rest@[i]) != ' ' && rest@[i] != '('
                                && rest@[i] != ')',
                    decreases rest.len() - n,
                {
                    n += 1;
                }
                proof {
                    lemma_token(rest@, n as int);
                }
                let token = vstd::slice::slice_subrange(rest, 0, n);
                assert(token@ =~= rest@.take(n as int));
                match text::parse_dotted(token) {
                    Some((major, minor, patch)) => Some(Self { major, minor, patch }),
                    None => None,
                }
            },
            None => None,
        }
    }
}

/// Whether the version falls within the validated layout window.
#[must_use]
pub fn is_supported(version: RustcVersion) -> (r: bool)
    ensures
        r == version.supported(),
{
    version.major == 1 && SUPPORTED_MINOR_FIRST <= version.minor && version.minor
        <= SUPPORTED_MINOR_LAST
}

/// A rustc version reads as a producer writes it: after `rustc version `, and up
/// to a space or a parenthesis. Something else than a digit may follow the
/// patch, such as the name of a channel.
pub proof fn law_a_rustc_version_reads_as_written(
    v: RustcVersion,
    before: Seq<char>,
    channel: Seq<char>,
    tail: Seq<char>,
)
    requires
        text::find(
            before + "rustc version "@ + text::decimal(v.major as nat) + seq!['.'] + text::decimal(
                v.minor as nat,
            ) + seq!['.'] + text::decimal(v.patch as nat) + channel + tail,
            "rustc version "@,
            0,
        ) == Some(before.len() as int),
        !text::contains(
            text::decimal(v.major as nat) + seq!['.'] + text::decimal(v.minor as nat) + seq!['.']
                + text::decimal(v.patch as nat) + channel + tail,
            "rustc version "@,
        ),
        channel.len() > 0 ==> !text::is_digit(channel[0], 10),
        forall|i: int|
            0 <= i < channel.len() ==> (#[trigger] channel[i]) != ' ' && channel[i] != '('
                && channel[i] != ')',
        tail.len() > 0 ==> tail[0] == ' ' || tail[0] == '(' || tail[0] == ')',
    ensures
        RustcVersion::of_producer(
            before + "rustc version "@ + text::decimal(v.major as nat) + seq!['.'] + text::decimal(
                v.minor as nat,
            ) + seq!['.'] + text::decimal(v.patch as nat) + channel + tail,
        ) == Some(v),
{
    let (a, b, c) = (v.major as nat, v.minor as nat, v.patch as nat);
    let (x, y, z) = (text::decimal(a), text::decimal(b), text::decimal(c));
    let mark = "rustc version "@;
    let token = x + seq!['.'] + y + seq!['.'] + z + channel;
    let rest = x + seq!['.'] + y + seq!['.'] + z + channel + tail;
    let all = before + mark + x + seq!['.'] + y + seq!['.'] + z + channel + tail;
    assert(all =~= before + mark + rest);
    assert(all.skip((before.len() + mark.len()) as int) =~= rest);
    assert(text::field(all, mark, 1) == text::field(rest, mark, 0));
    assert(!text::contains(rest, mark));
    text::lemma_find(rest, mark, 0);
    assert(text::find(rest, mark, 0) is None);
    assert(text::field(rest, mark, 0) == Some(rest));
    text::lemma_decimal(a);
    text::lemma_decimal(b);
    text::lemma_decimal(c);
    assert(rest =~= token + tail);
    assert forall|i: int| 0 <= i < token.len() implies (#[trigger] token[i]) != ' ' && token[i]
        != '(' && token[i] != ')' by {
        let (p, q, r) = (x.len() as int, y.len() as int, z.len() as int);
        if i < p {
            assert(token[i] == x[i]);
        } else if p < i < p + 1 + q {
            assert(token[i] == y[i - p - 1]);
        } else if p + 1 + q < i < p + q + r + 2 {
            assert(token[i] == z[i - p - q - 2]);
        } else if i >= p + q + r + 2 {
            assert(token[i] == channel[i - p - q - r - 2]);
        }
    }
    let n = token.len() as int;
    assert forall|i: int| 0 <= i < n implies (token + tail)[i] == #[trigger] token[i] by {}
    lemma_token(token + tail, n);
    assert((token + tail).take(n) =~= token);
    laws::law_a_version_reads_as_written(a, b, c, channel);
}

/// The window of validated versions is from 1.63 to 1.94, whatever the patch.
pub proof fn law_a_window_of_versions_is_supported(v: RustcVersion)
    ensures
        v.supported() <==> v.major == 1 && v.minor >= 63 && v.minor < 95,
{
}

} // verus!
