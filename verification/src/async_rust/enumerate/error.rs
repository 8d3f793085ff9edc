//! Why live task enumeration could not run against a target. Enumeration is best
//! effort: a binary that cannot be walked is declined.
use vstd::prelude::*;

use super::layout::TokioVersion;

verus! {

/// Why live task enumeration could not run against a target.
#[derive(Debug)]
#[non_exhaustive]
pub enum EnumerateError {
    /// No vendored internal layout for the target's Tokio version.
    UnsupportedTokioVersion(TokioVersion),
    /// No recognizable version string in the binary.
    TokioVersionUnknown,
    /// The runtime context's thread-local symbol is absent.
    ContextSymbolMissing,
    /// No thread of the target exposed a thread pointer.
    ThreadPointerUnavailable,
    /// The main executable's load address could not be obtained.
    LoadBaseUnavailable,
    /// A pointer chase read implausible data.
    Implausible(String),
    /// No thread carried a live runtime handle.
    NoRuntimeHandle,
    /// The binary had no debug info.
    NoDebugInfo,
    /// Parsing the object file or its debug info failed.
    Parse(String),
}

/// The value of an `EnumerateError`.
#[verifier::ext_equal]
pub enum EnumerateErrorSpec {
    UnsupportedTokioVersion(TokioVersion),
    TokioVersionUnknown,
    ContextSymbolMissing,
    ThreadPointerUnavailable,
    LoadBaseUnavailable,
    Implausible(Seq<char>),
    NoRuntimeHandle,
    NoDebugInfo,
    Parse(Seq<char>),
}

impl DeepView for EnumerateError {
    type V = EnumerateErrorSpec;

    open spec fn deep_view(&self) -> EnumerateErrorSpec {
        match self {
            EnumerateError::UnsupportedTokioVersion(v) => {
                EnumerateErrorSpec::UnsupportedTokioVersion(*v)
            },
            EnumerateError::TokioVersionUnknown => EnumerateErrorSpec::TokioVersionUnknown,
            EnumerateError::ContextSymbolMissing => EnumerateErrorSpec::ContextSymbolMissing,
            EnumerateError::ThreadPointerUnavailable => {
                EnumerateErrorSpec::ThreadPointerUnavailable
            },
            EnumerateError::LoadBaseUnavailable => EnumerateErrorSpec::LoadBaseUnavailable,
            EnumerateError::Implausible(s) => EnumerateErrorSpec::Implausible(s@),
            EnumerateError::NoRuntimeHandle => EnumerateErrorSpec::NoRuntimeHandle,
            EnumerateError::NoDebugInfo => EnumerateErrorSpec::NoDebugInfo,
            EnumerateError::Parse(s) => EnumerateErrorSpec::Parse(s@),
        }
    }
}

impl EnumerateErrorSpec {
    /// The message that describes the error.
    pub open spec fn message(self) -> Seq<char> {
        match self {
            EnumerateErrorSpec::UnsupportedTokioVersion(v) => {
                "no vendored Tokio internal layout for tokio "@ + v.dotted()
                    + "; live enumeration declines"@
            },
            EnumerateErrorSpec::TokioVersionUnknown => {
                "no embedded tokio version string; cannot key the internal layout"@
            },
            EnumerateErrorSpec::ContextSymbolMissing => {
                "tokio runtime CONTEXT thread-local symbol not found"@
            },
            EnumerateErrorSpec::ThreadPointerUnavailable => {
                "no thread pointer available; TLS-based enumeration is unavailable"@
            },
            EnumerateErrorSpec::LoadBaseUnavailable => {
                "executable load base unavailable; cannot map poll addresses to types"@
            },
            EnumerateErrorSpec::Implausible(s) => {
                "implausible runtime shape while walking OwnedTasks: "@ + s
            },
            EnumerateErrorSpec::NoRuntimeHandle => {
                "no live Tokio runtime handle on any stopped thread"@
            },
            EnumerateErrorSpec::NoDebugInfo => {
                "no DWARF debug info; cannot resolve task future types"@
            },
            EnumerateErrorSpec::Parse(s) => "object/DWARF parse error: "@ + s,
        }
    }
}

impl EnumerateError {
    /// The message that describes the error.
    #[must_use]
    pub fn message(&self) -> (r: String)
        ensures
            r@ == self.deep_view().message(),
    {
        match self {
            EnumerateError::UnsupportedTokioVersion(v) => {
                let mut s = "no vendored Tokio internal layout for tokio ".to_owned();
                s.append(v.to_text().as_str());
                s.append("; live enumeration declines");
                s
            },
            EnumerateError::TokioVersionUnknown => {
                "no embedded tokio version string; cannot key the internal layout".to_owned()
            },
            EnumerateError::ContextSymbolMissing => {
                "tokio runtime CONTEXT thread-local symbol not found".to_owned()
            },
            EnumerateError::ThreadPointerUnavailable => {
                "no thread pointer available; TLS-based enumeration is unavailable".to_owned()
            },
            EnumerateError::LoadBaseUnavailable => {
                "executable load base unavailable; cannot map poll addresses to types".to_owned()
            },
            EnumerateError::Implausible(why) => {
                let mut s = "implausible runtime shape while walking OwnedTasks: ".to_owned();
                s.append(why.as_str());
                s
            },
            EnumerateError::NoRuntimeHandle => {
                "no live Tokio runtime handle on any stopped thread".to_owned()
            },
            EnumerateError::NoDebugInfo => {
                "no DWARF debug info; cannot resolve task future types".to_owned()
            },
            EnumerateError::Parse(why) => {
                let mut s = "object/DWARF parse error: ".to_owned();
                s.append(why.as_str());
                s
            },
        }
    }
}

} // verus!
