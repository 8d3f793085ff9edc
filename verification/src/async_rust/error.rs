//! Errors of building a decoder from a binary: parsing the executable and
//! reading the coroutine layouts out of its debug information, before any
//! process exists.
use vstd::prelude::*;

verus! {

/// Why no coroutine layouts could be resolved out of a target binary.
#[derive(Debug)]
#[non_exhaustive]
pub enum AsyncDecodeError {
    /// The bytes are no object file.
    Object(String),
    /// The debug information cannot be read.
    Dwarf(String),
    /// The binary shows no sign of a Tokio runtime.
    NotTokioBinary,
    /// The binary has no debug information. There is no fallback: coroutine
    /// layouts exist nowhere else.
    NoDebugInfo,
    /// The compiler's version is unknown, or outside the validated window.
    UnsupportedLayout(String),
    /// No coroutine types were found.
    NoCoroutines,
}

/// The value of an `AsyncDecodeError`.
#[verifier::ext_equal]
pub enum AsyncDecodeErrorSpec {
    Object(Seq<char>),
    Dwarf(Seq<char>),
    NotTokioBinary,
    NoDebugInfo,
    UnsupportedLayout(Seq<char>),
    NoCoroutines,
}

impl DeepView for AsyncDecodeError {
    type V = AsyncDecodeErrorSpec;

    open spec fn deep_view(&self) -> AsyncDecodeErrorSpec {
        match self {
            AsyncDecodeError::Object(s) => AsyncDecodeErrorSpec::Object(s@),
            AsyncDecodeError::Dwarf(s) => AsyncDecodeErrorSpec::Dwarf(s@),
            AsyncDecodeError::NotTokioBinary => AsyncDecodeErrorSpec::NotTokioBinary,
            AsyncDecodeError::NoDebugInfo => AsyncDecodeErrorSpec::NoDebugInfo,
            AsyncDecodeError::UnsupportedLayout(s) => AsyncDecodeErrorSpec::UnsupportedLayout(s@),
            AsyncDecodeError::NoCoroutines => AsyncDecodeErrorSpec::NoCoroutines,
        }
    }
}

impl AsyncDecodeErrorSpec {
    /// The message that describes the error.
    pub open spec fn message(self) -> Seq<char> {
        match self {
            AsyncDecodeErrorSpec::Object(s) => "failed to parse target as an object file: "@ + s,
            AsyncDecodeErrorSpec::Dwarf(s) => "failed to read DWARF from target: "@ + s,
            AsyncDecodeErrorSpec::NotTokioBinary => {
                "target is not a Tokio binary (no tokio runtime symbols found)"@
            },
            AsyncDecodeErrorSpec::NoDebugInfo => {
                "target has no DWARF debug info; async layouts require debuginfo=1+"@
            },
            AsyncDecodeErrorSpec::UnsupportedLayout(s) => {
                "unsupported or unrecognized rustc layout: "@ + s
            },
            AsyncDecodeErrorSpec::NoCoroutines => "no async fn coroutine types found in DWARF"@,
        }
    }
}

impl AsyncDecodeError {
    /// The message that describes the error.
    #[must_use]
    pub fn message(&self) -> (r: String)
        ensures
            r@ == self.deep_view().message(),
    {
        match self {
            AsyncDecodeError::Object(s) => {
                let mut out = "failed to parse target as an object file: ".to_owned();
                out.append(s.as_str());
                out
            },
            AsyncDecodeError::Dwarf(s) => {
                let mut out = "failed to read DWARF from target: ".to_owned();
                out.append(s.as_str());
                out
            },
            AsyncDecodeError::NotTokioBinary => {
                "target is not a Tokio binary (no tokio runtime symbols found)".to_owned()
            },
            AsyncDecodeError::NoDebugInfo => {
                "target has no DWARF debug info; async layouts require debuginfo=1+".to_owned()
            },
            AsyncDecodeError::UnsupportedLayout(s) => {
                let mut out = "unsupported or unrecognized rustc layout: ".to_owned();
                out.append(s.as_str());
                out
            },
            AsyncDecodeError::NoCoroutines => {
                "no async fn coroutine types found in DWARF".to_owned()
            },
        }
    }
}

} // verus!
