//! Errors of building a decoder from a binary: parsing the executable and
//! resolving the runtime's layout, before any process exists.
use vstd::prelude::*;

verus! {

/// Why the Go runtime's layout could not be resolved out of a target binary.
#[derive(Debug)]
#[non_exhaustive]
pub enum GoDecodeError {
    /// The bytes are no object file.
    Object(String),
    /// The debug information cannot be read.
    Dwarf(String),
    /// The binary is not a Go binary.
    NotGoBinary,
    /// `runtime.allgs` could not be located; without it no goroutine can be
    /// found.
    AllgsNotFound,
    /// Neither the debug information nor the vendored table gives the layout.
    LayoutUnresolved(String),
}

/// The value of a `GoDecodeError`.
#[verifier::ext_equal]
pub enum GoDecodeErrorSpec {
    Object(Seq<char>),
    Dwarf(Seq<char>),
    NotGoBinary,
    AllgsNotFound,
    LayoutUnresolved(Seq<char>),
}

impl DeepView for GoDecodeError {
    type V = GoDecodeErrorSpec;

    open spec fn deep_view(&self) -> GoDecodeErrorSpec {
        match self {
            GoDecodeError::Object(s) => GoDecodeErrorSpec::Object(s@),
            GoDecodeError::Dwarf(s) => GoDecodeErrorSpec::Dwarf(s@),
            GoDecodeError::NotGoBinary => GoDecodeErrorSpec::NotGoBinary,
            GoDecodeError::AllgsNotFound => GoDecodeErrorSpec::AllgsNotFound,
            GoDecodeError::LayoutUnresolved(s) => GoDecodeErrorSpec::LayoutUnresolved(s@),
        }
    }
}

impl GoDecodeErrorSpec {
    /// The message that describes the error.
    pub open spec fn message(self) -> Seq<char> {
        match self {
            GoDecodeErrorSpec::Object(s) => "failed to parse target as an object file: "@ + s,
            GoDecodeErrorSpec::Dwarf(s) => "failed to read DWARF from target: "@ + s,
            GoDecodeErrorSpec::NotGoBinary => "target is not a Go binary"@,
            GoDecodeErrorSpec::AllgsNotFound => {
                "could not locate runtime.allgs (binary stripped of symbols and DWARF)"@
            },
            GoDecodeErrorSpec::LayoutUnresolved(s) => {
                "could not resolve runtime.g offsets: "@ + s
            },
        }
    }
}

impl GoDecodeError {
    /// The message that describes the error.
    #[must_use]
    pub fn message(&self) -> (r: String)
        ensures
            r@ == self.deep_view().message(),
    {
        match self {
            GoDecodeError::Object(s) => {
                let mut out = "failed to parse target as an object file: ".to_owned();
                out.append(s.as_str());
                out
            },
            GoDecodeError::Dwarf(s) => {
                let mut out = "failed to read DWARF from target: ".to_owned();
                out.append(s.as_str());
                out
            },
            GoDecodeError::NotGoBinary => "target is not a Go binary".to_owned(),
            GoDecodeError::AllgsNotFound => {
                "could not locate runtime.allgs (binary stripped of symbols and DWARF)".to_owned()
            },
            GoDecodeError::LayoutUnresolved(s) => {
                let mut out = "could not resolve runtime.g offsets: ".to_owned();
                out.append(s.as_str());
                out
            },
        }
    }
}

} // verus!
