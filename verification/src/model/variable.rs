//! The value shape that a decoder returns for local variables.
use vstd::prelude::*;

use crate::text::IntoText;

verus! {

/// One local variable visible at a logical frame.
#[derive(Debug, Clone, PartialEq, Eq)]
pub struct Variable {
    /// The variable's name in source.
    pub name: String,
    /// A rendered representation of its current value.
    pub value: String,
    /// An optional type name for display, when known.
    pub type_hint: Option<String>,
}

/// The value of a `Variable`.
#[verifier::ext_equal]
pub struct VariableSpec {
    pub name: Seq<char>,
    pub value: Seq<char>,
    pub type_hint: Option<Seq<char>>,
}

impl DeepView for Variable {
    type V = VariableSpec;

    open spec fn deep_view(&self) -> VariableSpec {
        VariableSpec {
            name: self.name@,
            value: self.value@,
            type_hint: self.type_hint.deep_view(),
        }
    }
}

impl Variable {
    /// A variable with no type hint.
    #[must_use]
    pub fn new<N: IntoText, T: IntoText>(name: N, value: T) -> (r: Self)
        ensures
            r.name@ == name.text(),
            r.value@ == value.text(),
            r.type_hint is None,
    {
        Self { name: name.into_text(), value: value.into_text(), type_hint: None }
    }

    /// A variable with an explicit type hint.
    #[must_use]
    pub fn with_type<N: IntoText, T: IntoText, H: IntoText>(name: N, value: T, type_hint: H) -> (r:
        Self)
        ensures
            r.name@ == name.text(),
            r.value@ == value.text(),
            r.type_hint.deep_view() == Some(type_hint.text()),
    {
        Self {
            name: name.into_text(),
            value: value.into_text(),
            type_hint: Some(type_hint.into_text()),
        }
    }
}

} // verus!
