//! Parse errors.

use vstd::prelude::*;

verus! {

/// Why a token stream could not be parsed.
#[derive(Debug, Clone)]
pub enum ParseError {
    /// A chain method stands where the chain order forbids it.
    WrongChainOrder { found: String, after: String, hint: String },
    /// A token other than the one the grammar needs here.
    UnexpectedToken { expected: String, found: String },
    /// The stream ended inside a construct.
    UnexpectedEof { hint: String },
    /// A `.` in a chain followed by something that is no chain method.
    UnknownChainMethod { method: String },
    /// `.cup()` without a positive integer.
    InvalidCupLimit { got: String },
    /// `.sort()` with a direction other than ASC or DESC.
    InvalidSortDir { got: String },
    /// `shot{}` without any query.
    EmptyShot,
}

/// A parse error, with its strings as character sequences.
#[verifier::ext_equal]
pub enum SpecError {
    WrongChainOrder { found: Seq<char>, after: Seq<char>, hint: Seq<char> },
    UnexpectedToken { expected: Seq<char>, found: Seq<char> },
    UnexpectedEof { hint: Seq<char> },
    UnknownChainMethod { method: Seq<char> },
    InvalidCupLimit { got: Seq<char> },
    InvalidSortDir { got: Seq<char> },
    EmptyShot,
}

impl View for ParseError {
    type V = SpecError;

    open spec fn view(&self) -> SpecError {
        match *self {
            ParseError::WrongChainOrder { found, after, hint } => SpecError::WrongChainOrder {
                found: found@,
                after: after@,
                hint: hint@,
            },
            ParseError::UnexpectedToken { expected, found } => SpecError::UnexpectedToken {
                expected: expected@,
                found: found@,
            },
            ParseError::UnexpectedEof { hint } => SpecError::UnexpectedEof { hint: hint@ },
            ParseError::UnknownChainMethod { method } => SpecError::UnknownChainMethod {
                method: method@,
            },
            ParseError::InvalidCupLimit { got } => SpecError::InvalidCupLimit { got: got@ },
            ParseError::InvalidSortDir { got } => SpecError::InvalidSortDir { got: got@ },
            ParseError::EmptyShot => SpecError::EmptyShot,
        }
    }
}

} // verus!
