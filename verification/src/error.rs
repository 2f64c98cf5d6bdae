//! The closed set of failure reasons that tokenizing and resolving a command
//! line can report. Every failure is returned to the caller as a value;
//! resolution never panics.

use vstd::prelude::*;

verus! {

/// Why a command line failed to resolve into an action.
#[derive(Debug, Clone, PartialEq, Eq)]
pub enum Error {
    /// The input line tokenized to zero words.
    NoActionGiven,
    /// The leading word matched no variant name.
    UnknownAction { action: String },
    /// A required parameter had no token available. `expected` counts the
    /// variant's required parameters, `given` the argument words supplied.
    NotEnoughArguments { action: String, expected: usize, given: usize },
    /// Tokens were left over after all parameters were consumed, for a
    /// variant whose last parameter does not greedily consume the rest.
    TooManyArguments(String),
    /// An argument token was not a floating-point literal.
    ParseFloatError { action: String, token: String },
    /// An argument token was not an integer literal, or was out of range for
    /// the parameter's declared width.
    ParseIntError { action: String, token: String },
    /// An argument token was not in the boolean vocabulary.
    ParseBoolError { action: String, token: String },
    /// Malformed quoting in the raw line, such as an unterminated quote.
    TokenizeError,
}

/// The mathematical shape of an [`Error`], over character sequences.
pub enum ErrorV {
    NoActionGiven,
    UnknownAction { action: Seq<char> },
    NotEnoughArguments { action: Seq<char>, expected: int, given: int },
    TooManyArguments(Seq<char>),
    ParseFloatError { action: Seq<char>, token: Seq<char> },
    ParseIntError { action: Seq<char>, token: Seq<char> },
    ParseBoolError { action: Seq<char>, token: Seq<char> },
    TokenizeError,
}

impl View for Error {
    type V = ErrorV;

    open spec fn view(&self) -> ErrorV {
        match self {
            Error::NoActionGiven => ErrorV::NoActionGiven,
            Error::UnknownAction { action } => ErrorV::UnknownAction { action: action@ },
            Error::NotEnoughArguments { action, expected, given } => ErrorV::NotEnoughArguments {
                action: action@,
                expected: *expected as int,
                given: *given as int,
            },
            Error::TooManyArguments(action) => ErrorV::TooManyArguments(action@),
            Error::ParseFloatError { action, token } => ErrorV::ParseFloatError {
                action: action@,
                token: token@,
            },
            Error::ParseIntError { action, token } => ErrorV::ParseIntError {
                action: action@,
                token: token@,
            },
            Error::ParseBoolError { action, token } => ErrorV::ParseBoolError {
                action: action@,
                token: token@,
            },
            Error::TokenizeError => ErrorV::TokenizeError,
        }
    }
}

} // verus!
