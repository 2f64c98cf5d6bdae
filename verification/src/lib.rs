//! Command-line action parsing for an in-game developer console.
//!
//! The library turns a raw command line into a typed action value in three
//! stages: a tokenizer that splits the line into shell-like words (honouring
//! single and double quotes and backslash escapes), a schema of action
//! variants with ordered, typed parameters (validated once at construction),
//! and a resolver that matches the leading word against the schema
//! case-insensitively and converts the remaining words into the variant's
//! typed arguments, or reports a structured error.

use vstd::prelude::*;

pub mod coerce;
pub mod error;
pub mod laws;
pub mod parse;
pub mod resolve;
pub mod schema;
pub mod text;

pub use error::Error;
pub use parse::{parse_action, parse_string, tokenize};
pub use resolve::{resolve, ArgValue, ResolvedAction, Scalar};
pub use schema::{
    ActionSchema, ArgumentType, FloatType, IntType, OrderedArgument, SchemaError, VariantSpec,
    WrapType,
};

verus! {

/// The interface of a type whose values are produced by resolving command
/// lines; implementors typically build an action schema once and map resolved
/// actions onto their own cases.
pub trait ActionsHandler: Sized {
    fn resolve(text: &str) -> Result<Self, crate::Error>;
}

/// Parse a string into a bool, allowing a few different terms. Not case
/// sensitive: `1`, `t`, `true`, `y`, `yes`, `yeah` mean true; `0`, `f`,
/// `false`, `n`, `no`, `nah` mean false; anything else is not a bool.
pub fn parse_bool(s: &str) -> (r: Option<bool>)
    ensures
        r == crate::text::bool_token(s@),
{
    if crate::text::str_ieq(s, "1") || crate::text::str_ieq(s, "t") || crate::text::str_ieq(
        s,
        "true",
    ) || crate::text::str_ieq(s, "y") || crate::text::str_ieq(s, "yes") || crate::text::str_ieq(
        s,
        "yeah",
    ) {
        Some(true)
    } else if crate::text::str_ieq(s, "0") || crate::text::str_ieq(s, "f") || crate::text::str_ieq(
        s,
        "false",
    ) || crate::text::str_ieq(s, "n") || crate::text::str_ieq(s, "no") || crate::text::str_ieq(
        s,
        "nah",
    ) {
        Some(false)
    } else {
        None
    }
}

} // verus!
