//! A single-pass JSON parser: a forward-only cursor over the input's Unicode
//! scalar values and one grammar routine per kind of value.
//!
//! The grammar is a strict subset of JSON. Strings have no escapes: the text
//! of a string ends at the next `"`. Numbers are runs of digits with at most
//! one `.`, without a sign or an exponent; one with a `.` is kept as its
//! text. Arrays and objects hold at least one element or member.
//!
//! Nested values are read by recursion, so the depth of the nesting in the
//! input is the depth of the call stack.

pub mod chars;
pub mod equality;
pub mod error;
pub mod grammar;
pub mod number;
pub mod parser;
pub mod syntax;
pub mod text;
pub mod theory;
pub mod value;

pub use error::ParseError;
pub use parser::{Cursor, Parser};
pub use value::{Json, JsonValue};
