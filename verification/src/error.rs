//! Why a document was rejected.

use vstd::prelude::*;
use vstd::string::StringExecFns;

verus! {

/// The first deviation from the grammar that the parser met. Every failure is
/// final: nothing is recovered and no partial value is returned.
#[derive(Debug, Clone, Copy, PartialEq, Eq)]
pub enum ParseError {
    /// The input ended where a value had to start.
    MissingValue,
    /// A value cannot start with this character.
    UnexpectedCharacter(char),
    /// After this first letter of a keyword the input did not go on with the
    /// expected rest of it.
    LiteralMismatch(char, &'static str),
    /// The input ended inside a string.
    UnterminatedString,
    /// A number holds a second decimal point.
    MalformedNumber,
    /// A number without a decimal point is too large for `usize`.
    NumberOutOfRange,
    /// Something else stands where an object needs a quoted key or the `:`
    /// after it.
    ObjectSeparator,
    /// The input ended where an object needs a key or the `:` after it.
    ObjectTruncated,
    /// After a member of an object this character stands in place of `,` or
    /// `}`.
    ObjectUnexpected(char),
    /// The input ended after a member of an object.
    ObjectUnclosed,
    /// After an element of an array this character stands in place of `,` or
    /// `]`.
    ArrayUnexpected(char),
    /// The input ended after an element of an array.
    ArrayUnclosed,
    /// Something other than white space follows the document's value.
    TrailingContent,
}

impl ParseError {
    /// The diagnostic as a sequence of scalar values.
    pub open spec fn message_text(self) -> Seq<char> {
        match self {
            ParseError::MissingValue => "Invalid json format."@,
            ParseError::UnexpectedCharacter(c) => "Unexpected: "@.push(c) + " in json value"@,
            ParseError::LiteralMismatch(c, rest) => "invalid json value, probably wanted: "@.push(c)
                + rest@,
            ParseError::UnterminatedString => "Json string never ends!"@,
            ParseError::MalformedNumber => "invalid json number structure"@,
            ParseError::NumberOutOfRange => "number too large to fit in target type"@,
            ParseError::ObjectSeparator => "Invalid json object composition, no separator"@,
            ParseError::ObjectTruncated => "Invalid Json object composition"@,
            ParseError::ObjectUnexpected(c) => "Invalid Json object composition, got: "@.push(c),
            ParseError::ObjectUnclosed => "Invalid Json object composition, no closing }"@,
            ParseError::ArrayUnexpected(c) => "Invalid json array structure, got: "@.push(c),
            ParseError::ArrayUnclosed => "Invalid json array structure, no closing ]"@,
            ParseError::TrailingContent => "Invalid json format."@,
        }
    }

    /// A human-readable diagnostic, naming the offending character where there
    /// is one.
    pub fn message(&self) -> (text: String)
        ensures
            text@ == self.message_text(),
    {
        match *self {
            ParseError::MissingValue => String::from_str("Invalid json format."),
            ParseError::UnexpectedCharacter(c) => {
                let mut text = String::from_str("Unexpected: ");
                text.push(c);
                text.append(" in json value");
                text
            },
            ParseError::LiteralMismatch(c, rest) => {
                let mut text = String::from_str("invalid json value, probably wanted: ");
                text.push(c);
                text.append(rest);
                text
            },
            ParseError::UnterminatedString => String::from_str("Json string never ends!"),
            ParseError::MalformedNumber => String::from_str("invalid json number structure"),
            ParseError::NumberOutOfRange => String::from_str(
                "number too large to fit in target type",
            ),
            ParseError::ObjectSeparator => String::from_str(
                "Invalid json object composition, no separator",
            ),
            ParseError::ObjectTruncated => String::from_str("Invalid Json object composition"),
            ParseError::ObjectUnexpected(c) => {
                let mut text = String::from_str("Invalid Json object composition, got: ");
                text.push(c);
                text
            },
            ParseError::ObjectUnclosed => String::from_str(
                "Invalid Json object composition, no closing }",
            ),
            ParseError::ArrayUnexpected(c) => {
                let mut text = String::from_str("Invalid json array structure, got: ");
                text.push(c);
                text
            },
            ParseError::ArrayUnclosed => String::from_str(
                "Invalid json array structure, no closing ]",
            ),
            ParseError::TrailingContent => String::from_str("Invalid json format."),
        }
    }
}

} // verus!
