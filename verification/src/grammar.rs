//! The grammar, as functions of the input and of a position in it.
//!
//! A position is the number of scalar values already pulled from the input,
//! which is the index of the next unread one. Every rule starts by pulling, so
//! a rule applied at `p` first looks at `s[p]`, and a rule that succeeds
//! reports how many scalar values it pulled: the last of them is the last one
//! of the value, and is the current character thereafter.

use vstd::prelude::*;
use crate::chars::{is_digit, is_whitespace};
use crate::error::ParseError;
use crate::number::decimal_value;
use crate::value::{members_map, JsonValue};

verus! {

/// The `n` scalar values of `s` from index `p` on.
pub open spec fn span(s: Seq<char>, p: int, n: nat) -> Seq<char> {
    Seq::new(n, |i: int| s[p + i])
}

/// Whether `s` holds `t` at index `p`.
pub open spec fn has_at(s: Seq<char>, p: int, t: Seq<char>) -> bool {
    &&& t.len() > 0 ==> 0 <= p && p + t.len() <= s.len()
    &&& forall|i: int| 0 <= i < t.len() ==> s[p + i] == #[trigger] t[i]
}

/// The length of the run of white space that starts at `p`.
pub open spec fn whitespace_run(s: Seq<char>, p: int) -> nat
    decreases s.len() - p,
{
    if 0 <= p < s.len() && is_whitespace(s[p]) {
        1 + whitespace_run(s, p + 1)
    } else {
        0
    }
}

/// The length of the run that starts at `p` and stops before the next `"`.
pub open spec fn text_run(s: Seq<char>, p: int) -> nat
    decreases s.len() - p,
{
    if 0 <= p < s.len() && s[p] != '"' {
        1 + text_run(s, p + 1)
    } else {
        0
    }
}

/// The length of the run of digits that starts at `p`, in which one `.` may
/// stand unless `seen_dot` says that one came before.
pub open spec fn number_run(s: Seq<char>, p: int, seen_dot: bool) -> nat
    decreases s.len() - p,
{
    if 0 <= p < s.len() && s[p] == '.' && !seen_dot {
        1 + number_run(s, p + 1, true)
    } else if 0 <= p < s.len() && is_digit(s[p]) {
        1 + number_run(s, p + 1, seen_dot)
    } else {
        0
    }
}

/// A string, read from the first scalar value after its opening quote: the
/// text up to the next `"`, with nothing in it treated as an escape, and the
/// count of what was pulled, the closing quote included.
pub open spec fn string_at(s: Seq<char>, p: int) -> Result<(Seq<char>, nat), ParseError> {
    let n = text_run(s, p);
    if 0 <= p && p + n < s.len() {
        Ok((span(s, p, n), n + 1))
    } else {
        Err(ParseError::UnterminatedString)
    }
}

/// A number whose first digit `first` has been pulled, read from the scalar
/// value after it.
///
/// The number is the longest run of digits with at most one `.` in it. With a
/// `.` it is a `Number` that keeps the run as its text, unless a second `.`
/// follows the run; without one it is the `Integer` that the digits read as,
/// if that fits in `usize`.
pub open spec fn number_at(first: char, s: Seq<char>, p: int) -> Result<(JsonValue, nat), ParseError> {
    let n = number_run(s, p, false);
    let text = seq![first] + span(s, p, n);
    if text.contains('.') {
        if 0 <= p + n < s.len() && s[p + n] == '.' {
            Err(ParseError::MalformedNumber)
        } else {
            Ok((JsonValue::Number(text), n))
        }
    } else if decimal_value(text) <= usize::MAX {
        Ok((JsonValue::Integer(decimal_value(text)), n))
    } else {
        Err(ParseError::NumberOutOfRange)
    }
}

/// A keyword whose first letter `first` has been pulled: the input has to go
/// on with `rest`, and what follows that is left to the caller.
pub open spec fn literal_at(
    first: char,
    rest: &'static str,
    value: JsonValue,
    s: Seq<char>,
    p: int,
) -> Result<(JsonValue, nat), ParseError> {
    if has_at(s, p, rest@) {
        Ok((value, rest@.len()))
    } else {
        Err(ParseError::LiteralMismatch(first, rest))
    }
}

/// The outcome `r` of a rule, counted from `n` scalar values before the place
/// where the rule began.
pub open spec fn after<T>(n: nat, r: Result<(T, nat), ParseError>) -> Result<(T, nat), ParseError> {
    match r {
        Ok((value, m)) => Ok((value, n + m)),
        Err(e) => Err(e),
    }
}

/// The outcome `r` of reading the rest of a list, after the `head` of it was
/// read with `n` scalar values.
pub open spec fn extend<T>(head: Seq<T>, n: nat, r: Result<(Seq<T>, nat), ParseError>) -> Result<
    (Seq<T>, nat),
    ParseError,
> {
    match r {
        Ok((rest, m)) => Ok((head + rest, n + m)),
        Err(e) => Err(e),
    }
}

/// A value, read from `p`: white space, then the value that the first other
/// scalar value announces.
pub open spec fn value_at(s: Seq<char>, p: int) -> Result<(JsonValue, nat), ParseError>
    decreases s.len() - p, 0nat,
{
    let w = whitespace_run(s, p);
    let start = p + w;
    if !(0 <= start < s.len()) {
        Err(ParseError::MissingValue)
    } else {
        let c = s[start];
        if c == '[' {
            match elements_at(s, start + 1) {
                Ok((items, n)) => Ok((JsonValue::Array(items), w + 1 + n)),
                Err(e) => Err(e),
            }
        } else if c == '{' {
            match members_at(s, start + 1) {
                Ok((members, n)) => Ok(
                    (JsonValue::Object(members_map(members)), w + 1 + n),
                ),
                Err(e) => Err(e),
            }
        } else if c == '"' {
            match string_at(s, start + 1) {
                Ok((text, n)) => Ok((JsonValue::String(text), w + 1 + n)),
                Err(e) => Err(e),
            }
        } else if c == 'n' {
            after(w + 1, literal_at('n', "ull", JsonValue::Null, s, start + 1))
        } else if c == 'f' {
            after(w + 1, literal_at('f', "alse", JsonValue::Boolean(false), s, start + 1))
        } else if c == 't' {
            after(w + 1, literal_at('t', "rue", JsonValue::Boolean(true), s, start + 1))
        } else if is_digit(c) {
            after(w + 1, number_at(c, s, start + 1))
        } else {
            Err(ParseError::UnexpectedCharacter(c))
        }
    }
}

/// The elements of an array, read from the scalar value after its `[` or
/// after one of its commas: a value, white space, and then `]`, or `,` and
/// more elements.
pub open spec fn elements_at(s: Seq<char>, p: int) -> Result<(Seq<JsonValue>, nat), ParseError>
    decreases s.len() - p, 1nat,
{
    match value_at(s, p) {
        Err(e) => Err(e),
        Ok((item, n)) => {
            let w = whitespace_run(s, p + n);
            let stop = p + n + w;
            if !(0 <= stop < s.len()) {
                Err(ParseError::ArrayUnclosed)
            } else if s[stop] == ']' {
                Ok((seq![item], n + w + 1))
            } else if s[stop] == ',' {
                extend(seq![item], n + w + 1, elements_at(s, stop + 1))
            } else {
                Err(ParseError::ArrayUnexpected(s[stop]))
            }
        },
    }
}

/// The key of a member, read from `p`: white space, the key in quotes, white
/// space, and `:`.
pub open spec fn key_at(s: Seq<char>, p: int) -> Result<(Seq<char>, nat), ParseError> {
    let w1 = whitespace_run(s, p);
    let quote = p + w1;
    if !(0 <= quote < s.len()) {
        Err(ParseError::ObjectTruncated)
    } else if s[quote] != '"' {
        Err(ParseError::ObjectSeparator)
    } else {
        match string_at(s, quote + 1) {
            Err(e) => Err(e),
            Ok((key, n)) => {
                let w2 = whitespace_run(s, quote + 1 + n);
                let colon = quote + 1 + n + w2;
                if !(colon < s.len()) {
                    Err(ParseError::ObjectTruncated)
                } else if s[colon] != ':' {
                    Err(ParseError::ObjectSeparator)
                } else {
                    Ok((key, w1 + 1 + n + w2 + 1))
                }
            },
        }
    }
}

/// The members of an object in the order of the input, read from the scalar
/// value after its `{` or after one of its commas: a key with its `:`, a
/// value, white space, and then `}`, or `,` and more members.
pub open spec fn members_at(s: Seq<char>, p: int) -> Result<
    (Seq<(Seq<char>, JsonValue)>, nat),
    ParseError,
>
    decreases s.len() - p, 1nat,
{
    match key_at(s, p) {
        Err(e) => Err(e),
        Ok((key, n1)) => match value_at(s, p + n1) {
            Err(e) => Err(e),
            Ok((value, n2)) => {
                let w = whitespace_run(s, p + n1 + n2);
                let stop = p + n1 + n2 + w;
                if !(0 <= stop < s.len()) {
                    Err(ParseError::ObjectUnclosed)
                } else if s[stop] == '}' {
                    Ok((seq![(key, value)], n1 + n2 + w + 1))
                } else if s[stop] == ',' {
                    extend(seq![(key, value)], n1 + n2 + w + 1, members_at(s, stop + 1))
                } else {
                    Err(ParseError::ObjectUnexpected(s[stop]))
                }
            },
        },
    }
}

/// A document, read from `p`: one value, and nothing but white space after it.
pub open spec fn document_at(s: Seq<char>, p: int) -> Result<JsonValue, ParseError> {
    match value_at(s, p) {
        Err(e) => Err(e),
        Ok((value, n)) => if p + n + whitespace_run(s, p + n) < s.len() {
            Err(ParseError::TrailingContent)
        } else {
            Ok(value)
        },
    }
}

/// Whether the scalar value at `p`, if there is one, can go on a number.
pub open spec fn number_goes_on(s: Seq<char>, p: int) -> bool {
    0 <= p < s.len() && (is_digit(s[p]) || s[p] == '.')
}

/// Whether `text` can be the text of a number: a digit, and then digits
/// among which at most one `.` stands.
pub open spec fn is_number_text(text: Seq<char>) -> bool {
    &&& text.len() > 0
    &&& is_digit(text[0])
    &&& forall|i: int| 0 <= i < text.len() ==> is_digit(#[trigger] text[i]) || text[i] == '.'
    &&& forall|i: int, j: int|
        0 <= i < j < text.len() ==> !(#[trigger] text[i] == '.' && #[trigger] text[j] == '.')
}

} // verus!
