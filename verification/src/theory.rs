//! What follows from the grammar.

use vstd::prelude::*;
use crate::chars::{is_digit, is_whitespace};
use crate::error::ParseError;
use crate::grammar::{
    document_at, elements_at, has_at, is_number_text, key_at, members_at, number_goes_on,
    number_run, span, string_at, text_run, value_at, whitespace_run,
};
use crate::number::decimal_value;
use crate::value::JsonValue;

verus! {

/// A run of white space ends within the input.
pub proof fn lemma_whitespace_run_bound(s: Seq<char>, p: int)
    requires
        0 <= p <= s.len(),
    ensures
        p + whitespace_run(s, p) <= s.len(),
    decreases s.len() - p,
{
    if p < s.len() && is_whitespace(s[p]) {
        lemma_whitespace_run_bound(s, p + 1);
    }
}

/// A run of digits ends within the input.
pub proof fn lemma_number_run_bound(s: Seq<char>, p: int, seen_dot: bool)
    requires
        0 <= p <= s.len(),
    ensures
        p + number_run(s, p, seen_dot) <= s.len(),
    decreases s.len() - p,
{
    if p < s.len() && s[p] == '.' && !seen_dot {
        lemma_number_run_bound(s, p + 1, true);
    } else if p < s.len() && is_digit(s[p]) {
        lemma_number_run_bound(s, p + 1, seen_dot);
    }
}

/// A value that was read lies within the input, and is not empty.
pub proof fn lemma_value_within(s: Seq<char>, p: int)
    ensures
        value_at(s, p) matches Ok((_, n)) ==> 0 <= p && 0 < n && p + n <= s.len(),
    decreases s.len() - p, 0nat,
{
    let w = whitespace_run(s, p);
    let start = p + w;
    if 0 <= start < s.len() {
        if p >= 0 {
            lemma_whitespace_run_bound(s, p);
        }
        let c = s[start];
        if c == '[' {
            lemma_elements_within(s, start + 1);
        } else if c == '{' {
            lemma_members_within(s, start + 1);
        } else if c == '"' {
        } else if c == 'n' {
            lemma_literal_within("ull"@, s, start + 1);
        } else if c == 'f' {
            lemma_literal_within("alse"@, s, start + 1);
        } else if c == 't' {
            lemma_literal_within("rue"@, s, start + 1);
        } else if is_digit(c) {
            lemma_number_run_bound(s, start + 1, false);
        }
    }
}

/// A keyword that was matched lies within the input.
proof fn lemma_literal_within(rest: Seq<char>, s: Seq<char>, p: int)
    requires
        0 <= p <= s.len(),
    ensures
        has_at(s, p, rest) ==> p + rest.len() <= s.len(),
{
    if rest.len() > 0 {
        let last = rest[rest.len() - 1];
    }
}

/// The elements of an array that were read lie within the input.
pub proof fn lemma_elements_within(s: Seq<char>, p: int)
    ensures
        elements_at(s, p) matches Ok((items, n)) ==> 0 <= p && 0 < n && p + n <= s.len()
            && items.len() > 0,
    decreases s.len() - p, 1nat,
{
    lemma_value_within(s, p);
    match value_at(s, p) {
        Ok((_, n)) => {
            let stop = p + n + whitespace_run(s, p + n);
            if 0 <= stop < s.len() && s[stop] == ',' {
                lemma_elements_within(s, stop + 1);
            }
        },
        Err(_) => {},
    }
}

/// The key of a member that was read lies within the input, and is not
/// empty.
pub proof fn lemma_key_within(s: Seq<char>, p: int)
    ensures
        key_at(s, p) matches Ok((_, n)) ==> 0 <= p && 0 < n && p + n <= s.len(),
{
    if 0 <= p <= s.len() {
        lemma_whitespace_run_bound(s, p);
    }
    let quote = p + whitespace_run(s, p);
    if 0 <= quote < s.len() {
        match string_at(s, quote + 1) {
            Ok((_, n)) => {
                lemma_whitespace_run_bound(s, quote + 1 + n);
            },
            Err(_) => {},
        }
    }
}

/// The members of an object that were read lie within the input.
pub proof fn lemma_members_within(s: Seq<char>, p: int)
    ensures
        members_at(s, p) matches Ok((members, n)) ==> 0 <= p && 0 < n && p + n <= s.len()
            && members.len() > 0,
    decreases s.len() - p, 1nat,
{
    lemma_key_within(s, p);
    match key_at(s, p) {
        Ok((_, n1)) => {
            lemma_value_within(s, p + n1);
            match value_at(s, p + n1) {
                Ok((_, n2)) => {
                    let stop = p + n1 + n2 + whitespace_run(s, p + n1 + n2);
                    if 0 <= stop < s.len() && s[stop] == ',' {
                        lemma_members_within(s, stop + 1);
                    }
                },
                Err(_) => {},
            }
        },
        Err(_) => {},
    }
}

/// The input holds a text made of two parts where it holds the first part
/// and, after it, the second.
pub proof fn lemma_has_at_concat(s: Seq<char>, p: int, a: Seq<char>, b: Seq<char>)
    requires
        0 <= p <= s.len(),
    ensures
        has_at(s, p, a + b) <==> has_at(s, p, a) && has_at(s, p + a.len(), b),
{
    let t = a + b;
    if has_at(s, p, t) {
        assert forall|i: int| 0 <= i < a.len() implies s[p + i] == #[trigger] a[i] by {
            assert(t[i] == a[i]);
        }
        assert forall|i: int| 0 <= i < b.len() implies s[p + a.len() + i] == #[trigger] b[i] by {
            assert(t[a.len() + i] == b[i]);
        }
    }
    if has_at(s, p, a) && has_at(s, p + a.len(), b) {
        assert forall|i: int| 0 <= i < t.len() implies s[p + i] == #[trigger] t[i] by {
            if i < a.len() {
                assert(t[i] == a[i]);
            } else {
                assert(t[i] == b[i - a.len()]);
            }
        }
    }
}

/// Where the input holds a text, it holds what is left of the text without
/// its first scalar value one place further on.
pub proof fn lemma_has_at_rest(s: Seq<char>, p: int, t: Seq<char>)
    requires
        has_at(s, p, t),
        t.len() > 0,
    ensures
        0 <= p < s.len(),
        s[p] == t[0],
        has_at(s, p + 1, t.drop_first()),
{
    assert(s[p + 0] == t[0]);
    let rest = t.drop_first();
    assert forall|i: int| 0 <= i < rest.len() implies s[p + 1 + i] == #[trigger] rest[i] by {
        assert(t[i + 1] == rest[i]);
    }
}

/// White space that is followed by something else, or by nothing, is a
/// whole run of white space.
pub proof fn lemma_whitespace_run_is(s: Seq<char>, p: int, blank: Seq<char>)
    requires
        has_at(s, p, blank),
        forall|i: int| 0 <= i < blank.len() ==> is_whitespace(#[trigger] blank[i]),
        !(0 <= p + blank.len() < s.len() && is_whitespace(s[p + blank.len()])),
    ensures
        whitespace_run(s, p) == blank.len(),
    decreases blank.len(),
{
    if blank.len() > 0 {
        lemma_has_at_rest(s, p, blank);
        let rest = blank.drop_first();
        assert forall|i: int| 0 <= i < rest.len() implies is_whitespace(#[trigger] rest[i]) by {
            assert(blank[i + 1] == rest[i]);
        }
        lemma_whitespace_run_is(s, p + 1, rest);
    }
}

/// A text without a `"` that is followed by one, or by nothing, is a whole
/// run of text.
pub proof fn lemma_text_run_is(s: Seq<char>, p: int, text: Seq<char>)
    requires
        has_at(s, p, text),
        !text.contains('"'),
        !(0 <= p + text.len() < s.len() && s[p + text.len()] != '"'),
    ensures
        text_run(s, p) == text.len(),
        span(s, p, text.len()) == text,
    decreases text.len(),
{
    if text.len() > 0 {
        lemma_has_at_rest(s, p, text);
        let rest = text.drop_first();
        assert(text.contains(text[0]));
        assert forall|i: int| 0 <= i < rest.len() implies rest[i] != '"' by {
            assert(text[i + 1] == rest[i]);
            assert(text.contains(text[i + 1]));
        }
        lemma_text_run_is(s, p + 1, rest);
    }
    assert(span(s, p, text.len()) =~= text);
}

/// Digits with at most one `.` among them, or with none where one came
/// before, that are followed neither by a digit nor by a `.` that could still
/// join them, are a whole run of digits.
pub proof fn lemma_number_run_is(s: Seq<char>, p: int, text: Seq<char>, seen_dot: bool)
    requires
        has_at(s, p, text),
        forall|i: int| 0 <= i < text.len() ==> is_digit(#[trigger] text[i]) || text[i] == '.',
        forall|i: int, j: int|
            0 <= i < j < text.len() ==> !(#[trigger] text[i] == '.' && #[trigger] text[j] == '.'),
        seen_dot ==> !text.contains('.'),
        !(0 <= p + text.len() < s.len() && is_digit(s[p + text.len()])),
        0 <= p + text.len() < s.len() && s[p + text.len()] == '.' ==> seen_dot || text.contains(
            '.',
        ),
    ensures
        number_run(s, p, seen_dot) == text.len(),
        span(s, p, text.len()) == text,
    decreases text.len(),
{
    if text.len() > 0 {
        lemma_has_at_rest(s, p, text);
        let rest = text.drop_first();
        assert(text.contains(text[0]));
        assert forall|i: int| 0 <= i < rest.len() implies is_digit(#[trigger] rest[i]) || rest[i]
            == '.' by {
            assert(text[i + 1] == rest[i]);
        }
        assert forall|i: int, j: int| 0 <= i < j < rest.len() implies !(#[trigger] rest[i] == '.'
            && #[trigger] rest[j] == '.') by {
            assert(text[i + 1] == rest[i]);
            assert(text[j + 1] == rest[j]);
        }
        let now = seen_dot || text[0] == '.';
        if now && rest.contains('.') {
            let i = choose|i: int| 0 <= i < rest.len() && rest[i] == '.';
            assert(text[i + 1] == rest[i]);
            assert(text.contains(text[i + 1]));
            assert(text[0] == '.' && text[i + 1] == '.');
        }
        if !now && text.contains('.') {
            let i = choose|i: int| 0 <= i < text.len() && text[i] == '.';
            assert(text[i] == rest[i - 1]);
            assert(rest.contains('.'));
        }
        lemma_number_run_is(s, p + 1, rest, now);
    }
    assert(span(s, p, text.len()) =~= text);
}

/// What stands at `p` when the text of a number does, followed by what
/// cannot go on a number: with a `.` the `Number` that keeps the text, and
/// without one the `Integer` that the text reads as, if that fits in `usize`.
pub proof fn theorem_number_read(text: Seq<char>, s: Seq<char>, p: int)
    requires
        is_number_text(text),
        has_at(s, p, text),
        !number_goes_on(s, p + text.len()),
    ensures
        value_at(s, p) == (if text.contains('.') {
            Ok::<(JsonValue, nat), ParseError>((JsonValue::Number(text), text.len()))
        } else if decimal_value(text) <= usize::MAX {
            Ok((JsonValue::Integer(decimal_value(text)), text.len()))
        } else {
            Err(ParseError::NumberOutOfRange)
        }),
{
    lemma_number_text_read(text, s, p);
}

/// A number with a `.` that is followed by a second `.` is rejected.
pub proof fn theorem_second_point_rejected(text: Seq<char>, s: Seq<char>, p: int)
    requires
        is_number_text(text),
        text.contains('.'),
        has_at(s, p, text + seq!['.']),
    ensures
        value_at(s, p) == Err::<(JsonValue, nat), ParseError>(ParseError::MalformedNumber),
{
    lemma_has_at_concat(s, p, text, seq!['.']);
    assert(s[p + text.len() + 0] == seq!['.'][0]);
    lemma_number_text_read(text, s, p);
}

/// The run of digits that is read where the text of a number stands, and
/// the text that it has.
proof fn lemma_number_text_read(text: Seq<char>, s: Seq<char>, p: int)
    requires
        is_number_text(text),
        has_at(s, p, text),
        !(0 <= p + text.len() < s.len() && is_digit(s[p + text.len()])),
        0 <= p + text.len() < s.len() && s[p + text.len()] == '.' ==> text.contains('.'),
    ensures
        whitespace_run(s, p) == 0,
        0 <= p < s.len(),
        s[p] == text[0],
        number_run(s, p + 1, false) == text.len() - 1,
        seq![text[0]] + span(s, p + 1, (text.len() - 1) as nat) == text,
{
    lemma_has_at_rest(s, p, text);
    let rest = text.drop_first();
    assert forall|i: int| 0 <= i < rest.len() implies is_digit(#[trigger] rest[i]) || rest[i]
        == '.' by {
        assert(rest[i] == text[i + 1]);
    }
    assert forall|i: int, j: int| 0 <= i < j < rest.len() implies !(#[trigger] rest[i] == '.'
        && #[trigger] rest[j] == '.') by {
        assert(rest[i] == text[i + 1]);
        assert(rest[j] == text[j + 1]);
    }
    if text.contains('.') {
        let i = choose|i: int| 0 <= i < text.len() && text[i] == '.';
        assert(text[i] == rest[i - 1]);
        assert(rest.contains('.'));
    }
    lemma_number_run_is(s, p + 1, rest, false);
    assert(seq![text[0]] + rest =~= text);
}

/// White space goes no further than the first scalar value that is none.
pub proof fn lemma_whitespace_run_stops(s: Seq<char>, p: int, at: int)
    requires
        0 <= p <= at < s.len(),
        !is_whitespace(s[at]),
    ensures
        p + whitespace_run(s, p) <= at,
    decreases at - p,
{
    if p < at && is_whitespace(s[p]) {
        lemma_whitespace_run_stops(s, p + 1, at);
    }
}

/// Where a value was read and anything but white space stands after it, the
/// document is rejected.
pub proof fn theorem_trailing_content_rejected(s: Seq<char>, p: int, at: int)
    requires
        value_at(s, p) matches Ok((_, n)) && p + n <= at,
        0 <= at < s.len(),
        !is_whitespace(s[at]),
    ensures
        document_at(s, p) == Err::<JsonValue, ParseError>(ParseError::TrailingContent),
{
    lemma_value_within(s, p);
    let n = value_at(s, p)->Ok_0.1;
    lemma_whitespace_run_stops(s, p + n, at);
}

/// The elements of an array that were read end with `]`.
pub proof fn lemma_elements_closed(s: Seq<char>, p: int)
    ensures
        elements_at(s, p) matches Ok((_, n)) ==> 0 <= p + n - 1 < s.len() && s[p + n - 1] == ']',
    decreases s.len() - p,
{
    lemma_value_within(s, p);
    match value_at(s, p) {
        Ok((_, n)) => {
            let stop = p + n + whitespace_run(s, p + n);
            if 0 <= stop < s.len() && s[stop] == ',' {
                lemma_elements_closed(s, stop + 1);
            }
        },
        Err(_) => {},
    }
}

/// The members of an object that were read end with `}`.
pub proof fn lemma_members_closed(s: Seq<char>, p: int)
    ensures
        members_at(s, p) matches Ok((_, n)) ==> 0 <= p + n - 1 < s.len() && s[p + n - 1] == '}',
    decreases s.len() - p,
{
    lemma_key_within(s, p);
    match key_at(s, p) {
        Ok((_, n1)) => {
            lemma_value_within(s, p + n1);
            match value_at(s, p + n1) {
                Ok((_, n2)) => {
                    let stop = p + n1 + n2 + whitespace_run(s, p + n1 + n2);
                    if 0 <= stop < s.len() && s[stop] == ',' {
                        lemma_members_closed(s, stop + 1);
                    }
                },
                Err(_) => {},
            }
        },
        Err(_) => {},
    }
}

/// A document that starts with `{` and holds no `}`, or starts with `[` and
/// holds no `]`, is rejected.
pub proof fn theorem_unterminated_container_rejected(s: Seq<char>)
    requires
        ({
            let first = whitespace_run(s, 0) as int;
            0 <= first < s.len() && ((s[first] == '{' && !s.contains('}')) || (s[first] == '['
                && !s.contains(']')))
        }),
    ensures
        document_at(s, 0) is Err,
{
    let first = whitespace_run(s, 0) as int;
    lemma_elements_closed(s, first + 1);
    lemma_members_closed(s, first + 1);
    match elements_at(s, first + 1) {
        Ok((_, n)) => {
            assert(s.contains(s[first + 1 + n - 1]));
        },
        Err(_) => {},
    }
    match members_at(s, first + 1) {
        Ok((_, n)) => {
            assert(s.contains(s[first + 1 + n - 1]));
        },
        Err(_) => {},
    }
}

} // verus!
