//! Documents as they are written, and what the grammar makes of them.
//!
//! A [`Syntax`] is a document of the grammar together with the white space
//! between its tokens. Its text is what stands in the input, its value is what
//! it means; the theorems at the end of this file say that the grammar reads
//! the one as the other.

use vstd::prelude::*;
use crate::chars::{is_digit, is_whitespace};
use crate::error::ParseError;
use crate::grammar::{
    document_at, elements_at, has_at, key_at, members_at, number_goes_on, string_at, value_at,
    whitespace_run,
};
use crate::number::{decimal_value, is_decimal_text};
use crate::theory::{
    lemma_has_at_concat, lemma_has_at_rest, lemma_number_run_is, lemma_text_run_is,
    lemma_whitespace_run_is,
};
use crate::value::{members_map, JsonValue};

verus! {

/// Whether `text` holds nothing but white space.
pub open spec fn is_blank(text: Seq<char>) -> bool {
    forall|i: int| 0 <= i < text.len() ==> is_whitespace(#[trigger] text[i])
}

/// Whether `text` holds nothing but decimal digits.
pub open spec fn is_digits(text: Seq<char>) -> bool {
    forall|i: int| 0 <= i < text.len() ==> is_digit(#[trigger] text[i])
}

/// A value as it is written.
pub enum Syntax {
    /// A string with this text between its quotes.
    String(Seq<char>),
    /// A number with a decimal point, written as this text.
    Number(Seq<char>),
    /// A number without a decimal point, written as these digits.
    Integer(Seq<char>),
    /// `true` or `false`.
    Boolean(bool),
    /// `null`.
    Null,
    /// An array of these elements.
    Array(Box<Elements>),
    /// An object of these members.
    Object(Box<Members>),
}

/// A value with the white space before and after it.
pub struct Element {
    /// The white space before the value.
    pub before: Seq<char>,
    /// The value.
    pub value: Syntax,
    /// The white space after the value.
    pub after: Seq<char>,
}

/// The elements of an array: one, or one and more after a comma.
pub enum Elements {
    /// The last element, before the `]`.
    Last(Element),
    /// An element, and those after its comma.
    Then(Element, Box<Elements>),
}

/// A member of an object: white space, the key in quotes, white space, the
/// colon, and the value with the white space around it.
pub struct Member {
    /// The white space before the key.
    pub before: Seq<char>,
    /// The text of the key, between its quotes.
    pub key: Seq<char>,
    /// The white space between the key and the colon.
    pub between: Seq<char>,
    /// The value, with the white space around it.
    pub element: Element,
}

/// The members of an object: one, or one and more after a comma.
pub enum Members {
    /// The last member, before the `}`.
    Last(Member),
    /// A member, and those after its comma.
    Then(Member, Box<Members>),
}

impl Syntax {
    /// The scalar values that the value is written with.
    pub open spec fn text(self) -> Seq<char>
        decreases self,
    {
        match self {
            Syntax::String(text) => seq!['"'] + (text + seq!['"']),
            Syntax::Number(text) => text,
            Syntax::Integer(digits) => digits,
            Syntax::Boolean(b) => if b {
                seq!['t', 'r', 'u', 'e']
            } else {
                seq!['f', 'a', 'l', 's', 'e']
            },
            Syntax::Null => seq!['n', 'u', 'l', 'l'],
            Syntax::Array(elements) => seq!['['] + elements.text(),
            Syntax::Object(members) => seq!['{'] + members.text(),
        }
    }

    /// Whether the value is written as the grammar asks: no `"` within a
    /// string, one decimal point in a `Number`, and in an `Integer` at least
    /// one digit and a number that fits in `usize`.
    pub open spec fn valid(self) -> bool
        decreases self,
    {
        match self {
            Syntax::String(text) => !text.contains('"'),
            Syntax::Number(text) => is_decimal_text(text),
            Syntax::Integer(digits) => digits.len() > 0 && is_digits(digits) && decimal_value(
                digits,
            ) <= usize::MAX,
            Syntax::Boolean(_) => true,
            Syntax::Null => true,
            Syntax::Array(elements) => elements.valid(),
            Syntax::Object(members) => members.valid(),
        }
    }

    /// What the value means.
    pub open spec fn value(self) -> JsonValue
        decreases self,
    {
        match self {
            Syntax::String(text) => JsonValue::String(text),
            Syntax::Number(text) => JsonValue::Number(text),
            Syntax::Integer(digits) => JsonValue::Integer(decimal_value(digits)),
            Syntax::Boolean(b) => JsonValue::Boolean(b),
            Syntax::Null => JsonValue::Null,
            Syntax::Array(elements) => JsonValue::Array(elements.values()),
            Syntax::Object(members) => JsonValue::Object(members_map(members.values())),
        }
    }

    /// The value written without white space between its tokens.
    pub open spec fn stripped(self) -> Syntax
        decreases self,
    {
        match self {
            Syntax::Array(elements) => Syntax::Array(Box::new(elements.stripped())),
            Syntax::Object(members) => Syntax::Object(Box::new(members.stripped())),
            _ => self,
        }
    }
}

impl Element {
    /// The value as it is written, with the white space around it.
    pub open spec fn text(self) -> Seq<char>
        decreases self,
    {
        self.before + (self.value.text() + self.after)
    }

    /// Whether the value is valid and nothing but white space stands around
    /// it.
    pub open spec fn valid(self) -> bool
        decreases self,
    {
        is_blank(self.before) && self.value.valid() && is_blank(self.after)
    }

    /// The element without the white space around it and in it.
    pub open spec fn stripped(self) -> Element
        decreases self,
    {
        Element { before: Seq::empty(), value: self.value.stripped(), after: Seq::empty() }
    }
}

impl Elements {
    /// What follows the `[` of the array, up to its `]`.
    pub open spec fn text(self) -> Seq<char>
        decreases self,
    {
        match self {
            Elements::Last(element) => element.text() + seq![']'],
            Elements::Then(element, rest) => element.text() + (seq![','] + rest.text()),
        }
    }

    /// Whether each of the elements is valid.
    pub open spec fn valid(self) -> bool
        decreases self,
    {
        match self {
            Elements::Last(element) => element.valid(),
            Elements::Then(element, rest) => element.valid() && rest.valid(),
        }
    }

    /// What the elements mean, in their order.
    pub open spec fn values(self) -> Seq<JsonValue>
        decreases self,
    {
        match self {
            Elements::Last(element) => seq![element.value.value()],
            Elements::Then(element, rest) => seq![element.value.value()] + rest.values(),
        }
    }

    /// The elements without white space between their tokens.
    pub open spec fn stripped(self) -> Elements
        decreases self,
    {
        match self {
            Elements::Last(element) => Elements::Last(element.stripped()),
            Elements::Then(element, rest) => Elements::Then(
                element.stripped(),
                Box::new(rest.stripped()),
            ),
        }
    }
}

impl Member {
    /// The key as it is written, up to its `:`.
    pub open spec fn head(self) -> Seq<char> {
        self.before + (seq!['"'] + (self.key + (seq!['"'] + (self.between + seq![':']))))
    }

    /// The member as it is written.
    pub open spec fn text(self) -> Seq<char>
        decreases self,
    {
        self.head() + self.element.text()
    }

    /// Whether the key holds no `"`, the value is valid, and nothing but
    /// white space stands between the tokens.
    pub open spec fn valid(self) -> bool
        decreases self,
    {
        is_blank(self.before) && !self.key.contains('"') && is_blank(self.between)
            && self.element.valid()
    }

    /// The member without white space between its tokens.
    pub open spec fn stripped(self) -> Member
        decreases self,
    {
        Member {
            before: Seq::empty(),
            key: self.key,
            between: Seq::empty(),
            element: self.element.stripped(),
        }
    }
}

impl Members {
    /// What follows the `{` of the object, up to its `}`.
    pub open spec fn text(self) -> Seq<char>
        decreases self,
    {
        match self {
            Members::Last(member) => member.text() + seq!['}'],
            Members::Then(member, rest) => member.text() + (seq![','] + rest.text()),
        }
    }

    /// Whether each of the members is valid.
    pub open spec fn valid(self) -> bool
        decreases self,
    {
        match self {
            Members::Last(member) => member.valid(),
            Members::Then(member, rest) => member.valid() && rest.valid(),
        }
    }

    /// The keys with what their values mean, in the order of the members.
    pub open spec fn values(self) -> Seq<(Seq<char>, JsonValue)>
        decreases self,
    {
        match self {
            Members::Last(member) => seq![(member.key, member.element.value.value())],
            Members::Then(member, rest) => seq![(member.key, member.element.value.value())]
                + rest.values(),
        }
    }

    /// The members without white space between their tokens.
    pub open spec fn stripped(self) -> Members
        decreases self,
    {
        match self {
            Members::Last(member) => Members::Last(member.stripped()),
            Members::Then(member, rest) => Members::Then(
                member.stripped(),
                Box::new(rest.stripped()),
            ),
        }
    }
}

/// A valid value is written with at least one scalar value, and the first
/// is no white space.
pub proof fn lemma_first_of_text(d: Syntax)
    requires
        d.valid(),
    ensures
        d.text().len() > 0,
        !is_whitespace(d.text()[0]),
{
    match d {
        Syntax::Number(text) => {
            let dot = choose|dot: int|
                0 < dot < text.len() && #[trigger] text[dot] == '.' && forall|i: int|
                    0 <= i < text.len() && i != dot ==> is_digit(#[trigger] text[i]);
            assert(is_digit(text[0]));
        },
        Syntax::Integer(digits) => {
            assert(is_digit(digits[0]));
        },
        _ => {},
    }
}

/// The grammar reads a valid value, written after white space at `p` and not
/// followed by what could go on a number, as what the value means, and reads
/// all of it.
pub proof fn lemma_value_read(d: Syntax, s: Seq<char>, p: int, before: Seq<char>)
    requires
        d.valid(),
        is_blank(before),
        0 <= p,
        has_at(s, p, before),
        has_at(s, p + before.len(), d.text()),
        !number_goes_on(s, p + before.len() + d.text().len()),
    ensures
        value_at(s, p) == Ok::<(JsonValue, nat), ParseError>(
            (d.value(), before.len() + d.text().len()),
        ),
    decreases d,
{
    let start = p + before.len();
    let text = d.text();
    lemma_first_of_text(d);
    lemma_has_at_rest(s, start, text);
    lemma_whitespace_run_is(s, p, before);
    let rest = text.drop_first();
    match d {
        Syntax::String(inner) => {
            assert(rest =~= inner + seq!['"']);
            lemma_has_at_concat(s, start + 1, inner, seq!['"']);
            assert(s[start + 1 + inner.len() + 0] == seq!['"'][0]);
            lemma_text_run_is(s, start + 1, inner);
        },
        Syntax::Number(_) => {
            let dot = choose|dot: int|
                0 < dot < text.len() && #[trigger] text[dot] == '.' && forall|i: int|
                    0 <= i < text.len() && i != dot ==> is_digit(#[trigger] text[i]);
            assert forall|i: int| 0 <= i < rest.len() implies is_digit(#[trigger] rest[i])
                || rest[i] == '.' by {
                assert(rest[i] == text[i + 1]);
            }
            assert forall|i: int, j: int| 0 <= i < j < rest.len() implies !(#[trigger] rest[i]
                == '.' && #[trigger] rest[j] == '.') by {
                assert(rest[i] == text[i + 1]);
                assert(rest[j] == text[j + 1]);
            }
            lemma_number_run_is(s, start + 1, rest, false);
            assert(seq![text[0]] + rest =~= text);
            assert(text.contains('.'));
        },
        Syntax::Integer(_) => {
            assert forall|i: int| 0 <= i < rest.len() implies is_digit(#[trigger] rest[i])
                || rest[i] == '.' by {
                assert(rest[i] == text[i + 1]);
            }
            assert forall|i: int, j: int| 0 <= i < j < rest.len() implies !(#[trigger] rest[i]
                == '.' && #[trigger] rest[j] == '.') by {
                assert(rest[i] == text[i + 1]);
                assert(rest[j] == text[j + 1]);
            }
            lemma_number_run_is(s, start + 1, rest, false);
            assert(seq![text[0]] + rest =~= text);
            assert(!text.contains('.')) by {
                if text.contains('.') {
                    let i = choose|i: int| 0 <= i < text.len() && text[i] == '.';
                    assert(is_digit(text[i]));
                }
            }
        },
        Syntax::Boolean(b) => {
            reveal_strlit("rue");
            reveal_strlit("alse");
            if b {
                assert(rest =~= "rue"@);
            } else {
                assert(rest =~= "alse"@);
            }
        },
        Syntax::Null => {
            reveal_strlit("ull");
            assert(rest =~= "ull"@);
        },
        Syntax::Array(elements) => {
            assert(rest =~= elements.text());
            lemma_elements_read(*elements, s, start + 1);
        },
        Syntax::Object(members) => {
            assert(rest =~= members.text());
            lemma_members_read(*members, s, start + 1);
        },
    }
}

/// The grammar reads a valid element that is followed by `next`, which is a
/// separator, up to that separator.
proof fn lemma_element_read(e: Element, s: Seq<char>, p: int, next: char)
    requires
        e.valid(),
        0 <= p,
        has_at(s, p, e.text() + seq![next]),
        !is_whitespace(next),
        !is_digit(next),
        next != '.',
    ensures
        value_at(s, p) == Ok::<(JsonValue, nat), ParseError>(
            (e.value.value(), e.before.len() + e.value.text().len()),
        ),
        whitespace_run(s, p + e.before.len() + e.value.text().len()) == e.after.len(),
        p + e.text().len() < s.len(),
        s[p + e.text().len()] == next,
    decreases e, 0nat,
{
    let inner = e.value.text();
    lemma_has_at_concat(s, p, e.text(), seq![next]);
    lemma_has_at_concat(s, p, e.before, inner + e.after);
    lemma_has_at_concat(s, p + e.before.len(), inner, e.after);
    let end = p + e.before.len() + inner.len();
    assert(s[p + e.text().len() + 0] == seq![next][0]);
    if e.after.len() > 0 {
        assert(s[end + 0] == e.after[0]);
        assert(is_whitespace(e.after[0]));
    }
    lemma_value_read(e.value, s, p, e.before);
    lemma_whitespace_run_is(s, end, e.after);
}

/// The grammar reads the valid elements of an array, written at `p`, as what
/// they mean, up to the closing `]`.
pub proof fn lemma_elements_read(es: Elements, s: Seq<char>, p: int)
    requires
        es.valid(),
        0 <= p,
        has_at(s, p, es.text()),
    ensures
        elements_at(s, p) == Ok::<(Seq<JsonValue>, nat), ParseError>(
            (es.values(), es.text().len()),
        ),
    decreases es, 1nat,
{
    match es {
        Elements::Last(e) => {
            lemma_element_read(e, s, p, ']');
        },
        Elements::Then(e, rest) => {
            lemma_has_at_concat(s, p, e.text(), seq![','] + rest.text());
            lemma_has_at_concat(s, p + e.text().len(), seq![','], rest.text());
            lemma_has_at_concat(s, p, e.text(), seq![',']);
            lemma_element_read(e, s, p, ',');
            lemma_elements_read(*rest, s, p + e.text().len() + 1);
        },
    }
}

/// The grammar reads the key of a valid member, written at `p`, up to its
/// `:`.
proof fn lemma_key_read(m: Member, s: Seq<char>, p: int)
    requires
        m.valid(),
        0 <= p,
        has_at(s, p, m.head()),
    ensures
        key_at(s, p) == Ok::<(Seq<char>, nat), ParseError>((m.key, m.head().len())),
{
    let quote = seq!['"'];
    let colon = seq![':'];
    let from_between = m.between + colon;
    let from_closing = quote + from_between;
    let from_key = m.key + from_closing;
    let from_opening = quote + from_key;
    lemma_has_at_concat(s, p, m.before, from_opening);
    let opening = p + m.before.len();
    lemma_has_at_concat(s, opening, quote, from_key);
    lemma_has_at_concat(s, opening + 1, m.key, from_closing);
    let closing = opening + 1 + m.key.len();
    lemma_has_at_concat(s, closing, quote, from_between);
    lemma_has_at_concat(s, closing + 1, m.between, colon);
    let end = closing + 1 + m.between.len();
    assert(s[opening + 0] == quote[0]);
    assert(s[closing + 0] == quote[0]);
    assert(s[end + 0] == colon[0]);
    lemma_whitespace_run_is(s, p, m.before);
    lemma_text_run_is(s, opening + 1, m.key);
    assert(string_at(s, opening + 1) == Ok::<(Seq<char>, nat), ParseError>(
        (m.key, m.key.len() + 1),
    ));
    lemma_whitespace_run_is(s, closing + 1, m.between);
}

/// The grammar reads a valid member that is followed by `next`, which is a
/// separator, up to that separator.
proof fn lemma_member_read(m: Member, s: Seq<char>, p: int, next: char)
    requires
        m.valid(),
        0 <= p,
        has_at(s, p, m.text() + seq![next]),
        !is_whitespace(next),
        !is_digit(next),
        next != '.',
    ensures
        key_at(s, p) == Ok::<(Seq<char>, nat), ParseError>((m.key, m.head().len())),
        value_at(s, p + m.head().len()) == Ok::<(JsonValue, nat), ParseError>(
            (m.element.value.value(), m.element.before.len() + m.element.value.text().len()),
        ),
        whitespace_run(
            s,
            p + m.head().len() + m.element.before.len() + m.element.value.text().len(),
        ) == m.element.after.len(),
        p + m.text().len() < s.len(),
        s[p + m.text().len()] == next,
        m.text().len() == m.head().len() + m.element.before.len()
            + m.element.value.text().len() + m.element.after.len(),
    decreases m, 1nat,
{
    let tail = seq![next];
    lemma_has_at_concat(s, p, m.text(), tail);
    lemma_has_at_concat(s, p, m.head(), m.element.text());
    lemma_key_read(m, s, p);
    let q = p + m.head().len();
    lemma_has_at_concat(s, q, m.element.text(), tail);
    lemma_element_read(m.element, s, q, next);
}

/// The grammar reads the valid members of an object, written at `p`, as what
/// they mean, up to the closing `}`.
pub proof fn lemma_members_read(ms: Members, s: Seq<char>, p: int)
    requires
        ms.valid(),
        0 <= p,
        has_at(s, p, ms.text()),
    ensures
        members_at(s, p) == Ok::<(Seq<(Seq<char>, JsonValue)>, nat), ParseError>(
            (ms.values(), ms.text().len()),
        ),
    decreases ms, 2nat,
{
    match ms {
        Members::Last(m) => {
            lemma_member_read(m, s, p, '}');
        },
        Members::Then(m, rest) => {
            lemma_has_at_concat(s, p, m.text(), seq![','] + rest.text());
            lemma_has_at_concat(s, p + m.text().len(), seq![','], rest.text());
            lemma_has_at_concat(s, p, m.text(), seq![',']);
            lemma_member_read(m, s, p, ',');
            lemma_members_read(*rest, s, p + m.text().len() + 1);
        },
    }
}

/// White space between the tokens of a value is no part of what the value
/// means.
pub proof fn lemma_stripped_value(d: Syntax)
    ensures
        d.stripped().value() == d.value(),
        d.valid() ==> d.stripped().valid(),
    decreases d,
{
    match d {
        Syntax::Array(elements) => {
            lemma_stripped_elements(*elements);
        },
        Syntax::Object(members) => {
            lemma_stripped_members(*members);
        },
        _ => {},
    }
}

/// White space between the tokens of the elements of an array is no part of
/// what they mean.
pub proof fn lemma_stripped_elements(es: Elements)
    ensures
        es.stripped().values() == es.values(),
        es.valid() ==> es.stripped().valid(),
    decreases es,
{
    reveal_with_fuel(Elements::stripped, 2);
    reveal_with_fuel(Elements::valid, 2);
    reveal_with_fuel(Elements::values, 2);
    match es {
        Elements::Last(e) => {
            lemma_stripped_value(e.value);
        },
        Elements::Then(e, rest) => {
            lemma_stripped_value(e.value);
            lemma_stripped_elements(*rest);
        },
    }
}

/// White space between the tokens of the members of an object is no part of
/// what they mean.
pub proof fn lemma_stripped_members(ms: Members)
    ensures
        ms.stripped().values() == ms.values(),
        ms.valid() ==> ms.stripped().valid(),
    decreases ms,
{
    reveal_with_fuel(Members::stripped, 3);
    reveal_with_fuel(Members::valid, 3);
    reveal_with_fuel(Members::values, 3);
    match ms {
        Members::Last(m) => {
            lemma_stripped_value(m.element.value);
        },
        Members::Then(m, rest) => {
            lemma_stripped_value(m.element.value);
            lemma_stripped_members(*rest);
        },
    }
}

/// Every valid document parses, and into what it means: the shape of its
/// arrays and objects with the order of their elements, and each string,
/// number, boolean and null. White space may stand before and after it.
pub proof fn theorem_document_read(d: Syntax, before: Seq<char>, after: Seq<char>)
    requires
        d.valid(),
        is_blank(before),
        is_blank(after),
    ensures
        document_at(before + (d.text() + after), 0) == Ok::<JsonValue, ParseError>(d.value()),
{
    let s = before + (d.text() + after);
    let end = (before.len() + d.text().len()) as int;
    assert(has_at(s, 0, s));
    lemma_has_at_concat(s, 0, before, d.text() + after);
    lemma_has_at_concat(s, before.len() as int, d.text(), after);
    if after.len() > 0 {
        assert(s[end + 0] == after[0]);
        assert(is_whitespace(after[0]));
    }
    lemma_value_read(d, s, 0, before);
    lemma_whitespace_run_is(s, end, after);
}

/// Two valid documents that differ only in the white space around their
/// tokens parse into the same value, which is that of the document written
/// without any.
pub proof fn theorem_white_space_ignored(
    a: Syntax,
    before_a: Seq<char>,
    after_a: Seq<char>,
    b: Syntax,
    before_b: Seq<char>,
    after_b: Seq<char>,
)
    requires
        a.valid(),
        b.valid(),
        a.stripped() == b.stripped(),
        is_blank(before_a),
        is_blank(after_a),
        is_blank(before_b),
        is_blank(after_b),
    ensures
        document_at(before_a + (a.text() + after_a), 0) == document_at(
            before_b + (b.text() + after_b),
            0,
        ),
        document_at(before_a + (a.text() + after_a), 0) == document_at(a.stripped().text(), 0),
{
    lemma_stripped_value(a);
    lemma_stripped_value(b);
    theorem_document_read(a, before_a, after_a);
    theorem_document_read(b, before_b, after_b);
    theorem_document_read(a.stripped(), Seq::empty(), Seq::empty());
    assert(Seq::<char>::empty() + (a.stripped().text() + Seq::<char>::empty())
        =~= a.stripped().text());
}

} // verus!
