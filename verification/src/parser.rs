//! The parser: a cursor over the input and one routine per rule of the
//! grammar.

use vstd::prelude::*;
use vstd::std_specs::iter::IteratorSpec;
use crate::chars::{char_digit_value, char_is_digit, char_is_whitespace, is_digit, is_whitespace};
use crate::error::ParseError;
use crate::grammar::{
    document_at, elements_at, extend, has_at, key_at, literal_at, members_at, number_at,
    number_run, span, string_at, text_run, value_at, whitespace_run,
};
use crate::number::{
    decimal_value, in_range, is_decimal_text, lemma_decimal_value_push, push_digit,
};
use crate::text::scalar_values;
use crate::theory::{lemma_value_within, lemma_whitespace_run_bound};
use crate::value::{
    distinct_keys, element_views, insert_member, member_views, members_map, members_wf, Json,
    JsonValue,
};

verus! {

/// What a parser is to its callers: the input, how much of it has been
/// pulled, and the current character.
pub struct Cursor {
    /// The scalar values of the document.
    pub input: Seq<char>,
    /// How many of them have been pulled: the index of the next unread one.
    pub position: int,
    /// The scalar value pulled last, or `None` before the first pull and after
    /// a pull that found the input exhausted.
    pub current: Option<char>,
}

impl Cursor {
    /// The cursor after one pull: the next unread scalar value becomes
    /// current, or `None` does where the input is exhausted.
    pub open spec fn advance(self) -> Cursor {
        if 0 <= self.position < self.input.len() {
            Cursor {
                input: self.input,
                position: self.position + 1,
                current: Some(self.input[self.position]),
            }
        } else {
            Cursor { input: self.input, position: self.position, current: None }
        }
    }

    /// The cursor after pulls that go on until a scalar value other than white
    /// space is current, or the input is exhausted.
    pub open spec fn next_token(self) -> Cursor {
        let n = whitespace_run(self.input, self.position);
        Cursor { input: self.input, position: self.position + n, current: None }.advance()
    }

    /// The cursor moved past the white space at which it stands, if it stands
    /// at any.
    pub open spec fn eat_whitespace(self) -> Cursor {
        match self.current {
            Some(c) if is_whitespace(c) => self.next_token(),
            _ => self,
        }
    }

    /// The cursor after `n` pulls that all found a scalar value.
    pub open spec fn pulled(self, n: nat) -> Cursor {
        if n == 0 {
            self
        } else {
            Cursor {
                input: self.input,
                position: self.position + n,
                current: Some(self.input[self.position + n - 1]),
            }
        }
    }

    /// The scalar value that the next pull will find, if any.
    pub open spec fn peek(self) -> Option<char> {
        if 0 <= self.position < self.input.len() {
            Some(self.input[self.position])
        } else {
            None
        }
    }

    /// How many scalar values are still unread.
    pub open spec fn unread(self) -> nat {
        if 0 <= self.position <= self.input.len() {
            (self.input.len() - self.position) as nat
        } else {
            0
        }
    }

    /// One pull and then the pulls past white space end where the first
    /// scalar value other than white space is current.
    pub proof fn lemma_advance_eat_whitespace(self)
        ensures
            self.advance().eat_whitespace() == self.next_token(),
    {
    }

    /// Whether `later` is a state of the same input in which nothing that was
    /// pulled has been given back.
    pub open spec fn precedes(self, later: Cursor) -> bool {
        later.input == self.input && later.position >= self.position
    }
}

/// A parser over one document. It moves forward only, one scalar value at a
/// time.
pub struct Parser {
    input: Vec<char>,
    next: usize,
    current_char: Option<char>,
}

impl View for Parser {
    type V = Cursor;

    closed spec fn view(&self) -> Cursor {
        Cursor { input: self.input@, position: self.next as int, current: self.current_char }
    }
}

impl Parser {
    /// A parser at the start of `input`, with nothing pulled yet.
    pub fn new(input: &str) -> (parser: Self)
        ensures
            parser@ == (Cursor { input: input@, position: 0, current: None }),
    {
        let current_char = None;
        let input = scalar_values(input);
        Parser { input, next: 0, current_char }
    }

    /// The current character.
    pub fn current(&self) -> (c: Option<char>)
        ensures
            c == self@.current,
    {
        self.current_char
    }

    /// Pulls the next scalar value into the current character, or `None` where
    /// the input is exhausted.
    pub fn advance(&mut self)
        ensures
            final(self)@ == old(self)@.advance(),
    {
        if self.next < self.input.len() {
            self.current_char = Some(self.input[self.next]);
            self.next = self.next + 1;
        } else {
            self.current_char = None;
        }
    }

    /// Pulls for as long as the current character is white space.
    pub fn eat_whitespace(&mut self)
        ensures
            final(self)@ == old(self)@.eat_whitespace(),
    {
        loop
            invariant
                self@.eat_whitespace() == old(self)@.eat_whitespace(),
            decreases
                    self@.unread() + (if self@.current is Some {
                        1nat
                    } else {
                        0nat
                    }),
        {
            match self.current_char {
                Some(c) => {
                    if char_is_whitespace(c) {
                        proof {
                            self@.lemma_advance_eat_whitespace();
                        }
                        self.advance();
                    } else {
                        return ;
                    }
                },
                None => {
                    return ;
                },
            }
        }
    }

    /// Reads a string whose opening quote is the current character: pulls up
    /// to the closing quote, which is the current character thereafter, and
    /// returns what stands between the two. Where there is no closing quote,
    /// the input is exhausted thereafter.
    pub fn parse_string(&mut self) -> (r: Result<String, ParseError>)
        ensures
            old(self)@.precedes(final(self)@),
            match string_at(old(self)@.input, old(self)@.position) {
                Ok((text, n)) => r matches Ok(t) && t@ == text && final(self)@ == old(
                    self,
                )@.pulled(n),
                Err(e) => r matches Err(f) && f == e && final(self)@ == old(self)@.pulled(
                    text_run(old(self)@.input, old(self)@.position),
                ).advance(),
            },
    {
        let ghost start = self@;
        let ghost mut n: nat = 0;
        self.advance();
        let mut text = String::new();
        loop
            invariant
                start == old(self)@,
                start.position >= 0,
                self@ == (Cursor {
                    input: start.input,
                    position: start.position + n,
                    current: None,
                }).advance(),
                text@ == span(start.input, start.position, n),
                text_run(start.input, start.position) == n + text_run(
                    start.input,
                    start.position + n,
                ),
            decreases start.input.len() - start.position - n,
        {
            match self.current_char {
                Some(c) => {
                    if c == '"' {
                        return Ok(text);
                    }
                    assert(c == start.input[start.position + n]);
                    text.push(c);
                    self.advance();
                    proof {
                        n = n + 1;
                        assert(text@ =~= span(start.input, start.position, n));
                    }
                },
                None => {
                    return Err(ParseError::UnterminatedString);
                },
            }
        }
    }

    /// The scalar value that the next pull will find, if any.
    fn peek(&self) -> (c: Option<char>)
        ensures
            c == self@.peek(),
    {
        if self.next < self.input.len() {
            Some(self.input[self.next])
        } else {
            None
        }
    }

    /// Pulls until a scalar value other than white space is current.
    fn next_token(&mut self)
        ensures
            final(self)@ == old(self)@.next_token(),
    {
        proof {
            self@.lemma_advance_eat_whitespace();
        }
        self.advance();
        self.eat_whitespace();
    }

    /// Reads the rest of a keyword whose first letter is the current
    /// character: where the unread input starts with `expected`, pulls that
    /// much and returns `value`. Where it does not, nothing is pulled.
    pub fn parse_expected_value(&mut self, expected: &'static str, value: Json) -> (r: Result<
        Json,
        ParseError,
    >)
        requires
            old(self)@.current is Some,
        ensures
            old(self)@.precedes(final(self)@),
            match literal_at(
                old(self)@.current->0,
                expected,
                value@,
                old(self)@.input,
                old(self)@.position,
            ) {
                Ok((_, n)) => r == Ok::<Json, ParseError>(value) && final(self)@ == old(
                    self,
                )@.pulled(n),
                Err(e) => r matches Err(f) && f == e && final(self)@ == old(self)@,
            },
    {
        let first = self.current_char.unwrap();
        let mut rest = expected.chars();
        let mut matched: usize = 0;
        loop
            invariant
                *self == *old(self),
                self@.current == Some(first),
                matched == 0 || self.next + matched <= self.input.len(),
                expected@ == expected@.take(matched as int) + rest.remaining(),
                matched <= expected@.len(),
                has_at(self@.input, self@.position, expected@.take(matched as int)),
                rest.decrease() is Some,
            ensures
                *self == *old(self),
                matched == expected@.len(),
                has_at(self@.input, self@.position, expected@),
            decreases rest.decrease()->0,
        {
            match rest.next() {
                Some(c) => {
                    assert(c == expected@[matched as int]);
                    if self.next <= self.input.len() && matched < self.input.len() - self.next
                        && self.input[self.next + matched] == c {
                        matched = matched + 1;
                    } else {
                        return Err(ParseError::LiteralMismatch(first, expected));
                    }
                },
                None => {
                    assert(expected@.take(matched as int) =~= expected@);
                    break ;
                },
            }
        }
        let mut pulled: usize = 0;
        while pulled < matched
            invariant
                pulled <= matched,
                matched == 0 || old(self)@.position + matched <= old(self)@.input.len(),
                self@ == old(self)@.pulled(pulled as nat),
            decreases matched - pulled,
        {
            self.advance();
            pulled = pulled + 1;
        }
        Ok(value)
    }

    /// Reads a number whose first digit is the current character: pulls the
    /// longest run of digits with at most one `.` in it, whose last scalar
    /// value is the current character thereafter, whatever is returned.
    pub fn parse_digits(&mut self) -> (r: Result<Json, ParseError>)
        requires
            old(self)@.current matches Some(c) && is_digit(c),
        ensures
            final(self)@ == old(self)@.pulled(
                number_run(old(self)@.input, old(self)@.position, false),
            ),
            match number_at(old(self)@.current->0, old(self)@.input, old(self)@.position) {
                Ok((value, _)) => r matches Ok(json) && json@ == value && json.wf(),
                Err(e) => r matches Err(f) && f == e,
            },
    {
        let first = self.current_char.unwrap();
        let ghost start = self@;
        let ghost mut n: nat = 0;
        let ghost mut dot: int = 0;
        let mut seen_dot = false;
        let mut text = String::new();
        text.push(first);
        let mut value: Option<usize> = Some(char_digit_value(first));
        proof {
            lemma_decimal_value_push(Seq::empty(), first);
            assert(text@ =~= Seq::<char>::empty().push(first));
            assert(text@ =~= seq![first] + span(start.input, start.position, 0));
        }
        loop
            invariant
                start == old(self)@,
                start.position >= 0,
                is_digit(first),
                self@ == start.pulled(n),
                text@ == seq![first] + span(start.input, start.position, n),
                number_run(start.input, start.position, false) == n + number_run(
                    start.input,
                    start.position + n,
                    seen_dot,
                ),
                seen_dot ==> 0 < dot < text@.len() && text@[dot] == '.',
                forall|i: int|
                    0 <= i < text@.len() && !(seen_dot && i == dot) ==> is_digit(#[trigger] text@[i]),
                !seen_dot ==> value == in_range(decimal_value(text@)),
            ensures
                number_run(start.input, start.position + n, seen_dot) == 0,
            decreases start.input.len() - start.position - n,
        {
            let c = match self.peek() {
                Some(c) => c,
                None => {
                    break ;
                },
            };
            if c == '.' && !seen_dot {
                seen_dot = true;
                proof {
                    dot = text@.len() as int;
                }
            } else if char_is_digit(c) {
                if !seen_dot {
                    proof {
                        lemma_decimal_value_push(text@, c);
                    }
                    value = push_digit(value, c);
                }
            } else {
                break ;
            }
            text.push(c);
            self.advance();
            proof {
                n = n + 1;
                assert(text@ =~= seq![first] + span(start.input, start.position, n));
            }
        }
        if seen_dot {
            proof {
                assert(is_decimal_text(text@));
                assert(text@.contains('.'));
            }
            match self.peek() {
                Some('.') => Err(ParseError::MalformedNumber),
                _ => Ok(Json::Number(text)),
            }
        } else {
            proof {
                assert(!text@.contains('.')) by {
                    if text@.contains('.') {
                        let i = choose|i: int| 0 <= i < text@.len() && text@[i] == '.';
                        assert(is_digit(text@[i]));
                    }
                }
            }
            match value {
                Some(v) => Ok(Json::Integer(v)),
                None => Err(ParseError::NumberOutOfRange),
            }
        }
    }

    /// Reads the elements of an array whose `[` is the current character:
    /// pulls up to the closing `]`, which is the current character
    /// thereafter.
    pub fn parse_array(&mut self) -> (r: Result<Json, ParseError>)
        ensures
            old(self)@.precedes(final(self)@),
            match elements_at(old(self)@.input, old(self)@.position) {
                Ok((items, n)) => r matches Ok(json) && json@ == JsonValue::Array(items)
                    && json.wf() && final(self)@ == old(self)@.pulled(n),
                Err(e) => r matches Err(f) && f == e,
            },
        decreases old(self)@.unread(), 1nat,
    {
        let ghost start = self@;
        let mut result: Vec<Json> = Vec::new();
        loop
            invariant
                start == old(self)@,
                start.precedes(self@),
                result@.len() > 0 ==> self@ == start.pulled((self@.position - start.position) as nat),
                result@.len() == 0 ==> self@ == start,
                elements_at(start.input, start.position) == extend(
                    element_views(result@),
                    (self@.position - start.position) as nat,
                    elements_at(start.input, self@.position),
                ),
                forall|i: int| 0 <= i < result@.len() ==> (#[trigger] result@[i]).wf(),
            decreases self@.unread(),
        {
            let ghost head = element_views(result@);
            let value = match self.parse_value() {
                Ok(value) => value,
                Err(e) => {
                    return Err(e);
                },
            };
            result.push(value);
            self.next_token();
            proof {
                assert(element_views(result@) =~= head.push(value@));
                match elements_at(start.input, self@.position) {
                    Ok((items, m)) => {
                        assert(head + (seq![value@] + items) =~= head.push(value@) + items);
                    },
                    Err(_) => {},
                }
                assert(head + seq![value@] =~= head.push(value@));
            }
            match self.current_char {
                Some(c) => {
                    if c == ']' {
                        proof {
                            Json::lemma_array_view(result);
                            Json::lemma_array_wf(result);
                        }
                        return Ok(Json::Array(result));
                    } else if c == ',' {
                    } else {
                        return Err(ParseError::ArrayUnexpected(c));
                    }
                },
                None => {
                    return Err(ParseError::ArrayUnclosed);
                },
            }
        }
    }

    /// Reads a value: pulls past white space and then reads what the first
    /// other scalar value announces. The last scalar value of the value is
    /// the current character thereafter.
    pub fn parse_value(&mut self) -> (r: Result<Json, ParseError>)
        ensures
            old(self)@.precedes(final(self)@),
            match value_at(old(self)@.input, old(self)@.position) {
                Ok((value, n)) => r matches Ok(json) && json@ == value && json.wf() && n > 0
                    && final(self)@ == old(self)@.pulled(n),
                Err(e) => r matches Err(f) && f == e,
            },
        decreases old(self)@.unread(), 0nat,
    {
        self.next_token();
        match self.current_char {
            Some(c) => {
                if c == '[' {
                    self.parse_array()
                } else if c == '{' {
                    self.parse_object()
                } else if c == '"' {
                    match self.parse_string() {
                        Ok(text) => Ok(Json::String(text)),
                        Err(e) => Err(e),
                    }
                } else if c == 'n' {
                    self.parse_expected_value("ull", Json::Null)
                } else if c == 'f' {
                    self.parse_expected_value("alse", Json::Boolean(false))
                } else if c == 't' {
                    self.parse_expected_value("rue", Json::Boolean(true))
                } else if char_is_digit(c) {
                    self.parse_digits()
                } else {
                    Err(ParseError::UnexpectedCharacter(c))
                }
            },
            None => Err(ParseError::MissingValue),
        }
    }

    /// Reads the key of a member: pulls past white space, the key in quotes,
    /// white space, and the `:`, which is the current character thereafter.
    fn parse_key(&mut self) -> (r: Result<String, ParseError>)
        ensures
            old(self)@.precedes(final(self)@),
            match key_at(old(self)@.input, old(self)@.position) {
                Ok((key, n)) => r matches Ok(k) && k@ == key && final(self)@ == old(self)@.pulled(
                    n,
                ),
                Err(e) => r matches Err(f) && f == e,
            },
    {
        self.next_token();
        match self.current_char {
            Some(c) => {
                if c != '"' {
                    return Err(ParseError::ObjectSeparator);
                }
            },
            None => {
                return Err(ParseError::ObjectTruncated);
            },
        }
        let key = match self.parse_string() {
            Ok(key) => key,
            Err(e) => {
                return Err(e);
            },
        };
        self.next_token();
        match self.current_char {
            Some(c) => {
                if c != ':' {
                    return Err(ParseError::ObjectSeparator);
                }
            },
            None => {
                return Err(ParseError::ObjectTruncated);
            },
        }
        Ok(key)
    }

    /// Reads the members of an object whose `{` is the current character:
    /// pulls up to the closing `}`, which is the current character
    /// thereafter. Of two members with one key the later one stays.
    pub fn parse_object(&mut self) -> (r: Result<Json, ParseError>)
        ensures
            old(self)@.precedes(final(self)@),
            match members_at(old(self)@.input, old(self)@.position) {
                Ok((members, n)) => r matches Ok(json) && json@ == JsonValue::Object(
                    members_map(members),
                ) && json.wf() && final(self)@ == old(self)@.pulled(n),
                Err(e) => r matches Err(f) && f == e,
            },
        decreases old(self)@.unread(), 1nat,
    {
        let ghost start = self@;
        let ghost mut head: Seq<(Seq<char>, JsonValue)> = Seq::empty();
        let mut result: Vec<(String, Json)> = Vec::new();
        loop
            invariant
                start == old(self)@,
                start.precedes(self@),
                head.len() > 0 ==> self@ == start.pulled((self@.position - start.position) as nat),
                head.len() == 0 ==> self@ == start,
                members_at(start.input, start.position) == extend(
                    head,
                    (self@.position - start.position) as nat,
                    members_at(start.input, self@.position),
                ),
                members_map(member_views(result@)) == members_map(head),
                members_wf(result@),
                distinct_keys(result@),
            decreases self@.unread(),
        {
            let key = match self.parse_key() {
                Ok(key) => key,
                Err(e) => {
                    return Err(e);
                },
            };
            let value = match self.parse_value() {
                Ok(value) => value,
                Err(e) => {
                    return Err(e);
                },
            };
            let ghost member = (key@, value@);
            proof {
                assert(head.push(member).drop_last() =~= head);
                assert(head + seq![member] =~= head.push(member));
            }
            insert_member(&mut result, key, value);
            self.next_token();
            proof {
                match members_at(start.input, self@.position) {
                    Ok((members, m)) => {
                        assert(head + (seq![member] + members) =~= head.push(member) + members);
                    },
                    Err(_) => {},
                }
                head = head.push(member);
            }
            match self.current_char {
                Some(c) => {
                    if c == '}' {
                        proof {
                            Json::lemma_object_view(result);
                            Json::lemma_object_wf(result);
                        }
                        return Ok(Json::Object(result));
                    } else if c == ',' {
                    } else {
                        return Err(ParseError::ObjectUnexpected(c));
                    }
                },
                None => {
                    return Err(ParseError::ObjectUnclosed);
                },
            }
        }
    }

    /// Reads the document: one value, and nothing but white space after it.
    /// The input is exhausted thereafter. To be called on a parser from which
    /// nothing has been pulled; on another one it reads what is still unread.
    pub fn parse(&mut self) -> (r: Result<Json, ParseError>)
        ensures
            old(self)@.precedes(final(self)@),
            match document_at(old(self)@.input, old(self)@.position) {
                Ok(value) => r matches Ok(json) && json@ == value && json.wf() && final(self)@
                    == (Cursor {
                    input: old(self)@.input,
                    position: old(self)@.input.len() as int,
                    current: None,
                }),
                Err(e) => r matches Err(f) && f == e,
            },
    {
        let result = match self.parse_value() {
            Ok(result) => result,
            Err(e) => {
                return Err(e);
            },
        };
        proof {
            lemma_value_within(old(self)@.input, old(self)@.position);
            lemma_whitespace_run_bound(self@.input, self@.position);
        }
        self.next_token();
        match self.current_char {
            Some(_) => Err(ParseError::TrailingContent),
            None => Ok(result),
        }
    }
}

} // verus!
