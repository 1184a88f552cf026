use json_parser::chars::{char_is_digit, char_is_whitespace};
use json_parser::text::scalar_values;
use json_parser::value::find_last;
use json_parser::{Json, ParseError, Parser};

#[test]
fn new_parser_has_no_current_character() {
    let parser = Parser::new("abc");
    assert_eq!(parser.current(), None);
}

#[test]
fn advance_pulls_one_scalar_value_at_a_time() {
    let mut parser = Parser::new("a\u{e9}\u{1f600}");
    parser.advance();
    assert_eq!(parser.current(), Some('a'));
    parser.advance();
    assert_eq!(parser.current(), Some('\u{e9}'));
    parser.advance();
    assert_eq!(parser.current(), Some('\u{1f600}'));
    parser.advance();
    assert_eq!(parser.current(), None);
    parser.advance();
    assert_eq!(parser.current(), None);
}

#[test]
fn eat_whitespace_stops_at_the_first_other_character() {
    let mut parser = Parser::new(" \t\r\n x y");
    parser.eat_whitespace();
    assert_eq!(parser.current(), None);
    parser.advance();
    parser.eat_whitespace();
    assert_eq!(parser.current(), Some('x'));
    parser.eat_whitespace();
    assert_eq!(parser.current(), Some('x'));
    parser.advance();
    parser.eat_whitespace();
    assert_eq!(parser.current(), Some('y'));
    parser.advance();
    parser.eat_whitespace();
    assert_eq!(parser.current(), None);
}

#[test]
fn parse_string_stops_on_the_closing_quote() {
    let mut parser = Parser::new("\"hello\" rest");
    parser.advance();
    assert_eq!(parser.parse_string(), Ok(String::from("hello")));
    assert_eq!(parser.current(), Some('"'));
    parser.advance();
    assert_eq!(parser.current(), Some(' '));
}

#[test]
fn parse_string_fails_at_the_end_of_input() {
    let mut parser = Parser::new("\"hello");
    parser.advance();
    assert_eq!(parser.parse_string(), Err(ParseError::UnterminatedString));
    assert_eq!(parser.current(), None);
}

#[test]
fn parse_digits_stops_on_the_last_digit() {
    let mut parser = Parser::new("123,4");
    parser.advance();
    assert_eq!(parser.parse_digits(), Ok(Json::Integer(123)));
    assert_eq!(parser.current(), Some('3'));
    parser.advance();
    assert_eq!(parser.current(), Some(','));
}

#[test]
fn parse_digits_reads_one_digit() {
    let mut parser = Parser::new("7]");
    parser.advance();
    assert_eq!(parser.parse_digits(), Ok(Json::Integer(7)));
    assert_eq!(parser.current(), Some('7'));
}

#[test]
fn parse_digits_keeps_the_text_of_a_decimal() {
    let mut parser = Parser::new("3.25 ");
    parser.advance();
    assert_eq!(parser.parse_digits(), Ok(Json::Number(String::from("3.25"))));
    assert_eq!(parser.current(), Some('5'));
}

#[test]
fn parse_expected_value_consumes_the_rest_of_the_keyword() {
    let mut parser = Parser::new("null,");
    parser.advance();
    assert_eq!(parser.parse_expected_value("ull", Json::Null), Ok(Json::Null));
    assert_eq!(parser.current(), Some('l'));
    parser.advance();
    assert_eq!(parser.current(), Some(','));
}

#[test]
fn parse_expected_value_leaves_the_cursor_on_a_mismatch() {
    let mut parser = Parser::new("nuxl");
    parser.advance();
    assert_eq!(
        parser.parse_expected_value("ull", Json::Null),
        Err(ParseError::LiteralMismatch('n', "ull"))
    );
    assert_eq!(parser.current(), Some('n'));
}

#[test]
fn parse_value_leaves_the_cursor_on_the_last_character() {
    let mut parser = Parser::new("  [1, 2] tail");
    assert_eq!(
        parser.parse_value(),
        Ok(Json::Array(vec![Json::Integer(1), Json::Integer(2)]))
    );
    assert_eq!(parser.current(), Some(']'));
}

#[test]
fn parse_array_reads_from_after_the_bracket() {
    let mut parser = Parser::new("[true , false]");
    parser.advance();
    assert_eq!(
        parser.parse_array(),
        Ok(Json::Array(vec![Json::Boolean(true), Json::Boolean(false)]))
    );
    assert_eq!(parser.current(), Some(']'));
}

#[test]
fn parse_object_reads_from_after_the_brace() {
    let mut parser = Parser::new("{\"k\" : \"v\"}");
    parser.advance();
    assert_eq!(
        parser.parse_object(),
        Ok(Json::Object(vec![(String::from("k"), Json::String(String::from("v")))]))
    );
    assert_eq!(parser.current(), Some('}'));
}

#[test]
fn parse_exhausts_the_input() {
    let mut parser = Parser::new("  12  ");
    assert_eq!(parser.parse(), Ok(Json::Integer(12)));
    assert_eq!(parser.current(), None);
}

#[test]
fn scalar_values_are_the_characters_in_order() {
    assert_eq!(scalar_values(""), Vec::<char>::new());
    assert_eq!(scalar_values("a\u{e9}\u{1f600}z"), vec!['a', '\u{e9}', '\u{1f600}', 'z']);
}

#[test]
fn character_classes() {
    for c in ['0', '5', '9'] {
        assert!(char_is_digit(c));
    }
    for c in ['/', ':', 'a', '.', '\u{663}'] {
        assert!(!char_is_digit(c));
    }
    for c in 0..=0x10ffffu32 {
        if let Some(c) = char::from_u32(c) {
            assert_eq!(char_is_whitespace(c), c.is_whitespace());
            assert_eq!(char_is_digit(c), c.is_ascii_digit());
        }
    }
}

#[test]
fn find_last_finds_the_last_member_with_a_key() {
    let members = vec![
        (String::from("a"), Json::Integer(1)),
        (String::from("b"), Json::Integer(2)),
        (String::from("a"), Json::Integer(3)),
    ];
    assert_eq!(find_last(&members, &String::from("a")), Some(2));
    assert_eq!(find_last(&members, &String::from("b")), Some(1));
    assert_eq!(find_last(&members, &String::from("c")), None);
    assert_eq!(find_last(&Vec::new(), &String::from("a")), None);
}
