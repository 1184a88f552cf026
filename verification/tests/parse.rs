use json_parser::{Json, ParseError, Parser};
use std::collections::HashMap;

/// A value with each number as a float and each object as a hash map.
#[derive(Debug, PartialEq)]
enum Plain {
    String(String),
    Number(f64),
    Integer(usize),
    Array(Vec<Plain>),
    Object(HashMap<String, Plain>),
    Boolean(bool),
    Null,
}

fn plain(value: &Json) -> Plain {
    match value {
        Json::String(text) => Plain::String(text.clone()),
        Json::Number(text) => Plain::Number(text.parse().unwrap()),
        Json::Integer(n) => Plain::Integer(*n),
        Json::Array(items) => Plain::Array(items.iter().map(plain).collect()),
        Json::Object(members) => {
            let mut result = HashMap::new();
            for (key, value) in members {
                result.insert(key.clone(), plain(value));
            }
            Plain::Object(result)
        }
        Json::Boolean(b) => Plain::Boolean(*b),
        Json::Null => Plain::Null,
    }
}

fn parse(input: &str) -> Result<Json, ParseError> {
    Parser::new(input).parse()
}

fn everything() -> Plain {
    let mut arr = Vec::new();

    let mut inner_object = HashMap::new();
    inner_object.insert(String::from("object"), Plain::Integer(1));
    let inner_object = Plain::Object(inner_object);

    let mut outer_object = HashMap::new();
    outer_object.insert(String::from("nested"), inner_object);
    let outer_object = Plain::Object(outer_object);

    arr.push(Plain::Number(123.1231));
    arr.push(Plain::String("abc".into()));
    arr.push(outer_object);
    arr.push(Plain::Null);
    arr.push(Plain::Boolean(false));
    arr.push(Plain::Boolean(true));
    arr.push(Plain::String("weirldly huge amount of space    ".into()));
    arr.push(Plain::Boolean(true));
    Plain::Array(arr)
}

#[test]
fn test_everything() {
    let json_value = r#"[123.1231,"abc", {"nested": {"object": 1}}, null, false, true, "weirldly huge amount of space    ", true]"#;
    let mut parser = Parser::new(json_value);
    let value = parser.parse().unwrap();

    assert_eq!(plain(&value), everything());
}

#[test]
fn test_everything_with_weird_spacing() {
    let json_value = r#"[123.1231,"abc", {"nested": {"object": 1}}, null, false, true      ,           "weirldly huge amount of space    ", true  ]"#;
    let mut parser = Parser::new(json_value);
    let value = parser.parse().unwrap();

    assert_eq!(plain(&value), everything());
}

#[test]
fn invalid_object() {
    let json_value = r#"{"#;
    let mut parser = Parser::new(json_value);
    let value = parser.parse();
    assert!(value.is_err());
}

#[test]
fn verify_that_top_level_fails_if_extra_stuff_is_there() {
    let json_value = r#"1234 aihykuajnlsd"#;
    let mut parser = Parser::new(json_value);
    let value = parser.parse();
    assert!(value.is_err());
}

#[test]
fn everything_as_library_values() {
    let json_value = r#"[123.1231,"abc", {"nested": {"object": 1}}, null, false, true, "x", true]"#;
    let expected = Json::Array(vec![
        Json::Number(String::from("123.1231")),
        Json::String(String::from("abc")),
        Json::Object(vec![(
            String::from("nested"),
            Json::Object(vec![(String::from("object"), Json::Integer(1))]),
        )]),
        Json::Null,
        Json::Boolean(false),
        Json::Boolean(true),
        Json::String(String::from("x")),
        Json::Boolean(true),
    ]);
    assert_eq!(parse(json_value), Ok(expected));
}

#[test]
fn unterminated_object_names_its_error() {
    assert_eq!(parse("{"), Err(ParseError::ObjectTruncated));
}

#[test]
fn unterminated_containers_fail() {
    for input in ["{", "[", "[1, 2", "{\"a\": 1", "{\"a\": {\"b\": 1}", "[[1, 2], [3]", "  [ \"]\" "] {
        assert!(parse(input).is_err(), "{}", input);
    }
}

#[test]
fn trailing_content_fails() {
    for input in ["1234 garbage", "null null", "[1] ]", "{\"a\": 1} x", "\"a\" \"b\"", "1,"] {
        assert_eq!(parse(input), Err(ParseError::TrailingContent), "{}", input);
    }
    assert_eq!(parse("1234 \n\t"), Ok(Json::Integer(1234)));
}

#[test]
fn trailing_content_names_its_error() {
    assert_eq!(parse("1234 aihykuajnlsd"), Err(ParseError::TrailingContent));
}

#[test]
fn scalars_parse() {
    assert_eq!(parse("null"), Ok(Json::Null));
    assert_eq!(parse("true"), Ok(Json::Boolean(true)));
    assert_eq!(parse("false"), Ok(Json::Boolean(false)));
    assert_eq!(parse("0"), Ok(Json::Integer(0)));
    assert_eq!(parse("1234"), Ok(Json::Integer(1234)));
    assert_eq!(parse("\"\""), Ok(Json::String(String::new())));
    assert_eq!(parse("\"abc\""), Ok(Json::String(String::from("abc"))));
}

#[test]
fn nested_value_keeps_shape_and_scalars() {
    let value = parse(r#"{"a":[1,2,{"b":"c"}],"d":4.25}"#).unwrap();
    assert_eq!(
        value.get("a"),
        Some(&Json::Array(vec![
            Json::Integer(1),
            Json::Integer(2),
            Json::Object(vec![(String::from("b"), Json::String(String::from("c")))]),
        ]))
    );
    assert_eq!(value.get("d"), Some(&Json::Number(String::from("4.25"))));
    assert_eq!(value.get("b"), None);
    match value {
        Json::Object(members) => assert_eq!(members.len(), 2),
        other => panic!("{:?}", other),
    }
}

#[test]
fn get_finds_members_of_objects_only() {
    let value = parse(r#"{"": 0, "k": [true]}"#).unwrap();
    assert_eq!(value.get(""), Some(&Json::Integer(0)));
    assert_eq!(value.get("k"), Some(&Json::Array(vec![Json::Boolean(true)])));
    assert_eq!(value.get("K"), None);
    assert_eq!(Json::Array(vec![Json::Null]).get("k"), None);
    assert_eq!(Json::String(String::from("k")).get("k"), None);
    let twice = Json::Object(vec![
        (String::from("a"), Json::Integer(1)),
        (String::from("a"), Json::Integer(2)),
    ]);
    assert_eq!(twice.get("a"), Some(&Json::Integer(2)));
}

#[test]
fn whitespace_between_tokens_changes_nothing() {
    let dense = parse(r#"{"a":[1,2.5,"x"],"b":null}"#).unwrap();
    let loose = parse(" \t\n{ \r\n\"a\" \t: [ 1 ,\n2.5\t, \"x\" ] , \"b\"\n:\nnull } \n").unwrap();
    assert_eq!(plain(&dense), plain(&loose));
    let unicode = parse("\u{a0}{\u{2003}\"a\"\u{3000}:[1,2.5,\"x\"],\"b\":null\u{85}}").unwrap();
    assert_eq!(plain(&dense), plain(&unicode));
    let mut expected = HashMap::new();
    expected.insert(
        String::from("a"),
        Plain::Array(vec![Plain::Integer(1), Plain::Number(2.5), Plain::String("x".into())]),
    );
    expected.insert(String::from("b"), Plain::Null);
    assert_eq!(plain(&dense), Plain::Object(expected));
}

#[test]
fn whitespace_inside_a_string_is_kept() {
    assert_eq!(parse("\" a\tb \""), Ok(Json::String(String::from(" a\tb "))));
}

#[test]
fn integer_equals_its_numeric_reading() {
    assert_eq!(parse("007"), Ok(Json::Integer(7)));
    assert_eq!(parse("4294967295"), Ok(Json::Integer(4294967295)));
    let max = usize::MAX.to_string();
    assert_eq!(parse(&max), Ok(Json::Integer(usize::MAX)));
}

#[test]
fn number_equals_its_numeric_reading() {
    match parse("123.1231") {
        Ok(Json::Number(text)) => {
            assert_eq!(text, "123.1231");
            assert_eq!(text.parse::<f64>().unwrap(), 123.1231);
        }
        other => panic!("{:?}", other),
    }
    match parse("0.5") {
        Ok(Json::Number(text)) => assert_eq!(text.parse::<f64>().unwrap(), 0.5),
        other => panic!("{:?}", other),
    }
    match parse("12.") {
        Ok(Json::Number(text)) => assert_eq!(text.parse::<f64>().unwrap(), 12.0),
        other => panic!("{:?}", other),
    }
}

#[test]
fn integer_at_the_limit_of_usize() {
    let max = usize::MAX;
    assert_eq!(parse(&format!("{}", max)), Ok(Json::Integer(max)));
    assert_eq!(parse(&format!("{}", max - 1)), Ok(Json::Integer(max - 1)));
    assert_eq!(parse(&format!("000{}", max)), Ok(Json::Integer(max)));
    let digits = format!("{}", max);
    let (front, last) = digits.split_at(digits.len() - 1);
    let last: u32 = last.parse().unwrap();
    if last < 9 {
        assert_eq!(
            parse(&format!("{}{}", front, last + 1)),
            Err(ParseError::NumberOutOfRange)
        );
    }
    assert_eq!(parse(&format!("{}.", max)), Ok(Json::Number(format!("{}.", max))));
    assert_eq!(parse(&format!("{}0.5", max)), Ok(Json::Number(format!("{}0.5", max))));
}

#[test]
fn integer_too_large_is_rejected() {
    let too_large = format!("{}0", usize::MAX);
    assert_eq!(parse(&too_large), Err(ParseError::NumberOutOfRange));
    assert_eq!(
        parse("340282366920938463463374607431768211456"),
        Err(ParseError::NumberOutOfRange)
    );
}

#[test]
fn second_decimal_point_is_rejected() {
    assert_eq!(parse("1.2.3"), Err(ParseError::MalformedNumber));
    assert_eq!(parse("1..2"), Err(ParseError::MalformedNumber));
    assert_eq!(parse("[1.5.]"), Err(ParseError::MalformedNumber));
}

#[test]
fn duplicate_key_keeps_the_last_value() {
    let value = parse(r#"{"a": 1, "b": 2, "a": 3}"#).unwrap();
    assert_eq!(value.get("a"), Some(&Json::Integer(3)));
    assert_eq!(value.get("b"), Some(&Json::Integer(2)));
    match &value {
        Json::Object(members) => assert_eq!(members.len(), 2),
        other => panic!("{:?}", other),
    }
    let mut expected = HashMap::new();
    expected.insert(String::from("a"), Plain::Integer(3));
    expected.insert(String::from("b"), Plain::Integer(2));
    assert_eq!(plain(&value), Plain::Object(expected));
}

#[test]
fn equality_ignores_the_order_of_members() {
    let one = parse(r#"{"a": 1, "b": [true, {"c": null, "d": "x"}]}"#).unwrap();
    let other = parse(r#"{"b": [true, {"d": "x", "c": null}], "a": 1}"#).unwrap();
    assert_eq!(one, other);
    assert_eq!(other, one);
    let twice = parse(r#"{"a": 0, "b": [true, {"c": null, "d": "x"}], "a": 1}"#).unwrap();
    assert_eq!(one, twice);
    assert_eq!(
        Json::Object(vec![
            (String::from("a"), Json::Integer(1)),
            (String::from("a"), Json::Integer(2)),
        ]),
        Json::Object(vec![(String::from("a"), Json::Integer(2))])
    );
}

#[test]
fn equality_tells_values_apart() {
    let one = parse(r#"{"a": 1, "b": 2}"#).unwrap();
    assert_ne!(one, parse(r#"{"a": 1}"#).unwrap());
    assert_ne!(parse(r#"{"a": 1}"#).unwrap(), one);
    assert_ne!(one, parse(r#"{"a": 1, "b": 3}"#).unwrap());
    assert_ne!(one, parse(r#"{"a": 1, "c": 2}"#).unwrap());
    assert_ne!(one, parse(r#"[1, 2]"#).unwrap());
    assert_ne!(parse("[1, 2]").unwrap(), parse("[2, 1]").unwrap());
    assert_ne!(parse("[1, 2]").unwrap(), parse("[1]").unwrap());
    assert_ne!(parse("[1]").unwrap(), parse("[1, 2]").unwrap());
    assert_ne!(parse("1").unwrap(), parse("1.0").unwrap());
    assert_ne!(parse("\"1\"").unwrap(), parse("1").unwrap());
    assert_ne!(parse("\"1.0\"").unwrap(), parse("1.0").unwrap());
    assert_ne!(parse("true").unwrap(), parse("false").unwrap());
    assert_ne!(parse("null").unwrap(), parse("false").unwrap());
    assert_eq!(parse("[1, \"a\", 2.5, null]").unwrap(), parse("[1,\"a\",2.5,null]").unwrap());
}

#[test]
fn backslash_is_an_ordinary_character() {
    assert_eq!(parse(r#""a\n""#), Ok(Json::String(String::from("a\\n"))));
    assert_eq!(parse(r#""a\"b""#), Err(ParseError::TrailingContent));
}

#[test]
fn empty_containers_are_rejected() {
    assert_eq!(parse("[]"), Err(ParseError::UnexpectedCharacter(']')));
    assert_eq!(parse("{}"), Err(ParseError::ObjectSeparator));
}

#[test]
fn sign_and_exponent_are_rejected() {
    assert_eq!(parse("-1"), Err(ParseError::UnexpectedCharacter('-')));
    assert_eq!(parse("+1"), Err(ParseError::UnexpectedCharacter('+')));
    assert_eq!(parse("1e5"), Err(ParseError::TrailingContent));
    assert_eq!(parse(".5"), Err(ParseError::UnexpectedCharacter('.')));
}

#[test]
fn missing_value_is_reported() {
    assert_eq!(parse(""), Err(ParseError::MissingValue));
    assert_eq!(parse("  \n"), Err(ParseError::MissingValue));
    assert_eq!(parse("["), Err(ParseError::MissingValue));
    assert_eq!(parse("{\"a\":"), Err(ParseError::MissingValue));
}

#[test]
fn unexpected_character_is_named() {
    assert_eq!(parse("x"), Err(ParseError::UnexpectedCharacter('x')));
    assert_eq!(parse("[1,]"), Err(ParseError::UnexpectedCharacter(']')));
    assert_eq!(parse("Null"), Err(ParseError::UnexpectedCharacter('N')));
}

#[test]
fn keyword_must_match_exactly() {
    assert_eq!(parse("nul"), Err(ParseError::LiteralMismatch('n', "ull")));
    assert_eq!(parse("nULL"), Err(ParseError::LiteralMismatch('n', "ull")));
    assert_eq!(parse("fals"), Err(ParseError::LiteralMismatch('f', "alse")));
    assert_eq!(parse("tru e"), Err(ParseError::LiteralMismatch('t', "rue")));
    assert_eq!(parse("nullable"), Err(ParseError::TrailingContent));
    assert_eq!(parse("[truest]"), Err(ParseError::ArrayUnexpected('s')));
}

#[test]
fn unterminated_string_is_reported() {
    assert_eq!(parse("\"abc"), Err(ParseError::UnterminatedString));
    assert_eq!(parse("{\"abc"), Err(ParseError::UnterminatedString));
    assert_eq!(parse("[\"a\", \"b"), Err(ParseError::UnterminatedString));
}

#[test]
fn object_errors_are_told_apart() {
    assert_eq!(parse("{"), Err(ParseError::ObjectTruncated));
    assert_eq!(parse("{\"a\""), Err(ParseError::ObjectTruncated));
    assert_eq!(parse("{a: 1}"), Err(ParseError::ObjectSeparator));
    assert_eq!(parse("{\"a\" 1}"), Err(ParseError::ObjectSeparator));
    assert_eq!(parse("{\"a\": 1"), Err(ParseError::ObjectUnclosed));
    assert_eq!(parse("{\"a\": 1 ;"), Err(ParseError::ObjectUnexpected(';')));
    assert_eq!(parse("{\"a\": 1]"), Err(ParseError::ObjectUnexpected(']')));
}

#[test]
fn array_errors_are_told_apart() {
    assert_eq!(parse("[1"), Err(ParseError::ArrayUnclosed));
    assert_eq!(parse("[1, 2 "), Err(ParseError::ArrayUnclosed));
    assert_eq!(parse("[1 2]"), Err(ParseError::ArrayUnexpected('2')));
    assert_eq!(parse("[1}"), Err(ParseError::ArrayUnexpected('}')));
}

#[test]
fn first_error_wins() {
    assert_eq!(parse("[x, \"abc"), Err(ParseError::UnexpectedCharacter('x')));
    assert_eq!(parse("{\"a\": [1, nul], \"b"), Err(ParseError::LiteralMismatch('n', "ull")));
}

#[test]
fn messages_name_the_offending_character() {
    assert_eq!(ParseError::MissingValue.message(), "Invalid json format.");
    assert_eq!(ParseError::TrailingContent.message(), "Invalid json format.");
    assert_eq!(ParseError::UnexpectedCharacter('x').message(), "Unexpected: x in json value");
    assert_eq!(
        ParseError::LiteralMismatch('n', "ull").message(),
        "invalid json value, probably wanted: null"
    );
    assert_eq!(ParseError::UnterminatedString.message(), "Json string never ends!");
    assert_eq!(ParseError::MalformedNumber.message(), "invalid json number structure");
    assert_eq!(
        ParseError::NumberOutOfRange.message(),
        "number too large to fit in target type"
    );
    assert_eq!(
        ParseError::ObjectSeparator.message(),
        "Invalid json object composition, no separator"
    );
    assert_eq!(ParseError::ObjectTruncated.message(), "Invalid Json object composition");
    assert_eq!(
        ParseError::ObjectUnexpected(';').message(),
        "Invalid Json object composition, got: ;"
    );
    assert_eq!(
        ParseError::ObjectUnclosed.message(),
        "Invalid Json object composition, no closing }"
    );
    assert_eq!(
        ParseError::ArrayUnexpected('2').message(),
        "Invalid json array structure, got: 2"
    );
    assert_eq!(
        ParseError::ArrayUnclosed.message(),
        "Invalid json array structure, no closing ]"
    );
}
