use json_parser::{parse, ErrorKind, JsonValue, ParseError, Parser};

fn ok(text: &str) -> JsonValue {
    match parse(text) {
        Ok(v) => v,
        Err(e) => panic!("{:?} failed: {:?}", text, e),
    }
}

fn err(text: &str) -> ParseError {
    match parse(text) {
        Ok(v) => panic!("{:?} parsed as {:?}", text, v),
        Err(e) => e,
    }
}

fn number(v: &JsonValue) -> f64 {
    match v {
        JsonValue::Number(t) => t.parse::<f64>().unwrap(),
        other => panic!("not a number: {:?}", other),
    }
}

fn text(v: &JsonValue) -> &str {
    match v {
        JsonValue::String(t) => t.as_str(),
        other => panic!("not a string: {:?}", other),
    }
}

#[test]
fn parses_literals() {
    assert!(matches!(ok("null"), JsonValue::Null));
    assert!(matches!(ok("true"), JsonValue::Boolean(true)));
    assert!(matches!(ok("false"), JsonValue::Boolean(false)));
}

#[test]
fn parser_new_then_parse() {
    let mut p = Parser::new("  [1]  ");
    assert_eq!(p.position(), 0);
    match p.parse() {
        Ok(JsonValue::Array(a)) => assert_eq!(a.len(), 1),
        other => panic!("{:?}", other),
    }
    assert_eq!(p.position(), 7);
}

#[test]
fn rejects_bad_literal() {
    let e = err("nope");
    assert_eq!(e.kind, ErrorKind::LiteralMismatch { expected: 'u', found: 'o' });
    assert_eq!(e.position, 1);
    assert_eq!(e.message, "Expected 'u', found 'o'");
    let e = err("tru");
    assert_eq!(e.kind, ErrorKind::LiteralAtEnd { expected: 'e' });
    assert_eq!(e.position, 3);
    assert_eq!(e.message, "Expected 'e', found end of input");
    let e = err("fAlse");
    assert_eq!(e.message, "Expected 'a', found 'A'");
    assert_eq!(e.position, 1);
}

#[test]
fn empty_and_blank_input() {
    let e = err("");
    assert_eq!(e.kind, ErrorKind::UnexpectedEnd);
    assert_eq!(e.position, 0);
    assert_eq!(e.message, "unexpected end of input");
    let e = err(" \t\r\n");
    assert_eq!(e.kind, ErrorKind::UnexpectedEnd);
    assert_eq!(e.position, 4);
}

#[test]
fn unexpected_character() {
    let e = err("  @");
    assert_eq!(e.kind, ErrorKind::UnexpectedChar('@'));
    assert_eq!(e.position, 2);
    assert_eq!(e.message, "unexpected character: @");
}

#[test]
fn trailing_characters() {
    let e = err("null x");
    assert_eq!(e.kind, ErrorKind::TrailingCharacters);
    assert_eq!(e.position, 5);
    assert_eq!(e.message, "unexpected trailing characters");
}

#[test]
fn strings_plain_and_escaped() {
    assert_eq!(text(&ok("\"hello world\"")), "hello world");
    assert_eq!(text(&ok("\"hello\\nworld\\t!\"")), "hello\nworld\t!");
    assert_eq!(text(&ok("\"a\\nb\"")), "a\nb");
    assert_eq!(
        text(&ok("\"\\\"\\\\\\/\\b\\f\\n\\r\\t\"")),
        "\"\\/\u{8}\u{c}\n\r\t"
    );
    assert_eq!(text(&ok("\"\"")), "");
    assert_eq!(text(&ok("\"h\u{e9}llo\"")), "h\u{e9}llo");
}

#[test]
fn unicode_escapes() {
    assert_eq!(text(&ok("\"\\u0041\\u00e9\\u20AC\"")), "A\u{e9}\u{20ac}");
    assert_eq!(text(&ok("\"\\ud83d\\ude00\"")), "\u{1f600}");
    let e = err("\"\\ud83d\"");
    assert_eq!(e.kind, ErrorKind::UnterminatedEscape);
    let e = err("\"\\ud83dxxxxxx\"");
    assert_eq!(e.kind, ErrorKind::InvalidUnicodeEscape);
    assert_eq!(e.position, 1);
    let e = err("\"\\ude00abcdef\"");
    assert_eq!(e.kind, ErrorKind::InvalidUnicodeEscape);
    let e = err("\"\\u00g0\"");
    assert_eq!(e.kind, ErrorKind::InvalidUnicodeEscape);
    assert_eq!(e.message, "invalid unicode escape");
}

#[test]
fn string_errors() {
    let e = err("\"unterminated");
    assert_eq!(e.kind, ErrorKind::UnterminatedString);
    assert_eq!(e.position, 13);
    let e = err("\"hello");
    assert_eq!(e.kind, ErrorKind::UnterminatedString);
    let e = err("\"ab\\");
    assert_eq!(e.kind, ErrorKind::UnterminatedEscape);
    assert_eq!(e.position, 4);
    let e = err("\"a\\qb\"");
    assert_eq!(e.kind, ErrorKind::InvalidEscape('q'));
    assert_eq!(e.position, 2);
    assert_eq!(e.message, "invalid escape sequence: \\q");
}

#[test]
fn integers() {
    for (input, expected) in [("42", 42.0), ("-17", -17.0), ("0", 0.0), ("123", 123.0)] {
        assert_eq!(number(&ok(input)), expected);
    }
}

#[test]
fn decimals() {
    for (input, expected) in [("3.14", 3.14), ("-0.5", -0.5), ("0.123", 0.123)] {
        assert!((number(&ok(input)) - expected).abs() < f64::EPSILON);
    }
}

#[test]
fn exponents() {
    assert_eq!(number(&ok("1e2")), 100.0);
    assert!((number(&ok("1E-2")) - 0.01).abs() < f64::EPSILON);
    assert_eq!(number(&ok("-2e+3")), -2000.0);
    match ok("-2e+3") {
        JsonValue::Number(t) => assert_eq!(t, "-2e+3"),
        other => panic!("{:?}", other),
    }
}

#[test]
fn number_errors() {
    let e = err("01");
    assert_eq!(e.kind, ErrorKind::LeadingZero);
    assert_eq!(e.position, 1);
    assert_eq!(e.message, "leading zero not allowed");
    let e = err("-");
    assert_eq!(e.kind, ErrorKind::ExpectedDigit);
    assert_eq!(e.position, 1);
    let e = err("-a");
    assert_eq!(e.kind, ErrorKind::ExpectedDigit);
    let e = err("1.");
    assert_eq!(e.kind, ErrorKind::ExpectedFractionDigit);
    assert_eq!(e.position, 2);
    let e = err("1e+");
    assert_eq!(e.kind, ErrorKind::ExpectedExponentDigit);
    assert_eq!(e.position, 3);
}

#[test]
fn empty_containers() {
    match ok("[]") {
        JsonValue::Array(a) => assert!(a.is_empty()),
        other => panic!("{:?}", other),
    }
    match ok("{}") {
        JsonValue::Object(o) => assert!(o.is_empty()),
        other => panic!("{:?}", other),
    }
    match ok("[ \n ]") {
        JsonValue::Array(a) => assert!(a.is_empty()),
        other => panic!("{:?}", other),
    }
}

#[test]
fn simple_and_nested_arrays() {
    match ok("[1, 2, 3]") {
        JsonValue::Array(a) => {
            assert_eq!(a.len(), 3);
            assert_eq!(number(&a[2]), 3.0);
        }
        other => panic!("{:?}", other),
    }
    match ok("[[1, 2], [3, 4]]") {
        JsonValue::Array(a) => {
            assert_eq!(a.len(), 2);
            match &a[1] {
                JsonValue::Array(b) => assert_eq!(number(&b[0]), 3.0),
                other => panic!("{:?}", other),
            }
        }
        other => panic!("{:?}", other),
    }
}

#[test]
fn mixed_array() {
    match ok("[null, true, \"hello\", 42]") {
        JsonValue::Array(a) => {
            assert_eq!(a.len(), 4);
            assert!(matches!(a[0], JsonValue::Null));
            assert!(matches!(a[1], JsonValue::Boolean(true)));
            assert_eq!(text(&a[2]), "hello");
            assert_eq!(number(&a[3]), 42.0);
        }
        other => panic!("{:?}", other),
    }
}

#[test]
fn nested_object() {
    match ok("{\"a\": [1, {\"b\": 2}]}") {
        JsonValue::Object(o) => {
            assert_eq!(o.len(), 1);
            assert_eq!(o[0].0, "a");
            match &o[0].1 {
                JsonValue::Array(a) => {
                    assert_eq!(a.len(), 2);
                    assert_eq!(number(&a[0]), 1.0);
                    match &a[1] {
                        JsonValue::Object(inner) => {
                            assert_eq!(inner.len(), 1);
                            assert_eq!(inner[0].0, "b");
                            assert_eq!(number(&inner[0].1), 2.0);
                        }
                        other => panic!("{:?}", other),
                    }
                }
                other => panic!("{:?}", other),
            }
        }
        other => panic!("{:?}", other),
    }
}

#[test]
fn duplicate_keys_last_wins() {
    match ok("{\"a\": 1, \"b\": 2, \"a\": 3}") {
        JsonValue::Object(o) => {
            assert_eq!(o.len(), 2);
            assert_eq!(o[0].0, "a");
            assert_eq!(number(&o[0].1), 3.0);
            assert_eq!(o[1].0, "b");
        }
        other => panic!("{:?}", other),
    }
}

#[test]
fn array_errors() {
    let e = err("[1,]");
    assert_eq!(e.kind, ErrorKind::TrailingComma);
    assert_eq!(e.position, 3);
    let e = err("[1 2]");
    assert_eq!(e.kind, ErrorKind::ExpectedCommaOrBracket('2'));
    assert_eq!(e.position, 3);
    assert_eq!(e.message, "expected ',' or ']' in array, found '2'");
    let e = err("[1");
    assert_eq!(e.kind, ErrorKind::UnterminatedArray);
    assert_eq!(e.position, 2);
    let e = err("[1, ");
    assert_eq!(e.kind, ErrorKind::UnterminatedArray);
    assert_eq!(e.position, 4);
}

#[test]
fn object_errors() {
    let e = err("{\"a\":1,}");
    assert_eq!(e.kind, ErrorKind::TrailingComma);
    assert_eq!(e.position, 7);
    let e = err("{a: 1}");
    assert_eq!(e.kind, ErrorKind::ExpectedKey('a'));
    assert_eq!(e.message, "expected string key in object, found 'a'");
    assert_eq!(e.position, 1);
    let e = err("{\"a\" 1}");
    assert_eq!(e.kind, ErrorKind::ExpectedColon('1'));
    assert_eq!(e.position, 5);
    let e = err("{\"a\": 1 \"b\"}");
    assert_eq!(e.kind, ErrorKind::ExpectedCommaOrBrace('"'));
    let e = err("{\"a\": 1");
    assert_eq!(e.kind, ErrorKind::UnterminatedObject);
    assert_eq!(e.position, 7);
    let e = err("{\"a\"");
    assert_eq!(e.kind, ErrorKind::UnterminatedObject);
    let e = err("{");
    assert_eq!(e.kind, ErrorKind::UnterminatedObject);
    assert_eq!(e.message, "unterminated object");
}

#[test]
fn same_text_same_outcome() {
    let a = ok("{\"k\": [1, \"x\"]}").render();
    let b = ok("{\"k\": [1, \"x\"]}").render();
    assert_eq!(a, b);
    let e1 = err("[1,]");
    let e2 = err("[1,]");
    assert_eq!(e1.kind, e2.kind);
    assert_eq!(e1.position, e2.position);
}

#[test]
fn whitespace_between_tokens() {
    let compact = ok("{\"a\":[1,{\"b\":null}],\"c\":true}").render();
    let spaced = ok(" \n{ \"a\" :\t[ 1 ,\r{ \"b\" : null } ] , \"c\" : true }\n ").render();
    assert_eq!(compact, spaced);
}

#[test]
fn nesting_limit() {
    let deepest = format!("{}{}", "[".repeat(128), "]".repeat(128));
    assert!(matches!(ok(&deepest), JsonValue::Array(_)));
    let too_deep = format!("{}{}", "[".repeat(129), "]".repeat(129));
    let e = err(&too_deep);
    assert_eq!(e.kind, ErrorKind::TooDeep);
    assert_eq!(e.position, 128);
    let e = err(&format!("{}{{}}{}", "[".repeat(128), "]".repeat(128)));
    assert_eq!(e.kind, ErrorKind::TooDeep);
    assert_eq!(e.message, "arrays and objects nest too deeply");
}

#[test]
fn consume_str_messages() {
    let mut p = Parser::new("nope");
    let e = p.consume_str("null").unwrap_err();
    assert_eq!(e.message, "Expected 'u', found 'o'");
    assert_eq!(e.position, 1);
    let mut p = Parser::new("tru");
    let e = p.consume_str("true").unwrap_err();
    assert_eq!(e.message, "Expected 'e', found end of input");
    assert_eq!(e.position, 3);
    let mut p = Parser::new("null!");
    assert!(p.consume_str("null").is_ok());
    assert_eq!(p.position(), 4);
}

#[test]
fn parse_value_skips_leading_whitespace() {
    let mut p = Parser::new("  x");
    let e = p.parse_value(0).unwrap_err();
    assert_eq!(e.kind, ErrorKind::UnexpectedChar('x'));
    assert_eq!(e.position, 2);
    assert_eq!(e.message, "unexpected character: x");
    let mut p = Parser::new(" \t true ,");
    assert!(matches!(p.parse_value(0), Ok(JsonValue::Boolean(true))));
    assert_eq!(p.position(), 7);
}
