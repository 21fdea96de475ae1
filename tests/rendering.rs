use json_parser::{parse, JsonValue};

#[test]
fn renders_scalars() {
    assert_eq!(JsonValue::Null.render(), "null");
    assert_eq!(JsonValue::Boolean(true).render(), "true");
    assert_eq!(JsonValue::Boolean(false).render(), "false");
    assert_eq!(JsonValue::Number("-2.5e3".to_string()).render(), "-2.5e3");
}

#[test]
fn renders_escapes() {
    let v = JsonValue::String("hello\nworld\t\"quote\"\\backslash".to_string());
    assert_eq!(v.render(), "\"hello\\nworld\\t\\\"quote\\\"\\\\backslash\"");
    let v = JsonValue::String("\u{8}\u{c}\r/\u{e9}".to_string());
    assert_eq!(v.render(), "\"\\b\\f\\r/\u{e9}\"");
}

#[test]
fn renders_containers() {
    let v = JsonValue::Array(vec![
        JsonValue::Null,
        JsonValue::Number("1".to_string()),
        JsonValue::Array(vec![]),
    ]);
    assert_eq!(v.render(), "[null, 1, []]");
    let v = JsonValue::Object(vec![
        ("a".to_string(), JsonValue::Boolean(true)),
        ("b\"".to_string(), JsonValue::Object(vec![])),
    ]);
    assert_eq!(v.render(), "{\"a\": true, \"b\\\"\": {}}");
}

#[test]
fn round_trip_of_built_value() {
    let v = JsonValue::Object(vec![
        ("name".to_string(), JsonValue::String("x\ty\u{1f600}".to_string())),
        (
            "list".to_string(),
            JsonValue::Array(vec![
                JsonValue::Number("-0.5".to_string()),
                JsonValue::Number("1E-2".to_string()),
                JsonValue::Boolean(false),
                JsonValue::Null,
            ]),
        ),
    ]);
    let text = v.render();
    let back = parse(&text).unwrap();
    assert_eq!(back.render(), text);
    match back {
        JsonValue::Object(o) => {
            assert_eq!(o.len(), 2);
            assert_eq!(o[0].0, "name");
            match &o[0].1 {
                JsonValue::String(s) => assert_eq!(s, "x\ty\u{1f600}"),
                other => panic!("{:?}", other),
            }
        }
        other => panic!("{:?}", other),
    }
}

#[test]
fn round_trip_of_parsed_text() {
    let text = "{\"a\": [1, {\"b\": 2}], \"s\": \"q\\\"\\n\"}";
    let v = parse(text).unwrap();
    assert_eq!(v.render(), text);
}
