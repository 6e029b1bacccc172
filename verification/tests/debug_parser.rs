use observation_tools::debug_parser::parse_debug_to_json;
use observation_tools::json::JsonValue;

fn s(t: &str) -> JsonValue {
    JsonValue::Str(t.to_string())
}

fn num(n: i64) -> JsonValue {
    JsonValue::Int(n)
}

fn arr(items: Vec<JsonValue>) -> JsonValue {
    JsonValue::Array(items)
}

/// An object with its entries ordered by key, as a JSON map keeps them.
fn obj(entries: Vec<(&str, JsonValue)>) -> JsonValue {
    let mut e: Vec<(String, JsonValue)> = entries.into_iter().map(|(k, v)| (k.to_string(), v)).collect();
    e.sort_by(|a, b| a.0.cmp(&b.0));
    JsonValue::Object(e)
}

#[test]
fn test_parse_unit() {
    let result = parse_debug_to_json("None");
    assert_eq!(result, obj(vec![("_type", s("None"))]));
}

#[test]
fn test_parse_simple_struct() {
    let input = "Point {\n    x: 10,\n    y: 20,\n}";
    let result = parse_debug_to_json(input);
    assert_eq!(result, obj(vec![("_type", s("Point")), ("x", num(10)), ("y", num(20))]));
}

#[test]
fn test_parse_nested_struct() {
    let input = "Outer {\n    inner: Inner {\n        value: 42,\n    },\n}";
    let result = parse_debug_to_json(input);
    assert_eq!(
        result,
        obj(vec![
            ("_type", s("Outer")),
            ("inner", obj(vec![("_type", s("Inner")), ("value", num(42))])),
        ])
    );
}

#[test]
fn test_parse_tuple_struct() {
    let input = "Some(\n    42,\n)";
    let result = parse_debug_to_json(input);
    assert_eq!(result, obj(vec![("_type", s("Some")), ("_values", arr(vec![num(42)]))]));
}

#[test]
fn test_parse_array() {
    let input = "[\n    1,\n    2,\n    3,\n]";
    let result = parse_debug_to_json(input);
    assert_eq!(result, arr(vec![num(1), num(2), num(3)]));
}

#[test]
fn test_parse_string() {
    let result = parse_debug_to_json("\"hello world\"");
    assert_eq!(result, s("hello world"));
}

#[test]
fn test_parse_string_with_escapes() {
    let result = parse_debug_to_json("\"hello\\nworld\"");
    assert_eq!(result, s("hello\nworld"));
}

#[test]
fn test_parse_boolean() {
    assert_eq!(parse_debug_to_json("true"), JsonValue::Bool(true));
    assert_eq!(parse_debug_to_json("false"), JsonValue::Bool(false));
}

#[test]
fn test_parse_number() {
    assert_eq!(parse_debug_to_json("42"), num(42));
    assert_eq!(parse_debug_to_json("-17"), num(-17));
    match parse_debug_to_json("3.14") {
        JsonValue::Float(t) => assert_eq!(t.parse::<f64>().unwrap(), 3.14),
        other => panic!("expected a float, got {:?}", other),
    }
}

#[test]
fn test_parse_tuple() {
    let result = parse_debug_to_json("(\n    1,\n    \"two\",\n)");
    assert_eq!(result, obj(vec![("_tuple", arr(vec![num(1), s("two")]))]));
}

#[test]
fn test_parse_complex_struct() {
    let input = "User {\n    name: \"Alice\",\n    age: 30,\n    active: true,\n    scores: [\n        100,\n        95,\n        87,\n    ],\n}";
    let result = parse_debug_to_json(input);
    assert_eq!(
        result,
        obj(vec![
            ("_type", s("User")),
            ("name", s("Alice")),
            ("age", num(30)),
            ("active", JsonValue::Bool(true)),
            ("scores", arr(vec![num(100), num(95), num(87)])),
        ])
    );
}

#[test]
fn test_parse_option_none() {
    let result = parse_debug_to_json("None");
    assert_eq!(result, obj(vec![("_type", s("None"))]));
}

#[test]
fn test_parse_option_some() {
    let result = parse_debug_to_json("Some(\n    \"value\",\n)");
    assert_eq!(result, obj(vec![("_type", s("Some")), ("_values", arr(vec![s("value")]))]));
}

#[test]
fn test_fallback_on_invalid() {
    let input = "this is { invalid } debug";
    let result = parse_debug_to_json(input);
    assert_eq!(result, s("this is { invalid } debug"));
}

#[test]
fn test_empty_struct() {
    let result = parse_debug_to_json("Empty {}");
    assert_eq!(result, obj(vec![("_type", s("Empty"))]));
}

#[test]
fn test_empty_array() {
    let result = parse_debug_to_json("[]");
    assert_eq!(result, arr(vec![]));
}

#[test]
fn parses_map_with_sorted_keys() {
    let result = parse_debug_to_json("{\n    \"b\": 2,\n    \"a\": 1,\n}");
    assert_eq!(result, obj(vec![("a", num(1)), ("b", num(2))]));
}

#[test]
fn map_keys_keep_the_last_value() {
    let result = parse_debug_to_json("{\"k\": 1, \"k\": 2}");
    assert_eq!(result, obj(vec![("k", num(2))]));
}

#[test]
fn numeric_map_keys_become_text() {
    let result = parse_debug_to_json("{1: \"one\", true: \"yes\"}");
    assert_eq!(result, obj(vec![("1", s("one")), ("true", s("yes"))]));
}

#[test]
fn large_integers_keep_their_text() {
    assert_eq!(parse_debug_to_json("9223372036854775807"), num(i64::MAX));
    assert_eq!(parse_debug_to_json("-9223372036854775808"), num(i64::MIN));
    assert_eq!(
        parse_debug_to_json("9223372036854775808"),
        JsonValue::Float("9223372036854775808".to_string())
    );
}

#[test]
fn surrounding_whitespace_is_ignored() {
    assert_eq!(parse_debug_to_json("  \n true \n"), JsonValue::Bool(true));
    assert_eq!(parse_debug_to_json("\u{3000}7\u{2029}"), num(7));
}

#[test]
fn trailing_text_falls_back() {
    assert_eq!(parse_debug_to_json("1 2"), s("1 2"));
}

#[test]
fn escapes_are_resolved() {
    assert_eq!(parse_debug_to_json("\"a\\\"b\\\\c\\td\""), s("a\"b\\c\td"));
}

#[test]
fn debug_text_of_a_string_parses_back_to_it() {
    for text in ["a\\nb", "back\\\\slash", "tab\there", "quote\"d", "line\nbreak\r\n", "\\t\\r"] {
        assert_eq!(parse_debug_to_json(&format!("{:?}", text)), s(text));
    }
}

#[test]
fn every_unicode_white_space_is_trimmed() {
    for c in (0u32..=0x10ffff).filter_map(char::from_u32).filter(|c| c.is_whitespace()) {
        assert_eq!(parse_debug_to_json(&format!("{c}7{c}")), num(7));
    }
    assert_eq!(parse_debug_to_json("\u{200b}7"), s("\u{200b}7"));
}
