use rllm::json::{
    has_short_numbers, parse_json, parse_json_values, read_json, write_json, write_pretty_json,
    Json,
};

fn text(s: &str) -> Json {
    Json::Text(s.to_string())
}

#[test]
fn numbers_keep_their_kind() {
    assert_eq!(parse_json("7"), Some(Json::Unsigned(7)));
    assert_eq!(parse_json("18446744073709551615"), Some(Json::Unsigned(u64::MAX)));
    assert_eq!(parse_json("-3"), Some(Json::Negative(-3)));
    assert_eq!(parse_json("0.5"), Some(Json::Decimal("0.5".to_string())));
    assert_eq!(parse_json("1e3"), Some(Json::Decimal("1000.0".to_string())));
}

#[test]
fn objects_are_read_and_written() {
    let json = parse_json(" { \"b\" : [ true , null ] , \"a\" : \"x\\n\" } ").unwrap();
    assert_eq!(json.get("a"), Some(&text("x\n")));
    assert_eq!(json.get("b"), Some(&Json::Array(vec![Json::Bool(true), Json::Null])));
    assert_eq!(json.get("c"), None);
    assert!(json.is_object());
    assert_eq!(write_json(&json), "{\"a\":\"x\\n\",\"b\":[true,null]}");
    assert_eq!(
        write_pretty_json(&json),
        "{\n  \"a\": \"x\\n\",\n  \"b\": [\n    true,\n    null\n  ]\n}"
    );
}

#[test]
fn the_last_of_equal_keys_is_kept() {
    let json = parse_json("{\"a\":1,\"a\":2}").unwrap();
    assert_eq!(json, Json::Object(vec![("a".to_string(), Json::Unsigned(2))]));
    let twice = Json::Object(vec![("a".to_string(), Json::Null), ("a".to_string(), text("z"))]);
    assert_eq!(write_json(&twice), "{\"a\":\"z\"}");
}

#[test]
fn what_is_written_is_read_back() {
    let source = "{\"list\":[1,-2,2.5,\"\\\"\",{}],\"none\":null}";
    let json = parse_json(source).unwrap();
    assert_eq!(parse_json(&write_json(&json)), Some(json.copy()));
    assert_eq!(parse_json(&write_pretty_json(&json)), Some(json));
}

#[test]
fn a_refusal_says_why() {
    assert_eq!(parse_json("{"), None);
    assert_eq!(read_json("{").unwrap_err(), "EOF while parsing an object at line 1 column 1");
    assert_eq!(read_json("[1] 2").unwrap_err(), "trailing characters at line 1 column 5");
    assert_eq!(read_json("true"), Ok(Json::Bool(true)));
}

#[test]
fn values_may_stand_in_a_row() {
    assert_eq!(
        parse_json_values("{\"a\":1} [2]\n3"),
        Some(vec![
            Json::Object(vec![("a".to_string(), Json::Unsigned(1))]),
            Json::Array(vec![Json::Unsigned(2)]),
            Json::Unsigned(3),
        ])
    );
    assert_eq!(parse_json_values(""), Some(Vec::new()));
    assert_eq!(parse_json_values("{\"a\":1} ]"), None);
}

#[test]
fn only_strings_have_a_text() {
    assert_eq!(text("q").as_text(), Some(&"q".to_string()));
    assert_eq!(Json::Unsigned(1).as_text(), None);
    assert_eq!(Json::Null.get("a"), None);
}

#[test]
fn long_numbers_and_long_strings_of_digits_are_read() {
    let digits = "1".repeat(400);
    assert!(has_short_numbers(&digits));
    assert_eq!(read_json(&digits).unwrap_err(), "number out of range at line 1 column 400");
    let quoted = format!("\"{digits}\\\"{digits}\"");
    assert!(has_short_numbers(&quoted));
    assert_eq!(parse_json(&quoted), Some(Json::Text(format!("{digits}\"{digits}"))));
}

#[test]
fn what_is_written_is_what_a_value_keeps() {
    let members = vec![
        ("b".to_string(), Json::Negative(5)),
        ("a".to_string(), Json::Decimal("2.50".to_string())),
        ("b".to_string(), Json::Decimal("x".to_string())),
        ("c".to_string(), Json::Array(vec![Json::Negative(-5), Json::Negative(0)])),
    ];
    assert_eq!(write_json(&Json::Object(members)), "{\"a\":2.5,\"b\":null,\"c\":[-5,0]}");
}
