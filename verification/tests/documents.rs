use ros_hydra_stats::json::{Json, JsonNumber};

fn parse(text: &str) -> Json {
    match Json::parse(text) {
        Ok(json) => json,
        Err(_) => panic!("{} is no JSON", text),
    }
}

#[test]
fn documents_are_read() {
    let json = parse(r#"{"a": [null, true, 1, -1, 1.5, "x"], "b": {"c": "d"}}"#);
    let items = match json.get("a") {
        Some(Json::Array(items)) => items,
        _ => panic!("no array"),
    };
    assert_eq!(items.len(), 6);
    assert!(matches!(items[0], Json::Null));
    assert!(matches!(items[1], Json::Bool(true)));
    assert!(matches!(items[2], Json::Number(JsonNumber::PosInt(1))));
    assert!(matches!(items[3], Json::Number(JsonNumber::NegInt(-1))));
    assert!(matches!(&items[4], Json::Number(JsonNumber::Float(n)) if n.to_string() == "1.5"));
    assert_eq!(items[5].as_text(), Some("x"));
    assert_eq!(json.get("b").and_then(|b| b.text_at("c")), Some("d"));
    assert!(json.get("c").is_none());
    assert!(items[0].get("a").is_none());
}

#[test]
fn text_that_is_no_json_is_refused() {
    for text in ["", "{", "nul", "{\"a\":}", "1 2", "'a'"] {
        match Json::parse(text) {
            Ok(_) => panic!("{} was read", text),
            Err(error) => assert!(!error.source.to_string().is_empty()),
        }
    }
}

#[test]
fn integers_have_their_ranges() {
    assert_eq!(parse("0").as_u64(), Some(0));
    assert_eq!(parse("0").as_i64(), Some(0));
    assert_eq!(parse("-5").as_u64(), None);
    assert_eq!(parse("-5").as_i64(), Some(-5));
    assert_eq!(parse("18446744073709551615").as_u64(), Some(u64::MAX));
    assert_eq!(parse("18446744073709551615").as_i64(), None);
    assert_eq!(parse("9223372036854775807").as_i64(), Some(i64::MAX));
    assert_eq!(parse("-9223372036854775808").as_i64(), Some(i64::MIN));
    assert_eq!(parse("1.0").as_i64(), None);
    assert_eq!(parse("1.0").as_u64(), None);
    assert_eq!(parse("\"1\"").as_i64(), None);
    assert_eq!(parse("null").as_text(), None);
}

#[test]
fn fields_are_looked_up() {
    let json = parse(r#"{"n": 3, "m": -3, "s": "t"}"#);
    assert_eq!(json.u64_at("n"), Some(3));
    assert_eq!(json.i64_at("m"), Some(-3));
    assert_eq!(json.u64_at("m"), None);
    assert_eq!(json.text_at("s"), Some("t"));
    assert_eq!(json.text_at("n"), None);
    assert_eq!(json.i64_at("missing"), None);
    assert_eq!(parse("[1]").i64_at("n"), None);
}

#[test]
fn the_first_field_of_a_name_counts() {
    let json = Json::Object(vec![
        ("a".to_string(), Json::Number(JsonNumber::PosInt(1))),
        ("a".to_string(), Json::Number(JsonNumber::PosInt(2))),
    ]);
    assert_eq!(json.u64_at("a"), Some(1));
}

#[test]
fn documents_are_written_as_serde_json_does() {
    for text in [
        "null",
        "true",
        "false",
        "12",
        "-12",
        "1.5",
        "[]",
        "{}",
        r#""a\"b\\c\n\u0001é""#,
        r#"[1,[2,"x"],{}]"#,
        r#"{"a":1,"b":[null,{"c\t":"d"}]}"#,
    ] {
        let expected = match serde_json::from_str::<serde_json::Value>(text) {
            Ok(value) => value.to_string(),
            Err(_) => panic!("{} is no JSON", text),
        };
        assert_eq!(parse(text).write(), expected);
    }
}

#[test]
fn texts_are_quoted_when_written() {
    assert_eq!(Json::Text("a\"b\nc".to_string()).write(), "\"a\\\"b\\nc\"");
    assert_eq!(
        Json::Object(vec![("k".to_string(), Json::Text("v".to_string()))]).write(),
        "{\"k\":\"v\"}"
    );
    assert_eq!(parse("2.50").write(), "2.5");
}

#[test]
fn integers_and_truth_values_are_written_plainly() {
    assert_eq!(Json::Null.write(), "null");
    assert_eq!(Json::Bool(true).write(), "true");
    assert_eq!(Json::Number(JsonNumber::PosInt(u64::MAX)).write(), "18446744073709551615");
    assert_eq!(Json::Number(JsonNumber::NegInt(i64::MIN)).write(), "-9223372036854775808");
    assert_eq!(Json::Number(JsonNumber::NegInt(-10)).write(), "-10");
}

#[test]
fn carriage_return_behind_a_document_makes_no_difference() {
    for text in ["{\"a\": 1}", "12", "-1.5", "null", "\"x\"", "[1, 2]"] {
        assert_eq!(parse(&format!("{}\r", text)).write(), parse(text).write());
    }
    for text in ["", "{", "tru", "\"x", "1.", "-", "1e", "[1,"] {
        assert!(Json::parse(text).is_err());
        assert!(Json::parse(&format!("{}\r", text)).is_err());
    }
}

#[test]
fn documents_are_written_over_several_lines() {
    assert_eq!(parse("{\"b\": [1], \"a\": {}}").write_pretty(), "{\n  \"a\": {},\n  \"b\": [\n    1\n  ]\n}");
    assert_eq!(parse("3").write_pretty(), "3");
}

#[test]
fn fields_that_were_read_are_in_the_order_of_their_names() {
    match parse("{\"b\": 1, \"a\": 2, \"b\": 3}") {
        Json::Object(fields) => {
            let names: Vec<&str> = fields.iter().map(|field| field.0.as_str()).collect();
            assert_eq!(names, vec!["a", "b"]);
            assert_eq!(fields[1].1.as_u64(), Some(3));
        }
        _ => panic!("no object"),
    }
}
