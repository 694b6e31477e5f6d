use dualhost::json::JsonValue;
use dualhost::json_parse::parse_json_str;
use dualhost::json_text::to_json_string;
use dualhost::request::decode_body;

fn obj(entries: Vec<(&str, JsonValue)>) -> JsonValue {
    JsonValue::Obj(entries.into_iter().map(|(k, v)| (k.to_owned(), v)).collect())
}

#[test]
fn serialize_scalars() {
    assert_eq!(to_json_string(&JsonValue::Null), "null");
    assert_eq!(to_json_string(&JsonValue::Bool(true)), "true");
    assert_eq!(to_json_string(&JsonValue::Bool(false)), "false");
    assert_eq!(to_json_string(&JsonValue::Int(0)), "0");
    assert_eq!(to_json_string(&JsonValue::Int(42)), "42");
    assert_eq!(to_json_string(&JsonValue::Int(-7)), "-7");
    assert_eq!(to_json_string(&JsonValue::Int(i64::MAX)), "9223372036854775807");
    assert_eq!(to_json_string(&JsonValue::Int(i64::MIN)), "-9223372036854775808");
}

#[test]
fn serialize_strings_with_escapes() {
    assert_eq!(to_json_string(&JsonValue::Str(String::new())), "\"\"");
    assert_eq!(to_json_string(&JsonValue::Str("hello".to_owned())), "\"hello\"");
    assert_eq!(
        to_json_string(&JsonValue::Str("a\"b\\c".to_owned())),
        "\"a\\\"b\\\\c\""
    );
    assert_eq!(
        to_json_string(&JsonValue::Str("line\nbreak\ttab\r".to_owned())),
        "\"line\\nbreak\\ttab\\r\""
    );
    assert_eq!(
        to_json_string(&JsonValue::Str("\u{8}\u{c}\u{1f}".to_owned())),
        "\"\\b\\f\\u001f\""
    );
    assert_eq!(
        to_json_string(&JsonValue::Str("caf\u{e9} \u{1f600}".to_owned())),
        "\"caf\u{e9} \u{1f600}\""
    );
}

#[test]
fn serialize_nested() {
    let v = JsonValue::Arr(vec![
        JsonValue::Int(1),
        JsonValue::Arr(vec![]),
        JsonValue::Arr(vec![JsonValue::Null, JsonValue::Bool(false)]),
    ]);
    assert_eq!(to_json_string(&v), "[1,[],[null,false]]");
    let o = obj(vec![
        ("ok", JsonValue::Bool(true)),
        ("n", JsonValue::Int(3)),
        ("inner", obj(vec![("x", JsonValue::Str("y".to_owned()))])),
    ]);
    assert_eq!(to_json_string(&o), "{\"ok\":true,\"n\":3,\"inner\":{\"x\":\"y\"}}");
    assert_eq!(to_json_string(&obj(vec![])), "{}");
}

#[test]
fn parse_canonical_values() {
    let cases = [
        "null",
        "true",
        "false",
        "0",
        "-12",
        "9223372036854775807",
        "-9223372036854775808",
        "\"hi\"",
        "\"a\\\"b\\\\c\\n\\u0001\"",
        "[]",
        "[1,2,3]",
        "{}",
        "{\"ok\":true}",
        "{\"a\":[null,{\"b\":\"c\"}],\"d\":-5}",
    ];
    for text in cases {
        let v = parse_json_str(text).expect(text);
        assert_eq!(to_json_string(&v), text);
    }
}

#[test]
fn parse_rejects_non_canonical_text() {
    let cases = [
        "",
        " null",
        "null ",
        "nullx",
        "tru",
        "01",
        "-0",
        "1.5",
        "1e3",
        "\"open",
        "[1,2",
        "[1,]",
        "{\"a\":1,}",
        "{\"a\" :1}",
        "{\"a\": 1}",
        "{'a':1}",
        "9223372036854775808",
        "-9223372036854775809",
        "[1 ,2]",
    ];
    for text in cases {
        assert!(parse_json_str(text).is_none(), "accepted: {}", text);
    }
}

#[test]
fn round_trip_with_conformant_client() {
    // serialize here, parse with a conformant client, compare deeply
    let v = obj(vec![
        ("ok", JsonValue::Bool(true)),
        ("items", JsonValue::Arr(vec![JsonValue::Int(1), JsonValue::Str("two".to_owned())])),
        ("note", JsonValue::Str("tab\there \u{e9}".to_owned())),
        ("none", JsonValue::Null),
    ]);
    let text = to_json_string(&v);
    let parsed: serde_json::Value = serde_json::from_str(&text).expect("client parse");

    let mut items = Vec::new();
    items.push(serde_json::Value::Number(serde_json::Number::from(1)));
    items.push(serde_json::Value::String("two".to_owned()));
    let mut map = serde_json::Map::new();
    map.insert("ok".to_owned(), serde_json::Value::Bool(true));
    map.insert("items".to_owned(), serde_json::Value::Array(items));
    map.insert(
        "note".to_owned(),
        serde_json::Value::String("tab\there \u{e9}".to_owned()),
    );
    map.insert("none".to_owned(), serde_json::Value::Null);
    assert_eq!(parsed, serde_json::Value::Object(map));

    // and back: what the client emits for it, this library reads again,
    // deep-equal up to the client's own ordering of object keys
    let client_text = serde_json::to_string(&parsed).expect("client serialize");
    let back = parse_json_str(&client_text).expect("reparse");
    let back_as_client: serde_json::Value =
        serde_json::from_str(&to_json_string(&back)).expect("client reparse");
    assert_eq!(back_as_client, parsed);
}

#[test]
fn decode_body_structured() {
    let v = decode_body(b"{\"ok\":true}".to_vec());
    assert_eq!(to_json_string(&v), "{\"ok\":true}");
}

#[test]
fn decode_body_scalar() {
    let v = decode_body(b"-42".to_vec());
    assert!(matches!(v, JsonValue::Int(-42)));
    let v = decode_body(b"true".to_vec());
    assert!(matches!(v, JsonValue::Bool(true)));
    let v = decode_body(b"null".to_vec());
    assert!(matches!(v, JsonValue::Null));
    match decode_body(b"\"hi\\nthere\\u0001\"".to_vec()) {
        JsonValue::Str(s) => assert_eq!(s, "hi\nthere\u{1}"),
        _ => panic!("expected a decoded string value"),
    }
}

#[test]
fn decode_body_falls_back_to_text() {
    let v = decode_body(b"plain words".to_vec());
    match v {
        JsonValue::Str(s) => assert_eq!(s, "plain words"),
        _ => panic!("expected a string scalar"),
    }
}

#[test]
fn decode_body_empty_is_text() {
    let v = decode_body(Vec::new());
    match v {
        JsonValue::Str(s) => assert_eq!(s, ""),
        _ => panic!("expected a string scalar"),
    }
}

#[test]
fn decode_body_invalid_utf8_is_null() {
    let v = decode_body(vec![0xff, 0xfe, 0x41]);
    assert!(matches!(v, JsonValue::Null));
}
