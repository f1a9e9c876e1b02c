use mcp_rust_analyzer::framing::{decode_frame, encode_frame, DecodeResult};
use mcp_rust_analyzer::json::{parse_json, write_json, JsonValue};

fn obj(fields: Vec<(&[u8], JsonValue)>) -> JsonValue {
    JsonValue::Obj(fields.into_iter().map(|(k, v)| (k.to_vec(), v)).collect())
}

fn s(text: &[u8]) -> JsonValue {
    JsonValue::Str(text.to_vec())
}

#[test]
fn write_scalars() {
    assert_eq!(write_json(&JsonValue::Null), b"null".to_vec());
    assert_eq!(write_json(&JsonValue::Bool(true)), b"true".to_vec());
    assert_eq!(write_json(&JsonValue::Bool(false)), b"false".to_vec());
    assert_eq!(write_json(&JsonValue::Int(0)), b"0".to_vec());
    assert_eq!(write_json(&JsonValue::Int(-42)), b"-42".to_vec());
    assert_eq!(write_json(&JsonValue::Int(i64::MIN)), b"-9223372036854775808".to_vec());
    assert_eq!(write_json(&JsonValue::Int(i64::MAX)), b"9223372036854775807".to_vec());
}

#[test]
fn write_string_escapes() {
    let v = s(b"a\"b\\c\nd");
    assert_eq!(write_json(&v), b"\"a\\\"b\\\\c\\u000ad\"".to_vec());
}

#[test]
fn write_nested_document() {
    let v = obj(vec![
        (b"jsonrpc", s(b"2.0")),
        (b"id", JsonValue::Int(7)),
        (b"params", JsonValue::Arr(vec![JsonValue::Int(1), JsonValue::Null])),
    ]);
    assert_eq!(
        write_json(&v),
        b"{\"jsonrpc\":\"2.0\",\"id\":7,\"params\":[1,null]}".to_vec()
    );
}

#[test]
fn parse_simple_values() {
    assert!(matches!(parse_json(&b"null".to_vec()), Some(JsonValue::Null)));
    assert!(matches!(parse_json(&b"true".to_vec()), Some(JsonValue::Bool(true))));
    assert!(matches!(parse_json(&b"-17".to_vec()), Some(JsonValue::Int(-17))));
    match parse_json(&b"\"hi\"".to_vec()) {
        Some(JsonValue::Str(v)) => assert_eq!(v, b"hi".to_vec()),
        _ => panic!("expected a string"),
    }
}

#[test]
fn parse_accepts_whitespace() {
    let text = b" { \"a\" : [ 1 , 2 ] , \"b\" : { } } ".to_vec();
    let v = parse_json(&text).expect("spaced document parses");
    assert_eq!(write_json(&v), b"{\"a\":[1,2],\"b\":{}}".to_vec());
}

#[test]
fn parse_string_escapes() {
    match parse_json(&b"\"a\\n\\t\\\\\\\"\\u0041\"".to_vec()) {
        Some(JsonValue::Str(v)) => assert_eq!(v, b"a\n\t\\\"A".to_vec()),
        _ => panic!("expected a string"),
    }
}

#[test]
fn parse_rejects_malformed() {
    assert!(parse_json(&b"".to_vec()).is_none());
    assert!(parse_json(&b"{".to_vec()).is_none());
    assert!(parse_json(&b"[1,]".to_vec()).is_none());
    assert!(parse_json(&b"nul".to_vec()).is_none());
    assert!(parse_json(&b"\"unterminated".to_vec()).is_none());
    assert!(parse_json(&b"1 2".to_vec()).is_none());
    assert!(parse_json(&b"{\"a\" 1}".to_vec()).is_none());
}

#[test]
fn parse_rejects_numbers_beyond_range() {
    assert!(parse_json(&b"9223372036854775808".to_vec()).is_none());
    assert!(parse_json(&b"-9223372036854775809".to_vec()).is_none());
    assert!(parse_json(&b"9223372036854775807".to_vec()).is_some());
    assert!(parse_json(&b"-9223372036854775808".to_vec()).is_some());
}

// For any document, decoding the bytes produced by encoding it yields
// an equal document; witnessed here on a deeply mixed value.
#[test]
fn json_round_trip_deep_document() {
    let v = obj(vec![
        (b"text", s(b"line1\nline2 \"quoted\" back\\slash")),
        (
            b"list",
            JsonValue::Arr(vec![
                JsonValue::Int(-5),
                JsonValue::Bool(false),
                JsonValue::Null,
                JsonValue::Arr(Vec::new()),
                obj(vec![(b"inner", s(b""))]),
            ]),
        ),
        (b"empty", obj(Vec::new())),
        (b"n", JsonValue::Int(1234567890123)),
    ]);
    let text = write_json(&v);
    let parsed = parse_json(&text).expect("writer output parses");
    assert_eq!(write_json(&parsed), text);
}

#[test]
fn json_round_trip_through_frame() {
    let v = obj(vec![(b"id", JsonValue::Int(1)), (b"result", s(b"fn foo()"))]);
    let body = write_json(&v);
    let frame = encode_frame(&body);
    match decode_frame(&frame) {
        DecodeResult::Frame(decoded, _) => {
            let parsed = parse_json(&decoded).expect("decoded body parses");
            assert_eq!(write_json(&parsed), body);
        }
        _ => panic!("expected a complete frame"),
    }
}

#[test]
fn obj_get_finds_first_match() {
    let v = obj(vec![(b"a", JsonValue::Int(1)), (b"b", JsonValue::Int(2))]);
    match v.obj_get(b"b") {
        Some(JsonValue::Int(2)) => {}
        _ => panic!("expected b = 2"),
    }
    assert!(v.obj_get(b"missing").is_none());
    assert!(JsonValue::Null.obj_get(b"a").is_none());
}

#[test]
fn deep_clone_preserves_document() {
    let v = obj(vec![
        (b"xs", JsonValue::Arr(vec![s(b"a"), JsonValue::Int(3)])),
        (b"o", obj(vec![(b"k", JsonValue::Bool(true))])),
    ]);
    let c = v.deep_clone();
    assert_eq!(write_json(&c), write_json(&v));
}
