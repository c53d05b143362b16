use rip::codec::{json_to_bytes, parse_json, utf8_check};
use rip::json::Json;

fn s(x: &str) -> Json {
    Json::Str(x.to_string())
}

fn obj(fields: Vec<(&str, Json)>) -> Json {
    Json::Obj(fields.into_iter().map(|(k, v)| (k.to_string(), v)).collect())
}

fn roundtrip(v: &Json) {
    let bytes = json_to_bytes(v);
    let back = parse_json(&bytes).expect("parse");
    assert_eq!(json_to_bytes(&back), bytes);
}

#[test]
fn prints_compact_json() {
    let v = obj(vec![
        ("id", s("e1")),
        ("seq", Json::Int(0)),
        ("ok", Json::Bool(true)),
        ("none", Json::Null),
        ("items", Json::Arr(vec![Json::Int(1), Json::Int(2)])),
    ]);
    let text = String::from_utf8(json_to_bytes(&v)).expect("utf8");
    assert_eq!(
        text,
        "{\"id\":\"e1\",\"seq\":0,\"ok\":true,\"none\":null,\"items\":[1,2]}"
    );
}

#[test]
fn escapes_control_characters() {
    let v = s("a\"b\\c\nd\te\u{1}");
    let text = String::from_utf8(json_to_bytes(&v)).expect("utf8");
    assert_eq!(text, "\"a\\\"b\\\\c\\nd\\te\\u0001\"");
}

#[test]
fn prints_negative_numbers() {
    let text = String::from_utf8(json_to_bytes(&Json::Int(-42))).expect("utf8");
    assert_eq!(text, "-42");
}

#[test]
fn parses_whitespace_and_nesting() {
    let input = b" { \"a\" : [ 1 , { \"b\" : null } ] , \"c\" : false } ".to_vec();
    let v = parse_json(&input).expect("parse");
    let text = String::from_utf8(json_to_bytes(&v)).expect("utf8");
    assert_eq!(text, "{\"a\":[1,{\"b\":null}],\"c\":false}");
}

#[test]
fn parses_escapes_and_unicode() {
    let input = b"\"a\\n\\t\\\"\\\\\\u0041\\u00e9\"".to_vec();
    let v = parse_json(&input).expect("parse");
    match v {
        Json::Str(st) => assert_eq!(st, "a\n\t\"\\A\u{e9}"),
        _ => panic!("expected string"),
    }
}

#[test]
fn rejects_malformed_inputs() {
    assert!(parse_json(&b"{not json}".to_vec()).is_none());
    assert!(parse_json(&b"[1,]".to_vec()).is_none());
    assert!(parse_json(&b"01".to_vec()).is_none());
    assert!(parse_json(&b"1.5".to_vec()).is_none());
    assert!(parse_json(&b"\"unterminated".to_vec()).is_none());
    assert!(parse_json(&b"true false".to_vec()).is_none());
    assert!(parse_json(&b"".to_vec()).is_none());
}

#[test]
fn roundtrips_nested_values() {
    roundtrip(&Json::Null);
    roundtrip(&Json::Bool(false));
    roundtrip(&Json::Int(9007199254740993));
    roundtrip(&Json::Int(i64::MAX));
    roundtrip(&Json::Int(i64::MIN));
    roundtrip(&s("hello \u{e9}\u{4e16}\u{1f600} world"));
    roundtrip(&obj(vec![
        ("deep", Json::Arr(vec![obj(vec![("x", Json::Arr(vec![s("\n\t\\\"")]))])])),
    ]));
}

#[test]
fn parse_then_print_is_stable() {
    let input = b"{\"type\":\"response.created\",\"sequence_number\":1,\"response\":{}}".to_vec();
    let v = parse_json(&input).expect("parse");
    assert_eq!(json_to_bytes(&v), input);
}

#[test]
fn utf8_check_agrees_with_std() {
    let cases: Vec<Vec<u8>> = vec![
        b"hello".to_vec(),
        "h\u{e9}llo \u{1f600}".as_bytes().to_vec(),
        vec![0xc3],
        vec![0xc3, 0x28],
        vec![0xe2, 0x82],
        vec![0xed, 0xa0, 0x80],
        vec![0xc0, 0xaf],
        vec![0xf4, 0x90, 0x80, 0x80],
        Vec::new(),
    ];
    for bytes in cases {
        assert_eq!(utf8_check(&bytes), std::str::from_utf8(&bytes).is_ok(), "case {bytes:?}");
    }
}
