//! The JSON document codec: exact canonical text, parsing, and round trips.

use iotscape::Json;

fn s(text: &str) -> String {
    String::from(text)
}

#[test]
fn text_of_literals() {
    assert_eq!(Json::Null.to_text(), "null");
    assert_eq!(Json::Bool(true).to_text(), "true");
    assert_eq!(Json::Bool(false).to_text(), "false");
}

#[test]
fn text_of_integers() {
    assert_eq!(Json::Int(0).to_text(), "0");
    assert_eq!(Json::Int(5).to_text(), "5");
    assert_eq!(Json::Int(-1).to_text(), "-1");
    assert_eq!(Json::Int(1975).to_text(), "1975");
    assert_eq!(Json::Int(i64::MAX).to_text(), "9223372036854775807");
    assert_eq!(Json::Int(i64::MIN).to_text(), "-9223372036854775808");
}

#[test]
fn text_of_strings_escapes() {
    assert_eq!(Json::Str(s("abc")).to_text(), "\"abc\"");
    assert_eq!(Json::Str(s("a\"b")).to_text(), "\"a\\\"b\"");
    assert_eq!(Json::Str(s("a\\b")).to_text(), "\"a\\\\b\"");
    assert_eq!(Json::Str(s("a\nb\tc\rd")).to_text(), "\"a\\nb\\tc\\rd\"");
    assert_eq!(Json::Str(s("\u{8}\u{c}")).to_text(), "\"\\b\\f\"");
    assert_eq!(Json::Str(s("\u{1}\u{1f}")).to_text(), "\"\\u0001\\u001f\"");
    // non-ASCII characters pass through unescaped
    assert_eq!(Json::Str(s("héllo")).to_text(), "\"héllo\"");
}

#[test]
fn text_of_arrays_and_objects() {
    assert_eq!(Json::Arr(vec![]).to_text(), "[]");
    assert_eq!(Json::Arr(vec![Json::Int(1), Json::Int(2)]).to_text(), "[1,2]");
    assert_eq!(Json::Obj(vec![]).to_text(), "{}");
    let doc = Json::Obj(vec![
        (s("a"), Json::Arr(vec![Json::Null, Json::Bool(true)])),
        (s("b"), Json::Str(s("x"))),
    ]);
    assert_eq!(doc.to_text(), "{\"a\":[null,true],\"b\":\"x\"}");
}

#[test]
fn serializer_agrees_with_reference_parser() {
    // the canonical text is plain JSON: an independent parser reads it back
    let doc = Json::Obj(vec![
        (s("id"), Json::Str(s("rs1"))),
        (s("n"), Json::Int(-42)),
        (s("tags"), Json::Arr(vec![Json::Str(s("a\"b")), Json::Str(s("c\nd"))])),
    ]);
    let parsed: serde_json::Value = serde_json::from_str(&doc.to_text()).unwrap();
    let expected: serde_json::Value =
        serde_json::from_str("{\"id\":\"rs1\",\"n\":-42,\"tags\":[\"a\\\"b\",\"c\\nd\"]}").unwrap();
    assert_eq!(parsed, expected);
}

#[test]
fn parse_literals_and_numbers() {
    assert!(matches!(Json::from_text("null"), Some(Json::Null)));
    assert!(matches!(Json::from_text("true"), Some(Json::Bool(true))));
    assert!(matches!(Json::from_text("false"), Some(Json::Bool(false))));
    assert!(matches!(Json::from_text("0"), Some(Json::Int(0))));
    assert!(matches!(Json::from_text("-0"), Some(Json::Int(0))));
    assert!(matches!(Json::from_text("1975"), Some(Json::Int(1975))));
    assert!(matches!(
        Json::from_text("9223372036854775807"),
        Some(Json::Int(i64::MAX))
    ));
    assert!(matches!(
        Json::from_text("-9223372036854775808"),
        Some(Json::Int(i64::MIN))
    ));
}

#[test]
fn parse_rejects_bad_numbers() {
    // leading zero
    assert!(Json::from_text("01").is_none());
    assert!(Json::from_text("01.5").is_none());
    // bare minus
    assert!(Json::from_text("-").is_none());
    // a dot or exponent without digits
    assert!(Json::from_text("1.").is_none());
    assert!(Json::from_text(".5").is_none());
    assert!(Json::from_text("1e").is_none());
    assert!(Json::from_text("1e+").is_none());
    assert!(Json::from_text("1.e3").is_none());
}

fn num_round_trip(text: &str) {
    match Json::from_text(text) {
        Some(Json::Num(lit)) => {
            assert_eq!(lit, text);
            assert_eq!(Json::Num(lit).to_text(), text);
        },
        other => panic!("expected a number literal for {}: {:?}", text, other),
    }
}

#[test]
fn numbers_beyond_i64_keep_their_literal_text() {
    // fractions and exponents
    num_round_trip("2.5");
    num_round_trip("0.5");
    num_round_trip("-1.5E+10");
    num_round_trip("1e3");
    num_round_trip("1e-2");
    num_round_trip("0.0001e10");
    // out of the signed 64-bit range, or too many digits
    num_round_trip("9223372036854775808");
    num_round_trip("-9223372036854775809");
    num_round_trip("12345678901234567890");
    // still integers on the near side of the boundary
    assert!(matches!(
        Json::from_text("9223372036854775807"),
        Some(Json::Int(i64::MAX))
    ));
    assert!(matches!(
        Json::from_text("-9223372036854775808"),
        Some(Json::Int(i64::MIN))
    ));
}

#[test]
fn number_literals_nest_in_documents() {
    let doc = Json::from_text("{\"a\":[2.5,3,1e3]}").unwrap();
    assert_eq!(doc.to_text(), "{\"a\":[2.5,3,1e3]}");
    let parsed: serde_json::Value = serde_json::from_str(&doc.to_text()).unwrap();
    let expected: serde_json::Value = serde_json::from_str("{\"a\":[2.5,3,1000.0]}").unwrap();
    assert_eq!(parsed, expected);
}

#[test]
fn parse_strings_and_escapes() {
    match Json::from_text("\"a\\\"b\\\\c\\/d\\n\\t\\r\\b\\f\"") {
        Some(Json::Str(v)) => assert_eq!(v, "a\"b\\c/d\n\t\r\u{8}\u{c}"),
        other => panic!("unexpected: {:?}", other),
    }
    match Json::from_text("\"\\u0041\\u00e9\\u004A\"") {
        Some(Json::Str(v)) => assert_eq!(v, "AéJ"),
        other => panic!("unexpected: {:?}", other),
    }
    // raw UTF-8 inside a string
    match Json::from_text("\"héllo\"") {
        Some(Json::Str(v)) => assert_eq!(v, "héllo"),
        other => panic!("unexpected: {:?}", other),
    }
}

#[test]
fn parse_rejects_malformed_strings() {
    // unterminated
    assert!(Json::from_text("\"abc").is_none());
    // unknown escape
    assert!(Json::from_text("\"\\x\"").is_none());
    // raw control character
    assert!(Json::from_text("\"a\u{1}b\"").is_none());
    // surrogate escape
    assert!(Json::from_text("\"\\ud800\"").is_none());
    // truncated unicode escape
    assert!(Json::from_text("\"\\u00\"").is_none());
}

#[test]
fn parse_arrays_objects_whitespace() {
    match Json::from_text(" [ 1 , \"x\" , [ ] ] ") {
        Some(Json::Arr(items)) => {
            assert_eq!(items.len(), 3);
            assert!(matches!(items[0], Json::Int(1)));
            assert!(matches!(&items[1], Json::Str(v) if v == "x"));
            assert!(matches!(&items[2], Json::Arr(inner) if inner.is_empty()));
        },
        other => panic!("unexpected: {:?}", other),
    }
    match Json::from_text("{ \"a\" : 1 , \"b\" : { } }") {
        Some(Json::Obj(members)) => {
            assert_eq!(members.len(), 2);
            assert_eq!(members[0].0, "a");
            assert!(matches!(members[0].1, Json::Int(1)));
            assert_eq!(members[1].0, "b");
        },
        other => panic!("unexpected: {:?}", other),
    }
}

#[test]
fn parse_rejects_malformed_documents() {
    assert!(Json::from_text("").is_none());
    assert!(Json::from_text("   ").is_none());
    assert!(Json::from_text("nul").is_none());
    assert!(Json::from_text("[1,]").is_none());
    assert!(Json::from_text("[1 2]").is_none());
    assert!(Json::from_text("{\"a\"}").is_none());
    assert!(Json::from_text("{\"a\":}").is_none());
    assert!(Json::from_text("{a:1}").is_none());
    assert!(Json::from_text("[").is_none());
    // trailing garbage after a complete document
    assert!(Json::from_text("null x").is_none());
    assert!(Json::from_text("1 2").is_none());
}

#[test]
fn text_round_trips_through_parser() {
    let doc = Json::Obj(vec![
        (s("name"), Json::Str(s("add"))),
        (s("weird"), Json::Str(s("a\"b\\c\n\u{1}é"))),
        (
            s("values"),
            Json::Arr(vec![
                Json::Int(0),
                Json::Int(i64::MIN),
                Json::Int(i64::MAX),
                Json::Null,
                Json::Bool(false),
                Json::Arr(vec![]),
                Json::Obj(vec![(s("k"), Json::Int(7))]),
            ]),
        ),
    ]);
    let text = doc.to_text();
    let back = Json::from_text(&text).expect("canonical text must parse");
    assert_eq!(back.to_text(), text);
}

#[test]
fn object_lookup_takes_first_binding() {
    let doc = Json::from_text("{\"a\":1,\"b\":2,\"a\":3}").unwrap();
    match doc.get("a") {
        Some(Json::Int(v)) => assert_eq!(*v, 1),
        other => panic!("unexpected: {:?}", other),
    }
    match doc.get("b") {
        Some(Json::Int(v)) => assert_eq!(*v, 2),
        other => panic!("unexpected: {:?}", other),
    }
    assert!(doc.get("c").is_none());
}
