use pywui::ipc::{
    decode_envelope, decode_message, event_script, get_init_script, response_script, EnvelopeKind,
    Outcome, ProtocolError,
};
use pywui::json::encode_json;
use pywui::parse::{decode_json, JsonError};
use pywui::value::StructuredValue;

fn s(text: &str) -> String {
    text.to_string()
}

fn nested() -> StructuredValue {
    StructuredValue::Object(vec![
        (s("name"), StructuredValue::Str(s("a \"quoted\"\\ line\nand\ttab\u{1}é"))),
        (
            s("list"),
            StructuredValue::Array(vec![
                StructuredValue::Integer(-42),
                StructuredValue::Integer(i64::MIN),
                StructuredValue::Integer(i64::MAX),
                StructuredValue::Float(s("1.5")),
                StructuredValue::Float(s("-2e-3")),
                StructuredValue::Null,
                StructuredValue::Bool(false),
                StructuredValue::Array(vec![]),
                StructuredValue::Object(vec![]),
            ]),
        ),
        (s("deep"), StructuredValue::Object(vec![(s("k"), StructuredValue::Array(vec![StructuredValue::Integer(0)]))])),
    ])
}

#[test]
fn encodes_compact_json() {
    assert_eq!(
        encode_json(&nested()),
        "{\"name\":\"a \\\"quoted\\\"\\\\ line\\nand\\ttab\\u0001é\",\"list\":[-42,-9223372036854775808,9223372036854775807,1.5,-2e-3,null,false,[],{}],\"deep\":{\"k\":[0]}}"
    );
}

#[test]
fn round_trip_keeps_the_value() {
    let v = nested();
    let text = encode_json(&v);
    let back = decode_json(&text).unwrap();
    assert_eq!(back, v);
    assert_eq!(encode_json(&back), text);
}

#[test]
fn values_compare_by_content() {
    assert_eq!(nested(), nested());
    assert_ne!(StructuredValue::Integer(1), StructuredValue::Float(s("1.0")));
    assert_ne!(
        StructuredValue::Array(vec![StructuredValue::Null]),
        StructuredValue::Array(vec![StructuredValue::Null, StructuredValue::Null])
    );
    assert_ne!(
        StructuredValue::Object(vec![(s("a"), StructuredValue::Null)]),
        StructuredValue::Object(vec![(s("b"), StructuredValue::Null)])
    );
}

#[test]
fn decodes_whitespace_and_escapes() {
    let v = decode_json(" { \"a\" : [ 1 , 2.0 , \"\\u00e9\\ud83d\\ude00\\/\" ] , \"b\" : true } ").unwrap();
    assert_eq!(encode_json(&v), "{\"a\":[1,2.0,\"é😀/\"],\"b\":true}");
}

#[test]
fn large_integers_stay_as_text() {
    let v = decode_json("123456789012345678901234567890").unwrap();
    match v {
        StructuredValue::Float(t) => assert_eq!(t, "123456789012345678901234567890"),
        _ => panic!("expected the number text"),
    }
}

#[test]
fn malformed_json_is_refused() {
    assert_eq!(decode_json("").unwrap_err(), JsonError::Malformed);
    assert_eq!(decode_json("[1,]").unwrap_err(), JsonError::Malformed);
    assert_eq!(decode_json("\"\\ud800\"").unwrap_err(), JsonError::Malformed);
    assert_eq!(decode_json("1.").unwrap_err(), JsonError::Malformed);
    assert_eq!(decode_json("\"a\u{1}\"").unwrap_err(), JsonError::Malformed);
    assert_eq!(decode_json("null x").unwrap_err(), JsonError::TrailingText);
}

#[test]
fn nesting_is_bounded() {
    let deep_ok = format!("{}{}", "[".repeat(128), "]".repeat(128));
    assert!(decode_json(&deep_ok).is_ok());
    let too_deep = format!("{}{}", "[".repeat(129), "]".repeat(129));
    assert_eq!(decode_json(&too_deep).unwrap_err(), JsonError::Malformed);
}

#[test]
fn decodes_a_request() {
    let e = decode_message(
        "{\"event_type\":\"request\",\"command\":\"ping\",\"args\":null,\"request_id\":\"r1\"}",
    )
    .unwrap();
    assert_eq!(e.kind, EnvelopeKind::Request);
    assert_eq!(e.command, "ping");
    assert_eq!(e.correlation_id, Some(s("r1")));
    assert_eq!(encode_json(&e.args), "null");
}

#[test]
fn decodes_an_event_without_request_id() {
    let e = decode_message("{\"event_type\":\"event\",\"command\":\"moved\",\"args\":{\"x\":3}}")
        .unwrap();
    assert_eq!(e.kind, EnvelopeKind::Event);
    assert_eq!(e.correlation_id, None);
    assert_eq!(encode_json(&e.args), "{\"x\":3}");
}

#[test]
fn each_protocol_error() {
    let err = |t: &str| decode_message(t).err().unwrap();
    assert_eq!(err("nonsense"), ProtocolError::NotJson);
    assert_eq!(err("[1]"), ProtocolError::NotAnObject);
    assert_eq!(err("{\"command\":\"c\",\"args\":1}"), ProtocolError::BadEventType);
    assert_eq!(err("{\"event_type\":\"call\",\"command\":\"c\",\"args\":1}"), ProtocolError::BadEventType);
    assert_eq!(err("{\"event_type\":\"event\",\"command\":5,\"args\":1}"), ProtocolError::BadCommand);
    assert_eq!(err("{\"event_type\":\"event\",\"command\":\"c\"}"), ProtocolError::MissingArgs);
    assert_eq!(
        err("{\"event_type\":\"request\",\"command\":\"c\",\"args\":1,\"request_id\":7}"),
        ProtocolError::MissingRequestId
    );
}

#[test]
fn decode_envelope_reads_the_first_of_repeated_keys() {
    let v = StructuredValue::Object(vec![
        (s("event_type"), StructuredValue::Str(s("event"))),
        (s("command"), StructuredValue::Str(s("first"))),
        (s("command"), StructuredValue::Str(s("second"))),
        (s("args"), StructuredValue::Null),
    ]);
    assert_eq!(decode_envelope(&v).ok().unwrap().command, "first");
}

#[test]
fn scripts_quote_the_event_name() {
    assert_eq!(
        event_script("it's \"here\"", &StructuredValue::Integer(1)),
        "window.dispatchEvent(new CustomEvent(\"it's \\\"here\\\"\", {detail: {\"data\":1}}));"
    );
    assert_eq!(
        response_script("r7", &Outcome::Failure(s("bad\nthing"))),
        "window.dispatchEvent(new CustomEvent(\"r7\", {detail: {\"error\":\"bad\\nthing\"}}));"
    );
}

#[test]
fn init_script_defines_invoke() {
    let script = get_init_script();
    assert!(script.contains("window.__pywui__"));
    assert!(script.contains("invoke(command, args = [], timeout = 5000)"));
    assert!(script.contains("window.ipc.postMessage(JSON.stringify(message))"));
}
