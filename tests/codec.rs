use ws_counter::codec::{decode, encode, ResponseRecord};

fn record(status: &str, data: &str) -> ResponseRecord {
    ResponseRecord { status: status.to_string(), data: data.to_string() }
}

#[test]
fn encode_stub_record() {
    assert_eq!(encode(&record("ok", "Some data")), "{\"status\":\"ok\",\"data\":\"Some data\"}");
}

#[test]
fn encode_escapes_quotes_and_backslashes() {
    assert_eq!(
        encode(&record("a\"b", "c\\d")),
        "{\"status\":\"a\\\"b\",\"data\":\"c\\\\d\"}"
    );
}

#[test]
fn encode_escapes_control_characters() {
    assert_eq!(
        encode(&record("\n\t\r\u{8}\u{c}", "\u{1}\u{1f}\u{7f}")),
        "{\"status\":\"\\n\\t\\r\\b\\f\",\"data\":\"\\u0001\\u001f\\u007f\"}"
    );
}

#[test]
fn encode_keeps_other_characters() {
    assert_eq!(encode(&record("é/€", "")), "{\"status\":\"é/€\",\"data\":\"\"}");
}

#[test]
fn decode_stub_wire_form() {
    let r = decode("{\"status\":\"ok\",\"data\":\"Some data\"}");
    assert_eq!(r, Some(record("ok", "Some data")));
}

#[test]
fn decode_of_encode_gives_record_back() {
    let cases = vec![
        record("ok", "Some data"),
        record("", ""),
        record("a\"b\\c", "\n\u{0}\u{7f}x"),
        record("\"", "}"),
        record("ünï", "\",\"data\":\""),
    ];
    for r in cases {
        let wire = encode(&r);
        assert_eq!(decode(&wire), Some(r.clone()));
        assert_eq!(encode(&decode(&wire).unwrap()), wire);
    }
}

#[test]
fn decode_refuses_other_texts() {
    assert_eq!(decode(""), None);
    assert_eq!(decode("{}"), None);
    assert_eq!(decode("{\"status\": \"ok\",\"data\":\"x\"}"), None);
    assert_eq!(decode("{\"data\":\"x\",\"status\":\"ok\"}"), None);
    assert_eq!(decode("{\"status\":\"ok\",\"data\":\"x\"}extra"), None);
    assert_eq!(decode("{\"status\":\"ok\",\"data\":\"x\""), None);
    assert_eq!(decode("{\"status\":\"\\u000A\",\"data\":\"x\"}"), None);
    assert_eq!(decode("{\"status\":\"\\u000a\",\"data\":\"x\"}"), None);
    assert_eq!(decode("{\"status\":\"\\/\",\"data\":\"x\"}"), None);
}

#[test]
fn decode_reads_escapes() {
    let r = decode("{\"status\":\"\\n\\u0001\",\"data\":\"\\\"\\\\\"}");
    assert_eq!(r, Some(record("\n\u{1}", "\"\\")));
}
