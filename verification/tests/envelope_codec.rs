use rmc_core::control_proto::{ConnectRequest, Ping, SendControlMediaKeyEventRequest};
use rmc_core::envelope::{encode_envelope, encode_message_frame, parse_envelope, parse_envelope_bytes};
use rmc_core::errors::WireError;
use rmc_core::json::{
    parse_key_event_auth_obj, parse_str_field_obj, parse_time_obj, write_key_event_auth_obj,
    write_ok_error_obj, write_str_field_obj, write_time_auth_null_obj, write_time_obj,
};


#[test]
fn message_frame_wraps_one_envelope() {
    let frame = encode_message_frame("Ping", "{\"time\":5}").unwrap();
    let len = u32::from_be_bytes([frame[0], frame[1], frame[2], frame[3]]) as usize;
    assert_eq!(frame.len(), 4 + len);
    let (name, data) = parse_envelope(&frame[4..]).unwrap();
    assert_eq!(name, "Ping");
    assert_eq!(data, "{\"time\":5}");
}

#[test]
fn envelope_round_trip() {
    let payload = encode_envelope("Ping", "{\"time\":1}");
    let (name, data) = parse_envelope(&payload).unwrap();
    assert_eq!(name, "Ping");
    assert_eq!(data, "{\"time\":1}");
}

#[test]
fn envelope_matches_reference_encoder() {
    let cases = [
        ("Ping", "{\"time\":42}"),
        ("Weird", "quotes \" backslash \\ newline \n tab \t bell \u{7} end"),
        ("Unicode", "caf\u{e9} \u{4e16}\u{754c}"),
        ("Empty", ""),
    ];
    for (name, data) in cases {
        let ours = encode_envelope(name, data);
        // the reference parser reads our encoding back to the same fields
        let v: serde_json::Value = serde_json::from_slice(&ours).unwrap();
        assert_eq!(v.get("name").unwrap().as_str().unwrap(), name);
        assert_eq!(v.get("data").unwrap().as_str().unwrap(), data);
        // and our string escaping is byte-for-byte the reference encoder's
        let reference_literal =
            serde_json::to_string(&serde_json::Value::String(data.to_string())).unwrap();
        let ours_text = String::from_utf8(ours.clone()).unwrap();
        assert!(ours_text.contains(&reference_literal));
        let (n2, d2) = parse_envelope(&ours).unwrap();
        assert_eq!(n2, name);
        assert_eq!(d2, data);
    }
}

#[test]
fn envelope_rejects_non_canonical_shapes() {
    for bad in [
        "",
        "{}",
        "{\"data\":\"x\",\"name\":\"y\"}",
        "{\"name\":\"x\"}",
        "{\"name\":\"x\",\"data\":\"y\"} ",
        " {\"name\":\"x\",\"data\":\"y\"}",
        "{\"name\":\"x\",\"data\":\"y\",\"extra\":1}",
        "{\"name\":\"x\",\"data\":1}",
        "{\"name\":\"x\",\"data\":\"unterminated}",
    ] {
        assert_eq!(
            parse_envelope(bad.as_bytes()),
            Err(WireError::BadMessage),
            "accepted: {bad}"
        );
    }
}

#[test]
fn envelope_rejects_bad_utf8_fields() {
    // a raw 0xff byte inside the name string: the shape parses, the text does not
    let mut payload = Vec::new();
    payload.extend_from_slice(b"{\"name\":\"a");
    payload.push(0xff);
    payload.extend_from_slice(b"\",\"data\":\"\"}");
    assert!(parse_envelope_bytes(&payload).is_ok());
    assert_eq!(parse_envelope(&payload), Err(WireError::BadUtf8));
}

#[test]
fn string_escapes_round_trip() {
    let value = "a\"b\\c/d\u{8}e\u{c}f\ng\rh\ti\u{1}j";
    let obj = write_str_field_obj(b"addr", value.as_bytes());
    let back = parse_str_field_obj(b"addr", &obj).unwrap();
    assert_eq!(back, value.as_bytes().to_vec());
    // cross-check the escaped text against the reference encoder
    let reference =
        serde_json::to_string(&serde_json::Value::String(value.to_string())).unwrap();
    assert_eq!(
        String::from_utf8(obj).unwrap(),
        format!("{{\"addr\":{reference}}}")
    );
}

#[test]
fn unicode_escape_parsing() {
    let obj = b"{\"addr\":\"\\u0041\\u007a\"}";
    assert_eq!(parse_str_field_obj(b"addr", obj).unwrap(), b"Az".to_vec());
    // escapes above the one-byte range and lone surrogates are refused
    assert_eq!(parse_str_field_obj(b"addr", b"{\"addr\":\"\\u00ff\"}"), None);
    assert_eq!(parse_str_field_obj(b"addr", b"{\"addr\":\"\\ud800\"}"), None);
    // unknown escapes and raw control bytes are refused
    assert_eq!(parse_str_field_obj(b"addr", b"{\"addr\":\"\\x41\"}"), None);
    assert_eq!(parse_str_field_obj(b"addr", b"{\"addr\":\"a\x01b\"}"), None);
}

#[test]
fn time_payload_round_trip_and_edges() {
    assert_eq!(write_time_obj(0), b"{\"time\":0}".to_vec());
    assert_eq!(write_time_obj(1234567890), b"{\"time\":1234567890}".to_vec());
    assert_eq!(
        write_time_obj(u64::MAX),
        b"{\"time\":18446744073709551615}".to_vec()
    );
    for t in [0u64, 1, 9, 10, 999, u64::MAX] {
        assert_eq!(parse_time_obj(&write_time_obj(t)), Some(t));
    }
    // non-canonical and out-of-range numbers are refused
    assert_eq!(parse_time_obj(b"{\"time\":01}"), None);
    assert_eq!(parse_time_obj(b"{\"time\":18446744073709551616}"), None);
    assert_eq!(parse_time_obj(b"{\"time\":-1}"), None);
    assert_eq!(parse_time_obj(b"{\"time\":1e3}"), None);
}

#[test]
fn pong_with_null_credential_matches_reference() {
    let ours = write_time_auth_null_obj(7);
    assert_eq!(
        String::from_utf8(ours).unwrap(),
        "{\"time\":7,\"authorization_code\":null}"
    );
}

#[test]
fn ok_error_payloads() {
    assert_eq!(write_ok_error_obj(true, b""), b"{\"ok\":true,\"error\":\"\"}".to_vec());
    assert_eq!(
        write_ok_error_obj(false, b"no permission"),
        b"{\"ok\":false,\"error\":\"no permission\"}".to_vec()
    );
}

#[test]
fn key_event_payload_round_trip() {
    let obj = write_key_event_auth_obj(1, 2, b"to\"ken", b"se\\cret");
    let (a, c, tk, au) = parse_key_event_auth_obj(&obj).unwrap();
    assert_eq!((a, c), (1, 2));
    assert_eq!(tk, b"to\"ken".to_vec());
    assert_eq!(au, b"se\\cret".to_vec());
    // actions beyond u32 are refused
    assert_eq!(
        parse_key_event_auth_obj(
            b"{\"action\":4294967296,\"code\":0,\"token\":\"\",\"authorization_code\":\"\"}"
        ),
        None
    );
}

#[test]
fn payload_structs_encode_their_schema() {
    let ping = Ping { time: 3 };
    assert_eq!(ping.to_payload_bytes(), b"{\"time\":3}".to_vec());
    let req = ConnectRequest { addr: "127.0.0.1:8000".to_string() };
    assert_eq!(
        req.to_payload_bytes(),
        b"{\"addr\":\"127.0.0.1:8000\"}".to_vec()
    );
    let parsed = ConnectRequest::parse_payload(&req.to_payload_bytes()).unwrap();
    assert_eq!(parsed.addr, "127.0.0.1:8000");
    let ev = SendControlMediaKeyEventRequest {
        action: 1,
        code: 2,
        token: "t".to_string(),
        authorization_code: "abc123".to_string(),
    };
    assert_eq!(
        String::from_utf8(ev.to_payload_bytes()).unwrap(),
        "{\"action\":1,\"code\":2,\"token\":\"t\",\"authorization_code\":\"abc123\"}"
    );
}
