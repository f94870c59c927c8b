use rmc_core::control_proto::SendControlMediaKeyEventRequest;
use rmc_core::envelope::{encode_envelope, parse_envelope};
use rmc_core::errors::WireError;
use rmc_core::server::{server_handle_frame, Opts, Registry};
use rmc_core::server_proto::Ping;
use rmc_core::util::{now_millis, type_name_of};

const SECRET: &str = "abc123";

fn unframe(frame: &[u8]) -> Vec<u8> {
    let len = u32::from_be_bytes([frame[0], frame[1], frame[2], frame[3]]) as usize;
    assert_eq!(frame.len(), 4 + len);
    frame[4..].to_vec()
}

fn three_peer_registry() -> Registry {
    let mut reg = Registry::new();
    reg.insert(1);
    reg.insert(2);
    reg.insert(3);
    reg
}

fn request_envelope(auth: &str) -> Vec<u8> {
    let req = SendControlMediaKeyEventRequest {
        action: 1,
        code: 2,
        token: "t".to_string(),
        authorization_code: auth.to_string(),
    };
    let data = String::from_utf8(req.to_payload_bytes()).unwrap();
    encode_envelope("SendControlMediaKeyEventRequest", &data)
}

#[test]
fn authorized_request_is_broadcast_to_the_others() {
    let reg = three_peer_registry();
    let sends = server_handle_frame(&reg, SECRET, 1, &request_envelope(SECRET)).unwrap();
    assert_eq!(sends.len(), 3);

    // sessions 2 and 3 each receive the push, in registry order
    for (expected_target, (target, frame)) in [2u32, 3].iter().zip(&sends[..2]) {
        assert_eq!(target, expected_target);
        let (name, data) = parse_envelope(&unframe(frame)).unwrap();
        assert_eq!(name, "PushMediaKeyEvent");
        assert_eq!(data, "{\"action\":1,\"code\":2,\"token\":\"t\"}");
    }

    // the sender receives the success acknowledgment, and no push
    let (target, frame) = &sends[2];
    assert_eq!(*target, 1);
    let (name, data) = parse_envelope(&unframe(frame)).unwrap();
    assert_eq!(name, "SendControlMediaKeyEventResponse");
    assert_eq!(data, "{\"ok\":true,\"error\":\"\"}");
    assert!(sends[..2].iter().all(|(t, _)| *t != 1));
}

#[test]
fn wrong_credential_draws_a_rejection_and_no_pushes() {
    let reg = three_peer_registry();
    let sends = server_handle_frame(&reg, SECRET, 1, &request_envelope("wrong")).unwrap();
    assert_eq!(sends.len(), 1);
    let (target, frame) = &sends[0];
    assert_eq!(*target, 1);
    let (name, data) = parse_envelope(&unframe(frame)).unwrap();
    assert_eq!(name, "SendControlMediaKeyEventResponse");
    assert_eq!(data, "{\"ok\":false,\"error\":\"no permission\"}");
}

#[test]
fn lone_peer_broadcast_reaches_nobody() {
    let mut reg = Registry::new();
    reg.insert(9);
    let sends = server_handle_frame(&reg, SECRET, 9, &request_envelope(SECRET)).unwrap();
    // only the acknowledgment to the sender itself
    assert_eq!(sends.len(), 1);
    assert_eq!(sends[0].0, 9);
}

#[test]
fn ping_is_answered_with_a_pong_to_the_sender() {
    let reg = three_peer_registry();
    let payload = encode_envelope("Ping", "{\"time\":42}");
    let sends = server_handle_frame(&reg, SECRET, 2, &payload).unwrap();
    assert_eq!(sends.len(), 1);
    assert_eq!(sends[0].0, 2);
    let (name, data) = parse_envelope(&unframe(&sends[0].1)).unwrap();
    assert_eq!(name, "Pong");
    assert_eq!(data, "{\"time\":42,\"authorization_code\":null}");
}

#[test]
fn pongs_and_unknown_names_are_ignored() {
    let reg = three_peer_registry();
    let pong = encode_envelope("Pong", "{\"time\":42,\"authorization_code\":null}");
    assert!(server_handle_frame(&reg, SECRET, 1, &pong).unwrap().is_empty());
    let unknown = encode_envelope("SomethingElse", "{}");
    assert!(server_handle_frame(&reg, SECRET, 1, &unknown).unwrap().is_empty());
}

#[test]
fn malformed_payloads_are_fatal() {
    let reg = three_peer_registry();
    assert_eq!(
        server_handle_frame(&reg, SECRET, 1, b"nonsense"),
        Err(WireError::BadMessage)
    );
    let bad_req = encode_envelope("SendControlMediaKeyEventRequest", "{\"action\":true}");
    assert_eq!(
        server_handle_frame(&reg, SECRET, 1, &bad_req),
        Err(WireError::BadMessage)
    );
    assert_eq!(
        server_handle_frame(&reg, SECRET, 1, &[0xff, 0xfe, 0x22]),
        Err(WireError::BadUtf8)
    );
}

#[test]
fn session_lifecycle_in_the_registry() {
    let mut reg = Registry::new();
    assert_eq!(reg.len(), 0);
    reg.insert(1);
    reg.insert(2);
    reg.insert(3);
    assert_eq!(reg.len(), 3);
    assert!(reg.contains_session(2));

    // re-registering an identifier does not duplicate it
    reg.insert(2);
    assert_eq!(reg.len(), 3);

    // after a session closes its entry is gone and the others remain
    reg.remove(2);
    assert_eq!(reg.len(), 2);
    assert!(!reg.contains_session(2));
    assert!(reg.contains_session(1));
    assert!(reg.contains_session(3));

    // no further fan-out targets the removed session
    let sends = server_handle_frame(&reg, SECRET, 1, &request_envelope(SECRET)).unwrap();
    assert!(sends.iter().all(|(t, _)| *t != 2));
    assert_eq!(sends.len(), 2);
    assert_eq!(sends[0].0, 3);
    assert_eq!(sends[1].0, 1);

    // removing an absent session changes nothing
    reg.remove(2);
    assert_eq!(reg.len(), 2);
}

#[test]
fn others_excludes_only_the_sender() {
    let reg = three_peer_registry();
    assert_eq!(reg.others(1), vec![2, 3]);
    assert_eq!(reg.others(2), vec![1, 3]);
    assert_eq!(reg.others(7), vec![1, 2, 3]);
}

#[test]
fn default_configuration() {
    let opts = Opts::default();
    assert_eq!(opts.listen_addr, "0.0.0.0:8000");
    assert_eq!(opts.authorization_code, "abc123");
}

#[test]
fn payload_type_names() {
    assert_eq!(type_name_of::<Ping>(), "Ping");
    assert_eq!(
        type_name_of::<SendControlMediaKeyEventRequest>(),
        "SendControlMediaKeyEventRequest"
    );
}

#[test]
fn clock_reads_milliseconds() {
    let a = now_millis();
    let b = now_millis();
    // past the epoch by years, and never running backwards within a test
    assert!(a > 1_000_000_000_000);
    assert!(b >= a);
}
