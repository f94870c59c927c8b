use rmc_core::control::{
    client_handle_frame, route_ui_message, ClientAction, ClientCore, ConnectDecision,
    ControlServiceStatus, UiRoute,
};
use rmc_core::envelope::{encode_envelope, parse_envelope};
use rmc_core::errors::WireError;
use rmc_core::watchdog::{
    client_ping_frame, client_watchdog_tick, server_watchdog_tick, should_refresh_activity,
    WatchdogVerdict, ACTIVITY_DEBOUNCE_MS, PING_INTERVAL_MS, PING_TIMEOUT_MS, SERVER_PING_PERIOD_MS,
};

fn unframe(frame: &[u8]) -> Vec<u8> {
    let len = u32::from_be_bytes([frame[0], frame[1], frame[2], frame[3]]) as usize;
    assert_eq!(frame.len(), 4 + len);
    frame[4..].to_vec()
}

#[test]
fn status_texts() {
    assert_eq!(ControlServiceStatus::Connected.status_text(), "Connected");
    assert_eq!(ControlServiceStatus::Connecting.status_text(), "Connecting");
    assert_eq!(ControlServiceStatus::Disconnected.status_text(), "Disconnected");
}

#[test]
fn connection_state_machine_lifecycle() {
    let mut core = ClientCore::new();
    assert_eq!(core.status, ControlServiceStatus::Disconnected);

    assert_eq!(core.on_connect_request(), ConnectDecision::StartConnect);
    assert_eq!(core.status, ControlServiceStatus::Connecting);

    // a concurrent request while connecting is ignored
    assert_eq!(core.on_connect_request(), ConnectDecision::IgnoreInProgress);
    assert_eq!(core.status, ControlServiceStatus::Connecting);

    core.on_connect_outcome(true);
    assert_eq!(core.status, ControlServiceStatus::Connected);

    // once connected, another request answers success trivially
    assert_eq!(core.on_connect_request(), ConnectDecision::ReplyAlreadyConnected);
    assert_eq!(core.status, ControlServiceStatus::Connected);

    core.on_pump_finished();
    assert_eq!(core.status, ControlServiceStatus::Disconnected);

    // a failed connect falls back to disconnected
    assert_eq!(core.on_connect_request(), ConnectDecision::StartConnect);
    core.on_connect_outcome(false);
    assert_eq!(core.status, ControlServiceStatus::Disconnected);
}

#[test]
fn ping_is_answered_with_pong() {
    let payload = encode_envelope("Ping", "{\"time\":42}");
    match client_handle_frame(&payload).unwrap() {
        ClientAction::ReplyPong { frame } => {
            let (name, data) = parse_envelope(&unframe(&frame)).unwrap();
            assert_eq!(name, "Pong");
            assert_eq!(data, "{\"time\":42}");
        },
        _ => panic!("expected a pong reply"),
    }
}

#[test]
fn other_messages_are_forwarded_to_the_interface() {
    let payload = encode_envelope("PushMediaKeyEvent", "{\"action\":1,\"code\":2,\"token\":\"t\"}");
    match client_handle_frame(&payload).unwrap() {
        ClientAction::Forward { message } => {
            assert_eq!(message.name, "PushMediaKeyEvent");
            assert_eq!(message.data, "{\"action\":1,\"code\":2,\"token\":\"t\"}");
        },
        _ => panic!("expected a forward"),
    }
}

#[test]
fn malformed_frames_are_fatal() {
    assert!(matches!(client_handle_frame(b"not json"), Err(WireError::BadMessage)));
    let bad_ping = encode_envelope("Ping", "{\"time\":oops}");
    assert!(matches!(client_handle_frame(&bad_ping), Err(WireError::BadMessage)));
}

#[test]
fn ui_connect_request_is_routed() {
    let input = String::from_utf8(encode_envelope(
        "ConnectRequest",
        "{\"addr\":\"127.0.0.1:8000\"}",
    ))
    .unwrap();
    match route_ui_message(&input).unwrap() {
        UiRoute::Connect { addr } => assert_eq!(addr, "127.0.0.1:8000"),
        _ => panic!("expected a connect route"),
    }
}

#[test]
fn other_ui_messages_are_framed_for_the_server() {
    let data = "{\"action\":1,\"code\":2,\"token\":\"t\",\"authorization_code\":\"abc123\"}";
    let input = String::from_utf8(encode_envelope("SendControlMediaKeyEventRequest", data)).unwrap();
    match route_ui_message(&input).unwrap() {
        UiRoute::Forward { frame } => {
            let (name, d) = parse_envelope(&unframe(&frame)).unwrap();
            assert_eq!(name, "SendControlMediaKeyEventRequest");
            assert_eq!(d, data);
        },
        _ => panic!("expected a forward route"),
    }
}

#[test]
fn watchdog_bands() {
    let last = 100_000u64;
    // fresh activity: rest
    assert_eq!(client_watchdog_tick(last, last), WatchdogVerdict::Idle);
    assert_eq!(
        client_watchdog_tick(last + PING_INTERVAL_MS - 1, last),
        WatchdogVerdict::Idle
    );
    // the quiet spell reached the interval: probe
    assert_eq!(
        client_watchdog_tick(last + PING_INTERVAL_MS, last),
        WatchdogVerdict::SendPing
    );
    assert_eq!(
        client_watchdog_tick(last + PING_TIMEOUT_MS, last),
        WatchdogVerdict::SendPing
    );
    // silence past the timeout: the peer is dead
    assert_eq!(
        client_watchdog_tick(last + PING_TIMEOUT_MS + 1, last),
        WatchdogVerdict::FailTimeout
    );
    // a clock stepping backwards reads as no elapsed time
    assert_eq!(client_watchdog_tick(last - 1, last), WatchdogVerdict::Idle);
}

#[test]
fn watchdog_never_times_out_under_fresh_activity() {
    // activity refreshed more often than the interval: every tick rests
    let mut last = 0u64;
    for tick in 0..100u64 {
        let now = tick * 1000;
        if now.saturating_sub(last) >= ACTIVITY_DEBOUNCE_MS {
            last = now;
        }
        let verdict = client_watchdog_tick(now, last);
        assert_eq!(verdict, WatchdogVerdict::Idle);
    }
}

#[test]
fn client_ping_frame_contents() {
    let frame = client_ping_frame(77);
    let (name, data) = parse_envelope(&unframe(&frame)).unwrap();
    assert_eq!(name, "Ping");
    assert_eq!(data, "{\"time\":77}");
}

#[test]
fn server_watchdog_pings_every_period_unconditionally() {
    // the server probes on every tick of its fixed period, whatever the
    // peer's recent activity was; only the client's watchdog is idle-gated
    assert!(SERVER_PING_PERIOD_MS == 5000);
    for now in [0u64, 1, 50_000, u64::MAX] {
        let frame = server_watchdog_tick(now);
        let (name, data) = parse_envelope(&unframe(&frame)).unwrap();
        assert_eq!(name, "Ping");
        assert_eq!(data, format!("{{\"time\":{now}}}"));
    }
}

#[test]
fn activity_refresh_is_debounced() {
    assert!(!should_refresh_activity(1999, 1000));
    assert!(should_refresh_activity(2000, 1000));
    assert!(should_refresh_activity(5000, 1000));
    assert!(!should_refresh_activity(500, 1000));
}
