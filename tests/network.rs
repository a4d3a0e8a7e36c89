use jojo_device::connection::{upgrade_url, ConnectionAction, ConnectionEvent, WebsocketState, WebsocketStates};
use jojo_device::discovery::{beacon_payload, discovered_address, parse_port, DiscoveryError, ServerAddress};
use jojo_device::middleware::{error_body, ErrorMiddleware, MiddlewareOutcome};
use jojo_device::model::Id;

#[test]
fn discovery_reply_names_the_host() {
    let a = discovered_address([192, 168, 1, 50], b"9000").unwrap();
    assert_eq!(a, ServerAddress { ip: [192, 168, 1, 50], port: 9000 });
}

#[test]
fn malformed_replies_are_refused() {
    assert_eq!(discovered_address([1, 2, 3, 4], b"90a0"), Err(DiscoveryError::MalformedReply));
    assert_eq!(discovered_address([1, 2, 3, 4], b""), Err(DiscoveryError::MalformedReply));
    assert_eq!(parse_port(b"65536"), None);
    assert_eq!(parse_port(b"+"), None);
    assert_eq!(parse_port(b"-1"), None);
    assert_eq!(parse_port(b" 80"), None);
    assert_eq!(parse_port(&[0xff, 0x31]), None);
}

#[test]
fn port_numbers() {
    assert_eq!(parse_port(b"65535"), Some(65535));
    assert_eq!(parse_port(b"+80"), Some(80));
    assert_eq!(parse_port(b"0"), Some(0));
    assert_eq!(parse_port(b"000123"), Some(123));
    for p in ["1", "8080", "9000", "+443"] {
        assert_eq!(parse_port(p.as_bytes()), p.parse::<u16>().ok());
    }
}

#[test]
fn beacon_is_hello() {
    assert_eq!(beacon_payload(), b"hello".to_vec());
}

#[test]
fn upgrade_url_names_the_device() {
    let a = ServerAddress { ip: [192, 168, 1, 50], port: 9000 };
    let url = upgrade_url(a, &b"ws".to_vec(), Id(0x340917e8_87a9_455c_9645_d08eb99162f9));
    assert_eq!(
        String::from_utf8(url).unwrap(),
        "ws://192.168.1.50:9000/ws/340917e8-87a9-455c-9645-d08eb99162f9"
    );
    let url = upgrade_url(ServerAddress { ip: [0, 0, 0, 0], port: 0 }, &Vec::new(), Id(0));
    assert_eq!(String::from_utf8(url).unwrap(), "ws://0.0.0.0:0//00000000-0000-0000-0000-000000000000");
}

#[test]
fn connection_phases() {
    let a = ServerAddress { ip: [10, 0, 0, 2], port: 7 };
    let mut s = WebsocketState::discovering();
    assert_eq!(s.step(ConnectionEvent::NothingDiscovered), ConnectionAction::PollDiscovery);
    assert_eq!(s.step(ConnectionEvent::Upgraded), ConnectionAction::PollDiscovery);
    assert_eq!(s.current_state, WebsocketStates::Discovery);
    assert_eq!(s.step(ConnectionEvent::Discovered(a)), ConnectionAction::Connect(a));
    assert_eq!(s.current_state, WebsocketStates::Init(a));
    assert_eq!(s.step(ConnectionEvent::Upgraded), ConnectionAction::StartSession);
    assert_eq!(s.current_state, WebsocketStates::Connected);
    assert_eq!(s.step(ConnectionEvent::Discovered(a)), ConnectionAction::Idle);
}

#[test]
fn middleware_outcomes() {
    let m = ErrorMiddleware::new();
    assert_eq!(m.handle(None, false), MiddlewareOutcome::Passed);
    assert_eq!(m.handle(Some("boom"), true), MiddlewareOutcome::Propagate);
    assert_eq!(
        m.handle(Some("bad \"ssid\""), false),
        MiddlewareOutcome::Respond { status: 500, body: br#"{"error":"bad \"ssid\""}"#.to_vec() }
    );
    assert_eq!(error_body(""), br#"{"error":""}"#.to_vec());
}
