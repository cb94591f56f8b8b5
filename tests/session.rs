use edge_tunnel::{
    credentials_match, parse_handshake, AddressKind, FailReason, Handshake, HandshakeParse, SessionAction,
    SessionEvent, SessionState, TunnelSession,
};

const CRED: [u8; 16] = [0x11; 16];

fn record(cred: &[u8], kind: u8, address: &[u8], port: u16) -> Vec<u8> {
    let mut b = vec![1u8];
    b.extend_from_slice(cred);
    b.push((port >> 8) as u8);
    b.push((port & 0xff) as u8);
    b.push(kind);
    b.extend_from_slice(address);
    b
}

#[test]
fn parses_ipv4_record_and_reports_length() {
    let mut b = record(&CRED, 1, &[203, 0, 113, 5], 443);
    b.extend_from_slice(b"GET");
    let expected = Handshake { credential: CRED.to_vec(), kind: AddressKind::Ipv4, address: vec![203, 0, 113, 5], port: 443 };
    assert_eq!(parse_handshake(&b), HandshakeParse::Complete(expected, 24));
}

#[test]
fn parses_domain_and_ipv6_records() {
    let mut name = vec![4u8];
    name.extend_from_slice(b"host");
    let b = record(&CRED, 2, &name, 80);
    match parse_handshake(&b) {
        HandshakeParse::Complete(h, n) => {
            assert_eq!(h.kind, AddressKind::Domain);
            assert_eq!(h.address, b"host".to_vec());
            assert_eq!(h.port, 80);
            assert_eq!(n, 25);
        },
        other => panic!("unexpected {:?}", other),
    }
    let b = record(&CRED, 3, &[0u8; 16], 8443);
    match parse_handshake(&b) {
        HandshakeParse::Complete(h, n) => {
            assert_eq!(h.kind, AddressKind::Ipv6);
            assert_eq!(h.port, 8443);
            assert_eq!(n, 36);
        },
        other => panic!("unexpected {:?}", other),
    }
}

#[test]
fn short_and_bad_records() {
    let b = record(&CRED, 1, &[203, 0, 113, 5], 443);
    assert_eq!(parse_handshake(&b[..0]), HandshakeParse::Incomplete);
    assert_eq!(parse_handshake(&b[..10]), HandshakeParse::Incomplete);
    assert_eq!(parse_handshake(&b[..23]), HandshakeParse::Incomplete);
    assert_eq!(parse_handshake(&[2u8, 0, 0]), HandshakeParse::Malformed);
    assert_eq!(parse_handshake(&record(&CRED, 9, &[1, 2, 3, 4], 1)), HandshakeParse::Malformed);
    assert_eq!(parse_handshake(&record(&CRED, 2, &[0], 1)), HandshakeParse::Malformed);
}

#[test]
fn credential_comparison() {
    assert!(credentials_match(&CRED, &CRED));
    let mut other = CRED;
    other[15] = 0x12;
    assert!(!credentials_match(&CRED, &other));
    assert!(!credentials_match(&CRED, &CRED[..15]));
    assert!(credentials_match(&[], &[]));
}

#[test]
fn good_credential_connects_then_relays_payload() {
    let mut s = TunnelSession::new(CRED.to_vec());
    let mut b = record(&CRED, 1, &[203, 0, 113, 5], 443);
    b.extend_from_slice(b"hello");
    let (first, second) = b.split_at(12);
    assert_eq!(s.on_event(SessionEvent::ClientData(first.to_vec())), SessionAction::Wait);
    assert_eq!(s.state(), SessionState::AwaitingHandshake);
    assert_eq!(s.on_event(SessionEvent::ClientData(second.to_vec())), SessionAction::Connect);
    assert_eq!(s.state(), SessionState::Connecting);
    assert_eq!(s.on_event(SessionEvent::ClientData(b" world".to_vec())), SessionAction::Wait);
    assert_eq!(s.on_event(SessionEvent::UpstreamConnected), SessionAction::StartRelay);
    assert_eq!(s.pending(), &b"hello world".to_vec());
    assert_eq!(s.on_event(SessionEvent::RelayFinished(true)), SessionAction::Release);
    assert_eq!(s.state(), SessionState::Closed);
}

#[test]
fn wrong_credential_never_connects() {
    let mut s = TunnelSession::new(CRED.to_vec());
    let b = record(&[0x22; 16], 1, &[203, 0, 113, 5], 443);
    let mut connects = 0;
    let events = vec![
        SessionEvent::ClientData(b),
        SessionEvent::ClientData(b"more".to_vec()),
        SessionEvent::UpstreamConnected,
        SessionEvent::ClientClosed,
    ];
    let mut first = None;
    for e in events {
        let a = s.on_event(e);
        if first.is_none() {
            first = Some(a);
        }
        if a == SessionAction::Connect {
            connects += 1;
        }
    }
    assert_eq!(first, Some(SessionAction::Fail(FailReason::Auth)));
    assert_eq!(connects, 0);
    assert_eq!(s.state(), SessionState::Failed(FailReason::Auth));
}

#[test]
fn close_mid_handshake_is_protocol_error() {
    let mut s = TunnelSession::new(CRED.to_vec());
    assert_eq!(s.on_event(SessionEvent::ClientData(vec![1, 0x11])), SessionAction::Wait);
    assert_eq!(s.on_event(SessionEvent::ClientClosed), SessionAction::Fail(FailReason::Protocol));
}

#[test]
fn malformed_record_is_protocol_error() {
    let mut s = TunnelSession::new(CRED.to_vec());
    assert_eq!(s.on_event(SessionEvent::ClientData(vec![7])), SessionAction::Fail(FailReason::Protocol));
}

#[test]
fn upstream_and_relay_failures() {
    let mut s = TunnelSession::new(CRED.to_vec());
    assert_eq!(s.on_event(SessionEvent::ClientData(record(&CRED, 1, &[1, 2, 3, 4], 1))), SessionAction::Connect);
    assert_eq!(s.on_event(SessionEvent::UpstreamFailed), SessionAction::Fail(FailReason::Upstream));
    assert_eq!(s.on_event(SessionEvent::UpstreamConnected), SessionAction::Wait);

    let mut s = TunnelSession::new(CRED.to_vec());
    assert_eq!(s.on_event(SessionEvent::ClientData(record(&CRED, 1, &[1, 2, 3, 4], 1))), SessionAction::Connect);
    assert_eq!(s.on_event(SessionEvent::UpstreamConnected), SessionAction::StartRelay);
    assert_eq!(s.on_event(SessionEvent::RelayFinished(false)), SessionAction::Fail(FailReason::Relay));
    assert_eq!(FailReason::Relay.describe(), "relay i/o error");
}

#[test]
fn client_close_while_connecting_releases() {
    let mut s = TunnelSession::new(CRED.to_vec());
    assert_eq!(s.on_event(SessionEvent::ClientData(record(&CRED, 1, &[1, 2, 3, 4], 1))), SessionAction::Connect);
    assert_eq!(s.on_event(SessionEvent::ClientClosed), SessionAction::Release);
    assert_eq!(s.state(), SessionState::Closed);
}
