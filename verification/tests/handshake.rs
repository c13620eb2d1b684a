//! The handshake, credentials, and what becomes of packets and streams.

use bytes::BytesMut;
use shrimpwisp::net::{IpAddr, SocketAddr};
use shrimpwisp::protocol::frame::{build_close_frame, build_continue_frame, build_data_header};
use shrimpwisp::protocol::types::{CloseReason, ConnectPayload, StreamType};
use shrimpwisp::server::auth::{
    is_bcrypt_hash, judge_password, parse_client_info_extensions, select_credential,
    shows_credentials, verify_auth, verify_client_info, verify_password, Credential,
};
use shrimpwisp::server::config::{
    merge_json_config, JsonAuth, JsonConfig, JsonFilterList, PortEntry, ServerConfig,
};
use shrimpwisp::server::connection::{
    begin_handshake, connect_failure_reason, control_step, handle_connect, handle_inbound,
    handle_resolved, handshake_step, judge_address, judge_client_info, judge_connect,
    judge_first_packet, process_inbound_frame, reader_step, ConnectFailure, ConnectionError,
    ControlStep, HandshakeStart, HandshakeStep, HandshakeVerdict, Inbound, ReadOutcome, ReaderStep,
    Refusal,
};
use shrimpwisp::server::dispatch::{DataStep, Dispatcher};
use shrimpwisp::ws::codec::{OpCode, WebSocketError};
use shrimpwisp::ws::upgrade::WsUpgradeError;

/// The bcrypt hash of "a", with a low cost.
const HASH_OF_A: &str = "$2a$06$m0CrhHm10qJ3lXRY.5zDGO3rS2KdeeWLuGmsfGlMfOxih58VYVfxe";

fn with_users(users: &[(&str, &str)]) -> ServerConfig {
    let mut json = JsonConfig::default();
    json.auth = Some(JsonAuth {
        required: false,
        users: users.iter().map(|(n, p)| (n.to_string(), p.to_string())).collect(),
    });
    merge_json_config(&json)
}

fn with_password(password: &str) -> ServerConfig {
    let mut config = ServerConfig::default();
    config.auth_password = Some(password.to_string());
    config
}

fn credentials(name: &str, password: &str) -> Vec<u8> {
    let mut payload = vec![name.len() as u8];
    payload.extend_from_slice(name.as_bytes());
    payload.extend_from_slice(password.as_bytes());
    payload
}

/// A client's INFO packet with credentials.
fn info(version: u8, payload: &[u8]) -> Vec<u8> {
    let mut packet = vec![5, 0, 0, 0, 0, version, 1];
    packet.extend_from_slice(&[1, 1, 0, 0, 0, 9]);
    packet.push(2);
    packet.extend_from_slice(&(payload.len() as u32).to_le_bytes());
    packet.extend_from_slice(payload);
    packet
}

#[test]
fn hashes_are_recognised() {
    assert!(is_bcrypt_hash(HASH_OF_A));
    assert!(is_bcrypt_hash("$2b$"));
    assert!(!is_bcrypt_hash("$2y$10$"));
    assert!(!is_bcrypt_hash("password"));
    assert!(!is_bcrypt_hash(""));
}

#[test]
fn passwords_are_verified() {
    assert!(verify_password(b"a", HASH_OF_A));
    assert!(!verify_password(b"b", HASH_OF_A));
    assert!(!verify_password(HASH_OF_A.as_bytes(), HASH_OF_A));
    // A hash that is none lets no one in, not even with its own text.
    assert!(!verify_password(b"$2b$nonsense", "$2b$nonsense"));
    assert!(verify_password(b"plain", "plain"));
    assert!(!verify_password(b"plai", "plain"));
    assert!(!verify_password(b"plain2", "plain"));
    assert!(!verify_password(&[0xff], "\u{ff}"));
}

#[test]
fn passwords_are_judged_by_the_verdict_on_hashes() {
    assert!(judge_password(b"x", "$2b$y", Some(true)));
    assert!(!judge_password(b"x", "$2b$y", Some(false)));
    assert!(!judge_password(b"x", "$2b$y", None));
    assert!(judge_password(b"x", "x", None));
    assert!(!judge_password(b"x", "y", Some(true)));
    assert!(!judge_password(&[0xff], "$2b$y", Some(true)));
}

#[test]
fn users_are_found_by_name() {
    let config = with_users(&[("ann", "one"), ("bob", HASH_OF_A)]);
    assert!(verify_auth(&credentials("ann", "one"), &config));
    assert!(!verify_auth(&credentials("ann", "two"), &config));
    assert!(verify_auth(&credentials("bob", "a"), &config));
    assert!(!verify_auth(&credentials("bob", "one"), &config));
    // Without a user "default", a bare password fits no one.
    assert!(!verify_auth(b"one", &config));
    assert!(!verify_auth(&[], &config));
    // A name that is no text.
    assert!(!verify_auth(&[1, 0xff, b'o'], &config));
}

#[test]
fn unknown_users_are_kept_out() {
    let config = with_users(&[("ann", "one")]);
    let payload = credentials("eve", "one");
    assert!(matches!(select_credential(&payload, &config), Credential::UnknownUser));
    assert!(!verify_auth(&payload, &config));
}

#[test]
fn the_default_user_needs_no_name() {
    let config = with_users(&[("default", "secret"), ("ann", "one")]);
    assert!(verify_auth(b"secret", &config));
    assert!(verify_auth(&credentials("default", "secret"), &config));
    assert!(!verify_auth(b"secre", &config));
    assert!(!verify_auth(b"one", &config));
}

#[test]
fn the_password_makes_a_default_user() {
    let config = with_password("secret");
    assert!(verify_auth(b"secret", &config));
    assert!(verify_auth(&credentials("default", "secret"), &config));
    assert!(!verify_auth(&credentials("other", "secret"), &config));
    assert!(!verify_auth(&credentials("default", "Secret"), &config));
    assert!(!verify_auth(b"", &config));
    assert!(!verify_auth(b"secret2", &config));
    // A long password is taken whole, whatever its first byte.
    let long = "0123456789012345678901234567890123456789012345678901234567890123";
    assert!(verify_auth(long.as_bytes(), &with_password(long)));
    let hashed = with_password(HASH_OF_A);
    assert!(verify_auth(b"a", &hashed));
    assert!(verify_auth(&credentials("default", "a"), &hashed));
    assert!(!verify_auth(HASH_OF_A.as_bytes(), &hashed));
    // Users go before the password.
    let mut both = with_users(&[("ann", "one")]);
    both.auth_password = Some("secret".to_string());
    assert!(!verify_auth(b"secret", &both));
    assert!(verify_auth(&credentials("ann", "one"), &both));
    // Nothing to be held against.
    assert!(!verify_auth(b"", &ServerConfig::default()));
}

#[test]
fn credentials_are_found_in_info_packets() {
    let config = with_password("pw");
    assert!(verify_client_info(&info(2, b"pw"), &config));
    assert!(!verify_client_info(&info(2, b"no"), &config));
    assert!(!verify_client_info(&[5, 0, 0, 0, 0, 2, 1], &config));
    assert!(shows_credentials(&info(2, b"pw")));
    assert!(shows_credentials(&info(2, b"no")));
    assert!(!shows_credentials(&[5, 0, 0, 0, 0, 2, 1]));
    let extensions = parse_client_info_extensions(&info(2, b"pw"));
    assert_eq!(extensions.len(), 2);
    assert_eq!((extensions[1].id, &extensions[1].payload[..]), (2, &b"pw"[..]));
    assert!(parse_client_info_extensions(&[5, 0, 0, 0, 0, 2, 1]).is_empty());
}

#[test]
fn handshakes_begin() {
    let open = ServerConfig::default();
    match begin_handshake(true, &open) {
        HandshakeStart::SendInfo(packet) => assert_eq!(&packet[..], &[5, 0, 0, 0, 0, 2, 1]),
        _ => panic!("expected INFO"),
    }
    match begin_handshake(false, &open) {
        HandshakeStart::SendContinue(packet) => assert_eq!(packet, build_continue_frame(0, 65535)),
        _ => panic!("expected CONTINUE"),
    }
    match begin_handshake(false, &with_password("x")) {
        HandshakeStart::Refuse(refusal) => assert_eq!(refusal, Refusal::NeedsV2),
        _ => panic!("expected a refusal"),
    }
    assert!(matches!(begin_handshake(true, &with_password("x")), HandshakeStart::SendInfo(_)));
}

fn refusal(verdict: HandshakeVerdict) -> Refusal {
    match verdict {
        HandshakeVerdict::Refuse(refusal) => refusal,
        _ => panic!("expected a refusal"),
    }
}

#[test]
fn first_packets_are_judged() {
    let open = ServerConfig::default();
    let closed = with_password("pw");
    match judge_client_info(&info(2, b""), &open) {
        HandshakeVerdict::Accept(packet) => assert_eq!(packet, build_continue_frame(0, 65535)),
        _ => panic!("expected acceptance"),
    }
    let data = build_data_header(1).to_vec();
    assert!(matches!(judge_client_info(&data, &open), HandshakeVerdict::AcceptAndDeliver(_)));
    assert_eq!(refusal(judge_client_info(&info(1, b""), &open)), Refusal::WrongVersion);
    assert_eq!(refusal(judge_client_info(&info(1, b"pw"), &closed)), Refusal::WrongVersion);
    assert_eq!(refusal(judge_client_info(&info(2, b"no"), &closed)), Refusal::WrongAuth);
    assert_eq!(refusal(judge_client_info(&info(2, b""), &closed)), Refusal::WrongAuth);
    assert_eq!(refusal(judge_client_info(&[5, 0, 0, 0, 0, 2, 1], &closed)), Refusal::NeedsAuth);
    // Another extension is no credentials.
    let other = [5, 0, 0, 0, 0, 2, 1, 1, 1, 0, 0, 0, 9];
    assert_eq!(refusal(judge_client_info(&other, &closed)), Refusal::NeedsAuth);
    assert_eq!(refusal(judge_first_packet(&other, &closed, true)), Refusal::NeedsAuth);
    assert!(matches!(judge_client_info(&other, &open), HandshakeVerdict::Accept(_)));
    assert_eq!(refusal(judge_client_info(&data, &closed)), Refusal::NeedsAuth);
    assert_eq!(refusal(judge_client_info(&[5, 1, 0, 0, 0, 2, 1], &closed)), Refusal::NeedsAuth);
    assert_eq!(refusal(judge_client_info(&[], &closed)), Refusal::NeedsAuth);
    assert!(matches!(judge_client_info(&info(2, b"pw"), &closed), HandshakeVerdict::Accept(_)));
    // The credentials count only where they are asked for.
    assert!(matches!(
        judge_first_packet(&info(2, b"no"), &open, false),
        HandshakeVerdict::Accept(_)
    ));
    assert!(matches!(
        judge_first_packet(&info(2, b"no"), &closed, true),
        HandshakeVerdict::Accept(_)
    ));
}

#[test]
fn refusals_are_told() {
    let cases = [
        (Refusal::NeedsV2, 0xc2, "Protocol error: Auth required, v2 protocol mandatory"),
        (Refusal::NeedsAuth, 0xc2, "Protocol error: Auth required"),
        (Refusal::WrongAuth, 0xc0, "Protocol error: Auth failed"),
        (Refusal::WrongVersion, 0x04, "Protocol error: Incompatible Wisp version"),
    ];
    for (refusal, byte, text) in cases {
        assert_eq!(refusal.close_frame(), [4, 0, 0, 0, 0, byte]);
        assert_eq!(refusal.error().message(), text);
    }
}

#[test]
fn frames_during_the_handshake() {
    assert_eq!(handshake_step(OpCode::Binary), HandshakeStep::FirstPacket);
    assert_eq!(handshake_step(OpCode::Close), HandshakeStep::ClientClosed);
    assert_eq!(handshake_step(OpCode::Ping), HandshakeStep::Pong);
    assert_eq!(handshake_step(OpCode::Pong), HandshakeStep::Skip);
    assert_eq!(handshake_step(OpCode::Text), HandshakeStep::Skip);
    assert_eq!(handshake_step(OpCode::Continuation), HandshakeStep::Skip);
}

#[test]
fn words_for_errors_of_connections() {
    assert_eq!(
        ConnectionError::Upgrade(WsUpgradeError::UpgradeFailed).message(),
        "WebSocket upgrade failed: WebSocket upgrade failed"
    );
    assert_eq!(
        ConnectionError::WebSocket(WebSocketError::InvalidOpCode).message(),
        "WebSocket error: Invalid opcode"
    );
    assert_eq!(ConnectionError::Io("x".to_string()).message(), "IO error: x");
    assert_eq!(ConnectionError::ClientClosed.message(), "Connection closed by client");
    assert_eq!(ConnectionError::WriterClosed.message(), "Writer closed");
}

fn to(stream_type: StreamType, port: u16, hostname: &str) -> ConnectPayload {
    ConnectPayload { stream_type, port, hostname: hostname.to_string() }
}

#[test]
fn connects_are_judged() {
    let mut json = JsonConfig::default();
    json.blacklist = Some(JsonFilterList {
        hostnames: vec!["bad.org".to_string()],
        ports: vec![PortEntry::Single(25)],
    });
    json.allow_direct_ip = Some(false);
    let config = merge_json_config(&json);
    let mut streams: Dispatcher<u8, u8> = Dispatcher::new(0, 1, 1);
    streams.open_connecting(7).unwrap();
    let judge = |id: u32, port: u16, name: &str| {
        handle_connect(&streams, &config, id, &to(StreamType::Tcp, port, name))
    };
    assert_eq!(judge(1, 80, "ok.org"), None);
    assert_eq!(judge(0, 80, "ok.org"), Some(CloseReason::InvalidInfo));
    assert_eq!(judge(7, 80, "ok.org"), Some(CloseReason::InvalidInfo));
    assert_eq!(judge(1, 0, "bad.org"), Some(CloseReason::InvalidInfo));
    assert_eq!(judge(1, 80, "BAD.org"), Some(CloseReason::Blocked));
    assert_eq!(judge(1, 25, "ok.org"), Some(CloseReason::Blocked));
    assert_eq!(judge(1, 80, "8.8.8.8"), Some(CloseReason::Blocked));
    // What is an address is for the caller to say.
    let connect = to(StreamType::Tcp, 80, "ok.org");
    assert_eq!(judge_connect(1, false, &connect, true, &config), Some(CloseReason::Blocked));
    assert_eq!(judge_connect(1, false, &connect, false, &config), None);
    assert_eq!(judge_connect(1, true, &connect, false, &config), Some(CloseReason::InvalidInfo));
}

#[test]
fn addresses_are_judged() {
    let mut config = ServerConfig::default();
    config.allow_direct_ip = false;
    config.allow_loopback = false;
    let public = IpAddr::V4(0x0808_0808);
    let local = IpAddr::V4(0x7f00_0001);
    let name = to(StreamType::Tcp, 80, "ok.org");
    let raw_tcp = to(StreamType::Tcp, 80, "8.8.8.8");
    let raw_udp = to(StreamType::Udp, 80, "8.8.8.8");
    assert_eq!(handle_resolved(&public, &name, &config), None);
    assert_eq!(handle_resolved(&local, &name, &config), Some(CloseReason::Blocked));
    assert_eq!(handle_resolved(&public, &raw_tcp, &config), Some(CloseReason::Blocked));
    assert_eq!(handle_resolved(&public, &raw_udp, &config), None);
    assert_eq!(judge_address(&public, StreamType::Tcp, false, &config), None);
    assert_eq!(
        judge_address(&public, StreamType::Tcp, true, &config),
        Some(CloseReason::Blocked)
    );
    assert_eq!(judge_address(&local, StreamType::Udp, false, &config), Some(CloseReason::Blocked));
}

#[test]
fn failures_and_their_reasons() {
    let cases = [
        (ConnectFailure::Unresolved, CloseReason::Unreachable),
        (ConnectFailure::Refused, CloseReason::Refused),
        (ConnectFailure::TimedOut, CloseReason::TimedOut),
        (ConnectFailure::NoSocket, CloseReason::NetworkError),
        (ConnectFailure::Other, CloseReason::Unreachable),
    ];
    for (failure, reason) in cases {
        assert_eq!(connect_failure_reason(failure), reason);
    }
}

#[test]
fn packets_are_dispatched() {
    let mut streams: Dispatcher<u8, u8> = Dispatcher::new(0, 1, 1);
    let addr = SocketAddr { ip: IpAddr::V6(1), port: 1 };
    streams.open_udp(3, 0, addr).unwrap();
    let mut payload = BytesMut::from(&b"data"[..]);
    match handle_inbound(&mut streams, 2, 3, &mut payload) {
        Inbound::Data { stream_id, step } => {
            assert_eq!((stream_id, step), (3, DataStep::SendDatagram));
        }
        _ => panic!("expected data"),
    }
    assert_eq!(&payload[..], b"data");
    match handle_inbound(&mut streams, 1, 4, &mut BytesMut::from(&[1, 80, 0, b'h'][..])) {
        Inbound::Connect { stream_id, connect } => {
            assert_eq!((stream_id, connect.port), (4, 80));
            assert_eq!(connect.hostname, "h");
        }
        _ => panic!("expected a connect"),
    }
    assert!(matches!(
        handle_inbound(&mut streams, 1, 4, &mut BytesMut::from(&[1, 80][..])),
        Inbound::Malformed { stream_id: 4 }
    ));
    let mut none = BytesMut::new();
    assert!(matches!(handle_inbound(&mut streams, 3, 3, &mut none), Inbound::Nothing));
    assert!(matches!(handle_inbound(&mut streams, 5, 0, &mut none), Inbound::Nothing));
    assert!(matches!(handle_inbound(&mut streams, 0, 3, &mut none), Inbound::Nothing));
    assert!(matches!(handle_inbound(&mut streams, 4, 0, &mut none), Inbound::CloseConnection));
    assert!(streams.contains(3));
    assert!(matches!(handle_inbound(&mut streams, 4, 3, &mut none), Inbound::Nothing));
    assert!(!streams.contains(3));
}

#[test]
fn whole_packets_are_dispatched() {
    let mut streams: Dispatcher<u8, u8> = Dispatcher::new(0, 1, 1);
    streams.open_udp(3, 0, SocketAddr { ip: IpAddr::V4(1), port: 1 }).unwrap();
    let packet = || {
        let mut packet = BytesMut::from(&build_data_header(3)[..]);
        packet.extend_from_slice(b"xyz");
        packet
    };
    let mut data = packet();
    assert!(matches!(
        process_inbound_frame(&mut streams, 0, &mut data),
        Inbound::Data { stream_id: 3, step: DataStep::SendDatagram }
    ));
    assert_eq!(&data[..], b"xyz");
    assert!(matches!(process_inbound_frame(&mut streams, 7, &mut packet()), Inbound::Nothing));
    assert!(matches!(process_inbound_frame(&mut streams, 8, &mut packet()), Inbound::Data { .. }));
    let mut short = BytesMut::from(&[4, 3, 0, 0][..]);
    assert!(matches!(process_inbound_frame(&mut streams, 0, &mut short), Inbound::Nothing));
    let mut close = BytesMut::from(&build_close_frame(3, CloseReason::Voluntary)[..]);
    assert!(matches!(process_inbound_frame(&mut streams, 0, &mut close), Inbound::Nothing));
    assert!(!streams.contains(3));
}

#[test]
fn control_frames_and_readers() {
    assert_eq!(control_step(OpCode::Close), ControlStep::Close);
    assert_eq!(control_step(OpCode::Ping), ControlStep::Pong);
    assert_eq!(control_step(OpCode::Pong), ControlStep::NotePong);
    assert_eq!(control_step(OpCode::Text), ControlStep::Nothing);
    assert_eq!(reader_step(false, ReadOutcome::Data(5)), ReaderStep::Forward(5));
    assert_eq!(
        reader_step(false, ReadOutcome::End),
        ReaderStep::Report(CloseReason::Voluntary)
    );
    assert_eq!(
        reader_step(false, ReadOutcome::Failed),
        ReaderStep::Report(CloseReason::NetworkError)
    );
    assert_eq!(reader_step(true, ReadOutcome::Data(5)), ReaderStep::Stop);
    assert_eq!(reader_step(true, ReadOutcome::End), ReaderStep::Stop);
}
