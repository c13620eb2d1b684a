//! A connection after the handshake: what it does, and what it owes the client.

use bytes::{Bytes, BytesMut};
use shrimpwisp::net::{IpAddr, SocketAddr};
use shrimpwisp::protocol::frame::{build_close_frame, build_continue_frame, build_data_header};
use shrimpwisp::protocol::types::{CloseReason, ConnectPayload, StreamType};
use shrimpwisp::proxy::backlog::WriteOutcome;
use shrimpwisp::proxy::stream::ProxyStream;
use shrimpwisp::server::config::ServerConfig;
use shrimpwisp::server::connection::judge_resolution;
use shrimpwisp::server::dispatch::DataStep;
use shrimpwisp::server::engine::{Engine, Step};
use shrimpwisp::server::session::ConnState;
use shrimpwisp::ws::codec::{OpCode, WsFrame};
use shrimpwisp::ws::outbound::ws_binary_frame;

const PUBLIC: IpAddr = IpAddr::V4(0x0808_0808);

type TestEngine = Engine<&'static str, u8>;

fn engine(config: &ServerConfig) -> TestEngine {
    Engine::new(config, ConnState::new(config, PUBLIC, 0))
}

fn connect_payload(stream_type: u8, port: u16, hostname: &str) -> BytesMut {
    let mut payload = BytesMut::from(&[stream_type][..]);
    payload.extend_from_slice(&port.to_le_bytes());
    payload.extend_from_slice(hostname.as_bytes());
    payload
}

fn closing(stream_id: u32, reason: CloseReason) -> Vec<u8> {
    ws_binary_frame(&build_close_frame(stream_id, reason))
}

/// Opens a TCP stream with a connected backend.
fn open_tcp(engine: &mut TestEngine, config: &ServerConfig, stream_id: u32) {
    let mut payload = connect_payload(1, 80, "ok.org");
    match engine.packet_received(config, 1, stream_id, &mut payload) {
        Step::ConnectTcp { .. } => {}
        _ => panic!("expected a connect"),
    }
    let flush = engine.backend_connected(stream_id).unwrap();
    engine.backend_ready(stream_id, "w", flush).unwrap();
    engine.take_outbox();
}

#[test]
fn requests_lead_on_or_are_answered() {
    let mut config = ServerConfig::default();
    config.max_streams = 2;
    config.allow_loopback = false;
    let mut e = engine(&config);
    let mut ask = |e: &mut TestEngine, id: u32, port: u16, name: &str| {
        e.packet_received(&config, 1, id, &mut connect_payload(1, port, name))
    };
    match ask(&mut e, 5, 80, "ok.org") {
        Step::ConnectTcp { stream_id, connect, flag, multiplexed } => {
            assert_eq!((stream_id, connect.port, multiplexed), (5, 80, false));
            assert_eq!(connect.hostname, "ok.org");
            assert!(!e.is_cancelled(flag));
        }
        _ => panic!("expected a connect"),
    }
    assert!(e.take_outbox().is_empty());
    // An id that is taken, the control stream, no port, a local name.
    for (id, port, name, reason) in [
        (5, 80, "ok.org", CloseReason::InvalidInfo),
        (0, 80, "ok.org", CloseReason::InvalidInfo),
        (6, 0, "ok.org", CloseReason::InvalidInfo),
        (6, 80, "localhost", CloseReason::Blocked),
    ] {
        assert!(matches!(ask(&mut e, id, port, name), Step::Done));
        assert_eq!(e.take_outbox(), closing(id, reason));
    }
    match ask(&mut e, 6, 80, "ok.org") {
        Step::ConnectTcp { multiplexed, .. } => assert!(multiplexed),
        _ => panic!("expected a connect"),
    }
    assert!(matches!(ask(&mut e, 7, 80, "ok.org"), Step::Done));
    assert_eq!(e.take_outbox(), closing(7, CloseReason::Throttled));
    assert_eq!(e.len(), 2);
    assert_eq!(e.state().streams_opened, 7);
}

#[test]
fn malformed_requests_are_answered_and_counted() {
    let config = ServerConfig::default();
    let mut e = engine(&config);
    let mut payload = BytesMut::from(&[9, 80, 0, b'h'][..]);
    assert!(matches!(e.packet_received(&config, 1, 3, &mut payload), Step::Done));
    assert_eq!(e.take_outbox(), closing(3, CloseReason::InvalidInfo));
    assert_eq!(e.state().streams_opened, 1);
}

#[test]
fn udp_streams_are_opened_when_resolved() {
    let mut config = ServerConfig::default();
    config.max_streams = 1;
    config.allow_loopback = false;
    let mut e = engine(&config);
    let connect = match e.packet_received(&config, 1, 3, &mut connect_payload(2, 53, "dns.org")) {
        Step::ConnectUdp { stream_id, connect } => {
            assert_eq!(stream_id, 3);
            connect
        }
        _ => panic!("expected a connect"),
    };
    assert_eq!(e.len(), 0);
    assert!(e.udp_resolved(&config, 3, &connect, 9, None).is_none());
    assert_eq!(e.take_outbox(), closing(3, CloseReason::Unreachable));
    let local = Some(IpAddr::V4(0x7f00_0001));
    assert!(e.udp_resolved(&config, 3, &connect, 9, local).is_none());
    assert_eq!(e.take_outbox(), closing(3, CloseReason::Blocked));
    let flag = e.udp_resolved(&config, 3, &connect, 9, Some(PUBLIC)).unwrap();
    assert!(!e.is_cancelled(flag));
    assert!(e.take_outbox().is_empty());
    assert!(e.udp_resolved(&config, 4, &connect, 9, Some(PUBLIC)).is_none());
    assert_eq!(e.take_outbox(), closing(4, CloseReason::Throttled));
    match e.packet_received(&config, 2, 3, &mut BytesMut::from(&b"x"[..])) {
        Step::Data { stream_id, step } => {
            assert_eq!((stream_id, step), (3, DataStep::SendDatagram));
        }
        _ => panic!("expected data"),
    }
}

#[test]
fn resolutions() {
    let mut config = ServerConfig::default();
    config.allow_direct_ip = false;
    let name = ConnectPayload {
        stream_type: StreamType::Tcp,
        port: 80,
        hostname: "ok.org".to_string(),
    };
    let raw = ConnectPayload { hostname: "8.8.8.8".to_string(), ..name.clone() };
    assert_eq!(
        judge_resolution(Some(PUBLIC), &name, &config),
        Ok(SocketAddr { ip: PUBLIC, port: 80 })
    );
    assert_eq!(judge_resolution(None, &name, &config), Err(CloseReason::Unreachable));
    assert_eq!(judge_resolution(Some(PUBLIC), &raw, &config), Err(CloseReason::Blocked));
    assert_eq!(
        judge_resolution(Some(IpAddr::V4(0)), &name, &config),
        Err(CloseReason::Blocked)
    );
}

#[test]
fn connected_streams_get_credit() {
    let mut config = ServerConfig::default();
    config.buffer_size = 10;
    let mut e = engine(&config);
    e.packet_received(&config, 1, 3, &mut connect_payload(1, 80, "ok.org"));
    e.packet_received(&config, 2, 3, &mut BytesMut::from(&b"early"[..]));
    let mut flush = e.backend_connected(3).unwrap();
    assert_eq!(flush.next(), Some(&Bytes::from_static(b"early")));
    flush.settle(WriteOutcome::Wrote(5));
    let flag = e.backend_ready(3, "w", flush).unwrap();
    assert!(!e.is_cancelled(flag));
    assert_eq!(e.take_outbox(), ws_binary_frame(&build_continue_frame(3, 10)));
    // Every ninth packet renews it.
    for _ in 0..9 {
        let mut data = BytesMut::from(&b"x"[..]);
        assert!(matches!(
            e.packet_received(&config, 2, 3, &mut data),
            Step::Data { step: DataStep::Write, .. }
        ));
        assert_eq!(e.data_after_write(3, &mut data, WriteOutcome::Wrote(1)), DataStep::Done);
    }
    assert!(e.take_outbox().is_empty());
    e.renew_credit();
    assert_eq!(e.take_outbox(), ws_binary_frame(&build_continue_frame(3, 10)));
    e.renew_credit();
    assert!(e.take_outbox().is_empty());
}

#[test]
fn early_data_that_was_not_offered_is_kept() {
    let config = ServerConfig::default();
    let mut e = engine(&config);
    e.packet_received(&config, 1, 3, &mut connect_payload(1, 80, "ok.org"));
    for chunk in ["one", "two", "three"] {
        e.packet_received(&config, 2, 3, &mut BytesMut::from(chunk.as_bytes()));
    }
    let mut flush = e.backend_connected(3).unwrap();
    flush.settle(WriteOutcome::Wrote(3));
    e.backend_ready(3, "w", flush).unwrap();
    match e.stream(3) {
        Some(ProxyStream::Tcp(tcp)) => {
            let left: Vec<Bytes> = tcp.pending.iter().cloned().collect();
            assert_eq!(left, vec![Bytes::from_static(b"two"), Bytes::from_static(b"three")]);
        }
        _ => panic!("expected a TCP stream"),
    }
    e.begin_drain();
    assert_eq!(e.next_drain(), Some(3));
}

#[test]
fn backends_that_are_gone_are_reported() {
    let config = ServerConfig::default();
    let mut e = engine(&config);
    for id in [1, 2, 3] {
        open_tcp(&mut e, &config, id);
    }
    let mut data = BytesMut::from(&b"abc"[..]);
    assert_eq!(e.data_after_write(1, &mut data, WriteOutcome::Failed), DataStep::Dead);
    assert_eq!(e.take_outbox(), closing(1, CloseReason::NetworkError));
    for id in [2, 3] {
        let mut data = BytesMut::from(&b"abc"[..]);
        assert_eq!(e.data_after_write(id, &mut data, WriteOutcome::WouldBlock), DataStep::Done);
    }
    assert_eq!(e.data_after_drain(2, &mut data, WriteOutcome::Failed), DataStep::Dead);
    assert_eq!(e.take_outbox(), closing(2, CloseReason::NetworkError));
    e.begin_drain();
    assert_eq!(e.next_drain(), Some(3));
    e.drain_settled(WriteOutcome::Wrote(1));
    assert_eq!(e.next_drain(), None);
    assert!(e.take_outbox().is_empty());
    e.begin_drain();
    assert_eq!(e.next_drain(), Some(3));
    e.drain_settled(WriteOutcome::Failed);
    assert_eq!(e.take_outbox(), closing(3, CloseReason::NetworkError));
    assert_eq!(e.len(), 0);
    // A backend that dies over its early data.
    e.packet_received(&config, 1, 4, &mut connect_payload(1, 80, "ok.org"));
    e.packet_received(&config, 2, 4, &mut BytesMut::from(&b"early"[..]));
    let mut flush = e.backend_connected(4).unwrap();
    flush.settle(WriteOutcome::Failed);
    assert!(e.backend_ready(4, "w", flush).is_none());
    assert_eq!(e.take_outbox(), closing(4, CloseReason::NetworkError));
    assert!(e.stream(4).is_none());
}

#[test]
fn streams_end_in_both_directions() {
    let config = ServerConfig::default();
    let mut e = engine(&config);
    open_tcp(&mut e, &config, 1);
    open_tcp(&mut e, &config, 2);
    let one = e.stream(1).unwrap().flag();
    let two = e.stream(2).unwrap().flag();
    e.stream_ended(1, CloseReason::Voluntary);
    assert!(e.is_cancelled(one));
    assert!(!e.is_cancelled(two));
    assert_eq!(e.take_outbox(), closing(1, CloseReason::Voluntary));
    // The client's own CLOSE is not answered.
    assert!(matches!(e.packet_received(&config, 4, 2, &mut BytesMut::new()), Step::Done));
    assert!(e.is_cancelled(two));
    assert!(e.take_outbox().is_empty());
    assert!(e.backend_connected(2).is_none());
    assert!(matches!(e.packet_received(&config, 4, 0, &mut BytesMut::new()), Step::End));
    assert_eq!(e.take_outbox(), vec![0x88, 0]);
}

#[test]
fn control_frames_are_answered() {
    let config = ServerConfig::default();
    let mut e = engine(&config);
    let frame = |opcode: OpCode| WsFrame {
        fin: true,
        opcode,
        payload: BytesMut::from(&b"hi"[..]),
    };
    assert!(!e.control_received(&frame(OpCode::Ping), 5));
    assert_eq!(e.take_outbox(), vec![0x8a, 2, b'h', b'i']);
    assert!(!e.ping_due(20_000_000_000));
    assert_eq!(e.take_outbox(), vec![0x89, 0]);
    assert!(e.state().awaiting_pong);
    assert!(!e.ping_due(30_000_000_000));
    assert_eq!(e.take_outbox(), vec![0x89, 0]);
    assert!(e.ping_due(30_000_000_001));
    assert!(e.take_outbox().is_empty());
    assert!(!e.control_received(&frame(OpCode::Pong), 31_000_000_000));
    assert!(!e.state().awaiting_pong);
    assert_eq!(e.state().last_pong, 31_000_000_000);
    assert!(!e.control_received(&frame(OpCode::Text), 5));
    assert!(e.take_outbox().is_empty());
    assert!(e.control_received(&frame(OpCode::Close), 5));
    assert_eq!(e.take_outbox(), vec![0x88, 0]);
}

#[test]
fn deferred_packets_are_not_counted() {
    let config = ServerConfig::default();
    let mut e = engine(&config);
    let mut packet = BytesMut::from(&[1, 3, 0, 0, 0][..]);
    packet.extend_from_slice(&connect_payload(1, 80, "ok.org"));
    assert!(matches!(e.deferred_received(&config, &mut packet), Step::ConnectTcp { .. }));
    assert_eq!(e.state().streams_opened, 0);
    let mut packet = BytesMut::from(&build_data_header(3)[..]);
    packet.extend_from_slice(b"early");
    assert!(matches!(e.deferred_received(&config, &mut packet), Step::Data { .. }));
    let mut packet = BytesMut::from(&build_close_frame(0, CloseReason::Voluntary)[..]);
    assert!(matches!(e.deferred_received(&config, &mut packet), Step::End));
    assert_eq!(e.take_outbox(), vec![0x88, 0]);
    assert!(packet.len() == 1 && e.len() == 1);
    let mut packet = BytesMut::from(&[1, 4, 0, 0, 0, 1][..]);
    assert!(matches!(e.deferred_received(&config, &mut packet), Step::Done));
    assert_eq!(e.take_outbox(), closing(4, CloseReason::InvalidInfo));
    assert!(matches!(e.deferred_received(&config, &mut BytesMut::new()), Step::Done));
    assert!(e.take_outbox().is_empty());
}
