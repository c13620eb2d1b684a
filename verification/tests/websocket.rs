//! WebSocket frames in both directions, and the request that precedes them.

use bytes::{Bytes, BytesMut};
use shrimpwisp::protocol::frame::{build_continue_frame, build_data_header, parse_wisp_frame, WispFrame};
use shrimpwisp::protocol::types::PACKET_DATA;
use shrimpwisp::server::config::ServerConfig;
use shrimpwisp::ws::codec::{
    try_parse_frame_buffered, FrameReader, OpCode, WebSocketError, WispFrameResult, WsFrame,
};
use shrimpwisp::ws::outbound::{
    batch_step, encode_continues, preframe, preframe_buffer, preframe_datagram, resume_batch,
    ws_binary_frame, ws_binary_header, ws_close_frame, ws_ping_frame, ws_pong_frame, BatchStep,
    PREFRAME_RESERVE, READ_SIZE,
};
use shrimpwisp::ws::upgrade::{
    accept_key, answer_request, capture_headers, is_upgrade_request, UpgradeAnswer, UpgradeRequest,
    WsUpgradeError,
};

const MASK: [u8; 4] = [0x37, 0xfa, 0x21, 0x3d];

/// A frame as a client sends it.
fn client_frame(first: u8, payload: &[u8]) -> Vec<u8> {
    let mut bytes = vec![first];
    if payload.len() <= 125 {
        bytes.push(0x80 | payload.len() as u8);
    } else if payload.len() <= 0xffff {
        bytes.push(0xfe);
        bytes.extend_from_slice(&(payload.len() as u16).to_be_bytes());
    } else {
        bytes.push(0xff);
        bytes.extend_from_slice(&(payload.len() as u64).to_be_bytes());
    }
    bytes.extend_from_slice(&MASK);
    bytes.extend(payload.iter().enumerate().map(|(i, b)| b ^ MASK[i % 4]));
    bytes
}

fn parse(bytes: &[u8], max: usize) -> (Option<Result<WsFrame, WebSocketError>>, usize) {
    let mut buffer = BytesMut::from(bytes);
    let r = try_parse_frame_buffered(&mut buffer, max);
    (r, buffer.len())
}

fn error_of(bytes: &[u8], max: usize) -> WebSocketError {
    let (r, left) = parse(bytes, max);
    assert_eq!(left, bytes.len());
    match r {
        Some(Err(e)) => e,
        _ => panic!("expected an error"),
    }
}

#[test]
fn a_masked_hello() {
    // The masked text of RFC 6455.
    let bytes = [0x81, 0x85, 0x37, 0xfa, 0x21, 0x3d, 0x7f, 0x9f, 0x4d, 0x51, 0x58];
    match parse(&bytes, 100) {
        (Some(Ok(frame)), 0) => {
            assert!(frame.fin);
            assert_eq!(frame.opcode, OpCode::Text);
            assert_eq!(&frame.payload[..], b"Hello");
        }
        _ => panic!("expected a frame"),
    }
}

#[test]
fn frames_of_all_lengths_are_read_and_the_rest_is_left() {
    for length in [0usize, 1, 125, 126, 300, 65535, 65536, 70000] {
        let payload: Vec<u8> = (0..length).map(|i| (i % 253) as u8).collect();
        let mut bytes = client_frame(0x82, &payload);
        let size = bytes.len();
        bytes.extend_from_slice(b"next");
        match parse(&bytes, usize::MAX) {
            (Some(Ok(frame)), 4) => {
                assert_eq!(frame.opcode, OpCode::Binary);
                assert_eq!(&frame.payload[..], &payload[..]);
            }
            _ => panic!("expected a frame"),
        }
        // A frame that is cut anywhere stays where it is.
        for cut in [0, 1, 2, 5, size - 1] {
            if cut < size {
                match parse(&bytes[..cut], usize::MAX) {
                    (None, left) => assert_eq!(left, cut),
                    _ => panic!("expected nothing"),
                }
            }
        }
    }
}

#[test]
fn malformed_frames() {
    assert_eq!(error_of(&[0xc2, 0x80], 10), WebSocketError::ReservedBitsNotZero);
    assert_eq!(error_of(&[0x92, 0x80], 10), WebSocketError::ReservedBitsNotZero);
    assert_eq!(error_of(&[0x83, 0x80], 10), WebSocketError::InvalidOpCode);
    assert_eq!(error_of(&[0x8b, 0x80], 10), WebSocketError::InvalidOpCode);
    assert_eq!(error_of(&[0x82, 0x00], 10), WebSocketError::UnmaskedClientFrame);
    assert_eq!(error_of(&client_frame(0x09, b"x"), 10), WebSocketError::ControlFrameFragmented);
    assert_eq!(
        error_of(&client_frame(0x89, &[0; 126]), 1000),
        WebSocketError::ControlFrameTooLarge
    );
    assert_eq!(error_of(&client_frame(0x82, &[0; 11]), 10), WebSocketError::FrameTooLarge);
    // The limit itself is accepted.
    assert!(matches!(parse(&client_frame(0x82, &[0; 10]), 10), (Some(Ok(_)), 0)));
    // A frame that claims too much is refused before it arrives.
    let claim = [0x82, 0xff, 0xff, 0xff, 0xff, 0xff, 0xff, 0xff, 0xff, 0xff, 0, 0, 0, 0];
    assert_eq!(error_of(&claim, 10), WebSocketError::FrameTooLarge);
}

#[test]
fn opcodes_and_words_for_errors() {
    assert_eq!(OpCode::from_bits(0), Some(OpCode::Continuation));
    assert_eq!(OpCode::from_bits(10), Some(OpCode::Pong));
    assert_eq!(OpCode::from_bits(7), None);
    assert!(OpCode::Close.is_control());
    assert!(!OpCode::Binary.is_control());
    assert_eq!(WebSocketError::FrameTooLarge.message(), "Frame too large");
    assert_eq!(WebSocketError::UnexpectedEof.message(), "Unexpected EOF");
    assert_eq!(
        WsUpgradeError::WebSocket(WebSocketError::InvalidUtf8).message(),
        "WebSocket error: Invalid UTF-8"
    );
    assert_eq!(WsUpgradeError::Io("gone".to_string()).message(), "IO error: gone");
    assert_eq!(WsUpgradeError::UpgradeFailed.message(), "WebSocket upgrade failed");
    assert_eq!(WsUpgradeError::Hyper("x".to_string()).message(), "Hyper error: x");
}

#[test]
fn packets_are_read_through_frames() {
    let mut packet = build_data_header(0x0102_0304).to_vec();
    packet.extend_from_slice(b"payload");
    let mut buffer = BytesMut::from(&client_frame(0x82, &packet)[..]);
    buffer.extend_from_slice(&client_frame(0x89, b"hi"));
    buffer.extend_from_slice(&client_frame(0x82, b"abc"));
    let mut reader = FrameReader::new(buffer, 0);
    assert_eq!(reader.max_message_size, usize::MAX);
    match reader.try_read_wisp_frame() {
        Some(Ok(WispFrameResult::Wisp { packet_type, stream_id, payload })) => {
            assert_eq!((packet_type, stream_id), (PACKET_DATA, 0x0102_0304));
            assert_eq!(&payload[..], b"payload");
        }
        _ => panic!("expected a packet"),
    }
    match reader.try_read_wisp_frame() {
        Some(Ok(WispFrameResult::Control(frame))) => {
            assert_eq!(frame.opcode, OpCode::Ping);
            assert_eq!(&frame.payload[..], b"hi");
        }
        _ => panic!("expected a control frame"),
    }
    // Too short for a header.
    match reader.read_wisp_frame() {
        Some(Ok(WispFrameResult::Wisp { packet_type, stream_id, payload })) => {
            assert_eq!((packet_type, stream_id), (0, 0));
            assert_eq!(&payload[..], b"abc");
        }
        _ => panic!("expected a packet"),
    }
    assert!(reader.try_read_wisp_frame().is_none());
    assert_eq!(FrameReader::new(BytesMut::new(), 7).max_message_size, 7);
}

#[test]
fn text_is_checked_only_where_a_frame_is_waited_for() {
    let bad = client_frame(0x81, &[0xff, 0xfe]);
    let part = client_frame(0x01, &[0xff, 0xfe]);
    let mut reader = FrameReader::new(BytesMut::from(&bad[..]), 0);
    assert!(matches!(reader.try_read_wisp_frame(), Some(Ok(WispFrameResult::Control(_)))));
    let mut reader = FrameReader::new(BytesMut::from(&bad[..]), 0);
    assert!(matches!(reader.read_wisp_frame(), Some(Err(WebSocketError::InvalidUtf8))));
    let mut reader = FrameReader::new(BytesMut::from(&bad[..]), 0);
    assert!(matches!(reader.read_frame(), Some(Err(WebSocketError::InvalidUtf8))));
    let mut reader = FrameReader::new(BytesMut::from(&part[..]), 0);
    assert!(matches!(reader.read_frame(), Some(Ok(_))));
    let mut reader = FrameReader::new(BytesMut::from(&client_frame(0x81, "\u{e9}".as_bytes())[..]), 0);
    assert!(matches!(reader.read_frame(), Some(Ok(_))));
}

#[test]
fn frames_to_the_client() {
    assert_eq!(ws_binary_header(0), vec![0x82, 0]);
    assert_eq!(ws_binary_header(125), vec![0x82, 125]);
    assert_eq!(ws_binary_header(126), vec![0x82, 126, 0, 126]);
    assert_eq!(ws_binary_header(0xffff), vec![0x82, 126, 0xff, 0xff]);
    assert_eq!(ws_binary_header(0x1_0000), vec![0x82, 127, 0, 0, 0, 0, 0, 1, 0, 0]);
    assert_eq!(ws_binary_frame(b"ab"), vec![0x82, 2, b'a', b'b']);
    assert_eq!(ws_ping_frame(), [0x89, 0]);
    assert_eq!(ws_close_frame(), [0x88, 0]);
    assert_eq!(ws_pong_frame(b"hi"), vec![0x8a, 2, b'h', b'i']);
    let long = ws_pong_frame(&[7; 200]);
    assert_eq!(long.len(), 127);
    assert_eq!(long[1], 125);
}

#[test]
fn continues_are_framed_one_by_one() {
    let mut expected = vec![0x82, 9];
    expected.extend_from_slice(&build_continue_frame(1, 128));
    expected.extend_from_slice(&[0x82, 9]);
    expected.extend_from_slice(&build_continue_frame(2, 64));
    assert_eq!(encode_continues(&[(1, 128), (2, 64)]), expected);
    assert!(encode_continues(&[]).is_empty());
}

#[test]
fn frames_made_in_place() {
    for read in [1usize, 120, 121, 5000, READ_SIZE] {
        let mut buf = preframe_buffer(9);
        assert_eq!(buf.len(), PREFRAME_RESERVE + READ_SIZE);
        let payload: Vec<u8> = (0..read).map(|i| (i % 249) as u8).collect();
        buf[PREFRAME_RESERVE..PREFRAME_RESERVE + read].copy_from_slice(&payload);
        let frame = preframe(buf, read);
        let header = ws_binary_header(5 + read);
        assert_eq!(&frame[..header.len()], &header[..]);
        match parse_wisp_frame(&frame[header.len()..]) {
            Some(WispFrame::Data { stream_id, payload: got }) => {
                assert_eq!(stream_id, 9);
                assert_eq!(&got[..], &payload[..]);
            }
            _ => panic!("expected DATA"),
        }
        assert_eq!(frame, preframe_datagram(9, &payload));
    }
}

#[test]
fn batches_are_resumed_where_they_stopped() {
    let frames = vec![
        Bytes::from_static(b"abc"),
        Bytes::from_static(b""),
        Bytes::from_static(b"de"),
        Bytes::from_static(b"f"),
    ];
    let all: Vec<u8> = frames.concat();
    for written in 0..=all.len() {
        let (first, offset) = resume_batch(&frames, written);
        let rest: Vec<u8> = frames[first..].concat();
        let mut joined = all[..written].to_vec();
        joined.extend_from_slice(&rest[offset..]);
        assert_eq!(joined, all);
    }
    assert_eq!(resume_batch(&frames, 0), (0, 0));
    assert_eq!(resume_batch(&frames, 3), (2, 0));
    assert_eq!(resume_batch(&frames, 4), (2, 1));
    assert_eq!(resume_batch(&frames, 6), (4, 0));
    assert_eq!(resume_batch(&[], 0), (0, 0));
}

#[test]
fn batches_are_settled() {
    let frames = vec![Bytes::from_static(b"abc"), Bytes::from_static(b"de")];
    assert_eq!(batch_step(&frames, 0), BatchStep::WriteZero);
    assert_eq!(batch_step(&frames, 1), BatchStep::Resume { first: 0, offset: 1 });
    assert_eq!(batch_step(&frames, 3), BatchStep::Resume { first: 1, offset: 0 });
    assert_eq!(batch_step(&frames, 4), BatchStep::Resume { first: 1, offset: 1 });
    assert_eq!(batch_step(&frames, 5), BatchStep::Done);
    // Nothing is due.
    assert_eq!(batch_step(&[], 0), BatchStep::Done);
    assert_eq!(batch_step(&[Bytes::new()], 0), BatchStep::Done);
}

fn headers(list: &[(&str, &str)]) -> Vec<(String, Vec<u8>)> {
    list.iter().map(|(n, v)| (n.to_string(), v.as_bytes().to_vec())).collect()
}

#[test]
fn the_key_is_answered() {
    // The sample handshake of RFC 6455.
    let key = b"dGhlIHNhbXBsZSBub25jZQ==".to_vec();
    assert_eq!(accept_key(&key), "s3pPLMBiTxaQ9kYGzzhZRbK+xOo=");
    assert_ne!(accept_key(&vec![]), accept_key(&key));
}

#[test]
fn upgrade_requests_are_recognised() {
    let ask = |c: &str, u: &str| is_upgrade_request(&headers(&[("Connection", c), ("UPGRADE", u)]));
    assert!(ask("Upgrade", "websocket"));
    assert!(ask("keep-alive, \tUPGRADE ", "WebSocket"));
    assert!(ask("upgrade,", "h2c, websocket"));
    assert!(!ask("keep-alive", "websocket"));
    assert!(!ask("upgraded", "websocket"));
    assert!(!ask("Upgrade", "web socket"));
    assert!(!ask("", ""));
    assert!(!is_upgrade_request(&headers(&[("connection", "upgrade")])));
    assert!(is_upgrade_request(&headers(&[
        ("connection", "close"),
        ("connection", "upgrade"),
        ("upgrade", "websocket"),
    ])));
}

#[test]
fn headers_are_captured_by_name() {
    let mut list = headers(&[("X-Real-IP", "1.2.3.4"), ("Host", "h"), ("x-real-ip", "a\tb ~")]);
    list.push(("x-real-ip".to_string(), vec![0xff]));
    list.push(("x-real-ip".to_string(), vec![0x7f]));
    let names = vec!["host".to_string(), "X-REAL-IP".to_string()];
    assert_eq!(
        capture_headers(&list, &names),
        vec![
            ("Host".to_string(), "h".to_string()),
            ("X-Real-IP".to_string(), "1.2.3.4".to_string()),
            ("x-real-ip".to_string(), "a\tb ~".to_string()),
        ]
    );
}

fn request(is_get: bool, path: &str, list: &[(&str, &str)]) -> UpgradeRequest {
    UpgradeRequest { is_get, path: path.to_string(), headers: headers(list) }
}

#[test]
fn requests_are_answered() {
    let mut config = ServerConfig::default();
    config.real_ip_headers = vec!["x-real-ip".to_string()];
    assert!(matches!(answer_request(&request(true, "/health", &[]), &config), UpgradeAnswer::Health));
    assert!(matches!(answer_request(&request(false, "/health", &[]), &config), UpgradeAnswer::Plain));
    assert!(matches!(answer_request(&request(true, "/", &[]), &config), UpgradeAnswer::Plain));
    let mut list = vec![("connection", "upgrade"), ("upgrade", "websocket")];
    assert!(matches!(
        answer_request(&request(true, "/health", &list), &config),
        UpgradeAnswer::BadRequest
    ));
    list.push(("Sec-WebSocket-Key", "dGhlIHNhbXBsZSBub25jZQ=="));
    assert!(matches!(answer_request(&request(true, "/", &list), &config), UpgradeAnswer::BadRequest));
    list.push(("Sec-WebSocket-Version", "13"));
    list.push(("X-Real-IP", "9.9.9.9"));
    match answer_request(&request(true, "/", &list), &config) {
        UpgradeAnswer::Switch { accept, protocol, result } => {
            assert_eq!(accept, "s3pPLMBiTxaQ9kYGzzhZRbK+xOo=");
            assert_eq!(protocol, None);
            assert!(!result.is_v2);
            assert!(result.headers.is_empty());
        }
        _ => panic!("expected a switch"),
    }
    list.push(("Sec-WebSocket-Protocol", "wisp-v2"));
    config.real_ip_enabled = true;
    match answer_request(&request(false, "/x", &list), &config) {
        UpgradeAnswer::Switch { protocol, result, .. } => {
            assert_eq!(protocol, Some(b"wisp-v2".to_vec()));
            assert!(result.is_v2);
            assert_eq!(result.headers, vec![("X-Real-IP".to_string(), "9.9.9.9".to_string())]);
        }
        _ => panic!("expected a switch"),
    }
    list[3] = ("Sec-WebSocket-Version", "12");
    assert!(matches!(answer_request(&request(true, "/", &list), &config), UpgradeAnswer::BadRequest));
}
