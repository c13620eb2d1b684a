//! Wisp packets: parsing, building, and that one undoes the other.

use bytes::{BufMut, Bytes, BytesMut};
use shrimpwisp::protocol::frame::{
    build_close_frame, build_continue_frame, build_data_header, build_initial_continue_frame,
    build_server_info_frame, parse_connect_payload, parse_extensions, parse_wisp_frame,
    parse_wisp_frame_owned, WispFrame,
};
use shrimpwisp::protocol::types::{
    CloseReason, ExtensionEntry, StreamType, PACKET_CLOSE, PACKET_CONNECT, PACKET_CONTINUE,
    PACKET_DATA, PACKET_INFO,
};
use shrimpwisp::wire::{push_be, read_be, read_u16_le, read_u32_le, u32_to_le};

#[test]
fn test_parse_data_frame() {
    let mut buf = BytesMut::new();
    buf.put_u8(PACKET_DATA);
    buf.put_u32_le(42);
    buf.put_slice(b"hello world");

    let frame = parse_wisp_frame_owned(buf).unwrap();
    match frame {
        WispFrame::Data { stream_id, payload } => {
            assert_eq!(stream_id, 42);
            assert_eq!(&payload[..], b"hello world");
        }
        _ => panic!("expected DATA frame"),
    }
}

#[test]
fn test_parse_connect_frame() {
    let mut buf = BytesMut::new();
    buf.put_u8(PACKET_CONNECT);
    buf.put_u32_le(7);
    buf.put_u8(0x01); // TCP stream type
    buf.put_u16_le(443);
    buf.put_slice(b"example.com");

    let frame = parse_wisp_frame_owned(buf).unwrap();
    match frame {
        WispFrame::Connect { stream_id, payload } => {
            assert_eq!(stream_id, 7);
            assert_eq!(payload.stream_type, StreamType::Tcp);
            assert_eq!(payload.port, 443);
            assert_eq!(payload.hostname, "example.com");
        }
        _ => panic!("expected CONNECT frame"),
    }
}

#[test]
fn test_parse_continue_frame() {
    let mut buf = BytesMut::new();
    buf.put_u8(PACKET_CONTINUE);
    buf.put_u32_le(0);
    buf.put_u32_le(128);

    let frame = parse_wisp_frame_owned(buf).unwrap();
    match frame {
        WispFrame::Continue {
            stream_id,
            buffer_remaining,
        } => {
            assert_eq!(stream_id, 0);
            assert_eq!(buffer_remaining, 128);
        }
        _ => panic!("expected CONTINUE frame"),
    }
}

#[test]
fn test_parse_close_frame() {
    let mut buf = BytesMut::new();
    buf.put_u8(PACKET_CLOSE);
    buf.put_u32_le(5);
    buf.put_u8(0x44); // Refused

    let frame = parse_wisp_frame_owned(buf).unwrap();
    match frame {
        WispFrame::Close { stream_id, reason } => {
            assert_eq!(stream_id, 5);
            assert_eq!(reason, CloseReason::Refused);
        }
        _ => panic!("expected CLOSE frame"),
    }
}

#[test]
fn test_parse_info_frame() {
    let mut buf = BytesMut::new();
    buf.put_u8(PACKET_INFO);
    buf.put_u32_le(0);
    buf.put_u8(2); // major
    buf.put_u8(1); // minor
    // No extensions

    let frame = parse_wisp_frame_owned(buf).unwrap();
    match frame {
        WispFrame::Info {
            stream_id,
            major_version,
            minor_version,
            extensions,
        } => {
            assert_eq!(stream_id, 0);
            assert_eq!(major_version, 2);
            assert_eq!(minor_version, 1);
            assert!(extensions.is_empty());
        }
        _ => panic!("expected INFO frame"),
    }
}

#[test]
fn test_parse_info_with_extensions() {
    let mut buf = BytesMut::new();
    buf.put_u8(PACKET_INFO);
    buf.put_u32_le(0);
    buf.put_u8(2);
    buf.put_u8(1);
    // Extension: ID=0x01, length=3, payload=[0xAA, 0xBB, 0xCC]
    buf.put_u8(0x01);
    buf.put_u32_le(3);
    buf.put_slice(&[0xAA, 0xBB, 0xCC]);

    let frame = parse_wisp_frame_owned(buf).unwrap();
    match frame {
        WispFrame::Info { extensions, .. } => {
            assert_eq!(extensions.len(), 1);
            assert_eq!(extensions[0].id, 0x01);
            assert_eq!(extensions[0].payload, vec![0xAA, 0xBB, 0xCC]);
        }
        _ => panic!("expected INFO frame"),
    }
}

#[test]
fn test_too_short_returns_none() {
    let buf = BytesMut::from(&[0x02, 0x01, 0x00][..]); // Only 3 bytes
    assert!(parse_wisp_frame_owned(buf).is_none());
}

#[test]
fn test_invalid_type_returns_none() {
    let mut buf = BytesMut::new();
    buf.put_u8(0xFF); // Invalid type
    buf.put_u32_le(1);
    assert!(parse_wisp_frame_owned(buf).is_none());
}

#[test]
fn test_build_data_header() {
    let header = build_data_header(42);
    assert_eq!(header[0], PACKET_DATA);
    let id = u32::from_le_bytes([header[1], header[2], header[3], header[4]]);
    assert_eq!(id, 42);
}

#[test]
fn test_build_continue_frame() {
    let frame = build_continue_frame(7, 256);
    assert_eq!(frame[0], PACKET_CONTINUE);
    let id = u32::from_le_bytes([frame[1], frame[2], frame[3], frame[4]]);
    assert_eq!(id, 7);
    let remaining = u32::from_le_bytes([frame[5], frame[6], frame[7], frame[8]]);
    assert_eq!(remaining, 256);
}

#[test]
fn test_build_close_frame() {
    let frame = build_close_frame(3, CloseReason::Refused);
    assert_eq!(frame[0], PACKET_CLOSE);
    let id = u32::from_le_bytes([frame[1], frame[2], frame[3], frame[4]]);
    assert_eq!(id, 3);
    assert_eq!(frame[5], 0x44);
}

#[test]
fn test_roundtrip_data() {
    let stream_id = 999u32;
    let payload_data = b"test payload bytes here";

    let header = build_data_header(stream_id);
    let mut full = BytesMut::with_capacity(header.len() + payload_data.len());
    full.put_slice(&header);
    full.put_slice(payload_data);

    let frame = parse_wisp_frame_owned(full).unwrap();
    match frame {
        WispFrame::Data {
            stream_id: sid,
            payload,
        } => {
            assert_eq!(sid, stream_id);
            assert_eq!(&payload[..], payload_data);
        }
        _ => panic!("expected DATA"),
    }
}

#[test]
fn slices_and_owned_buffers_parse_alike() {
    let packets: Vec<Vec<u8>> = vec![
        vec![PACKET_DATA, 1, 2, 3, 4, 9, 8, 7],
        vec![PACKET_CONNECT, 7, 0, 0, 0, 2, 0x35, 0, b'h'],
        vec![PACKET_CONTINUE, 0, 0, 0, 0, 1, 0, 0],
        vec![PACKET_CLOSE, 5, 0, 0, 0],
        vec![PACKET_INFO, 0, 0, 0, 0, 2],
        vec![0, 0, 0, 0, 0],
    ];
    for packet in packets {
        let from_slice = format!("{:?}", parse_wisp_frame(&packet));
        let owned = format!("{:?}", parse_wisp_frame_owned(BytesMut::from(&packet[..])));
        assert_eq!(from_slice, owned);
    }
}

#[test]
fn data_payload_is_copied_out_of_a_slice() {
    let mut packet = build_data_header(0xdead_beef).to_vec();
    packet.extend_from_slice(&[0, 1, 2, 255]);
    match parse_wisp_frame(&packet) {
        Some(WispFrame::Data { stream_id, payload }) => {
            assert_eq!(stream_id, 0xdead_beef);
            assert_eq!(payload, Bytes::from_static(&[0, 1, 2, 255]));
        }
        _ => panic!("expected DATA"),
    }
}

#[test]
fn connect_payload_limits() {
    // Type, port and at least one byte of hostname.
    assert!(parse_connect_payload(&[1, 80, 0]).is_none());
    let shortest = parse_connect_payload(&[1, 80, 0, b'a']).unwrap();
    assert_eq!(shortest.port, 80);
    assert_eq!(shortest.hostname, "a");
    // Unknown stream type.
    assert!(parse_connect_payload(&[3, 80, 0, b'a']).is_none());
    assert!(parse_connect_payload(&[0, 80, 0, b'a']).is_none());
    // A hostname of 253 bytes is taken, one of 254 is not.
    let mut longest = vec![2, 0x35, 0];
    longest.extend(vec![b'x'; 253]);
    let parsed = parse_connect_payload(&longest).unwrap();
    assert_eq!(parsed.stream_type, StreamType::Udp);
    assert_eq!(parsed.port, 53);
    assert_eq!(parsed.hostname.len(), 253);
    longest.push(b'x');
    assert!(parse_connect_payload(&longest).is_none());
    // The hostname must be UTF-8.
    assert!(parse_connect_payload(&[1, 80, 0, 0xff]).is_none());
    assert_eq!(
        parse_connect_payload(&[1, 0x34, 0x12, 0xc3, 0xa9]).unwrap().hostname,
        "\u{e9}"
    );
    assert_eq!(parse_connect_payload(&[1, 0x34, 0x12, b'h']).unwrap().port, 0x1234);
}

#[test]
fn extension_lists_end_at_a_cut_entry() {
    assert!(parse_extensions(&[]).is_empty());
    assert!(parse_extensions(&[1, 0, 0, 0]).is_empty());
    // The second entry claims more than there is.
    let list = parse_extensions(&[1, 1, 0, 0, 0, 0xaa, 2, 9, 0, 0, 0, 0xbb]);
    assert_eq!(list.len(), 1);
    assert_eq!(list[0].payload, vec![0xaa]);
    // Empty payloads count.
    let list = parse_extensions(&[7, 0, 0, 0, 0, 8, 0, 0, 0, 0]);
    assert_eq!(list.len(), 2);
    assert_eq!(list[1].id, 8);
    assert!(list[1].payload.is_empty());
}

#[test]
fn server_info_round_trip() {
    assert_eq!(
        &build_server_info_frame(&[])[..],
        &[PACKET_INFO, 0, 0, 0, 0, 2, 1]
    );
    let entries = vec![
        ExtensionEntry { id: 1, payload: vec![] },
        ExtensionEntry { id: 2, payload: vec![1, 2, 3] },
    ];
    let packet = build_server_info_frame(&entries);
    assert_eq!(
        &packet[..],
        &[PACKET_INFO, 0, 0, 0, 0, 2, 1, 1, 0, 0, 0, 0, 2, 3, 0, 0, 0, 1, 2, 3]
    );
    match parse_wisp_frame_owned(packet) {
        Some(WispFrame::Info { stream_id, major_version, minor_version, extensions }) => {
            assert_eq!((stream_id, major_version, minor_version), (0, 2, 1));
            assert_eq!(extensions.len(), 2);
            assert_eq!(extensions[0].id, 1);
            assert_eq!(extensions[1].payload, vec![1, 2, 3]);
        }
        _ => panic!("expected INFO"),
    }
}

#[test]
fn continue_and_close_round_trip() {
    assert_eq!(build_initial_continue_frame(65535), build_continue_frame(0, 65535));
    assert_eq!(build_continue_frame(1, 0x0102_0304), [3, 1, 0, 0, 0, 4, 3, 2, 1]);
    match parse_wisp_frame(&build_continue_frame(u32::MAX, 77)) {
        Some(WispFrame::Continue { stream_id, buffer_remaining }) => {
            assert_eq!((stream_id, buffer_remaining), (u32::MAX, 77));
        }
        _ => panic!("expected CONTINUE"),
    }
    match parse_wisp_frame(&build_close_frame(9, CloseReason::AuthRequired)) {
        Some(WispFrame::Close { stream_id, reason }) => {
            assert_eq!((stream_id, reason), (9, CloseReason::AuthRequired));
        }
        _ => panic!("expected CLOSE"),
    }
}

#[test]
fn close_reasons_and_their_bytes() {
    let known = [
        0x01, 0x02, 0x03, 0x04, 0x41, 0x42, 0x43, 0x44, 0x47, 0x48, 0x49, 0x81, 0xc0, 0xc1, 0xc2,
    ];
    for b in 0..=255u8 {
        let reason = CloseReason::from_byte(b);
        if known.contains(&b) {
            assert_eq!(reason.as_byte(), b);
        } else {
            assert_eq!(reason, CloseReason::Unknown);
        }
    }
    assert_eq!(CloseReason::Blocked.as_byte(), 0x48);
    assert_eq!(CloseReason::Throttled.as_byte(), 0x49);
    assert_eq!(StreamType::from_byte(1), Some(StreamType::Tcp));
    assert_eq!(StreamType::from_byte(2), Some(StreamType::Udp));
    assert_eq!(StreamType::from_byte(3), None);
}

#[test]
fn integers_on_the_wire() {
    assert_eq!(u32_to_le(0x0102_0304), [4, 3, 2, 1]);
    assert_eq!(read_u32_le(&[0, 4, 3, 2, 1], 1), 0x0102_0304);
    assert_eq!(read_u16_le(&[0x34, 0x12], 0), 0x1234);
    assert_eq!(read_be(&[1, 2, 3], 1, 2), 0x0203);
    assert_eq!(read_be(&[255; 8], 0, 8), u64::MAX);
    let mut out = vec![9];
    push_be(&mut out, 0x1_0203, 2);
    assert_eq!(out, vec![9, 2, 3]);
}
