//! Parsing and building of Wisp packets.
//!
//! A packet is one type byte, a stream id of four bytes in little endian, and a payload whose
//! layout depends on the type.

use bytes::{Bytes, BytesMut};
use vstd::prelude::*;

use crate::buffers;
use crate::buffers::{
    bytes_mut_advance, bytes_mut_as_slice, bytes_mut_put_slice, bytes_mut_put_u8,
};
use crate::protocol::types;
use crate::protocol::types::{
    CloseReason, ConnectPayload, ConnectView, ExtensionEntry, ExtensionView, StreamType,
    MAX_HOSTNAME_SIZE, PACKET_CLOSE, PACKET_CONNECT, PACKET_CONTINUE, PACKET_DATA, PACKET_INFO,
    STREAM_ID_CONTROL, WISP_HEADER_SIZE, WISP_VERSION_MAJOR, WISP_VERSION_MINOR,
};
use crate::text::text_of_utf8;
use crate::wire;
use crate::wire::{read_u16_le, read_u32_le, u32_to_le};

verus! {

/// A parsed Wisp packet.
#[derive(Debug)]
#[allow(inconsistent_fields)]
pub enum WispFrame {
    /// Request for a new stream.
    Connect { stream_id: u32, payload: ConnectPayload },
    /// Stream data.
    Data { stream_id: u32, payload: Bytes },
    /// Flow control credit.
    Continue { stream_id: u32, buffer_remaining: u32 },
    /// Close of a stream or of the connection.
    Close { stream_id: u32, reason: CloseReason },
    /// Protocol version and extensions.
    Info { stream_id: u32, major_version: u8, minor_version: u8, extensions: Vec<ExtensionEntry> },
}

/// A Wisp packet as a mathematical value.
#[verifier::ext_equal]
#[allow(inconsistent_fields)]
pub enum FrameView {
    Connect { stream_id: u32, payload: ConnectView },
    Data { stream_id: u32, payload: Seq<u8> },
    Continue { stream_id: u32, buffer_remaining: u32 },
    Close { stream_id: u32, reason: CloseReason },
    Info { stream_id: u32, major_version: u8, minor_version: u8, extensions: Seq<ExtensionView> },
}

impl View for WispFrame {
    type V = FrameView;

    open spec fn view(&self) -> FrameView {
        match *self {
            WispFrame::Connect { stream_id, payload } => FrameView::Connect {
                stream_id,
                payload: payload@,
            },
            WispFrame::Data { stream_id, payload } => FrameView::Data {
                stream_id,
                payload: buffers::contents(payload),
            },
            WispFrame::Continue { stream_id, buffer_remaining } => FrameView::Continue {
                stream_id,
                buffer_remaining,
            },
            WispFrame::Close { stream_id, reason } => FrameView::Close { stream_id, reason },
            WispFrame::Info { stream_id, major_version, minor_version, extensions } =>
            FrameView::Info {
                stream_id,
                major_version,
                minor_version,
                extensions: types::extension_views(extensions@),
            },
        }
    }
}

/// The value that an optional packet stands for.
pub open spec fn frame_view(f: Option<WispFrame>) -> Option<FrameView> {
    match f {
        Some(frame) => Some(frame@),
        None => None,
    }
}

// ---------------------------------------------------------------------------------------
// What packets mean
// ---------------------------------------------------------------------------------------

/// The stream id of a packet.
pub open spec fn id_of(data: Seq<u8>) -> u32 {
    wire::u32_of_le(data.subrange(1, 5))
}

/// What a CONNECT payload asks for: a known stream type, a port in little endian and a
/// hostname of 1 to 253 bytes of UTF-8. Nothing else is a CONNECT payload.
pub open spec fn connect_of(payload: Seq<u8>) -> Option<ConnectView> {
    let name = payload.skip(3);
    if payload.len() >= 4 && types::stream_type_of(payload[0]) is Some && name.len()
        <= MAX_HOSTNAME_SIZE && vstd::utf8::valid_utf8(name) {
        Some(
            ConnectView {
                stream_type: types::stream_type_of(payload[0])->0,
                port: wire::u16_of_le(payload.subrange(1, 3)),
                hostname: vstd::utf8::decode_utf8(name),
            },
        )
    } else {
        None
    }
}

/// The extension list at the start of some bytes: entries of an id, a length in little endian
/// and that many bytes. Reading ends before the first entry that is cut off.
pub open spec fn extensions_of(data: Seq<u8>) -> Seq<ExtensionView>
    decreases data.len(),
{
    if data.len() < 5 {
        seq![]
    } else {
        let length = wire::u32_of_le(data.subrange(1, 5)) as int;
        if data.len() - 5 < length {
            seq![]
        } else {
            seq![ExtensionView { id: data[0], payload: data.subrange(5, 5 + length) }]
                + extensions_of(data.skip(5 + length))
        }
    }
}

/// The packet that some bytes hold, if they hold one.
pub open spec fn frame_of(data: Seq<u8>) -> Option<FrameView> {
    let payload = data.skip(WISP_HEADER_SIZE as int);
    if data.len() < WISP_HEADER_SIZE {
        None
    } else if data[0] == PACKET_CONNECT {
        match connect_of(payload) {
            Some(connect) => Some(
                FrameView::Connect { stream_id: id_of(data), payload: connect },
            ),
            None => None,
        }
    } else if data[0] == PACKET_DATA {
        Some(FrameView::Data { stream_id: id_of(data), payload })
    } else if data[0] == PACKET_CONTINUE && payload.len() >= 4 {
        Some(
            FrameView::Continue {
                stream_id: id_of(data),
                buffer_remaining: wire::u32_of_le(payload.subrange(0, 4)),
            },
        )
    } else if data[0] == PACKET_CLOSE && payload.len() >= 1 {
        Some(
            FrameView::Close {
                stream_id: id_of(data),
                reason: types::close_reason_of(payload[0]),
            },
        )
    } else if data[0] == PACKET_INFO && payload.len() >= 2 {
        Some(
            FrameView::Info {
                stream_id: id_of(data),
                major_version: payload[0],
                minor_version: payload[1],
                extensions: extensions_of(payload.skip(2)),
            },
        )
    } else {
        None
    }
}

/// The header of a packet.
pub open spec fn header_bytes(packet_type: u8, stream_id: u32) -> Seq<u8> {
    seq![packet_type] + wire::le_of_u32(stream_id)
}

/// A CONTINUE packet.
pub open spec fn continue_bytes(stream_id: u32, buffer_remaining: u32) -> Seq<u8> {
    header_bytes(PACKET_CONTINUE, stream_id) + wire::le_of_u32(buffer_remaining)
}

/// A CLOSE packet.
pub open spec fn close_bytes(stream_id: u32, reason: CloseReason) -> Seq<u8> {
    header_bytes(PACKET_CLOSE, stream_id).push(types::close_reason_byte(reason))
}

/// One extension entry: the id, the low 32 bits of the length, and the payload.
pub open spec fn extension_bytes(e: ExtensionView) -> Seq<u8> {
    seq![e.id] + wire::le_of_u32((e.payload.len() % 0x1_0000_0000) as u32) + e.payload
}

/// An extension list.
pub open spec fn extension_list_bytes(list: Seq<ExtensionView>) -> Seq<u8>
    decreases list.len(),
{
    if list.len() == 0 {
        seq![]
    } else {
        extension_list_bytes(list.drop_last()) + extension_bytes(list.last())
    }
}

/// How many bytes an extension list takes: five for each entry, and its payload.
pub open spec fn extension_list_length(list: Seq<ExtensionView>) -> nat
    decreases list.len(),
{
    if list.len() == 0 {
        0
    } else {
        extension_list_length(list.drop_last()) + 5 + list.last().payload.len()
    }
}

/// Whether the length of each payload fits the four bytes that hold it.
pub open spec fn lengths_fit(list: Seq<ExtensionView>) -> bool {
    forall|i: int| 0 <= i < list.len() ==> (#[trigger] list[i]).payload.len() < 0x1_0000_0000
}

/// The server's INFO packet: the control stream, the protocol version and the extensions.
pub open spec fn server_info_bytes(list: Seq<ExtensionView>) -> Seq<u8> {
    header_bytes(PACKET_INFO, STREAM_ID_CONTROL) + seq![WISP_VERSION_MAJOR, WISP_VERSION_MINOR]
        + extension_list_bytes(list)
}

// ---------------------------------------------------------------------------------------
// Parsing
// ---------------------------------------------------------------------------------------

/// Parses a packet. The payload of a DATA packet is copied.
pub fn parse_wisp_frame(data: &[u8]) -> (r: Option<WispFrame>)
    ensures
        frame_view(r) == frame_of(data@),
{
    if data.len() < WISP_HEADER_SIZE {
        return None;
    }
    let packet_type: u8 = data[0];
    let stream_id: u32 = read_u32_le(data, 1);
    let payload = vstd::slice::slice_subrange(data, WISP_HEADER_SIZE, data.len());
    proof {
        assert(payload@ == data@.skip(5));
    }
    match packet_type {
        PACKET_DATA => Some(
            WispFrame::Data { stream_id, payload: Bytes::copy_from_slice(payload) },
        ),
        PACKET_CONNECT => parse_connect(stream_id, payload),
        PACKET_CONTINUE => parse_continue(stream_id, payload),
        PACKET_CLOSE => parse_close(stream_id, payload),
        PACKET_INFO => parse_info(stream_id, payload),
        _ => None,
    }
}

/// Parses a packet out of an owned buffer. The payload of a DATA packet is the rest of the
/// buffer, without a copy.
pub fn parse_wisp_frame_owned(buf: BytesMut) -> (r: Option<WispFrame>)
    ensures
        frame_view(r) == frame_of(buffers::contents_mut(buf)),
{
    let mut buf = buf;
    if buf.len() < WISP_HEADER_SIZE {
        return None;
    }
    let packet_type: u8 = bytes_mut_as_slice(&buf)[0];
    let stream_id: u32 = read_u32_le(bytes_mut_as_slice(&buf), 1);
    bytes_mut_advance(&mut buf, WISP_HEADER_SIZE);
    match packet_type {
        PACKET_DATA => Some(WispFrame::Data { stream_id, payload: buf.freeze() }),
        PACKET_CONNECT => parse_connect(stream_id, bytes_mut_as_slice(&buf)),
        PACKET_CONTINUE => parse_continue(stream_id, bytes_mut_as_slice(&buf)),
        PACKET_CLOSE => parse_close(stream_id, bytes_mut_as_slice(&buf)),
        PACKET_INFO => parse_info(stream_id, bytes_mut_as_slice(&buf)),
        _ => None,
    }
}

/// Parses the payload of a CONNECT packet.
pub fn parse_connect_payload(payload: &[u8]) -> (r: Option<ConnectPayload>)
    ensures
        match r {
            Some(connect) => connect_of(payload@) == Some(connect@),
            None => connect_of(payload@) is None,
        },
{
    if payload.len() < 4 {
        return None;
    }
    let stream_type = match StreamType::from_byte(payload[0]) {
        Some(t) => t,
        None => return None,
    };
    let port: u16 = read_u16_le(payload, 1);
    let name = vstd::slice::slice_subrange(payload, 3, payload.len());
    proof {
        assert(name@ == payload@.skip(3));
    }
    if name.len() > MAX_HOSTNAME_SIZE {
        return None;
    }
    match text_of_utf8(name) {
        Some(text) => {
            proof {
                vstd::utf8::encode_utf8_decode_utf8(text@);
            }
            Some(ConnectPayload { stream_type, port, hostname: text.to_owned() })
        },
        None => None,
    }
}

/// Parses the payload of a CONNECT packet for a stream.
fn parse_connect(stream_id: u32, payload: &[u8]) -> (r: Option<WispFrame>)
    ensures
        match connect_of(payload@) {
            Some(connect) => frame_view(r) == Some(
                FrameView::Connect { stream_id, payload: connect },
            ),
            None => r is None,
        },
{
    match parse_connect_payload(payload) {
        Some(connect) => Some(WispFrame::Connect { stream_id, payload: connect }),
        None => None,
    }
}

/// Parses the payload of a CONTINUE packet: the remaining credit in little endian.
fn parse_continue(stream_id: u32, payload: &[u8]) -> (r: Option<WispFrame>)
    ensures
        payload@.len() < 4 ==> r is None,
        payload@.len() >= 4 ==> frame_view(r) == Some(
            FrameView::Continue {
                stream_id,
                buffer_remaining: wire::u32_of_le(payload@.subrange(0, 4)),
            },
        ),
{
    if payload.len() < 4 {
        return None;
    }
    Some(WispFrame::Continue { stream_id, buffer_remaining: read_u32_le(payload, 0) })
}

/// Parses the payload of a CLOSE packet: the reason.
fn parse_close(stream_id: u32, payload: &[u8]) -> (r: Option<WispFrame>)
    ensures
        payload@.len() < 1 ==> r is None,
        payload@.len() >= 1 ==> frame_view(r) == Some(
            FrameView::Close { stream_id, reason: types::close_reason_of(payload@[0]) },
        ),
{
    if payload.len() < 1 {
        return None;
    }
    Some(WispFrame::Close { stream_id, reason: CloseReason::from_byte(payload[0]) })
}

/// Parses the payload of an INFO packet: the version and the extensions.
fn parse_info(stream_id: u32, payload: &[u8]) -> (r: Option<WispFrame>)
    ensures
        payload@.len() < 2 ==> r is None,
        payload@.len() >= 2 ==> frame_view(r) == Some(
            FrameView::Info {
                stream_id,
                major_version: payload@[0],
                minor_version: payload@[1],
                extensions: extensions_of(payload@.skip(2)),
            },
        ),
{
    if payload.len() < 2 {
        return None;
    }
    let rest = vstd::slice::slice_subrange(payload, 2, payload.len());
    proof {
        assert(rest@ == payload@.skip(2));
    }
    Some(
        WispFrame::Info {
            stream_id,
            major_version: payload[0],
            minor_version: payload[1],
            extensions: parse_extensions(rest),
        },
    )
}

/// Parses an extension list, up to the first entry that is cut off.
pub fn parse_extensions(data: &[u8]) -> (r: Vec<ExtensionEntry>)
    ensures
        types::extension_views(r@) == extensions_of(data@),
{
    let mut extensions: Vec<ExtensionEntry> = Vec::new();
    let mut at: usize = 0;
    proof {
        assert(data@.skip(0) == data@);
    }
    while data.len() - at >= 5
        invariant
            at <= data@.len(),
            types::extension_views(extensions@) + extensions_of(data@.skip(at as int))
                == extensions_of(data@),
        ensures
            extensions_of(data@.skip(at as int)) == Seq::<ExtensionView>::empty(),
        decreases data.len() - at,
    {
        let ghost rest = data@.skip(at as int);
        let id: u8 = data[at];
        let length: u32 = read_u32_le(data, at + 1);
        proof {
            assert(rest.subrange(1, 5) == data@.subrange(at + 1, at + 5));
        }
        if data.len() - at - 5 < length as usize {
            break ;
        }
        let start: usize = at + 5;
        let end: usize = start + length as usize;
        let payload = vstd::slice::slice_to_vec(vstd::slice::slice_subrange(data, start, end));
        let ghost before = types::extension_views(extensions@);
        let entry = ExtensionEntry { id, payload };
        let ghost view = entry@;
        extensions.push(entry);
        proof {
            assert(rest.subrange(5, 5 + length) == data@.subrange(start as int, end as int));
            assert(rest.skip(5 + length) == data@.skip(end as int));
            assert(types::extension_views(extensions@) == before.push(view));
            assert(before.push(view) + extensions_of(data@.skip(end as int)) == before + (seq![
                view,
            ] + extensions_of(data@.skip(end as int))));
        }
        at = end;
    }
    proof {
        assert(types::extension_views(extensions@) + Seq::<ExtensionView>::empty()
            == types::extension_views(extensions@));
    }
    extensions
}

// ---------------------------------------------------------------------------------------
// Building
// ---------------------------------------------------------------------------------------

/// Builds the header of a DATA packet. The payload follows it on the wire.
pub fn build_data_header(stream_id: u32) -> (r: [u8; WISP_HEADER_SIZE])
    ensures
        r@ == header_bytes(PACKET_DATA, stream_id),
{
    let id = u32_to_le(stream_id);
    [PACKET_DATA, id[0], id[1], id[2], id[3]]
}

/// Builds a CONTINUE packet.
pub fn build_continue_frame(stream_id: u32, buffer_remaining: u32) -> (r: [u8; 9])
    ensures
        r@ == continue_bytes(stream_id, buffer_remaining),
{
    let id = u32_to_le(stream_id);
    let credit = u32_to_le(buffer_remaining);
    [PACKET_CONTINUE, id[0], id[1], id[2], id[3], credit[0], credit[1], credit[2], credit[3]]
}

/// Builds a CLOSE packet.
pub fn build_close_frame(stream_id: u32, reason: CloseReason) -> (r: [u8; 6])
    ensures
        r@ == close_bytes(stream_id, reason),
{
    let id = u32_to_le(stream_id);
    [PACKET_CLOSE, id[0], id[1], id[2], id[3], reason.as_byte()]
}

/// The low 32 bits of a length.
fn low_32_bits(length: usize) -> (r: u32)
    ensures
        r == length as nat % 0x1_0000_0000,
{
    let wide: u64 = length as u64;
    (wide % 0x1_0000_0000) as u32
}

/// Builds the server's INFO packet, which parses as what it was built from. A packet that no
/// buffer can hold is left out.
pub fn build_server_info_frame(extensions: &[ExtensionEntry]) -> (r: BytesMut)
    requires
        server_info_bytes(types::extension_views(extensions@)).len() <= isize::MAX,
    ensures
        buffers::contents_mut(r) == server_info_bytes(types::extension_views(extensions@)),
        buffers::contents_mut(r).len() == WISP_HEADER_SIZE + 2 + extension_list_length(
            types::extension_views(extensions@),
        ),
        lengths_fit(types::extension_views(extensions@)) ==> frame_of(buffers::contents_mut(r))
            == Some(
            FrameView::Info {
                stream_id: STREAM_ID_CONTROL,
                major_version: WISP_VERSION_MAJOR,
                minor_version: WISP_VERSION_MINOR,
                extensions: types::extension_views(extensions@),
            },
        ),
{
    let ghost views = types::extension_views(extensions@);
    let mut buf = BytesMut::with_capacity(WISP_HEADER_SIZE + 2);
    bytes_mut_put_u8(&mut buf, PACKET_INFO);
    bytes_mut_put_slice(&mut buf, &u32_to_le(STREAM_ID_CONTROL));
    bytes_mut_put_u8(&mut buf, WISP_VERSION_MAJOR);
    bytes_mut_put_u8(&mut buf, WISP_VERSION_MINOR);
    let ghost head = header_bytes(PACKET_INFO, STREAM_ID_CONTROL) + seq![
        WISP_VERSION_MAJOR,
        WISP_VERSION_MINOR,
    ];
    proof {
        assert(buffers::contents_mut(buf) == head);
        assert(views.take(0) == Seq::<ExtensionView>::empty());
    }
    let mut i: usize = 0;
    while i < extensions.len()
        invariant
            i <= extensions@.len(),
            views == types::extension_views(extensions@),
            (head + extension_list_bytes(views)).len() <= isize::MAX,
            buffers::contents_mut(buf) == head + extension_list_bytes(views.take(i as int)),
        decreases extensions.len() - i,
    {
        let entry = &extensions[i];
        proof {
            lemma_list_prefix(views, i + 1);
            assert(views.take(i + 1).drop_last() == views.take(i as int));
            assert(views.take(i + 1).last() == entry@);
        }
        bytes_mut_put_u8(&mut buf, entry.id);
        bytes_mut_put_slice(&mut buf, &u32_to_le(low_32_bits(entry.payload.len())));
        bytes_mut_put_slice(&mut buf, entry.payload.as_slice());
        proof {
            assert(buffers::contents_mut(buf) == head + extension_list_bytes(
                views.take(i + 1),
            ));
        }
        i = i + 1;
    }
    proof {
        assert(views.take(views.len() as int) == views);
        server_info_has_its_length(views);
        if lengths_fit(views) {
            server_info_survives_the_wire(views);
        }
    }
    buf
}

/// A prefix of an extension list takes no more bytes than the list.
proof fn lemma_list_prefix(list: Seq<ExtensionView>, count: int)
    requires
        0 <= count <= list.len(),
    ensures
        extension_list_bytes(list.take(count)).len() <= extension_list_bytes(list).len(),
    decreases list.len() - count,
{
    if count == list.len() {
        assert(list.take(count) == list);
    } else {
        lemma_list_prefix(list, count + 1);
        assert(list.take(count + 1).drop_last() == list.take(count));
    }
}

/// Builds the first CONTINUE packet of a connection, on the control stream.
pub fn build_initial_continue_frame(buffer_size: u32) -> (r: [u8; 9])
    ensures
        r@ == continue_bytes(STREAM_ID_CONTROL, buffer_size),
{
    build_continue_frame(STREAM_ID_CONTROL, buffer_size)
}

// ---------------------------------------------------------------------------------------
// Laws
// ---------------------------------------------------------------------------------------

/// The header's stream id reads back as it was written.
proof fn lemma_header(packet_type: u8, stream_id: u32, payload: Seq<u8>)
    ensures
        ({
            let data = header_bytes(packet_type, stream_id) + payload;
            &&& data.len() == WISP_HEADER_SIZE + payload.len()
            &&& data[0] == packet_type
            &&& id_of(data) == stream_id
            &&& data.skip(WISP_HEADER_SIZE as int) == payload
        }),
{
    let data = header_bytes(packet_type, stream_id) + payload;
    assert(data.subrange(1, 5) == wire::le_of_u32(stream_id));
    assert(data.skip(WISP_HEADER_SIZE as int) == payload);
}

/// A DATA header followed by any payload parses as that stream's data, byte for byte.
pub proof fn data_survives_the_wire(stream_id: u32, payload: Seq<u8>)
    ensures
        frame_of(header_bytes(PACKET_DATA, stream_id) + payload) == Some(
            FrameView::Data { stream_id, payload },
        ),
{
    lemma_header(PACKET_DATA, stream_id, payload);
}

/// A CONTINUE packet parses as the stream and the credit that it was built from.
pub proof fn continue_survives_the_wire(stream_id: u32, buffer_remaining: u32)
    ensures
        frame_of(continue_bytes(stream_id, buffer_remaining)) == Some(
            FrameView::Continue { stream_id, buffer_remaining },
        ),
{
    let payload = wire::le_of_u32(buffer_remaining);
    lemma_header(PACKET_CONTINUE, stream_id, payload);
    assert(payload.subrange(0, 4) == payload);
}

/// A CLOSE packet parses as the stream and the reason that it was built from.
pub proof fn close_survives_the_wire(stream_id: u32, reason: CloseReason)
    ensures
        frame_of(close_bytes(stream_id, reason)) == Some(FrameView::Close { stream_id, reason }),
{
    let payload = seq![types::close_reason_byte(reason)];
    lemma_header(PACKET_CLOSE, stream_id, payload);
    assert(close_bytes(stream_id, reason) == header_bytes(PACKET_CLOSE, stream_id) + payload);
    types::close_reason_survives_the_wire(reason);
}

/// The payload of a CONNECT packet.
pub open spec fn connect_bytes(connect: ConnectView) -> Seq<u8> {
    seq![
        if connect.stream_type == StreamType::Tcp {
            0x01u8
        } else {
            0x02u8
        },
        (connect.port % 0x100) as u8,
        (connect.port / 0x100) as u8,
    ] + vstd::utf8::encode_utf8(connect.hostname)
}

/// A CONNECT packet with a hostname of 1 to 253 bytes parses as the request it was built from.
pub proof fn connect_survives_the_wire(stream_id: u32, connect: ConnectView)
    requires
        1 <= vstd::utf8::encode_utf8(connect.hostname).len() <= MAX_HOSTNAME_SIZE,
    ensures
        connect_of(connect_bytes(connect)) == Some(connect),
        frame_of(header_bytes(PACKET_CONNECT, stream_id) + connect_bytes(connect)) == Some(
            FrameView::Connect { stream_id, payload: connect },
        ),
{
    let payload = connect_bytes(connect);
    let name = vstd::utf8::encode_utf8(connect.hostname);
    lemma_header(PACKET_CONNECT, stream_id, payload);
    assert(payload.skip(3) == name);
    vstd::utf8::encode_utf8_valid_utf8(connect.hostname);
    vstd::utf8::encode_utf8_decode_utf8(connect.hostname);
    assert(payload.subrange(1, 3)[0] == payload[1] && payload.subrange(1, 3)[1] == payload[2]);
}

/// The first entry of an extension list comes first on the wire.
proof fn lemma_list_front(list: Seq<ExtensionView>)
    requires
        list.len() > 0,
    ensures
        extension_list_bytes(list) == extension_bytes(list[0]) + extension_list_bytes(
            list.skip(1),
        ),
    decreases list.len(),
{
    if list.len() == 1 {
        assert(list.drop_last() == Seq::<ExtensionView>::empty());
        assert(list.skip(1) == Seq::<ExtensionView>::empty());
    } else {
        lemma_list_front(list.drop_last());
        assert(list.drop_last().skip(1) == list.skip(1).drop_last());
    }
}

/// An extension entry in front of other bytes reads back as it was written.
proof fn lemma_extension_front(e: ExtensionView, rest: Seq<u8>)
    requires
        e.payload.len() < 0x1_0000_0000,
    ensures
        ({
            let data = extension_bytes(e) + rest;
            let length = e.payload.len() as int;
            &&& data.len() >= 5 + length
            &&& data[0] == e.id
            &&& wire::u32_of_le(data.subrange(1, 5)) == length
            &&& data.subrange(5, 5 + length) == e.payload
            &&& data.skip(5 + length) == rest
        }),
{
    let data = extension_bytes(e) + rest;
    let length = e.payload.len() as int;
    wire::u32_survives_le(length as u32);
    assert(data.subrange(1, 5) == wire::le_of_u32(length as u32));
    assert(data.subrange(5, 5 + length) == e.payload);
    assert(data.skip(5 + length) == rest);
}

/// An extension list parses as the entries it was built from, if each payload's length fits
/// the four bytes that hold it.
pub proof fn extensions_survive_the_wire(list: Seq<ExtensionView>)
    requires
        lengths_fit(list),
    ensures
        extensions_of(extension_list_bytes(list)) == list,
    decreases list.len(),
{
    if list.len() > 0 {
        let e = list[0];
        let rest = list.skip(1);
        lemma_list_front(list);
        lemma_extension_front(e, extension_list_bytes(rest));
        extensions_survive_the_wire(rest);
        assert(ExtensionView { id: e.id, payload: e.payload } == e);
        assert(seq![e] + rest == list);
    }
}

/// The server's INFO packet takes the header, two bytes for the version and what its extensions
/// take. Without extensions it is always the same.
pub proof fn server_info_has_its_length(list: Seq<ExtensionView>)
    ensures
        server_info_bytes(list).len() == WISP_HEADER_SIZE + 2 + extension_list_length(list),
        list.len() == 0 ==> server_info_bytes(list) == seq![0x05u8, 0, 0, 0, 0, 2, 1],
    decreases list.len(),
{
    if list.len() > 0 {
        server_info_has_its_length(list.drop_last());
    }
}

/// The server's INFO packet parses as the control stream, version 2.1 and the extensions it was
/// built from, if each payload's length fits the four bytes that hold it.
pub proof fn server_info_survives_the_wire(list: Seq<ExtensionView>)
    requires
        lengths_fit(list),
    ensures
        frame_of(server_info_bytes(list)) == Some(
            FrameView::Info {
                stream_id: STREAM_ID_CONTROL,
                major_version: WISP_VERSION_MAJOR,
                minor_version: WISP_VERSION_MINOR,
                extensions: list,
            },
        ),
{
    let version = seq![WISP_VERSION_MAJOR, WISP_VERSION_MINOR];
    let payload = version + extension_list_bytes(list);
    lemma_header(PACKET_INFO, STREAM_ID_CONTROL, payload);
    assert(server_info_bytes(list) == header_bytes(PACKET_INFO, STREAM_ID_CONTROL) + payload);
    assert(payload.skip(2) == extension_list_bytes(list));
    extensions_survive_the_wire(list);
}

/// A packet that was parsed is the one that the bytes hold: the type, the stream id with its low
/// byte first, and the payload; behind a CONTINUE, a CLOSE or the version of an INFO packet there
/// may be more.
pub proof fn what_is_parsed_was_sent(data: Seq<u8>)
    ensures
        frame_of(data) matches Some(parsed) ==> {
            &&& data.len() >= 5
            &&& match parsed {
                FrameView::Connect { stream_id, payload } => data == seq![0x01u8] + wire::le_of_u32(
                    stream_id,
                ) + connect_bytes(payload),
                FrameView::Data { stream_id, payload } => data == seq![0x02u8] + wire::le_of_u32(
                    stream_id,
                ) + payload,
                FrameView::Continue { stream_id, buffer_remaining } => data.take(9) == seq![0x03u8]
                    + wire::le_of_u32(stream_id) + wire::le_of_u32(buffer_remaining),
                FrameView::Close { stream_id, reason } => {
                    &&& data.take(5) == seq![0x04u8] + wire::le_of_u32(stream_id)
                    &&& reason == types::close_reason_of(data[5])
                },
                FrameView::Info { stream_id, major_version, minor_version, extensions } => {
                    &&& data.take(7) == seq![0x05u8] + wire::le_of_u32(stream_id) + seq![
                        major_version,
                        minor_version,
                    ]
                    &&& extensions == extensions_of(data.skip(7))
                },
            }
        },
{
    if let Some(parsed) = frame_of(data) {
        wire::le_survives_u32(data.subrange(1, 5));
        let payload = data.skip(5);
        match parsed {
            FrameView::Connect { stream_id, payload: connect } => {
                what_is_asked_for_was_sent(payload);
                assert(data == seq![0x01u8] + wire::le_of_u32(stream_id) + payload);
            },
            FrameView::Data { stream_id, payload: _ } => {
                assert(data == seq![0x02u8] + wire::le_of_u32(stream_id) + payload);
            },
            FrameView::Continue { stream_id, buffer_remaining } => {
                wire::le_survives_u32(payload.subrange(0, 4));
                assert(data.take(9) == seq![0x03u8] + wire::le_of_u32(stream_id)
                    + payload.subrange(0, 4));
            },
            FrameView::Close { stream_id, reason: _ } => {
                assert(data.take(5) == seq![0x04u8] + wire::le_of_u32(stream_id));
                assert(payload[0] == data[5]);
            },
            FrameView::Info { stream_id, major_version, minor_version, .. } => {
                assert(data.take(7) == seq![0x05u8] + wire::le_of_u32(stream_id) + seq![
                    major_version,
                    minor_version,
                ]);
                assert(payload.skip(2) == data.skip(7));
            },
        }
    }
}

/// Bytes that hold no packet are too short for a header, of no known type, too short for their
/// type, or a CONNECT packet that asks for nothing.
pub proof fn what_holds_no_packet(data: Seq<u8>)
    ensures
        frame_of(data) is None <==> {
            ||| data.len() < 5
            ||| data[0] == 0 || data[0] > 5
            ||| data[0] == 1 && connect_of(data.skip(5)) is None
            ||| data[0] == 3 && data.len() < 9
            ||| data[0] == 4 && data.len() < 6
            ||| data[0] == 5 && data.len() < 7
        },
{
}

/// A request that was parsed is the one that the payload holds, byte for byte, and its name takes
/// from 1 to 253 bytes.
pub proof fn what_is_asked_for_was_sent(payload: Seq<u8>)
    ensures
        connect_of(payload) matches Some(connect) ==> payload == connect_bytes(connect) && 4
            <= payload.len() && payload.len() <= 256,
{
    if let Some(connect) = connect_of(payload) {
        let name = payload.skip(3);
        vstd::utf8::decode_utf8_encode_utf8(name);
        let port = payload.subrange(1, 3);
        assert(port[0] == payload[1] && port[1] == payload[2]);
        assert(connect.port == payload[1] + 256 * payload[2]);
        assert(payload == connect_bytes(connect));
    }
}

/// A payload asks for nothing exactly if its type is unknown, its name is missing or longer than
/// 253 bytes, or the name is no text.
pub proof fn what_asks_for_nothing(payload: Seq<u8>)
    ensures
        connect_of(payload) is None <==> {
            ||| payload.len() < 4
            ||| payload.len() > 256
            ||| payload[0] == 0 || payload[0] > 2
            ||| !vstd::utf8::valid_utf8(payload.skip(3))
        },
{
}

/// The extensions that were read are those at the front of the bytes, and what is left behind them
/// is cut off: too short for an id and a length, or for the length that it announces.
pub proof fn what_extensions_were_read(data: Seq<u8>)
    ensures
        ({
            let list = extensions_of(data);
            let read = extension_list_bytes(list);
            let left = data.skip(read.len() as int);
            &&& lengths_fit(list)
            &&& read.len() <= data.len()
            &&& read + left == data
            &&& left.len() < 5 || left.len() < 5 + wire::u32_of_le(left.subrange(1, 5))
        }),
    decreases data.len(),
{
    let list = extensions_of(data);
    if data.len() >= 5 && data.len() - 5 >= wire::u32_of_le(data.subrange(1, 5)) {
        let length = wire::u32_of_le(data.subrange(1, 5)) as int;
        let first = ExtensionView { id: data[0], payload: data.subrange(5, 5 + length) };
        let rest = data.skip(5 + length);
        what_extensions_were_read(rest);
        let others = extensions_of(rest);
        assert(list == seq![first] + others);
        assert(list.skip(1) == others);
        lemma_list_front(list);
        wire::le_survives_u32(data.subrange(1, 5));
        assert(extension_bytes(first) == data.take(5 + length));
        let read = extension_list_bytes(list);
        let inner = extension_list_bytes(others);
        assert(read == data.take(5 + length) + inner);
        assert(data.skip(read.len() as int) == rest.skip(inner.len() as int));
        assert(read + data.skip(read.len() as int) == data.take(5 + length) + (inner + rest.skip(
            inner.len() as int,
        )));
        assert(data.take(5 + length) + rest == data);
        assert forall|i: int| 0 <= i < list.len() implies (#[trigger] list[i]).payload.len()
            < 0x1_0000_0000 by {
            if i > 0 {
                assert(list[i] == others[i - 1]);
            }
        }
    } else {
        assert(extension_list_bytes(list) == Seq::<u8>::empty());
        assert(data.skip(0) == data);
        assert(Seq::<u8>::empty() + data == data);
    }
}

/// Where the bytes of the packets that a server sends stand.
pub proof fn packets_are_laid_out(stream_id: u32, credit: u32, reason: CloseReason)
    ensures
        continue_bytes(stream_id, credit) == seq![0x03u8] + wire::le_of_u32(stream_id)
            + wire::le_of_u32(credit),
        close_bytes(stream_id, reason) == seq![0x04u8] + wire::le_of_u32(stream_id) + seq![
            types::close_reason_byte(reason),
        ],
        header_bytes(0x02, stream_id) == seq![0x02u8] + wire::le_of_u32(stream_id),
{
}

} // verus!
