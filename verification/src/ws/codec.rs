//! WebSocket frames as a server reads and writes them.
//!
//! Reading works on what is buffered and never waits: a frame that has not arrived in full is
//! left alone. A binary frame is read straight through to the Wisp packet that it carries.

use bytes::BytesMut;
use vstd::prelude::*;

use crate::buffers;
use crate::buffers::{bytes_mut_advance, bytes_mut_as_slice, bytes_mut_set};
use crate::protocol::frame;
use crate::protocol::types::WISP_HEADER_SIZE;
use crate::text::text_of_utf8;
use crate::wire;
use crate::wire::{read_be, read_u32_le};

verus! {

/// The largest message that is read before the limit of the configuration applies.
pub const DEFAULT_MAX_MESSAGE_SIZE: usize = 0x400_0000;

/// What a frame is for.
#[derive(Debug, Clone, Copy, PartialEq, Eq, Structural)]
pub enum OpCode {
    Continuation,
    Text,
    Binary,
    Close,
    Ping,
    Pong,
}

/// Why a connection cannot go on with the frames it gets.
#[derive(Debug, Clone, Copy, PartialEq, Eq, Structural)]
pub enum WebSocketError {
    /// A bit is set that only an extension could give a meaning.
    ReservedBitsNotZero,
    /// The opcode stands for nothing.
    InvalidOpCode,
    /// A client must mask its frames.
    UnmaskedClientFrame,
    /// A control frame must be whole.
    ControlFrameFragmented,
    /// A control frame carries at most 125 bytes.
    ControlFrameTooLarge,
    /// The frame is larger than is accepted.
    FrameTooLarge,
    /// Text that is no UTF-8.
    InvalidUtf8,
    /// The client is gone in the middle of a frame, or between frames.
    UnexpectedEof,
}

impl WebSocketError {
    /// The error in words.
    pub fn message(&self) -> (r: &'static str)
        ensures
            r@ == error_text(*self),
    {
        match self {
            WebSocketError::ReservedBitsNotZero => "Reserved bits are not zero",
            WebSocketError::InvalidOpCode => "Invalid opcode",
            WebSocketError::UnmaskedClientFrame => "Client frame is not masked",
            WebSocketError::ControlFrameFragmented => "Control frame must not be fragmented",
            WebSocketError::ControlFrameTooLarge => "Control frame too large",
            WebSocketError::FrameTooLarge => "Frame too large",
            WebSocketError::InvalidUtf8 => "Invalid UTF-8",
            WebSocketError::UnexpectedEof => "Unexpected EOF",
        }
    }
}

/// The error in words.
pub open spec fn error_text(e: WebSocketError) -> Seq<char> {
    match e {
        WebSocketError::ReservedBitsNotZero => "Reserved bits are not zero"@,
        WebSocketError::InvalidOpCode => "Invalid opcode"@,
        WebSocketError::UnmaskedClientFrame => "Client frame is not masked"@,
        WebSocketError::ControlFrameFragmented => "Control frame must not be fragmented"@,
        WebSocketError::ControlFrameTooLarge => "Control frame too large"@,
        WebSocketError::FrameTooLarge => "Frame too large"@,
        WebSocketError::InvalidUtf8 => "Invalid UTF-8"@,
        WebSocketError::UnexpectedEof => "Unexpected EOF"@,
    }
}

/// The opcode that four bits stand for.
pub open spec fn opcode_of(bits: u8) -> Option<OpCode> {
    if bits == 0 {
        Some(OpCode::Continuation)
    } else if bits == 1 {
        Some(OpCode::Text)
    } else if bits == 2 {
        Some(OpCode::Binary)
    } else if bits == 8 {
        Some(OpCode::Close)
    } else if bits == 9 {
        Some(OpCode::Ping)
    } else if bits == 10 {
        Some(OpCode::Pong)
    } else {
        None
    }
}

/// The four bits of an opcode.
pub open spec fn opcode_bits(opcode: OpCode) -> u8 {
    match opcode {
        OpCode::Continuation => 0,
        OpCode::Text => 1,
        OpCode::Binary => 2,
        OpCode::Close => 8,
        OpCode::Ping => 9,
        OpCode::Pong => 10,
    }
}

/// Whether frames of this kind are about the connection itself.
pub open spec fn is_control_opcode(opcode: OpCode) -> bool {
    opcode == OpCode::Close || opcode == OpCode::Ping || opcode == OpCode::Pong
}

impl OpCode {
    /// Reads an opcode.
    pub fn from_bits(bits: u8) -> (r: Option<Self>)
        ensures
            r == opcode_of(bits),
    {
        match bits {
            0 => Some(OpCode::Continuation),
            1 => Some(OpCode::Text),
            2 => Some(OpCode::Binary),
            8 => Some(OpCode::Close),
            9 => Some(OpCode::Ping),
            10 => Some(OpCode::Pong),
            _ => None,
        }
    }

    /// Whether frames of this kind are about the connection itself.
    pub fn is_control(self) -> (r: bool)
        ensures
            r == is_control_opcode(self),
    {
        match self {
            OpCode::Close | OpCode::Ping | OpCode::Pong => true,
            _ => false,
        }
    }
}

/// A frame that was read. Its payload is unmasked.
#[derive(Debug)]
pub struct WsFrame {
    pub fin: bool,
    pub opcode: OpCode,
    pub payload: BytesMut,
}

/// A frame as a mathematical value.
#[verifier::ext_equal]
pub struct WsFrameView {
    pub fin: bool,
    pub opcode: OpCode,
    pub payload: Seq<u8>,
}

impl View for WsFrame {
    type V = WsFrameView;

    open spec fn view(&self) -> WsFrameView {
        WsFrameView {
            fin: self.fin,
            opcode: self.opcode,
            payload: buffers::contents_mut(self.payload),
        }
    }
}

/// What the bytes at hand amount to.
#[verifier::ext_equal]
pub enum Reading {
    /// More bytes are needed.
    Incomplete,
    /// No frame can come of them.
    Malformed(WebSocketError),
    /// A frame, and how many bytes it takes.
    Complete(WsFrameView, int),
}

/// Data under a mask, or with the mask taken off: each byte combined with the mask's bytes in
/// turn.
pub open spec fn masked(data: Seq<u8>, mask: Seq<u8>) -> Seq<u8> {
    Seq::new(data.len(), |i: int| data[i] ^ mask[i % 4])
}

/// How many bytes hold the length, if the second byte does not.
pub open spec fn length_bytes(code: u8) -> int {
    if code == 126 {
        2
    } else if code == 127 {
        8
    } else {
        0
    }
}

/// The payload's length, as the header says.
pub open spec fn payload_length(bytes: Seq<u8>) -> int {
    let code = bytes[1] % 0x80;
    if code < 126 {
        code as int
    } else {
        wire::nat_of_be(bytes.subrange(2, 2 + length_bytes(code))) as int
    }
}

/// The size of the header: two bytes, the length if it needs more, and the mask.
pub open spec fn header_size(bytes: Seq<u8>) -> int {
    2 + length_bytes((bytes[1] % 0x80) as u8) + 4
}

/// What the bytes that a client sent amount to, if messages up to `max` bytes are accepted.
pub open spec fn reading_of(bytes: Seq<u8>, max: int) -> Reading {
    if bytes.len() < 2 {
        Reading::Incomplete
    } else if bytes[0] / 0x10 % 8 != 0 {
        Reading::Malformed(WebSocketError::ReservedBitsNotZero)
    } else {
        match opcode_of((bytes[0] % 0x10) as u8) {
            None => Reading::Malformed(WebSocketError::InvalidOpCode),
            Some(opcode) => {
                let fin = bytes[0] >= 0x80;
                let start = header_size(bytes);
                let length = payload_length(bytes);
                if bytes[1] < 0x80 {
                    Reading::Malformed(WebSocketError::UnmaskedClientFrame)
                } else if bytes.len() < start {
                    Reading::Incomplete
                } else if is_control_opcode(opcode) && !fin {
                    Reading::Malformed(WebSocketError::ControlFrameFragmented)
                } else if is_control_opcode(opcode) && length > 125 {
                    Reading::Malformed(WebSocketError::ControlFrameTooLarge)
                } else if length > max {
                    Reading::Malformed(WebSocketError::FrameTooLarge)
                } else if bytes.len() < start + length {
                    Reading::Incomplete
                } else {
                    Reading::Complete(
                        WsFrameView {
                            fin,
                            opcode,
                            payload: masked(
                                bytes.subrange(start, start + length),
                                bytes.subrange(start - 4, start),
                            ),
                        },
                        start + length,
                    )
                }
            },
        }
    }
}

/// Takes the mask off some data.
fn unmask(data: &mut BytesMut, mask: [u8; 4])
    ensures
        buffers::contents_mut(*final(data)) == masked(buffers::contents_mut(*old(data)), mask@),
{
    let ghost before = buffers::contents_mut(*data);
    let length: usize = data.len();
    let mut i: usize = 0;
    while i < length
        invariant
            i <= length,
            length == before.len(),
            buffers::contents_mut(*data) == masked(before, mask@).take(i as int) + before.skip(
                i as int,
            ),
        decreases length - i,
    {
        let byte: u8 = bytes_mut_as_slice(data)[i];
        bytes_mut_set(data, i, byte ^ mask[i % 4]);
        proof {
            assert(buffers::contents_mut(*data) == masked(before, mask@).take(i + 1) + before.skip(
                i + 1,
            ));
        }
        i = i + 1;
    }
    proof {
        assert(buffers::contents_mut(*data) == masked(before, mask@));
    }
}

/// Reads a frame out of the bytes at hand. Nothing comes back, and nothing is taken, as long as
/// more bytes are needed; nothing is taken either where no frame can come of them.
pub fn try_parse_frame_buffered(buffer: &mut BytesMut, max_message_size: usize) -> (r: Option<
    Result<WsFrame, WebSocketError>,
>)
    ensures
        match reading_of(buffers::contents_mut(*old(buffer)), max_message_size as int) {
            Reading::Incomplete => r is None && *final(buffer) == *old(buffer),
            Reading::Malformed(e) => r == Some(Err::<WsFrame, WebSocketError>(e))
                && *final(buffer) == *old(buffer),
            Reading::Complete(frame, size) => {
                &&& r matches Some(Ok(got))
                &&& got@ == frame
                &&& buffers::contents_mut(*final(buffer)) == buffers::contents_mut(
                    *old(buffer),
                ).skip(size)
            },
        },
{
    let bytes = bytes_mut_as_slice(buffer);
    let available: usize = bytes.len();
    if available < 2 {
        return None;
    }
    let byte0: u8 = bytes[0];
    let byte1: u8 = bytes[1];
    if byte0 / 0x10 % 8 != 0 {
        return Some(Err(WebSocketError::ReservedBitsNotZero));
    }
    let opcode = match OpCode::from_bits(byte0 % 0x10) {
        Some(opcode) => opcode,
        None => return Some(Err(WebSocketError::InvalidOpCode)),
    };
    if byte1 < 0x80 {
        return Some(Err(WebSocketError::UnmaskedClientFrame));
    }
    let fin = byte0 >= 0x80;
    let code: u8 = byte1 % 0x80;
    let extra: usize = match code {
        126 => 2,
        127 => 8,
        _ => 0,
    };
    let start: usize = 2 + extra + 4;
    if available < start {
        return None;
    }
    let length: u64 = if extra == 0 {
        code as u64
    } else {
        read_be(bytes, 2, extra)
    };
    if opcode.is_control() && !fin {
        return Some(Err(WebSocketError::ControlFrameFragmented));
    }
    if opcode.is_control() && length > 125 {
        return Some(Err(WebSocketError::ControlFrameTooLarge));
    }
    if length > max_message_size as u64 {
        return Some(Err(WebSocketError::FrameTooLarge));
    }
    if ((available - start) as u64) < length {
        return None;
    }
    let mask: [u8; 4] = [
        bytes[start - 4],
        bytes[start - 3],
        bytes[start - 2],
        bytes[start - 1],
    ];
    let ghost before = buffers::contents_mut(*buffer);
    bytes_mut_advance(buffer, start);
    let mut payload = buffer.split_to(length as usize);
    proof {
        assert(before.skip(start as int).take(length as int) == before.subrange(
            start as int,
            start + length,
        ));
        assert(before.skip(start as int).skip(length as int) == before.skip(start + length));
        assert(mask@ == before.subrange(start - 4, start as int));
    }
    unmask(&mut payload, mask);
    Some(Ok(WsFrame { fin, opcode, payload }))
}

// ---------------------------------------------------------------------------------------
// Reading through to Wisp packets
// ---------------------------------------------------------------------------------------

/// What a frame means to a Wisp connection.
#[derive(Debug)]
pub enum WispFrameResult {
    /// A binary frame, with the header of its packet taken off. A frame too short for a header
    /// counts as a packet of type zero.
    Wisp { packet_type: u8, stream_id: u32, payload: BytesMut },
    /// Any other frame.
    Control(WsFrame),
}

/// What a frame means, as a mathematical value.
#[verifier::ext_equal]
pub enum WispReading {
    Wisp { packet_type: u8, stream_id: u32, payload: Seq<u8> },
    Control(WsFrameView),
}

impl View for WispFrameResult {
    type V = WispReading;

    open spec fn view(&self) -> WispReading {
        match *self {
            WispFrameResult::Wisp { packet_type, stream_id, payload } => WispReading::Wisp {
                packet_type,
                stream_id,
                payload: buffers::contents_mut(payload),
            },
            WispFrameResult::Control(frame) => WispReading::Control(frame@),
        }
    }
}

/// What a frame means to a Wisp connection.
pub open spec fn wisp_reading(frame: WsFrameView) -> WispReading {
    let payload = frame.payload;
    if frame.opcode != OpCode::Binary {
        WispReading::Control(frame)
    } else if payload.len() < WISP_HEADER_SIZE {
        WispReading::Wisp { packet_type: 0, stream_id: 0, payload }
    } else {
        WispReading::Wisp {
            packet_type: payload[0],
            stream_id: frame::id_of(payload),
            payload: payload.skip(WISP_HEADER_SIZE as int),
        }
    }
}

/// Whether a frame claims to be text and is not.
pub open spec fn is_bad_text(frame: WsFrameView) -> bool {
    frame.opcode == OpCode::Text && frame.fin && !vstd::utf8::valid_utf8(frame.payload)
}

/// What a frame means to a Wisp connection.
fn read_through(frame: WsFrame) -> (r: WispFrameResult)
    ensures
        r@ == wisp_reading(frame@),
{
    if frame.opcode != OpCode::Binary {
        return WispFrameResult::Control(frame);
    }
    let mut payload = frame.payload;
    if payload.len() < WISP_HEADER_SIZE {
        return WispFrameResult::Wisp { packet_type: 0, stream_id: 0, payload };
    }
    let packet_type: u8 = bytes_mut_as_slice(&payload)[0];
    let stream_id: u32 = read_u32_le(bytes_mut_as_slice(&payload), 1);
    bytes_mut_advance(&mut payload, WISP_HEADER_SIZE);
    WispFrameResult::Wisp { packet_type, stream_id, payload }
}

/// The bytes that a client has sent and that were not read yet.
#[derive(Debug)]
pub struct FrameReader {
    /// The bytes, oldest first. New ones go to the end.
    pub buffer: BytesMut,
    /// The largest message that is accepted.
    pub max_message_size: usize,
}

/// The result of reading a frame, given what the bytes at hand amount to.
pub open spec fn reads(
    reading: Reading,
    before: Seq<u8>,
    after: Seq<u8>,
    checks_text: bool,
    r: Option<Result<WispFrameResult, WebSocketError>>,
) -> bool {
    match reading {
        Reading::Incomplete => r is None && after == before,
        Reading::Malformed(e) => r == Some(Err::<WispFrameResult, WebSocketError>(e)) && after
            == before,
        Reading::Complete(frame, size) => {
            &&& after == before.skip(size)
            &&& if checks_text && is_bad_text(frame) {
                r == Some(Err::<WispFrameResult, WebSocketError>(WebSocketError::InvalidUtf8))
            } else {
                r matches Some(Ok(got)) && got@ == wisp_reading(frame)
            }
        },
    }
}

impl FrameReader {
    /// A reader that starts with some bytes. A limit of zero stands for none.
    pub fn new(buffer: BytesMut, max_frame_size: usize) -> (r: Self)
        ensures
            r.buffer == buffer,
            r.max_message_size == if max_frame_size == 0 {
                usize::MAX
            } else {
                max_frame_size
            },
    {
        let max_message_size: usize = if max_frame_size == 0 {
            usize::MAX
        } else {
            max_frame_size
        };
        FrameReader { buffer, max_message_size }
    }

    /// Reads the next frame that has arrived in full.
    pub fn try_read_wisp_frame(&mut self) -> (r: Option<Result<WispFrameResult, WebSocketError>>)
        ensures
            final(self).max_message_size == old(self).max_message_size,
            reads(
                reading_of(
                    buffers::contents_mut(old(self).buffer),
                    old(self).max_message_size as int,
                ),
                buffers::contents_mut(old(self).buffer),
                buffers::contents_mut(final(self).buffer),
                false,
                r,
            ),
    {
        match try_parse_frame_buffered(&mut self.buffer, self.max_message_size) {
            None => None,
            Some(Err(e)) => Some(Err(e)),
            Some(Ok(frame)) => Some(Ok(read_through(frame))),
        }
    }

    /// Reads the next frame that has arrived in full, for a caller that waits for it, as it is.
    /// A text frame that is whole must be UTF-8 here.
    pub fn read_frame(&mut self) -> (r: Option<Result<WsFrame, WebSocketError>>)
        ensures
            final(self).max_message_size == old(self).max_message_size,
            ({
                let before = buffers::contents_mut(old(self).buffer);
                let after = buffers::contents_mut(final(self).buffer);
                match reading_of(before, old(self).max_message_size as int) {
                    Reading::Incomplete => r is None && after == before,
                    Reading::Malformed(e) => r == Some(Err::<WsFrame, WebSocketError>(e))
                        && after == before,
                    Reading::Complete(frame, size) => {
                        &&& after == before.skip(size)
                        &&& if is_bad_text(frame) {
                            r == Some(
                                Err::<WsFrame, WebSocketError>(WebSocketError::InvalidUtf8),
                            )
                        } else {
                            r matches Some(Ok(got)) && got@ == frame
                        }
                    },
                }
            }),
    {
        match try_parse_frame_buffered(&mut self.buffer, self.max_message_size) {
            None => None,
            Some(Err(e)) => Some(Err(e)),
            Some(Ok(frame)) => {
                if frame.opcode == OpCode::Text && frame.fin && text_of_utf8(
                    bytes_mut_as_slice(&frame.payload),
                ).is_none() {
                    return Some(Err(WebSocketError::InvalidUtf8));
                }
                Some(Ok(frame))
            },
        }
    }

    /// Reads the next frame that has arrived in full, for a caller that waits for it. A text
    /// frame that is whole must be UTF-8 here.
    pub fn read_wisp_frame(&mut self) -> (r: Option<Result<WispFrameResult, WebSocketError>>)
        ensures
            final(self).max_message_size == old(self).max_message_size,
            reads(
                reading_of(
                    buffers::contents_mut(old(self).buffer),
                    old(self).max_message_size as int,
                ),
                buffers::contents_mut(old(self).buffer),
                buffers::contents_mut(final(self).buffer),
                true,
                r,
            ),
    {
        match self.read_frame() {
            None => None,
            Some(Err(e)) => Some(Err(e)),
            Some(Ok(frame)) => Some(Ok(read_through(frame))),
        }
    }
}

// ---------------------------------------------------------------------------------------
// Laws
// ---------------------------------------------------------------------------------------

/// A frame as a client sends it, with the shortest form of the length.
pub open spec fn client_bytes(frame: WsFrameView, mask: Seq<u8>) -> Seq<u8> {
    let length = frame.payload.len();
    let first = (opcode_bits(frame.opcode) + if frame.fin {
        0x80int
    } else {
        0
    }) as u8;
    let head = if length <= 125 {
        seq![first, (0x80 + length) as u8]
    } else if length <= 0xffff {
        seq![first, 0xfeu8] + wire::be_of_nat(length, 2)
    } else {
        seq![first, 0xffu8] + wire::be_of_nat(length, 8)
    };
    head + mask + masked(frame.payload, mask)
}

/// Masking twice with the same mask gives the data back.
pub proof fn masking_twice_is_nothing(data: Seq<u8>, mask: Seq<u8>)
    ensures
        masked(masked(data, mask), mask) == data,
{
    assert forall|i: int| 0 <= i < data.len() implies #[trigger] masked(masked(data, mask), mask)[i]
        == data[i] by {
        let a = data[i];
        let b = mask[i % 4];
        assert((a ^ b) ^ b == a) by (bit_vector);
    }
    assert(masked(masked(data, mask), mask) == data);
}

/// A frame of a client is read as it was sent, whatever its mask and whatever follows it, and
/// the bytes that follow it are left: if it is a control frame it must be whole and carry at
/// most 125 bytes, and any frame must be within the limit.
pub proof fn client_frame_survives_the_wire(
    frame: WsFrameView,
    mask: Seq<u8>,
    rest: Seq<u8>,
    max: int,
)
    requires
        mask.len() == 4,
        frame.payload.len() <= max,
        frame.payload.len() <= u64::MAX,
        is_control_opcode(frame.opcode) ==> frame.fin && frame.payload.len() <= 125,
    ensures
        reading_of(client_bytes(frame, mask) + rest, max) == Reading::Complete(
            frame,
            client_bytes(frame, mask).len() as int,
        ),
        (client_bytes(frame, mask) + rest).skip(client_bytes(frame, mask).len() as int) == rest,
{
    let length = frame.payload.len();
    let bytes = client_bytes(frame, mask) + rest;
    reveal_with_fuel(vstd::arithmetic::power::pow, 9);
    assert(vstd::arithmetic::power::pow(0x100, 2) == 0x1_0000);
    assert(vstd::arithmetic::power::pow(0x100, 8) == 0x1_0000_0000_0000_0000);
    if 125 < length <= 0xffff {
        wire::nat_survives_be(length, 2);
        assert(bytes.subrange(2, 4) == wire::be_of_nat(length, 2));
    } else if length > 0xffff {
        wire::nat_survives_be(length, 8);
        assert(bytes.subrange(2, 10) == wire::be_of_nat(length, 8));
    }
    let start = header_size(bytes);
    assert(payload_length(bytes) == length);
    assert(bytes.subrange(start - 4, start) == mask);
    assert(bytes.subrange(start, start + length as int) == masked(frame.payload, mask));
    masking_twice_is_nothing(frame.payload, mask);
    assert(bytes.skip(client_bytes(frame, mask).len() as int) == rest);
}

/// Bytes that arrive later change neither a frame that was read nor an error.
pub proof fn later_bytes_change_nothing(bytes: Seq<u8>, more: Seq<u8>, max: int)
    requires
        !(reading_of(bytes, max) is Incomplete),
    ensures
        reading_of(bytes + more, max) == reading_of(bytes, max),
{
    let all = bytes + more;
    if bytes[0] / 0x10 % 8 == 0 && opcode_of((bytes[0] % 0x10) as u8) is Some && bytes[1] >= 0x80 {
        let start = header_size(bytes);
        let extra = length_bytes((bytes[1] % 0x80) as u8);
        assert(all.subrange(2, 2 + extra) == bytes.subrange(2, 2 + extra));
        let length = payload_length(bytes);
        assert(payload_length(all) == length);
        assert(all.subrange(start - 4, start) == bytes.subrange(start - 4, start));
        if reading_of(bytes, max) is Complete {
            assert(all.subrange(start, start + length) == bytes.subrange(start, start + length));
        }
    }
}

/// A frame that was read takes at least its six bytes of header, and no more bytes than there
/// are.
pub proof fn reading_makes_progress(bytes: Seq<u8>, max: int)
    ensures
        reading_of(bytes, max) matches Reading::Complete(_, size) ==> 6 <= size <= bytes.len(),
{
}

/// A packet of any type that a client sends in a binary frame is read as that type, that stream
/// and that body, and so it is parsed.
pub proof fn client_packet_survives_the_wire(
    packet_type: u8,
    stream_id: u32,
    body: Seq<u8>,
    fin: bool,
)
    ensures
        ({
            let payload = seq![packet_type] + wire::le_of_u32(stream_id) + body;
            &&& wisp_reading(WsFrameView { fin, opcode: OpCode::Binary, payload }) == (
            WispReading::Wisp { packet_type, stream_id, payload: body })
            &&& frame::frame_of(payload) matches Some(parsed) ==> {
                &&& parsed is Connect <==> packet_type == 0x01
                &&& parsed is Data <==> packet_type == 0x02
                &&& parsed is Continue <==> packet_type == 0x03
                &&& parsed is Close <==> packet_type == 0x04
                &&& parsed is Info <==> packet_type == 0x05
            }
        }),
{
    let payload = seq![packet_type] + wire::le_of_u32(stream_id) + body;
    assert(payload.subrange(1, 5) == wire::le_of_u32(stream_id));
    wire::u32_survives_le(stream_id);
    assert(payload.skip(5) == body);
}

/// A packet of any type that a client sends, whatever its mask and whatever follows, comes out of
/// the reader as it was sent, and what follows is left.
pub proof fn readers_return_what_clients_send(
    packet_type: u8,
    stream_id: u32,
    body: Seq<u8>,
    mask: Seq<u8>,
    rest: Seq<u8>,
    max: int,
    checks_text: bool,
    after: Seq<u8>,
    r: Option<Result<WispFrameResult, WebSocketError>>,
)
    requires
        mask.len() == 4,
        5 + body.len() <= max,
        5 + body.len() <= u64::MAX,
        ({
            let payload = seq![packet_type] + wire::le_of_u32(stream_id) + body;
            let frame = WsFrameView { fin: true, opcode: OpCode::Binary, payload };
            let bytes = client_bytes(frame, mask) + rest;
            reads(reading_of(bytes, max), bytes, after, checks_text, r)
        }),
    ensures
        r matches Some(Ok(got)) && got@ == (WispReading::Wisp {
            packet_type,
            stream_id,
            payload: body,
        }),
        after == rest,
{
    let payload = seq![packet_type] + wire::le_of_u32(stream_id) + body;
    client_packet_survives_the_wire(packet_type, stream_id, body, true);
    client_frame_survives_the_wire(
        WsFrameView { fin: true, opcode: OpCode::Binary, payload },
        mask,
        rest,
        max,
    );
}

/// Every frame that is not binary is handed on as it is, but for text that is none. A binary frame
/// too short for a packet counts as one of no known type.
pub proof fn other_frames_are_handed_on(frame: WsFrameView)
    ensures
        frame.opcode != OpCode::Binary ==> wisp_reading(frame) == WispReading::Control(frame),
        frame.opcode == OpCode::Binary ==> wisp_reading(frame) is Wisp,
        frame.opcode == OpCode::Binary && frame.payload.len() < 5 ==> wisp_reading(frame) == (
        WispReading::Wisp { packet_type: 0, stream_id: 0, payload: frame.payload }),
        is_bad_text(frame) <==> {
            &&& frame.opcode == OpCode::Text
            &&& frame.fin
            &&& !vstd::utf8::valid_utf8(frame.payload)
        },
{
}

/// As long as any byte of a frame is missing, more bytes are waited for.
pub proof fn cut_frames_are_waited_for(frame: WsFrameView, mask: Seq<u8>, count: int, max: int)
    requires
        mask.len() == 4,
        frame.payload.len() <= max,
        frame.payload.len() <= u64::MAX,
        is_control_opcode(frame.opcode) ==> frame.fin && frame.payload.len() <= 125,
        0 <= count < client_bytes(frame, mask).len(),
    ensures
        reading_of(client_bytes(frame, mask).take(count), max) is Incomplete,
{
    let cut = client_bytes(frame, mask).take(count);
    let missing = client_bytes(frame, mask).skip(count);
    client_frame_survives_the_wire(frame, mask, seq![], max);
    assert(client_bytes(frame, mask) + Seq::<u8>::empty() == client_bytes(frame, mask));
    assert(cut + missing == client_bytes(frame, mask));
    if !(reading_of(cut, max) is Incomplete) {
        later_bytes_change_nothing(cut, missing, max);
        reading_makes_progress(cut, max);
    }
}

/// A frame that is read is the one that the bytes hold: its first byte gives the kind and whether
/// it is whole, its payload stands at the end under the mask right before it, and it is no larger
/// than is accepted.
pub proof fn what_is_read_was_sent(bytes: Seq<u8>, max: int)
    ensures
        reading_of(bytes, max) matches Reading::Complete(frame, size) ==> {
            let start = size - frame.payload.len();
            &&& frame.fin == (bytes[0] / 0x80 == 1)
            &&& opcode_bits(frame.opcode) == bytes[0] % 0x10
            &&& bytes[0] / 0x10 % 8 == 0
            &&& bytes[1] / 0x80 == 1
            &&& frame.payload.len() <= max
            &&& start == 6 || start == 8 || start == 14
            &&& start == 6 ==> frame.payload.len() == bytes[1] % 0x80
            &&& start == 8 ==> frame.payload.len() == bytes[2] * 0x100 + bytes[3]
            &&& forall|i: int|
                0 <= i < frame.payload.len() ==> #[trigger] frame.payload[i] == bytes[start + i]
                    ^ bytes[start - 4 + i % 4]
        },
{
    if let Reading::Complete(frame, size) = reading_of(bytes, max) {
        let start = header_size(bytes);
        if start == 8 {
            let two = bytes.subrange(2, 4);
            reveal_with_fuel(wire::nat_of_be, 3);
            assert(two.drop_last().last() == bytes[2]);
            assert(two.last() == bytes[3]);
            assert(two.drop_last().drop_last().len() == 0);
        }
        assert forall|i: int| 0 <= i < frame.payload.len() implies #[trigger] frame.payload[i]
            == bytes[start + i] ^ bytes[start - 4 + i % 4] by {
            assert(bytes.subrange(start, size)[i] == bytes[start + i]);
            assert(bytes.subrange(start - 4, start)[i % 4] == bytes[start - 4 + i % 4]);
        }
    }
}

/// Each fault of a frame is told as what it is, the first one first.
pub proof fn faults_are_told(bytes: Seq<u8>, max: int)
    requires
        bytes.len() >= 14,
    ensures
        ({
            let kind = bytes[0] % 0x10;
            let control = 8 <= kind <= 10;
            let r = reading_of(bytes, max);
            if bytes[0] / 0x10 % 8 != 0 {
                r == Reading::Malformed(WebSocketError::ReservedBitsNotZero)
            } else if !(kind <= 2 || control) {
                r == Reading::Malformed(WebSocketError::InvalidOpCode)
            } else if bytes[1] / 0x80 == 0 {
                r == Reading::Malformed(WebSocketError::UnmaskedClientFrame)
            } else if control && bytes[0] / 0x80 == 0 {
                r == Reading::Malformed(WebSocketError::ControlFrameFragmented)
            } else if control && bytes[1] % 0x80 > 125 && payload_length(bytes) > 125 {
                r == Reading::Malformed(WebSocketError::ControlFrameTooLarge)
            } else if payload_length(bytes) > max {
                r == Reading::Malformed(WebSocketError::FrameTooLarge)
            } else {
                !(r is Malformed)
            }
        }),
{
}

/// A Wisp DATA packet that a client sends in a binary frame is read as that stream's data.
pub proof fn client_data_survives_the_wire(stream_id: u32, data: Seq<u8>)
    ensures
        wisp_reading(
            WsFrameView {
                fin: true,
                opcode: OpCode::Binary,
                payload: frame::header_bytes(crate::protocol::types::PACKET_DATA, stream_id) + data,
            },
        ) == (WispReading::Wisp {
            packet_type: crate::protocol::types::PACKET_DATA,
            stream_id,
            payload: data,
        }),
{
    let packet = frame::header_bytes(crate::protocol::types::PACKET_DATA, stream_id) + data;
    frame::data_survives_the_wire(stream_id, data);
    assert(packet.skip(WISP_HEADER_SIZE as int) == data);
}

/// Each kind of frame has its number, and no other number stands for one.
pub proof fn kinds_have_their_numbers(bits: u8, opcode: OpCode)
    ensures
        opcode_of(bits) == Some(opcode) <==> bits == opcode_bits(opcode),
        opcode == OpCode::Continuation <==> opcode_bits(opcode) == 0x0,
        opcode == OpCode::Text <==> opcode_bits(opcode) == 0x1,
        opcode == OpCode::Binary <==> opcode_bits(opcode) == 0x2,
        opcode == OpCode::Close <==> opcode_bits(opcode) == 0x8,
        opcode == OpCode::Ping <==> opcode_bits(opcode) == 0x9,
        opcode == OpCode::Pong <==> opcode_bits(opcode) == 0xa,
        opcode_of(bits) is Some <==> bits <= 2 || (8 <= bits && bits <= 10),
        is_control_opcode(opcode) <==> opcode_bits(opcode) >= 8,
{
}

/// The length stands in the second byte if it is below 126, in the next two if the second byte
/// says 126, and in the next eight if it says 127; a frame is read as soon as its header, its mask
/// and that many bytes are there, and not before.
pub proof fn frames_take_their_length(bytes: Seq<u8>, max: int)
    requires
        bytes.len() >= 2,
    ensures
        ({
            let code = bytes[1] % 0x80;
            let start = if code == 127 {
                14int
            } else if code == 126 {
                8
            } else {
                6
            };
            let length = if code == 127 {
                wire::nat_of_be(bytes.subrange(2, 10)) as int
            } else if code == 126 {
                wire::nat_of_be(bytes.subrange(2, 4)) as int
            } else {
                code as int
            };
            let r = reading_of(bytes, max);
            &&& r matches Reading::Complete(frame, size) ==> {
                &&& size == start + length
                &&& frame.payload.len() == length
                &&& bytes.len() >= size
            }
            &&& r is Incomplete ==> bytes.len() < start + length || bytes.len() < start
            &&& bytes.len() < start + length || bytes.len() < start ==> !(r is Complete)
            &&& payload_length(bytes) == length
        }),
{
}

/// The errors in words.
pub proof fn errors_have_their_words(e: WebSocketError)
    ensures
        error_text(WebSocketError::ReservedBitsNotZero) == "Reserved bits are not zero"@,
        error_text(WebSocketError::InvalidOpCode) == "Invalid opcode"@,
        error_text(WebSocketError::UnmaskedClientFrame) == "Client frame is not masked"@,
        error_text(WebSocketError::ControlFrameFragmented)
            == "Control frame must not be fragmented"@,
        error_text(WebSocketError::ControlFrameTooLarge) == "Control frame too large"@,
        error_text(WebSocketError::FrameTooLarge) == "Frame too large"@,
        error_text(WebSocketError::InvalidUtf8) == "Invalid UTF-8"@,
        error_text(WebSocketError::UnexpectedEof) == "Unexpected EOF"@,
        error_text(e).len() > 0,
{
    reveal_strlit("Reserved bits are not zero");
    reveal_strlit("Invalid opcode");
    reveal_strlit("Client frame is not masked");
    reveal_strlit("Control frame must not be fragmented");
    reveal_strlit("Control frame too large");
    reveal_strlit("Frame too large");
    reveal_strlit("Invalid UTF-8");
    reveal_strlit("Unexpected EOF");
}

/// A reader that holds a client's packet of any type, followed by anything, hands out that packet
/// and keeps what follows it.
pub proof fn readers_hand_out_packets(
    reader: &mut FrameReader,
    packet_type: u8,
    stream_id: u32,
    body: Seq<u8>,
    mask: Seq<u8>,
    rest: Seq<u8>,
    r: Option<Result<WispFrameResult, WebSocketError>>,
)
    requires
        call_ensures(FrameReader::try_read_wisp_frame, (reader,), r) || call_ensures(
            FrameReader::read_wisp_frame,
            (reader,),
            r,
        ),
        mask.len() == 4,
        5 + body.len() <= old(reader).max_message_size,
        buffers::contents_mut(old(reader).buffer) == client_bytes(
            WsFrameView {
                fin: true,
                opcode: OpCode::Binary,
                payload: seq![packet_type] + wire::le_of_u32(stream_id) + body,
            },
            mask,
        ) + rest,
    ensures
        r matches Some(Ok(got)) && got@ == (WispReading::Wisp {
            packet_type,
            stream_id,
            payload: body,
        }),
        buffers::contents_mut(final(reader).buffer) == rest,
        final(reader).max_message_size == old(reader).max_message_size,
{
    let checks_text = !call_ensures(FrameReader::try_read_wisp_frame, (reader,), r);
    readers_return_what_clients_send(
        packet_type,
        stream_id,
        body,
        mask,
        rest,
        old(reader).max_message_size as int,
        checks_text,
        buffers::contents_mut(final(reader).buffer),
        r,
    );
}

/// A reader starts with the bytes that it is given, and accepts messages up to the limit, or of any
/// size if there is none.
pub proof fn readers_start_with_what_they_are_given(
    buffer: BytesMut,
    max_frame_size: usize,
    r: FrameReader,
)
    requires
        call_ensures(FrameReader::new, (buffer, max_frame_size), r),
    ensures
        buffers::contents_mut(r.buffer) == buffers::contents_mut(buffer),
        max_frame_size > 0 ==> r.max_message_size == max_frame_size,
        max_frame_size == 0 ==> r.max_message_size == usize::MAX,
{
}

/// A buffer that begins with a client's frame yields that frame and keeps what follows; one that
/// holds only a part of it yields nothing and is left alone.
pub proof fn buffers_yield_frames(
    buffer: &mut BytesMut,
    max: usize,
    frame: WsFrameView,
    mask: Seq<u8>,
    rest: Seq<u8>,
    count: int,
    r: Option<Result<WsFrame, WebSocketError>>,
)
    requires
        call_ensures(try_parse_frame_buffered, (buffer, max), r),
        mask.len() == 4,
        frame.payload.len() <= max,
        is_control_opcode(frame.opcode) ==> frame.fin && frame.payload.len() <= 125,
    ensures
        buffers::contents_mut(*old(buffer)) == client_bytes(frame, mask) + rest ==> {
            &&& r matches Some(Ok(got)) && got@ == frame
            &&& buffers::contents_mut(*final(buffer)) == rest
        },
        0 <= count < client_bytes(frame, mask).len() && buffers::contents_mut(*old(buffer))
            == client_bytes(frame, mask).take(count) ==> r is None && *final(buffer) == *old(buffer),
{
    client_frame_survives_the_wire(frame, mask, rest, max as int);
    if 0 <= count < client_bytes(frame, mask).len() {
        cut_frames_are_waited_for(frame, mask, count, max as int);
    }
}

} // verus!
