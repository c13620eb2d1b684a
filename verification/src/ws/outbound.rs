//! WebSocket frames to the client, which are never masked, and where to go on with a batch of
//! them that was written in part.

use bytes::Bytes;
use vstd::prelude::*;

use crate::buffers;
use crate::buffers::{bytes_from_vec, bytes_slice_from};
use crate::protocol::frame;
use crate::protocol::frame::{build_continue_frame, build_data_header};
use crate::protocol::types::{PACKET_DATA, WISP_HEADER_SIZE};
use crate::proxy::backlog;
use crate::proxy::stream;
use crate::wire;
use crate::wire::push_be;

verus! {

/// The largest header of a binary frame.
pub const WS_MAX_HEADER_SIZE: usize = 10;

/// What stands before the payload in a buffer that a backend is read into: room for the
/// frame's header, and the header of a DATA packet.
pub const PREFRAME_RESERVE: usize = 15;

/// How many bytes are read from a backend at a time.
pub const READ_SIZE: usize = 0x1_0000;

/// The header of a whole binary frame, with the shortest form of the length.
pub open spec fn binary_header(length: nat) -> Seq<u8> {
    if length <= 125 {
        seq![0x82u8, length as u8]
    } else if length <= 0xffff {
        seq![0x82u8, 126u8] + wire::be_of_nat(length, 2)
    } else {
        seq![0x82u8, 127u8] + wire::be_of_nat(length, 8)
    }
}

/// A whole binary frame.
pub open spec fn binary_frame(payload: Seq<u8>) -> Seq<u8> {
    binary_header(payload.len()) + payload
}

/// A whole binary frame that carries a DATA packet.
pub open spec fn data_frame(stream_id: u32, payload: Seq<u8>) -> Seq<u8> {
    binary_frame(frame::header_bytes(PACKET_DATA, stream_id) + payload)
}

/// A pong that answers a ping: its payload, as far as a control frame may carry it.
pub open spec fn pong_frame(payload: Seq<u8>) -> Seq<u8> {
    let answer = if payload.len() <= 125 {
        payload
    } else {
        payload.take(125)
    };
    seq![0x8au8, answer.len() as u8] + answer
}

/// CONTINUE packets for some streams, each in a frame of its own.
pub open spec fn continue_frames(list: Seq<(u32, u32)>) -> Seq<u8>
    decreases list.len(),
{
    if list.len() == 0 {
        seq![]
    } else {
        continue_frames(list.drop_last()) + binary_frame(
            frame::continue_bytes(list.last().0, list.last().1),
        )
    }
}

/// The header of a whole binary frame.
pub fn ws_binary_header(length: usize) -> (r: Vec<u8>)
    ensures
        r@ == binary_header(length as nat),
{
    let mut header: Vec<u8> = Vec::new();
    header.push(0x82);
    if length <= 125 {
        header.push(length as u8);
    } else if length <= 0xffff {
        header.push(126);
        push_be(&mut header, length as u64, 2);
    } else {
        header.push(127);
        push_be(&mut header, length as u64, 8);
    }
    proof {
        assert(header@ == binary_header(length as nat));
    }
    header
}

/// A whole binary frame.
pub fn ws_binary_frame(payload: &[u8]) -> (r: Vec<u8>)
    ensures
        r@ == binary_frame(payload@),
{
    let mut bytes = ws_binary_header(payload.len());
    bytes.extend_from_slice(payload);
    proof {
        assert(bytes@ == binary_frame(payload@));
    }
    bytes
}

/// A pong that answers a ping.
pub fn ws_pong_frame(payload: &[u8]) -> (r: Vec<u8>)
    ensures
        r@ == pong_frame(payload@),
{
    let length: usize = if payload.len() <= 125 {
        payload.len()
    } else {
        125
    };
    let answer = vstd::slice::slice_subrange(payload, 0, length);
    let mut bytes: Vec<u8> = Vec::new();
    bytes.push(0x8a);
    bytes.push(length as u8);
    bytes.extend_from_slice(answer);
    proof {
        assert(bytes@ == pong_frame(payload@));
    }
    bytes
}

/// A ping without payload.
pub fn ws_ping_frame() -> (r: [u8; 2])
    ensures
        r@ == seq![0x89u8, 0x00u8],
{
    [0x89, 0x00]
}

/// A close without payload.
pub fn ws_close_frame() -> (r: [u8; 2])
    ensures
        r@ == seq![0x88u8, 0x00u8],
{
    [0x88, 0x00]
}

/// CONTINUE packets for some streams, as one run of bytes.
pub fn encode_continues(list: &[(u32, u32)]) -> (r: Vec<u8>)
    ensures
        r@ == continue_frames(list@),
{
    let mut bytes: Vec<u8> = Vec::new();
    let mut i: usize = 0;
    proof {
        assert(list@.take(0) == Seq::<(u32, u32)>::empty());
    }
    while i < list.len()
        invariant
            i <= list@.len(),
            bytes@ == continue_frames(list@.take(i as int)),
        decreases list@.len() - i,
    {
        let (stream_id, credit): (u32, u32) = list[i];
        let packet = build_continue_frame(stream_id, credit);
        let mut framed = ws_binary_frame(&packet);
        bytes.append(&mut framed);
        proof {
            assert(list@.take(i + 1).drop_last() == list@.take(i as int));
        }
        i = i + 1;
    }
    proof {
        assert(list@.take(list@.len() as int) == list@);
    }
    bytes
}

// ---------------------------------------------------------------------------------------
// Frames made in place
// ---------------------------------------------------------------------------------------

/// A buffer that a TCP backend of a stream is read into, from `PREFRAME_RESERVE` on.
pub fn preframe_buffer(stream_id: u32) -> (r: Vec<u8>)
    ensures
        r@.len() == PREFRAME_RESERVE + READ_SIZE,
        r@.subrange(WS_MAX_HEADER_SIZE as int, PREFRAME_RESERVE as int) == frame::header_bytes(
            PACKET_DATA,
            stream_id,
        ),
{
    let header = build_data_header(stream_id);
    let mut buf: Vec<u8> = vec![0u8; PREFRAME_RESERVE + READ_SIZE];
    let mut i: usize = 0;
    while i < WISP_HEADER_SIZE
        invariant
            i <= WISP_HEADER_SIZE,
            buf@.len() == PREFRAME_RESERVE + READ_SIZE,
            header@.len() == WISP_HEADER_SIZE,
            forall|j: int| 0 <= j < i ==> #[trigger] buf@[WS_MAX_HEADER_SIZE + j] == header@[j],
        decreases WISP_HEADER_SIZE - i,
    {
        buf[WS_MAX_HEADER_SIZE + i] = header[i];
        i = i + 1;
    }
    proof {
        let got = buf@.subrange(WS_MAX_HEADER_SIZE as int, PREFRAME_RESERVE as int);
        assert forall|j: int| 0 <= j < WISP_HEADER_SIZE implies #[trigger] got[j]
            == header@[j] by {
            assert(got[j] == buf@[WS_MAX_HEADER_SIZE + j]);
        }
        assert(got == header@);
    }
    buf
}

/// Makes a frame of what was read into a buffer: the frame's header is written right before
/// the DATA header, and what stands before it is dropped.
pub fn preframe(buf: Vec<u8>, read: usize) -> (r: Bytes)
    requires
        PREFRAME_RESERVE + read <= buf@.len(),
    ensures
        buffers::contents(r) == binary_frame(
            buf@.subrange(WS_MAX_HEADER_SIZE as int, PREFRAME_RESERVE + read),
        ),
{
    let mut buf = buf;
    let ghost packet = buf@.subrange(WS_MAX_HEADER_SIZE as int, PREFRAME_RESERVE + read);
    proof {
        assert(buf.len() == buf@.len());
    }
    buf.truncate(PREFRAME_RESERVE + read);
    let header = ws_binary_header(WISP_HEADER_SIZE + read);
    let size: usize = header.len();
    proof {
        assert(packet.len() == WISP_HEADER_SIZE + read);
        wire::be_length(packet.len(), 2);
        wire::be_length(packet.len(), 8);
    }
    let start: usize = WS_MAX_HEADER_SIZE - size;
    let mut i: usize = 0;
    while i < size
        invariant
            i <= size,
            size == header@.len(),
            size <= WS_MAX_HEADER_SIZE,
            start == WS_MAX_HEADER_SIZE - size,
            buf@.len() == PREFRAME_RESERVE + read,
            buf@.skip(WS_MAX_HEADER_SIZE as int) == packet,
            forall|j: int| 0 <= j < i ==> #[trigger] buf@[start + j] == header@[j],
        decreases size - i,
    {
        buf[start + i] = header[i];
        proof {
            assert(buf@.skip(WS_MAX_HEADER_SIZE as int) == packet);
        }
        i = i + 1;
    }
    proof {
        let got = buf@.skip(start as int);
        let expected = binary_frame(packet);
        assert(expected.len() == size + packet.len());
        assert forall|j: int| 0 <= j < got.len() implies #[trigger] got[j] == expected[j] by {
            if j < size {
                assert(got[j] == buf@[start + j]);
            } else {
                assert(got[j] == buf@.skip(WS_MAX_HEADER_SIZE as int)[j - size]);
            }
        }
        assert(got == expected);
    }
    let whole = bytes_from_vec(buf);
    bytes_slice_from(&whole, start)
}

/// A datagram from a UDP backend, as a frame.
pub fn preframe_datagram(stream_id: u32, payload: &[u8]) -> (r: Bytes)
    requires
        WISP_HEADER_SIZE + payload@.len() <= usize::MAX,
    ensures
        buffers::contents(r) == data_frame(stream_id, payload@),
{
    let mut bytes = ws_binary_header(WISP_HEADER_SIZE + payload.len());
    let header = build_data_header(stream_id);
    bytes.extend_from_slice(&header);
    bytes.extend_from_slice(payload);
    proof {
        assert(bytes@ == data_frame(stream_id, payload@));
    }
    bytes_from_vec(bytes)
}

// ---------------------------------------------------------------------------------------
// Batches written in part
// ---------------------------------------------------------------------------------------

/// How many frames at the front of a batch lie within its first `written` bytes.
pub open spec fn frames_settled(frames: Seq<Seq<u8>>, written: int) -> int
    decreases frames.len(),
{
    if frames.len() == 0 || frames[0].len() > written {
        0
    } else {
        1 + frames_settled(frames.skip(1), written - frames[0].len())
    }
}

/// What is left of a batch: the frames from the first unsettled one on, with its first bytes
/// left out.
pub open spec fn batch_rest(frames: Seq<Seq<u8>>, first: int, offset: int) -> Seq<u8> {
    frames.skip(first).flatten().skip(offset)
}

/// The settled frames are at most all frames, and they lie within what was written.
proof fn lemma_frames_settled(frames: Seq<Seq<u8>>, written: int)
    requires
        written >= 0,
    ensures
        0 <= frames_settled(frames, written) <= frames.len(),
        frames.take(frames_settled(frames, written)).flatten().len() <= written,
        frames_settled(frames, written) < frames.len() ==> written - frames.take(
            frames_settled(frames, written),
        ).flatten().len() < frames[frames_settled(frames, written)].len(),
    decreases frames.len(),
{
    let count = frames_settled(frames, written);
    if frames.len() == 0 || frames[0].len() > written {
        assert(frames.take(0).flatten() == Seq::<u8>::empty());
    } else {
        let rest = frames.skip(1);
        lemma_frames_settled(rest, written - frames[0].len());
        let inner = frames_settled(rest, written - frames[0].len());
        backlog::lemma_flatten_first(frames.take(count));
        assert(frames.take(count).skip(1) == rest.take(inner));
    }
}

/// A batch is at least as long as the frames before one of its frames and that frame.
proof fn lemma_unsettled_bytes(frames: Seq<Seq<u8>>, first: int)
    requires
        0 <= first < frames.len(),
    ensures
        frames.flatten().len() >= frames.take(first).flatten().len() + frames[first].len(),
{
    let done = frames.take(first);
    let rest = frames.skip(first);
    assert(frames == done + rest);
    vstd::seq_lib::lemma_flatten_concat(done, rest);
    backlog::lemma_flatten_first(rest);
}

/// The number of frames of a batch that lie within its first `written` bytes, and how many of
/// those bytes lie behind them.
fn settle_frames(frames: &[Bytes], written: usize) -> (r: (usize, usize))
    ensures
        r.0 == frames_settled(stream::chunks(frames@), written as int),
        r.0 <= frames@.len(),
        r.1 == written - stream::chunks(frames@).take(r.0 as int).flatten().len(),
{
    let ghost all = stream::chunks(frames@);
    let mut consumed: usize = 0;
    let mut first: usize = 0;
    proof {
        assert(all.skip(0) == all);
        assert(all.take(0).flatten() == Seq::<u8>::empty());
    }
    while first < frames.len()
        invariant
            first <= frames@.len(),
            all == stream::chunks(frames@),
            consumed <= written,
            consumed == all.take(first as int).flatten().len(),
            first + frames_settled(all.skip(first as int), written - consumed) == frames_settled(
                all,
                written as int,
            ),
        ensures
            frames_settled(all.skip(first as int), written - consumed) == 0,
        decreases frames@.len() - first,
    {
        let size: usize = frames[first].len();
        proof {
            assert(all.skip(first as int)[0] == buffers::contents(frames@[first as int]));
        }
        if size > written - consumed {
            break ;
        }
        proof {
            assert(all.skip(first as int).skip(1) == all.skip(first + 1));
            assert(all.take(first + 1) == all.take(first as int).push(all[first as int]));
            all.take(first as int).lemma_flatten_push(all[first as int]);
        }
        consumed = consumed + size;
        first = first + 1;
    }
    (first, written - consumed)
}

/// Where to go on with a batch of which the first `written` bytes were written: the first frame
/// that was not written in full, and how much of it was.
pub fn resume_batch(frames: &[Bytes], written: usize) -> (r: (usize, usize))
    ensures
        r.0 == frames_settled(stream::chunks(frames@), written as int),
        r.1 == if r.0 < frames@.len() {
            written - stream::chunks(frames@).take(r.0 as int).flatten().len()
        } else {
            0
        },
{
    let (first, behind) = settle_frames(frames, written);
    if first < frames.len() {
        (first, behind)
    } else {
        (first, 0)
    }
}

/// What is to be done about a batch after the first attempt to write it.
#[derive(Debug, Clone, Copy, PartialEq, Eq, Structural)]
pub enum BatchStep {
    /// Nothing more.
    Done,
    /// Go on with this frame, of which so many bytes were written.
    Resume { first: usize, offset: usize },
    /// Nothing was written though something was due: that is an error.
    WriteZero,
}

/// Tells what is to be done about a batch of which the first `written` bytes were written.
pub fn batch_step(frames: &[Bytes], written: usize) -> (r: BatchStep)
    ensures
        r == BatchStep::Done <==> written == stream::chunks(frames@).flatten().len(),
        r == BatchStep::WriteZero <==> written == 0 && stream::chunks(frames@).flatten().len() > 0,
        r matches BatchStep::Resume { first, offset } ==> {
            &&& first == frames_settled(stream::chunks(frames@), written as int)
            &&& offset == if first < frames@.len() {
                written - stream::chunks(frames@).take(first as int).flatten().len()
            } else {
                0
            }
        },
{
    let (first, behind) = settle_frames(frames, written);
    proof {
        let all = stream::chunks(frames@);
        lemma_frames_settled(all, written as int);
        if first < all.len() {
            lemma_unsettled_bytes(all, first as int);
        } else {
            assert(all.take(first as int) == all);
        }
    }
    if first < frames.len() {
        if written == 0 {
            BatchStep::WriteZero
        } else {
            BatchStep::Resume { first, offset: behind }
        }
    } else if behind == 0 {
        BatchStep::Done
    } else {
        BatchStep::Resume { first, offset: 0 }
    }
}

// ---------------------------------------------------------------------------------------
// Laws
// ---------------------------------------------------------------------------------------

/// The first `written` bytes of a batch, followed by what is left of it, are the batch.
pub proof fn resuming_completes_the_batch(frames: Seq<Seq<u8>>, written: int)
    requires
        0 <= written <= frames.flatten().len(),
    ensures
        ({
            let first = frames_settled(frames, written);
            let offset = if first < frames.len() {
                written - frames.take(first).flatten().len()
            } else {
                0
            };
            frames.flatten().take(written) + batch_rest(frames, first, offset) == frames.flatten()
        }),
{
    let first = frames_settled(frames, written);
    lemma_frames_settled(frames, written);
    let done = frames.take(first);
    let rest = frames.skip(first);
    assert(frames == done + rest);
    vstd::seq_lib::lemma_flatten_concat(done, rest);
    let all = frames.flatten();
    assert(all == done.flatten() + rest.flatten());
    let offset = if first < frames.len() {
        written - done.flatten().len()
    } else {
        0
    };
    if first < frames.len() {
        backlog::lemma_flatten_first(rest);
        assert(all.take(written) + rest.flatten().skip(offset) == all);
    } else {
        assert(done == frames);
        assert(rest.flatten() == Seq::<u8>::empty());
        assert(all.take(written) + rest.flatten().skip(0) == all.take(written));
        assert(written == all.len());
        assert(all.take(written) == all);
    }
}

/// The bytes of a TCP backend that was read into a stream's buffer reach the client as that
/// stream's DATA packet.
pub proof fn preframed_data_is_a_data_packet(stream_id: u32, buf: Seq<u8>, read: int)
    requires
        0 <= read,
        PREFRAME_RESERVE + read <= buf.len(),
        buf.subrange(WS_MAX_HEADER_SIZE as int, PREFRAME_RESERVE as int) == frame::header_bytes(
            PACKET_DATA,
            stream_id,
        ),
    ensures
        binary_frame(buf.subrange(WS_MAX_HEADER_SIZE as int, PREFRAME_RESERVE + read))
            == data_frame(
            stream_id,
            buf.subrange(PREFRAME_RESERVE as int, PREFRAME_RESERVE + read),
        ),
{
    let packet = buf.subrange(WS_MAX_HEADER_SIZE as int, PREFRAME_RESERVE + read);
    let header = frame::header_bytes(PACKET_DATA, stream_id);
    let payload = buf.subrange(PREFRAME_RESERVE as int, PREFRAME_RESERVE + read);
    assert(packet == buf.subrange(WS_MAX_HEADER_SIZE as int, PREFRAME_RESERVE as int) + payload);
    assert(packet == header + payload);
}

/// The payload of a server's binary frame, as a client finds it: behind two bytes and as many
/// more as the length needs.
pub open spec fn binary_payload(bytes: Seq<u8>) -> Seq<u8> {
    let skipped = if bytes[1] == 127 {
        10int
    } else if bytes[1] == 126 {
        4
    } else {
        2
    };
    let length = if bytes[1] < 126 {
        bytes[1] as int
    } else {
        wire::nat_of_be(bytes.subrange(2, skipped)) as int
    };
    bytes.subrange(skipped, skipped + length)
}

/// A client finds in a server's binary frame the payload that it was made of, whatever follows
/// the frame.
pub proof fn binary_frame_survives_the_wire(payload: Seq<u8>, rest: Seq<u8>)
    requires
        payload.len() <= u64::MAX,
    ensures
        binary_payload(binary_frame(payload) + rest) == payload,
{
    let length = payload.len();
    let bytes = binary_frame(payload) + rest;
    reveal_with_fuel(vstd::arithmetic::power::pow, 9);
    assert(vstd::arithmetic::power::pow(0x100, 2) == 0x1_0000);
    assert(vstd::arithmetic::power::pow(0x100, 8) == 0x1_0000_0000_0000_0000);
    if length <= 125 {
        assert(bytes.subrange(2, 2 + length as int) == payload);
    } else if length <= 0xffff {
        wire::nat_survives_be(length, 2);
        assert(bytes.subrange(2, 4) == wire::be_of_nat(length, 2));
        assert(bytes.subrange(4, 4 + length as int) == payload);
    } else {
        wire::nat_survives_be(length, 8);
        assert(bytes.subrange(2, 10) == wire::be_of_nat(length, 8));
        assert(bytes.subrange(10, 10 + length as int) == payload);
    }
}

/// A client that takes a DATA frame apart finds the stream's data, byte for byte.
pub proof fn data_frame_survives_the_wire(stream_id: u32, payload: Seq<u8>, rest: Seq<u8>)
    requires
        WISP_HEADER_SIZE + payload.len() <= u64::MAX,
    ensures
        frame::frame_of(binary_payload(data_frame(stream_id, payload) + rest)) == Some(
            frame::FrameView::Data { stream_id, payload },
        ),
{
    binary_frame_survives_the_wire(frame::header_bytes(PACKET_DATA, stream_id) + payload, rest);
    frame::data_survives_the_wire(stream_id, payload);
}

/// A server's binary frame is whole, unmasked and of the shortest form: it begins with 0x82, its
/// second byte is the length if that is below 126 and says how many bytes hold it if not, and its
/// header takes two bytes and those.
pub proof fn binary_frames_are_of_the_shortest_form(payload: Seq<u8>)
    ensures
        ({
            let frame = binary_frame(payload);
            let length = payload.len();
            &&& frame[0] == 0x82
            &&& length < 126 ==> frame[1] == length && frame.len() == 2 + length
            &&& 126 <= length < 0x1_0000 ==> frame[1] == 126 && frame.len() == 4 + length
            &&& length >= 0x1_0000 ==> frame[1] == 127 && frame.len() == 10 + length
        }),
{
    wire::be_length(payload.len(), 2);
    wire::be_length(payload.len(), 8);
}

/// A pong carries the bytes of the ping that it answers, all of them if a control frame can.
pub proof fn pongs_carry_what_pings_carried(payload: Seq<u8>)
    ensures
        ({
            let frame = pong_frame(payload);
            &&& frame[0] == 0x8a
            &&& frame.len() == 2 + frame[1]
            &&& payload.len() <= 125 ==> frame.skip(2) == payload
            &&& payload.len() > 125 ==> frame[1] == 125 && frame.skip(2) == payload.take(125)
        }),
{
    let frame = pong_frame(payload);
    if payload.len() <= 125 {
        assert(frame.skip(2) == payload);
    } else {
        assert(frame.skip(2) == payload.take(125));
    }
}

/// Each CONTINUE packet takes eleven bytes, and they come in order, none left out.
pub proof fn continues_come_in_order(list: Seq<(u32, u32)>, i: int)
    ensures
        continue_frames(list).len() == 11 * list.len(),
        0 <= i < list.len() ==> continue_frames(list).subrange(11 * i, 11 * i + 11) == seq![
            0x82u8,
            0x09u8,
            0x03u8,
        ] + wire::le_of_u32(list[i].0) + wire::le_of_u32(list[i].1),
    decreases list.len(),
{
    if list.len() > 0 {
        let before = continue_frames(list.drop_last());
        continues_come_in_order(list.drop_last(), i);
        let own = binary_frame(frame::continue_bytes(list.last().0, list.last().1));
        assert(own == seq![0x82u8, 0x09u8, 0x03u8] + wire::le_of_u32(list.last().0)
            + wire::le_of_u32(list.last().1));
        let all = continue_frames(list);
        if 0 <= i < list.len() - 1 {
            assert(all.subrange(11 * i, 11 * i + 11) == before.subrange(11 * i, 11 * i + 11));
        } else if i == list.len() - 1 {
            assert(all.subrange(11 * i, 11 * i + 11) == own);
        }
    }
}

/// The frames that count as settled were written in full, and the first that does not was not.
pub proof fn settled_frames_were_written(frames: Seq<Seq<u8>>, written: int)
    requires
        written >= 0,
    ensures
        ({
            let count = frames_settled(frames, written);
            &&& 0 <= count <= frames.len()
            &&& frames.take(count).flatten().len() <= written
            &&& count < frames.len() ==> written < frames.take(count + 1).flatten().len()
        }),
{
    lemma_frames_settled(frames, written);
    let count = frames_settled(frames, written);
    if count < frames.len() {
        assert(frames.take(count + 1) == frames.take(count).push(frames[count]));
        frames.take(count).lemma_flatten_push(frames[count]);
    }
}

/// What a backend sends into a stream's buffer reaches the client as one DATA frame of that stream
/// with exactly those bytes.
pub proof fn backends_reach_clients(
    stream_id: u32,
    fresh: Vec<u8>,
    filled: Vec<u8>,
    read: usize,
    r: Bytes,
)
    requires
        call_ensures(preframe_buffer, (stream_id,), fresh),
        filled@.len() == fresh@.len(),
        filled@.take(15) == fresh@.take(15),
        read <= 0x1_0000,
        call_ensures(preframe, (filled, read), r),
    ensures
        buffers::contents(r) == data_frame(stream_id, filled@.subrange(15, 15 + read)),
        filled@.len() == 15 + 0x1_0000,
{
    assert(filled@.subrange(10, 15) == fresh@.subrange(10, 15)) by {
        let a = filled@.take(15);
        let b = fresh@.take(15);
        assert forall|i: int| 10 <= i < 15 implies #[trigger] filled@[i] == fresh@[i] by {
            assert(a[i] == filled@[i] && b[i] == fresh@[i]);
        }
    }
    preframed_data_is_a_data_packet(stream_id, filled@, read as int);
}

/// A batch is done once all its bytes are written, in error if none could be, and is gone on with
/// where it was left off in all other cases, so that every byte is written once.
pub proof fn batches_are_gone_on_with(frames: &[Bytes], written: usize, r: BatchStep)
    requires
        call_ensures(batch_step, (frames, written), r),
        written <= stream::chunks(frames@).flatten().len(),
    ensures
        ({
            let all = stream::chunks(frames@);
            let total = all.flatten().len();
            &&& r == BatchStep::Done <==> written == total
            &&& r == BatchStep::WriteZero <==> written == 0 && total > 0
            &&& r matches BatchStep::Resume { first, offset } ==> {
                &&& 0 < written < total
                &&& first < frames@.len()
                &&& offset < all[first as int].len()
                &&& all.flatten().take(written as int) + batch_rest(
                    all,
                    first as int,
                    offset as int,
                ) == all.flatten()
            }
        }),
{
    let all = stream::chunks(frames@);
    resuming_completes_the_batch(all, written as int);
    lemma_frames_settled(all, written as int);
    if let BatchStep::Resume { first, offset } = r {
        if first == frames@.len() {
            assert(all.take(first as int) == all);
        }
    }
}

/// Pings and closes carry nothing.
pub proof fn pings_and_closes_are_empty(ping: [u8; 2], close: [u8; 2])
    requires
        call_ensures(ws_ping_frame, (), ping),
        call_ensures(ws_close_frame, (), close),
    ensures
        ping@ == seq![0x89u8, 0x00u8],
        close@ == seq![0x88u8, 0x00u8],
{
}

} // verus!
