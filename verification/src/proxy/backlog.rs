//! What a backend has not taken yet: how much of it a write settles, and what is left.
//!
//! The caller writes to the backend without waiting and reports a [`WriteOutcome`]. The
//! functions here keep the queue in step with it, so that the backend gets every byte once and
//! in order.

use bytes::{Bytes, BytesMut};
use std::collections::VecDeque;
use vstd::prelude::*;

use crate::buffers;
use crate::buffers::{bytes_mut_advance, bytes_slice_from};
use crate::proxy::stream;
use crate::proxy::stream::{TcpProxyStream, TcpView};

verus! {

/// What came of an attempt to write without waiting.
#[derive(Debug, Clone, Copy, PartialEq, Eq, Structural)]
pub enum WriteOutcome {
    /// So many bytes were taken, from the front of what was offered.
    Wrote(usize),
    /// Nothing can be taken now.
    WouldBlock,
    /// The backend is gone.
    Failed,
}

/// The most chunks that one vectored write may hold.
pub const MAX_WRITE_CHUNKS: usize = 1024;

/// The chunks that one write offers: all of them, or as many as a vectored write may hold.
pub open spec fn offered(pending: Seq<Seq<u8>>) -> Seq<Seq<u8>> {
    if pending.len() <= MAX_WRITE_CHUNKS {
        pending
    } else {
        pending.take(MAX_WRITE_CHUNKS as int)
    }
}

/// What is left of a queue when bytes are taken from its front: chunks are dropped as long as
/// there are bytes to take, and the last one touched may be cut.
pub open spec fn consume_front(pending: Seq<Seq<u8>>, taken: int) -> Seq<Seq<u8>>
    decreases pending.len(),
{
    if taken <= 0 || pending.len() == 0 {
        pending
    } else if taken >= pending[0].len() {
        consume_front(pending.skip(1), taken - pending[0].len())
    } else {
        seq![pending[0].skip(taken)] + pending.skip(1)
    }
}

/// What is left of a queue after a write took so many bytes of the offered chunks. Once all of
/// the queue was taken, no chunk is left, not even an empty one.
pub open spec fn drained(pending: Seq<Seq<u8>>, taken: int) -> Seq<Seq<u8>> {
    if pending.len() <= MAX_WRITE_CHUNKS && taken == pending.flatten().len() {
        seq![]
    } else {
        consume_front(pending, taken)
    }
}

/// What is left of a queue after an attempt to write the offered chunks.
pub open spec fn after_drain(pending: Seq<Seq<u8>>, outcome: WriteOutcome) -> Seq<Seq<u8>> {
    match outcome {
        WriteOutcome::Wrote(taken) => drained(pending, taken as int),
        WriteOutcome::WouldBlock => pending,
        WriteOutcome::Failed => seq![],
    }
}

/// What is queued after an attempt to write data with nothing queued before it: what was not
/// taken, as one chunk.
pub open spec fn after_write(
    pending: Seq<Seq<u8>>,
    data: Seq<u8>,
    outcome: WriteOutcome,
) -> Seq<Seq<u8>> {
    match outcome {
        WriteOutcome::Wrote(taken) => if taken == data.len() {
            pending
        } else {
            pending.push(data.skip(taken as int))
        },
        WriteOutcome::WouldBlock => pending.push(data),
        WriteOutcome::Failed => pending,
    }
}

/// Whether an outcome takes no more bytes than were offered.
pub open spec fn within(outcome: WriteOutcome, limit: int) -> bool {
    outcome matches WriteOutcome::Wrote(taken) ==> taken <= limit
}

/// The bytes that an attempt to write took, from the front of what was offered.
pub open spec fn taken(offer: Seq<u8>, outcome: WriteOutcome) -> Seq<u8> {
    match outcome {
        WriteOutcome::Wrote(count) => offer.take(count as int),
        _ => seq![],
    }
}

/// A queue is its first chunk and the rest.
pub proof fn lemma_flatten_first(pending: Seq<Seq<u8>>)
    requires
        pending.len() > 0,
    ensures
        pending.flatten() == pending[0] + pending.skip(1).flatten(),
{
    assert(pending.drop_first() == pending.skip(1));
}

/// Taking bytes from the front of a queue leaves the other bytes, in order.
pub proof fn consumption_keeps_the_rest(pending: Seq<Seq<u8>>, taken: int)
    requires
        0 <= taken <= pending.flatten().len(),
    ensures
        consume_front(pending, taken).flatten() == pending.flatten().skip(taken),
    decreases pending.len(),
{
    if taken == 0 || pending.len() == 0 {
        assert(pending.flatten().skip(0) == pending.flatten());
    } else {
        let first = pending[0];
        let rest = pending.skip(1);
        lemma_flatten_first(pending);
        if taken >= first.len() {
            consumption_keeps_the_rest(rest, taken - first.len());
            assert(pending.flatten().skip(taken) == rest.flatten().skip(taken - first.len()));
        } else {
            let left = seq![first.skip(taken)] + rest;
            lemma_flatten_first(left);
            assert(left.skip(1) == rest);
            assert(pending.flatten().skip(taken) == first.skip(taken) + rest.flatten());
        }
    }
}

/// The offered chunks are the front of the queue.
pub proof fn lemma_offered_is_front(pending: Seq<Seq<u8>>)
    ensures
        offered(pending).flatten().len() <= pending.flatten().len(),
        offered(pending).flatten() == pending.flatten().take(
            offered(pending).flatten().len() as int,
        ),
{
    if pending.len() <= MAX_WRITE_CHUNKS {
        assert(pending.flatten().take(pending.flatten().len() as int) == pending.flatten());
    } else {
        let front = pending.take(MAX_WRITE_CHUNKS as int);
        let back = pending.skip(MAX_WRITE_CHUNKS as int);
        assert(pending == front + back);
        vstd::seq_lib::lemma_flatten_concat(front, back);
        assert(pending.flatten().take(front.flatten().len() as int) == front.flatten());
    }
}

/// The bytes that a backend took and those still queued are the bytes that were queued, in
/// order: draining loses nothing, repeats nothing and reorders nothing.
pub proof fn draining_keeps_the_stream(pending: Seq<Seq<u8>>, taken: int)
    requires
        0 <= taken <= offered(pending).flatten().len(),
    ensures
        offered(pending).flatten().take(taken) + drained(pending, taken).flatten()
            == pending.flatten(),
{
    lemma_offered_is_front(pending);
    consumption_keeps_the_rest(pending, taken);
    let all = pending.flatten();
    assert(offered(pending).flatten().take(taken) == all.take(taken));
    assert(all.take(taken) + all.skip(taken) == all);
    if taken == all.len() {
        assert(all.skip(taken) == Seq::<u8>::empty());
    }
}

/// The bytes that a backend took of some data and those queued for it are the data, in order.
pub proof fn writing_keeps_the_stream(data: Seq<u8>, taken: usize)
    requires
        taken <= data.len(),
    ensures
        data.take(taken as int) + after_write(seq![], data, WriteOutcome::Wrote(taken)).flatten()
            == data,
        after_write(seq![], data, WriteOutcome::WouldBlock).flatten() == data,
{
    let none = Seq::<Seq<u8>>::empty();
    none.lemma_flatten_push(data.skip(taken as int));
    none.lemma_flatten_push(data);
    assert(data.take(taken as int) + data.skip(taken as int) == data);
    assert(none.flatten() + data.skip(taken as int) == data.skip(taken as int));
    assert(none.flatten() + data == data);
    assert(data.take(data.len() as int) == data);
}

/// Bytes are left in a queue if and only if some chunk is not empty.
proof fn lemma_flatten_empty(pending: Seq<Seq<u8>>)
    ensures
        pending.flatten().len() == 0 <==> forall|i: int|
            0 <= i < pending.len() ==> (#[trigger] pending[i]).len() == 0,
    decreases pending.len(),
{
    if pending.len() > 0 {
        let rest = pending.skip(1);
        lemma_flatten_first(pending);
        lemma_flatten_empty(rest);
        assert forall|i: int| 0 <= i < pending.len() && pending.flatten().len() == 0 implies (
        #[trigger] pending[i]).len() == 0 by {
            if i > 0 {
                assert(pending[i] == rest[i - 1]);
            }
        }
        if forall|i: int| 0 <= i < pending.len() ==> (#[trigger] pending[i]).len() == 0 {
            assert forall|i: int| 0 <= i < rest.len() implies (#[trigger] rest[i]).len() == 0 by {
                assert(rest[i] == pending[i + 1]);
            }
        }
    }
}

/// Takes bytes from the front of a queue.
fn take_from_front(pending: &mut VecDeque<Bytes>, taken: usize)
    ensures
        stream::chunks(final(pending)@) == consume_front(stream::chunks(old(pending)@), taken as int),
{
    let mut remaining: usize = taken;
    while remaining > 0 && pending.len() > 0
        invariant
            consume_front(stream::chunks(pending@), remaining as int) == consume_front(
                stream::chunks(old(pending)@),
                taken as int,
            ),
        decreases pending@.len(), remaining,
    {
        let ghost before = stream::chunks(pending@);
        let size: usize = pending[0].len();
        proof {
            assert(before[0] == buffers::contents(pending@[0]));
        }
        if remaining >= size {
            pending.pop_front();
            remaining = remaining - size;
            proof {
                assert(stream::chunks(pending@) == before.skip(1));
            }
        } else {
            match pending.pop_front() {
                Some(front) => {
                    let rest = bytes_slice_from(&front, remaining);
                    pending.push_front(rest);
                    proof {
                        assert(stream::chunks(pending@) == seq![before[0].skip(remaining as int)]
                            + before.skip(1));
                    }
                },
                None => {},
            }
            remaining = 0;
        }
    }
}

/// Whether every chunk of a queue is empty.
fn nothing_left(pending: &VecDeque<Bytes>) -> (r: bool)
    ensures
        r == (stream::chunks(pending@).flatten().len() == 0),
{
    let ghost all = stream::chunks(pending@);
    proof {
        lemma_flatten_empty(all);
    }
    let mut i: usize = 0;
    while i < pending.len()
        invariant
            i <= pending@.len(),
            all == stream::chunks(pending@),
            forall|j: int| 0 <= j < i ==> (#[trigger] all[j]).len() == 0,
            all.flatten().len() == 0 <==> forall|j: int|
                0 <= j < all.len() ==> (#[trigger] all[j]).len() == 0,
        decreases pending@.len() - i,
    {
        if pending[i].len() > 0 {
            proof {
                assert(all[i as int].len() > 0);
            }
            return false;
        }
        i = i + 1;
    }
    true
}

impl<W> TcpProxyStream<W> {
    /// How many chunks the next write offers.
    pub fn chunks_offered(&self) -> (r: usize)
        ensures
            r == offered(self@.pending).len(),
    {
        if self.pending.len() <= MAX_WRITE_CHUNKS {
            self.pending.len()
        } else {
            MAX_WRITE_CHUNKS
        }
    }
}

/// Settles an attempt to write the offered chunks of a stream. Says whether the backend is
/// gone; nothing is kept for it then. With nothing queued, nothing was offered.
pub fn drain_pending<W>(tcp: &mut TcpProxyStream<W>, outcome: WriteOutcome) -> (r: bool)
    requires
        within(outcome, offered(old(tcp)@.pending).flatten().len() as int),
    ensures
        final(tcp)@ == (TcpView { pending: after_drain(old(tcp)@.pending, outcome), ..old(tcp)@ }),
        r == (outcome == WriteOutcome::Failed && old(tcp)@.pending.len() > 0),
{
    let ghost before = tcp@.pending;
    match outcome {
        WriteOutcome::Wrote(taken) => {
            let all_offered = tcp.pending.len() <= MAX_WRITE_CHUNKS;
            proof {
                lemma_offered_is_front(before);
                consumption_keeps_the_rest(before, taken as int);
            }
            take_from_front(&mut tcp.pending, taken);
            if all_offered && nothing_left(&tcp.pending) {
                tcp.pending.clear();
                proof {
                    assert(tcp@.pending == Seq::<Seq<u8>>::empty());
                }
            }
            false
        },
        WriteOutcome::WouldBlock => false,
        WriteOutcome::Failed => {
            if tcp.pending.len() == 0 {
                return false;
            }
            tcp.pending.clear();
            proof {
                assert(tcp@.pending == Seq::<Seq<u8>>::empty());
            }
            true
        },
    }
}

/// Queues all of some data behind what is already queued.
pub fn queue_data<W>(tcp: &mut TcpProxyStream<W>, data: &mut BytesMut)
    ensures
        final(tcp)@ == (TcpView {
            pending: old(tcp)@.pending.push(buffers::contents_mut(*old(data))),
            ..old(tcp)@
        }),
        buffers::contents_mut(*final(data)) == Seq::<u8>::empty(),
{
    let chunk = data.split().freeze();
    tcp.pending.push_back(chunk);
    proof {
        assert(tcp@.pending == old(tcp)@.pending.push(buffers::contents_mut(*old(data))));
    }
}

/// Settles an attempt to write data to a stream that had nothing queued: what was not taken is
/// queued. Says whether the backend is gone.
pub fn tcp_try_write<W>(
    tcp: &mut TcpProxyStream<W>,
    data: &mut BytesMut,
    outcome: WriteOutcome,
) -> (r: bool)
    requires
        old(tcp)@.pending.len() == 0,
        within(outcome, buffers::contents_mut(*old(data)).len() as int),
    ensures
        final(tcp)@ == (TcpView {
            pending: after_write(
                old(tcp)@.pending,
                buffers::contents_mut(*old(data)),
                outcome,
            ),
            ..old(tcp)@
        }),
        r == (outcome == WriteOutcome::Failed),
        if outcome == WriteOutcome::Failed || outcome == WriteOutcome::Wrote(
            buffers::contents_mut(*old(data)).len() as usize,
        ) {
            *final(data) == *old(data)
        } else {
            buffers::contents_mut(*final(data)) == Seq::<u8>::empty()
        },
{
    match outcome {
        WriteOutcome::Wrote(taken) => {
            if taken != data.len() {
                bytes_mut_advance(data, taken);
                queue_data(tcp, data);
            }
            false
        },
        WriteOutcome::WouldBlock => {
            queue_data(tcp, data);
            false
        },
        WriteOutcome::Failed => true,
    }
}

// ---------------------------------------------------------------------------------------
// Laws
// ---------------------------------------------------------------------------------------

/// A write offers the first chunks of the queue, all of them up to 1024.
pub proof fn as_many_chunks_as_fit_are_offered(pending: Seq<Seq<u8>>)
    ensures
        pending.len() <= 1024 ==> offered(pending) == pending,
        pending.len() > 1024 ==> offered(pending).len() == 1024,
        forall|i: int|
            0 <= i < offered(pending).len() ==> #[trigger] offered(pending)[i] == pending[i],
{
}

/// A write that takes all of the queue leaves no chunk of it, one that must wait leaves all, and
/// nothing is kept for a backend that is gone.
pub proof fn what_a_write_leaves(pending: Seq<Seq<u8>>, data: Seq<u8>, count: usize)
    ensures
        pending.len() <= 1024 && count == pending.flatten().len() ==> after_drain(
            pending,
            WriteOutcome::Wrote(count),
        ) == Seq::<Seq<u8>>::empty(),
        after_drain(pending, WriteOutcome::WouldBlock) == pending,
        after_drain(pending, WriteOutcome::Failed) == Seq::<Seq<u8>>::empty(),
        count == data.len() ==> after_write(pending, data, WriteOutcome::Wrote(count)) == pending,
        after_write(pending, data, WriteOutcome::Failed) == pending,
{
}

/// What was taken is the front of what was offered, as much of it as the outcome says; and no
/// outcome but a count can take too much.
pub proof fn outcomes_say_what_was_taken(offer: Seq<u8>, count: usize, limit: int)
    ensures
        count <= offer.len() ==> taken(offer, WriteOutcome::Wrote(count)).len() == count && taken(
            offer,
            WriteOutcome::Wrote(count),
        ).is_prefix_of(offer),
        taken(offer, WriteOutcome::WouldBlock) == Seq::<u8>::empty(),
        taken(offer, WriteOutcome::Failed) == Seq::<u8>::empty(),
        within(WriteOutcome::Wrote(count), limit) <==> count <= limit,
        within(WriteOutcome::WouldBlock, limit),
        within(WriteOutcome::Failed, limit),
{
    if count <= offer.len() {
        assert(taken(offer, WriteOutcome::Wrote(count)) == offer.subrange(0, count as int));
    }
}

/// Taking bytes from the front of a queue cuts one chunk at most: the others are dropped or kept
/// as they are.
pub proof fn consumption_cuts_one_chunk(pending: Seq<Seq<u8>>, taken: int)
    ensures
        exists|dropped: int, cut: int|
            {
                &&& 0 <= dropped <= pending.len()
                &&& #[trigger] cut_off(pending, dropped, cut) == consume_front(pending, taken)
                &&& dropped == pending.len() ==> cut == 0
            },
    decreases pending.len(),
{
    if taken <= 0 || pending.len() == 0 {
        assert(cut_off(pending, 0, 0) == pending) by {
            assert(pending.skip(0) == pending);
            if pending.len() > 0 {
                assert(pending[0].skip(0) == pending[0]);
                assert(seq![pending[0]] + pending.skip(1) == pending);
            }
        }
    } else if taken >= pending[0].len() {
        let rest = pending.skip(1);
        consumption_cuts_one_chunk(rest, taken - pending[0].len());
        let (dropped, cut) = choose|dropped: int, cut: int|
            {
                &&& 0 <= dropped <= rest.len()
                &&& #[trigger] cut_off(rest, dropped, cut) == consume_front(
                    rest,
                    taken - pending[0].len(),
                )
                &&& dropped == rest.len() ==> cut == 0
            };
        assert(rest.skip(dropped) == pending.skip(dropped + 1));
        assert(cut_off(pending, dropped + 1, cut) == cut_off(rest, dropped, cut)) by {
            if dropped < rest.len() {
                assert(rest[dropped] == pending[dropped + 1]);
                assert(rest.skip(dropped + 1) == pending.skip(dropped + 2));
            }
        }
    } else {
        assert(cut_off(pending, 0, taken) == consume_front(pending, taken));
    }
}

/// A queue without its first chunks and without the first bytes of the next.
pub open spec fn cut_off(pending: Seq<Seq<u8>>, dropped: int, cut: int) -> Seq<Seq<u8>> {
    if dropped < pending.len() {
        seq![pending[dropped].skip(cut)] + pending.skip(dropped + 1)
    } else {
        seq![]
    }
}

/// Offering a stream's backlog keeps every byte that the backend did not take, in order, and says
/// that the backend is gone exactly if it is.
pub proof fn offers_lose_nothing<W>(tcp: &mut TcpProxyStream<W>, outcome: WriteOutcome, r: bool)
    requires
        call_ensures(drain_pending::<W>, (tcp, outcome), r),
        within(outcome, offered(old(tcp)@.pending).flatten().len() as int),
    ensures
        r <==> outcome == WriteOutcome::Failed && old(tcp)@.pending.len() > 0,
        outcome != WriteOutcome::Failed ==> taken(
            offered(old(tcp)@.pending).flatten(),
            outcome,
        ) + final(tcp)@.pending.flatten() == old(tcp)@.pending.flatten(),
        final(tcp)@.packets_since_continue == old(tcp)@.packets_since_continue,
        final(tcp)@.cancel == old(tcp)@.cancel,
        final(tcp)@.writer == old(tcp)@.writer,
{
    let pending = old(tcp)@.pending;
    match outcome {
        WriteOutcome::Wrote(count) => draining_keeps_the_stream(pending, count as int),
        _ => assert(Seq::<u8>::empty() + pending.flatten() == pending.flatten()),
    }
}

/// Writing data to a stream without a backlog keeps every byte that the backend did not take, and
/// says that the backend is gone exactly if it is.
pub proof fn writes_lose_nothing<W>(
    tcp: &mut TcpProxyStream<W>,
    data: &mut BytesMut,
    outcome: WriteOutcome,
    r: bool,
)
    requires
        call_ensures(tcp_try_write::<W>, (tcp, data, outcome), r),
        old(tcp)@.pending.len() == 0,
        within(outcome, buffers::contents_mut(*old(data)).len() as int),
    ensures
        r <==> outcome == WriteOutcome::Failed,
        outcome != WriteOutcome::Failed ==> taken(buffers::contents_mut(*old(data)), outcome)
            + final(tcp)@.pending.flatten() == buffers::contents_mut(*old(data)),
{
    let bytes = buffers::contents_mut(*old(data));
    assert(old(tcp)@.pending == Seq::<Seq<u8>>::empty());
    match outcome {
        WriteOutcome::Wrote(count) => writing_keeps_the_stream(bytes, count),
        _ => {
            writing_keeps_the_stream(bytes, 0);
            assert(Seq::<u8>::empty() + bytes == bytes);
        },
    }
}

} // verus!
