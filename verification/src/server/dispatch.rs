//! What a connection does with its streams.
//!
//! A [`Dispatcher`] holds everything that a connection remembers of its streams. It never
//! touches a socket: where a write to a backend is due it says so, the caller makes the attempt
//! and reports what came of it, and the dispatcher goes on from there.

use bytes::BytesMut;
use std::collections::VecDeque;
use vstd::prelude::*;

use crate::buffers;
use crate::net::SocketAddr;
use crate::proxy::backlog;
use crate::proxy::backlog::{drain_pending, queue_data, tcp_try_write, WriteOutcome};
use crate::proxy::cancel;
use crate::proxy::early;
use crate::proxy::early::{EarlyFlush, EarlyView};
use crate::proxy::stream::{
    CancelBoard, CancelFlag, ConnectingStream, ConnectingView, ProxyStream, StreamTable,
    StreamView, TcpProxyStream, TcpView, UdpProxyStream,
};

verus! {

/// The most DATA packets that are kept for a stream whose backend is still being connected.
pub const MAX_EARLY_DATA: usize = 128;

/// What is to be done about a DATA packet.
#[derive(Debug, Clone, Copy, PartialEq, Eq, Structural)]
pub enum DataStep {
    /// Nothing more.
    Done,
    /// Offer the stream's backlog to its backend, then report to `data_after_drain`.
    Drain,
    /// Offer the data to the stream's backend, then report to `data_after_write`.
    Write,
    /// Send the data as a datagram. It does not matter what comes of it.
    SendDatagram,
    /// The backend is gone and so is the stream: tell the client.
    Dead,
}

/// What a connection remembers of its streams.
pub struct Dispatcher<W, U> {
    table: StreamTable<W, U>,
    board: CancelBoard,
    pending_continues: Vec<(u32, u32)>,
    streams_with_pending: Vec<u32>,
    drain_queue: VecDeque<u32>,
    buffer_size: u32,
    threshold: u32,
}

/// What a connection remembers of its streams, as a mathematical value.
#[verifier::ext_equal]
pub struct DispatcherView<W, U> {
    /// The streams by id.
    pub streams: Map<u32, StreamView<W, U>>,
    /// The most streams at a time; zero stands for no limit.
    pub limit: usize,
    /// The flags of the streams' tasks.
    pub board: CancelBoard,
    /// The CONTINUE packets to be sent: a stream and its new credit.
    pub pending_continues: Seq<(u32, u32)>,
    /// Streams whose backlog is to be drained in the next round.
    pub streams_with_pending: Seq<u32>,
    /// Streams still to be visited in the present round.
    pub drain_queue: Seq<u32>,
    /// The credit of each stream, in packets.
    pub buffer_size: u32,
    /// The number of packets after which a stream's credit is renewed.
    pub threshold: u32,
}

/// The values that the streams of a table stand for.
pub open spec fn stream_views<W, U>(table: Map<u32, ProxyStream<W, U>>) -> Map<
    u32,
    StreamView<W, U>,
> {
    Map::new(|id: u32| table.contains_key(id), |id: u32| table[id]@)
}

/// Changing one stream of a table changes the value of that stream alone.
proof fn lemma_stream_views<W, U>(table: Map<u32, ProxyStream<W, U>>, id: u32)
    ensures
        stream_views(table.remove(id)) == stream_views(table).remove(id),
        forall|stream: ProxyStream<W, U>| #[trigger]
            stream_views(table.insert(id, stream)) == stream_views(table).insert(id, stream@),
{
    assert(stream_views(table.remove(id)) == stream_views(table).remove(id));
    assert forall|stream: ProxyStream<W, U>| #[trigger]
        stream_views(table.insert(id, stream)) == stream_views(table).insert(id, stream@) by {
        assert(stream_views(table.insert(id, stream)) =~= stream_views(table).insert(id, stream@));
    }
}

impl<W, U> View for Dispatcher<W, U> {
    type V = DispatcherView<W, U>;

    closed spec fn view(&self) -> DispatcherView<W, U> {
        DispatcherView {
            streams: stream_views(self.table@),
            limit: self.table.limit(),
            board: self.board,
            pending_continues: self.pending_continues@,
            streams_with_pending: self.streams_with_pending@,
            drain_queue: self.drain_queue@,
            buffer_size: self.buffer_size,
            threshold: self.threshold,
        }
    }
}

impl<W, U> DispatcherView<W, U> {
    /// Whether the stream will be visited, in this round of draining or the next.
    pub open spec fn listed(self, id: u32) -> bool {
        self.streams_with_pending.contains(id) || self.drain_queue.contains(id)
    }

    /// What holds of every stream. Of a TCP stream: its credit is renewed before the threshold
    /// is reached, a backlog is never forgotten, and the mark that says so is true. Of a
    /// connecting stream: it keeps no more early data than it may.
    pub open spec fn stream_ok(self, id: u32) -> bool {
        let stream = self.streams[id];
        &&& self.board.issued(stream.flag())
        &&& stream matches StreamView::Tcp(tcp) ==> {
            &&& tcp.packets_since_continue < self.threshold
            &&& tcp.pending.len() > 0 ==> tcp.queued_for_drain
            &&& tcp.queued_for_drain ==> self.listed(id)
        }
        &&& stream matches StreamView::Connecting(connecting) ==> connecting.early_data.len()
            <= MAX_EARLY_DATA
    }

    /// What holds between any two operations.
    pub open spec fn wf(self) -> bool {
        &&& self.board.wf()
        &&& self.threshold >= 1
        &&& self.streams.dom().finite()
        &&& self.limit > 0 ==> self.streams.dom().len() <= self.limit
        &&& forall|id: u32| #[trigger] self.streams.contains_key(id) ==> self.stream_ok(id)
        &&& forall|a: u32, b: u32|
            #![trigger self.streams[a], self.streams[b]]
            self.streams.contains_key(a) && self.streams.contains_key(b) && a != b
                ==> self.streams[a].flag() != self.streams[b].flag()
    }

    /// Whether no more streams are taken.
    pub open spec fn full(self) -> bool {
        self.limit > 0 && self.streams.dom().len() >= self.limit
    }

    /// Whether the machine can count one more stream and number one more flag.
    pub open spec fn has_room(self) -> bool {
        self.board.has_room_spec() && self.streams.dom().len() < usize::MAX
    }

    /// The backlog of a TCP stream, and nothing for any other.
    pub open spec fn backlog(self, id: u32) -> Seq<Seq<u8>> {
        if self.streams.contains_key(id) && self.streams[id] is Tcp {
            self.streams[id]->Tcp_0.pending
        } else {
            seq![]
        }
    }

    /// The state with one stream replaced.
    pub open spec fn with(self, id: u32, stream: StreamView<W, U>) -> Self {
        DispatcherView { streams: self.streams.insert(id, stream), ..self }
    }

    /// The state once a DATA packet was settled for a TCP stream: a backlog puts the stream on
    /// the list, and the packet counts towards the next CONTINUE.
    pub open spec fn counted(self, id: u32, tcp: TcpView<W>) -> Self {
        let backlogged = tcp.pending.len() > 0;
        let due = tcp.packets_since_continue + 1 >= self.threshold;
        let after = TcpView {
            queued_for_drain: tcp.queued_for_drain || backlogged,
            packets_since_continue: if due {
                0
            } else {
                (tcp.packets_since_continue + 1) as u32
            },
            ..tcp
        };
        DispatcherView {
            streams_with_pending: if backlogged && !tcp.queued_for_drain {
                self.streams_with_pending.push(id)
            } else {
                self.streams_with_pending
            },
            pending_continues: if due {
                self.pending_continues.push((id, self.buffer_size))
            } else {
                self.pending_continues
            },
            ..self.with(id, StreamView::Tcp(after))
        }
    }

    /// Whether `after` is this state without the stream: its flag is cancelled, every other
    /// stream and every other flag is as before.
    pub open spec fn without(self, id: u32, after: Self) -> bool {
        &&& after == DispatcherView {
            streams: self.streams.remove(id),
            board: after.board,
            ..self
        }
        &&& after.board.left() == self.board.left()
        &&& self.has_room() ==> after.has_room()
        &&& if self.streams.contains_key(id) {
            let flag = self.streams[id].flag();
            &&& after.board.cancelled(flag)
            &&& after.board.issued(flag) == self.board.issued(flag)
            &&& cancel::others_kept(self.board, after.board, flag)
        } else {
            after.board == self.board
        }
    }
}

impl<W, U> Dispatcher<W, U> {
    /// The table's own conditions; the rest is stated over the view.
    pub closed spec fn inv(&self) -> bool {
        self.table.wf() && self@.wf()
    }

    /// A connection without streams.
    pub fn new(max_streams: usize, buffer_size: u32, threshold: u32) -> (r: Self)
        requires
            threshold >= 1,
        ensures
            r.inv(),
            r@.wf(),
            r@.has_room(),
            r@.board.left() == u64::MAX,
            forall|flag: CancelFlag| !r@.board.issued(flag) && r@.board.cancelled(flag),
            r@ == (DispatcherView {
                streams: Map::<u32, StreamView<W, U>>::empty(),
                limit: max_streams,
                board: r@.board,
                pending_continues: seq![],
                streams_with_pending: seq![],
                drain_queue: seq![],
                buffer_size,
                threshold,
            }),
    {
        let r = Dispatcher {
            table: StreamTable::new(max_streams),
            board: CancelBoard::new(),
            pending_continues: Vec::new(),
            streams_with_pending: Vec::new(),
            drain_queue: VecDeque::new(),
            buffer_size,
            threshold,
        };
        proof {
            assert(r@.streams == Map::<u32, StreamView<W, U>>::empty());
        }
        r
    }

    /// What `inv` says of the view.
    pub proof fn inv_gives_wf(&self)
        requires
            self.inv(),
        ensures
            self@.wf(),
    {
    }

    /// Whether the machine can count one more stream and number one more flag.
    pub fn has_room(&self) -> (r: bool)
        requires
            self.inv(),
        ensures
            r == self@.has_room(),
    {
        proof {
            assert(self@.streams.dom() == self.table@.dom());
        }
        self.board.has_room() && self.table.len() < usize::MAX
    }

    /// The number of streams.
    pub fn len(&self) -> (r: usize)
        requires
            self.inv(),
        ensures
            r == self@.streams.dom().len(),
    {
        proof {
            assert(self@.streams.dom() == self.table@.dom());
        }
        self.table.len()
    }

    /// The credit of each stream, in packets.
    pub fn buffer_size(&self) -> (r: u32)
        ensures
            r == self@.buffer_size,
    {
        self.buffer_size
    }

    /// Whether there is a stream with this id.
    pub fn contains(&self, stream_id: u32) -> (r: bool)
        requires
            self.inv(),
        ensures
            r == self@.streams.contains_key(stream_id),
    {
        self.table.contains(stream_id)
    }

    /// Finds a stream, for use of its socket.
    pub fn stream(&self, stream_id: u32) -> (r: Option<&ProxyStream<W, U>>)
        requires
            self.inv(),
        ensures
            match r {
                Some(stream) => self@.streams.contains_key(stream_id) && stream@
                    == self@.streams[stream_id],
                None => !self@.streams.contains_key(stream_id),
            },
    {
        self.table.get(stream_id)
    }

    /// Whether a flag of this connection was cancelled.
    pub fn is_cancelled(&self, flag: CancelFlag) -> (r: bool)
        ensures
            r == self@.board.cancelled(flag),
    {
        flag.is_cancelled(&self.board)
    }

    /// Closes a stream and stops its task.
    pub fn close_stream(&mut self, stream_id: u32)
        requires
            old(self).inv(),
        ensures
            final(self).inv(),
            old(self)@.without(stream_id, final(self)@),
    {
        self.table.remove(stream_id, &mut self.board);
        proof {
            let before = old(self)@;
            let after = self@;
            assert(after.streams == before.streams.remove(stream_id));
            assert(after.streams.dom() == before.streams.dom().remove(stream_id));
            assert forall|id: u32| #[trigger] after.streams.contains_key(id) implies after.stream_ok(
                id,
            ) by {
                assert(before.stream_ok(id));
            }
        }
    }
}

// ---------------------------------------------------------------------------------------
// DATA from the client
// ---------------------------------------------------------------------------------------

impl<W, U> DispatcherView<W, U> {
    /// What is to be done first about a DATA packet.
    pub open spec fn first_step(self, id: u32) -> DataStep {
        if !self.streams.contains_key(id) {
            DataStep::Done
        } else {
            match self.streams[id] {
                StreamView::Tcp(tcp) => if tcp.pending.len() > 0 {
                    DataStep::Drain
                } else {
                    DataStep::Write
                },
                StreamView::Udp(_) => DataStep::SendDatagram,
                StreamView::Connecting(_) => DataStep::Done,
            }
        }
    }

    /// The state once a DATA packet was looked at: a connecting stream keeps it, unless it
    /// holds as many as it may.
    pub open spec fn looked_at(self, id: u32, data: Seq<u8>) -> Self {
        if self.streams.contains_key(id) && self.streams[id] is Connecting {
            let connecting = self.streams[id]->Connecting_0;
            if connecting.early_data.len() < MAX_EARLY_DATA {
                self.with(
                    id,
                    StreamView::Connecting(
                        ConnectingView {
                            early_data: connecting.early_data.push(data),
                            ..connecting
                        },
                    ),
                )
            } else {
                self
            }
        } else {
            self
        }
    }
}

/// Replacing a stream by one that keeps the flag and the other conditions keeps all conditions.
proof fn lemma_with_keeps_wf<W, U>(
    before: DispatcherView<W, U>,
    after: DispatcherView<W, U>,
    id: u32,
)
    requires
        before.wf(),
        before.streams.contains_key(id),
        after.streams == before.streams.insert(id, after.streams[id]),
        after.streams[id].flag() == before.streams[id].flag(),
        after.board == before.board,
        after.limit == before.limit,
        after.threshold == before.threshold,
        forall|other: u32| before.listed(other) && other != id ==> #[trigger] after.listed(other),
        after.stream_ok(id),
    ensures
        after.wf(),
        after.streams.dom() == before.streams.dom(),
{
    assert(after.streams.dom() == before.streams.dom());
    assert forall|other: u32| #[trigger] after.streams.contains_key(other) implies after.stream_ok(
        other,
    ) by {
        if other != id {
            assert(before.streams.contains_key(other));
            assert(before.stream_ok(other));
            assert(before.listed(other) ==> after.listed(other));
        }
    }
}

impl<W, U> Dispatcher<W, U> {
    /// Takes a DATA packet from the client. Early data of a connecting stream is taken out of
    /// `data`.
    pub fn handle_data_zerocopy(&mut self, stream_id: u32, data: &mut BytesMut) -> (r: DataStep)
        requires
            old(self).inv(),
        ensures
            final(self).inv(),
            r == old(self)@.first_step(stream_id),
            final(self)@ == old(self)@.looked_at(stream_id, buffers::contents_mut(*old(data))),
            final(self)@ == old(self)@ ==> *final(data) == *old(data),
            final(self)@ != old(self)@ ==> buffers::contents_mut(*final(data)) == Seq::<u8>::empty(),
    {
        let step = match self.table.get_mut(stream_id) {
            None => DataStep::Done,
            Some(ProxyStream::Tcp(tcp)) => if tcp.pending.len() > 0 {
                DataStep::Drain
            } else {
                DataStep::Write
            },
            Some(ProxyStream::Udp(_)) => DataStep::SendDatagram,
            Some(ProxyStream::Connecting(connecting)) => {
                if connecting.early_data.len() < MAX_EARLY_DATA {
                    connecting.queue_early_data(data.split().freeze());
                }
                DataStep::Done
            },
        };
        proof {
            let before = old(self)@;
            let bytes = buffers::contents_mut(*old(data));
            assert(self@.streams == before.looked_at(stream_id, bytes).streams);
            if before.streams.contains_key(stream_id) {
                assert(before.stream_ok(stream_id));
                assert(self@.streams == before.streams.insert(
                    stream_id,
                    self@.streams[stream_id],
                ));
                lemma_with_keeps_wf(before, self@, stream_id);
            } else {
                assert(self@ == before);
            }
        }
        step
    }
}

impl<W, U> DispatcherView<W, U> {
    /// The state after an attempt to drain a TCP stream's backlog before its data is written:
    /// the stream is gone if its backend is, and the data is queued behind what is left.
    pub open spec fn data_drained(
        self,
        id: u32,
        data: Seq<u8>,
        outcome: WriteOutcome,
        step: DataStep,
        after: Self,
    ) -> bool {
        let tcp = self.streams[id]->Tcp_0;
        let left = backlog::after_drain(tcp.pending, outcome);
        if outcome == WriteOutcome::Failed {
            step == DataStep::Dead && self.without(id, after)
        } else if left.len() > 0 {
            step == DataStep::Done && after == self.counted(
                id,
                TcpView { pending: left.push(data), ..tcp },
            )
        } else {
            step == DataStep::Write && after == self.with(
                id,
                StreamView::Tcp(TcpView { pending: left, ..tcp }),
            )
        }
    }

    /// The state after an attempt to write data to a TCP stream: the stream is gone if its
    /// backend is, and what was not taken is queued.
    pub open spec fn data_written(
        self,
        id: u32,
        data: Seq<u8>,
        outcome: WriteOutcome,
        step: DataStep,
        after: Self,
    ) -> bool {
        let tcp = self.streams[id]->Tcp_0;
        if outcome == WriteOutcome::Failed {
            step == DataStep::Dead && self.without(id, after)
        } else {
            step == DataStep::Done && after == self.counted(
                id,
                TcpView { pending: backlog::after_write(tcp.pending, data, outcome), ..tcp },
            )
        }
    }

    /// Whether there is a TCP stream with this id.
    pub open spec fn is_tcp(self, id: u32) -> bool {
        self.streams.contains_key(id) && self.streams[id] is Tcp
    }
}

impl<W, U> Dispatcher<W, U> {
    /// Puts a TCP stream on the list if it has a backlog, and counts a DATA packet for it.
    fn count_packet(&mut self, stream_id: u32, Ghost(before): Ghost<DispatcherView<W, U>>)
        requires
            old(self).table.wf(),
            before.wf(),
            before.is_tcp(stream_id),
            old(self)@.is_tcp(stream_id),
            old(self)@ == before.with(stream_id, old(self)@.streams[stream_id]),
            ({
                let tcp = old(self)@.streams[stream_id]->Tcp_0;
                &&& tcp.cancel == before.streams[stream_id].flag()
                &&& tcp.packets_since_continue < before.threshold
                &&& tcp.queued_for_drain ==> before.listed(stream_id)
            }),
        ensures
            final(self).inv(),
            final(self)@ == before.counted(stream_id, old(self)@.streams[stream_id]->Tcp_0),
    {
        let mut list = false;
        let mut due = false;
        match self.table.get_mut(stream_id) {
            Some(ProxyStream::Tcp(tcp)) => {
                if tcp.pending.len() > 0 && !tcp.queued_for_drain {
                    tcp.queued_for_drain = true;
                    list = true;
                }
                if tcp.record_packet(self.threshold) {
                    tcp.reset_counter();
                    due = true;
                }
            },
            _ => {},
        }
        if list {
            self.streams_with_pending.push(stream_id);
        }
        if due {
            self.pending_continues.push((stream_id, self.buffer_size));
        }
        proof {
            let tcp = old(self)@.streams[stream_id]->Tcp_0;
            let expected = before.counted(stream_id, tcp);
            lemma_stream_views(old(self).table@, stream_id);
            assert(self@.streams[stream_id]->Tcp_0 == expected.streams[stream_id]->Tcp_0);
            assert(self@.streams == expected.streams);
            assert(self@ == expected);
            assert(self@.streams == before.streams.insert(stream_id, self@.streams[stream_id]));
            assert forall|other: u32|
                before.listed(other) && other != stream_id implies #[trigger] self@.listed(
                other,
            ) by {
                if list {
                    let swp = before.streams_with_pending;
                    if swp.contains(other) {
                        let i = swp.index_of(other);
                        assert(swp.push(stream_id)[i] == other);
                    }
                }
            }
            if list {
                let swp = before.streams_with_pending;
                assert(swp.push(stream_id)[swp.len() as int] == stream_id);
            }
            lemma_with_keeps_wf(before, self@, stream_id);
        }
    }

    /// Settles an attempt to write a stream's backlog, made because DATA came for it. The data
    /// is taken out of `data` if it has to wait behind what is left.
    pub fn data_after_drain(
        &mut self,
        stream_id: u32,
        data: &mut BytesMut,
        outcome: WriteOutcome,
    ) -> (r: DataStep)
        requires
            old(self).inv(),
            old(self)@.is_tcp(stream_id),
            old(self)@.backlog(stream_id).len() > 0,
            backlog::within(
                outcome,
                backlog::offered(old(self)@.backlog(stream_id)).flatten().len() as int,
            ),
        ensures
            final(self).inv(),
            old(self)@.data_drained(
                stream_id,
                buffers::contents_mut(*old(data)),
                outcome,
                r,
                final(self)@,
            ),
            r == DataStep::Done ==> buffers::contents_mut(*final(data)) == Seq::<u8>::empty(),
            r != DataStep::Done ==> *final(data) == *old(data),
    {
        let ghost before = self@;
        proof {
            assert(before.stream_ok(stream_id));
        }
        let mut dead = false;
        let mut queued = false;
        match self.table.get_mut(stream_id) {
            Some(ProxyStream::Tcp(tcp)) => {
                if drain_pending(tcp, outcome) {
                    dead = true;
                } else if tcp.pending.len() > 0 {
                    queue_data(tcp, data);
                    queued = true;
                }
            },
            _ => {},
        }
        proof {
            assert(self@ == before.with(stream_id, self@.streams[stream_id]));
        }
        if dead {
            self.close_dead(stream_id, Ghost(before));
            return DataStep::Dead;
        }
        if queued {
            self.count_packet(stream_id, Ghost(before));
            return DataStep::Done;
        }
        proof {
            assert(self@ == before.with(stream_id, self@.streams[stream_id]));
            lemma_with_keeps_wf(before, self@, stream_id);
        }
        DataStep::Write
    }

    /// Closes a stream whose backlog no longer matters.
    fn close_dead(&mut self, stream_id: u32, Ghost(before): Ghost<DispatcherView<W, U>>)
        requires
            old(self).table.wf(),
            before.wf(),
            before.is_tcp(stream_id),
            old(self)@.is_tcp(stream_id),
            old(self)@.streams[stream_id].flag() == before.streams[stream_id].flag(),
            old(self)@ == before.with(stream_id, old(self)@.streams[stream_id]),
        ensures
            final(self).inv(),
            before.without(stream_id, final(self)@),
    {
        self.table.remove(stream_id, &mut self.board);
        proof {
            let after = self@;
            lemma_stream_views(old(self).table@, stream_id);
            assert(after.streams == before.streams.remove(stream_id));
            assert(after.streams.dom() == before.streams.dom().remove(stream_id));
            assert forall|id: u32| #[trigger] after.streams.contains_key(id) implies after.stream_ok(
                id,
            ) by {
                assert(before.stream_ok(id));
            }
        }
    }

    /// Settles an attempt to write DATA to a stream that has no backlog.
    pub fn data_after_write(
        &mut self,
        stream_id: u32,
        data: &mut BytesMut,
        outcome: WriteOutcome,
    ) -> (r: DataStep)
        requires
            old(self).inv(),
            old(self)@.is_tcp(stream_id),
            old(self)@.backlog(stream_id).len() == 0,
            backlog::within(outcome, buffers::contents_mut(*old(data)).len() as int),
        ensures
            final(self).inv(),
            old(self)@.data_written(
                stream_id,
                buffers::contents_mut(*old(data)),
                outcome,
                r,
                final(self)@,
            ),
            if outcome == WriteOutcome::Failed || outcome == WriteOutcome::Wrote(
                buffers::contents_mut(*old(data)).len() as usize,
            ) {
                *final(data) == *old(data)
            } else {
                buffers::contents_mut(*final(data)) == Seq::<u8>::empty()
            },
    {
        let ghost before = self@;
        proof {
            assert(before.stream_ok(stream_id));
        }
        let mut dead = false;
        match self.table.get_mut(stream_id) {
            Some(ProxyStream::Tcp(tcp)) => {
                dead = tcp_try_write(tcp, data, outcome);
            },
            _ => {},
        }
        proof {
            assert(self@ == before.with(stream_id, self@.streams[stream_id]));
        }
        if dead {
            self.close_dead(stream_id, Ghost(before));
            return DataStep::Dead;
        }
        self.count_packet(stream_id, Ghost(before));
        DataStep::Done
    }
}

// ---------------------------------------------------------------------------------------
// Draining backlogs
// ---------------------------------------------------------------------------------------

impl<W, U> DispatcherView<W, U> {
    /// The state at the start of a round: every listed stream is to be visited.
    pub open spec fn round_begun(self) -> Self {
        DispatcherView {
            drain_queue: self.drain_queue + self.streams_with_pending,
            streams_with_pending: seq![],
            ..self
        }
    }

    /// The state without the mark of a stream that has no backlog.
    pub open spec fn unmarked(self, id: u32) -> Self {
        if self.is_tcp(id) {
            self.with(
                id,
                StreamView::Tcp(
                    TcpView { queued_for_drain: false, ..self.streams[id]->Tcp_0 },
                ),
            )
        } else {
            self
        }
    }

    /// The state once the streams without a backlog at the front of the round were passed by.
    pub open spec fn idle_passed(self) -> Self
        decreases self.drain_queue.len(),
    {
        if self.drain_queue.len() == 0 || self.backlog(self.drain_queue[0]).len() > 0 {
            self
        } else {
            let passed = self.unmarked(self.drain_queue[0]);
            DispatcherView {
                drain_queue: self.drain_queue.skip(1),
                ..passed
            }.idle_passed()
        }
    }

    /// The state after an attempt to drain the stream at the front of the round: a stream whose
    /// backend is gone is closed, one with a backlog left is visited again in the next round,
    /// and any other loses its mark.
    pub open spec fn front_drained(self, outcome: WriteOutcome, after: Self) -> bool {
        let id = self.drain_queue[0];
        let tcp = self.streams[id]->Tcp_0;
        let left = backlog::after_drain(tcp.pending, outcome);
        let moved = DispatcherView { drain_queue: self.drain_queue.skip(1), ..self };
        if outcome == WriteOutcome::Failed {
            moved.without(id, after)
        } else if left.len() > 0 {
            after == DispatcherView {
                streams_with_pending: self.streams_with_pending.push(id),
                ..moved.with(id, StreamView::Tcp(TcpView { pending: left, ..tcp }))
            }
        } else {
            after == moved.with(
                id,
                StreamView::Tcp(TcpView { pending: left, queued_for_drain: false, ..tcp }),
            )
        }
    }
}

/// Dropping the first item leaves every other item.
proof fn lemma_skip_first(list: Seq<u32>, item: u32)
    requires
        list.len() > 0,
        list.contains(item),
        item != list[0],
    ensures
        list.skip(1).contains(item),
{
    let i = list.index_of(item);
    assert(list.skip(1)[i - 1] == item);
}

impl<W, U> Dispatcher<W, U> {
    /// Begins a round of draining: every stream on the list will be visited once.
    pub fn begin_drain(&mut self)
        requires
            old(self).inv(),
        ensures
            final(self).inv(),
            final(self)@ == old(self)@.round_begun(),
    {
        let ghost before = self@;
        let mut i: usize = 0;
        while i < self.streams_with_pending.len()
            invariant
                i <= self.streams_with_pending@.len(),
                self.streams_with_pending@ == before.streams_with_pending,
                self.table == old(self).table,
                self@ == (DispatcherView {
                    drain_queue: before.drain_queue + before.streams_with_pending.take(i as int),
                    ..before
                }),
            decreases self.streams_with_pending@.len() - i,
        {
            let id: u32 = self.streams_with_pending[i];
            self.drain_queue.push_back(id);
            i = i + 1;
            proof {
                assert(self@.drain_queue == before.drain_queue
                    + before.streams_with_pending.take(i as int));
            }
        }
        self.streams_with_pending.clear();
        proof {
            let after = self@;
            let all = before.streams_with_pending;
            assert(all.take(all.len() as int) == all);
            assert(after == before.round_begun());
            assert forall|id: u32| before.listed(id) implies #[trigger] after.listed(id) by {
                let queue = before.drain_queue;
                if queue.contains(id) {
                    let j = queue.index_of(id);
                    assert((queue + all)[j] == id);
                } else {
                    let j = all.index_of(id);
                    assert((queue + all)[queue.len() + j] == id);
                }
            }
            assert forall|id: u32| #[trigger] after.streams.contains_key(id) implies after.stream_ok(
                id,
            ) by {
                assert(before.stream_ok(id));
            }
        }
    }

    /// The next stream of the round whose backlog is to be offered to its backend. Streams
    /// without a backlog are passed by.
    pub fn next_drain(&mut self) -> (r: Option<u32>)
        requires
            old(self).inv(),
        ensures
            final(self).inv(),
            final(self)@ == old(self)@.idle_passed(),
            match r {
                Some(id) => {
                    &&& final(self)@.drain_queue.len() > 0
                    &&& id == final(self)@.drain_queue[0]
                    &&& final(self)@.is_tcp(id)
                    &&& final(self)@.backlog(id).len() > 0
                },
                None => final(self)@.drain_queue.len() == 0,
            },
    {
        while self.drain_queue.len() > 0
            invariant
                self.inv(),
                self@.idle_passed() == old(self)@.idle_passed(),
            decreases self.drain_queue@.len(),
        {
            let ghost before = self@;
            let id: u32 = self.drain_queue[0];
            match self.table.get_mut(id) {
                Some(ProxyStream::Tcp(tcp)) => {
                    if tcp.pending.len() > 0 {
                        proof {
                            assert(stream_views(self.table@) == before.streams);
                        }
                        return Some(id);
                    }
                    tcp.queued_for_drain = false;
                },
                _ => {},
            }
            self.drain_queue.pop_front();
            proof {
                let passed = before.unmarked(id);
                let after = DispatcherView { drain_queue: before.drain_queue.skip(1), ..passed };
                assert(self@.streams == passed.streams);
                assert(self@ == after);
                assert(after.streams.dom() == before.streams.dom());
                assert forall|other: u32| #[trigger]
                    after.streams.contains_key(other) implies after.stream_ok(other) by {
                    assert(before.stream_ok(other));
                    if other != id && before.drain_queue.contains(other) {
                        lemma_skip_first(before.drain_queue, other);
                    }
                }
            }
        }
        None
    }

    /// The stream that `next_drain` named.
    pub fn drain_front(&self) -> (r: u32)
        requires
            self@.drain_queue.len() > 0,
        ensures
            r == self@.drain_queue[0],
    {
        self.drain_queue[0]
    }

    /// Settles an attempt to write the backlog of the stream that `next_drain` named. Says
    /// whether the backend is gone, and the stream with it.
    pub fn drain_settled(&mut self, outcome: WriteOutcome) -> (r: bool)
        requires
            old(self).inv(),
            old(self)@.drain_queue.len() > 0,
            old(self)@.is_tcp(old(self)@.drain_queue[0]),
            old(self)@.backlog(old(self)@.drain_queue[0]).len() > 0,
            backlog::within(
                outcome,
                backlog::offered(
                    old(self)@.backlog(old(self)@.drain_queue[0]),
                ).flatten().len() as int,
            ),
        ensures
            final(self).inv(),
            r == (outcome == WriteOutcome::Failed),
            old(self)@.front_drained(outcome, final(self)@),
    {
        let ghost before = self@;
        let id: u32 = self.drain_queue[0];
        proof {
            assert(before.stream_ok(id));
        }
        let mut dead = false;
        let mut again = false;
        match self.table.get_mut(id) {
            Some(ProxyStream::Tcp(tcp)) => {
                dead = drain_pending(tcp, outcome);
                again = tcp.pending.len() > 0;
                tcp.queued_for_drain = again;
            },
            _ => {},
        }
        let ghost middle = self.table@;
        self.drain_queue.pop_front();
        if dead {
            self.table.remove(id, &mut self.board);
        } else if again {
            self.streams_with_pending.push(id);
        }
        proof {
            let after = self@;
            lemma_stream_views(old(self).table@, id);
            lemma_stream_views(middle, id);
            assert forall|other: u32|
                before.listed(other) && other != id implies #[trigger] after.listed(other) by {
                if before.drain_queue.contains(other) {
                    lemma_skip_first(before.drain_queue, other);
                } else if again {
                    let j = before.streams_with_pending.index_of(other);
                    assert(before.streams_with_pending.push(id)[j] == other);
                }
            }
            if dead {
                assert(after.streams == before.streams.remove(id));
                assert(after.streams.dom() == before.streams.dom().remove(id));
                assert forall|other: u32| #[trigger]
                    after.streams.contains_key(other) implies after.stream_ok(other) by {
                    assert(before.stream_ok(other));
                }
            } else {
                if again {
                    let j = before.streams_with_pending.len() as int;
                    assert(before.streams_with_pending.push(id)[j] == id);
                }
                assert(after.streams == before.streams.insert(id, after.streams[id]));
                lemma_with_keeps_wf(before, after, id);
            }
        }
        dead
    }
}

// ---------------------------------------------------------------------------------------
// Opening streams
// ---------------------------------------------------------------------------------------

impl<W, U> DispatcherView<W, U> {
    /// Whether `after` is this state with a stream added, if the id is free and the limit is
    /// not reached. The stream's flag is a fresh one that is not cancelled; every other flag is
    /// as before.
    pub open spec fn added(
        self,
        id: u32,
        stream: StreamView<W, U>,
        after: Self,
    ) -> bool {
        let flag = stream.flag();
        &&& after.streams == if !self.streams.contains_key(id) && !self.full() {
            self.streams.insert(id, stream)
        } else {
            self.streams
        }
        &&& after.limit == self.limit
        &&& after.buffer_size == self.buffer_size
        &&& after.threshold == self.threshold
        &&& !self.board.issued(flag)
        &&& after.board.issued(flag)
        &&& !after.board.cancelled(flag)
        &&& after.board.left() == self.board.left() - 1
        &&& cancel::others_kept(self.board, after.board, flag)
    }

    /// Whether `after` is this state, but for a flag that was never of use.
    pub open spec fn refused(self, after: Self) -> bool {
        &&& after == DispatcherView { board: after.board, ..self }
        &&& after.board.left() == self.board.left() - 1
        &&& forall|flag: CancelFlag|
            self.board.issued(flag) ==> #[trigger] after.board.issued(flag)
        &&& forall|flag: CancelFlag|
            self.board.issued(flag) ==> #[trigger] after.board.cancelled(flag)
                == self.board.cancelled(flag)
    }

    /// Whether all that is to be sent and all that is to be drained is as before.
    pub open spec fn same_duties(self, after: Self) -> bool {
        &&& after.pending_continues == self.pending_continues
        &&& after.streams_with_pending == self.streams_with_pending
        &&& after.drain_queue == self.drain_queue
    }
}

impl<W, U> Dispatcher<W, U> {
    /// Puts a stream with a fresh flag into the table, if the table takes it.
    fn add_stream(
        &mut self,
        stream_id: u32,
        stream: ProxyStream<W, U>,
        Ghost(before): Ghost<DispatcherView<W, U>>,
    ) -> (r: bool)
        requires
            old(self).table.wf(),
            before.wf(),
            before.streams.dom().len() < usize::MAX,
            old(self)@ == (DispatcherView { board: old(self)@.board, ..before }),
            old(self)@.board.wf(),
            !before.board.issued(stream@.flag()),
            old(self)@.board.issued(stream@.flag()),
            !old(self)@.board.cancelled(stream@.flag()),
            old(self)@.board.left() == before.board.left() - 1,
            cancel::others_kept(before.board, old(self)@.board, stream@.flag()),
            stream@ matches StreamView::Tcp(tcp) ==> {
                &&& tcp.packets_since_continue == 0
                &&& tcp.queued_for_drain == (tcp.pending.len() > 0)
            },
            stream@ matches StreamView::Connecting(connecting) ==> connecting.early_data.len()
                == 0,
        ensures
            final(self).table.wf(),
            r == (!before.streams.contains_key(stream_id) && !before.full()),
            before.added(stream_id, stream@, final(self)@),
            before.same_duties(final(self)@),
            final(self)@.board == old(self)@.board,
            ({
                let listed = DispatcherView {
                    streams_with_pending: before.streams_with_pending.push(stream_id),
                    ..final(self)@
                };
                &&& listed.wf()
                &&& (stream@ matches StreamView::Tcp(tcp) ==> tcp.pending.len() == 0)
                    ==> final(self)@.wf()
            }),
    {
        proof {
            assert(before.streams.dom() == self.table@.dom());
            lemma_stream_views(self.table@, stream_id);
        }
        let inserted = self.table.insert(stream_id, stream);
        proof {
            let after = self@;
            let listed = DispatcherView {
                streams_with_pending: before.streams_with_pending.push(stream_id),
                ..after
            };
            let swp = before.streams_with_pending;
            assert(swp.push(stream_id)[swp.len() as int] == stream_id);
            assert(after.streams.dom() == if inserted {
                before.streams.dom().insert(stream_id)
            } else {
                before.streams.dom()
            });
            assert forall|id: u32| before.listed(id) implies #[trigger] listed.listed(id) by {
                if swp.contains(id) {
                    assert(swp.push(stream_id)[swp.index_of(id)] == id);
                }
            }
            assert forall|id: u32| #[trigger] listed.streams.contains_key(id) implies {
                &&& listed.stream_ok(id)
                &&& id != stream_id ==> after.stream_ok(id)
            } by {
                if before.streams.contains_key(id) {
                    assert(before.stream_ok(id));
                    assert(before.streams[id].flag() != stream@.flag());
                }
            }
            assert forall|a: u32, b: u32|
                #![trigger listed.streams[a], listed.streams[b]]
                listed.streams.contains_key(a) && listed.streams.contains_key(b) && a
                    != b implies listed.streams[a].flag() != listed.streams[b].flag() by {
                if before.streams.contains_key(a) {
                    assert(before.stream_ok(a));
                }
                if before.streams.contains_key(b) {
                    assert(before.stream_ok(b));
                }
            }
            if !inserted && before.streams.contains_key(stream_id) {
                assert(before.stream_ok(stream_id));
            }
        }
        inserted
    }

    /// Opens a stream whose backend is yet to be connected. Nothing comes back if the id is
    /// taken or the connection has as many streams as it may; else the flag that tells the
    /// connecting task to give up.
    pub fn open_connecting(&mut self, stream_id: u32) -> (r: Option<CancelFlag>)
        requires
            old(self).inv(),
            old(self)@.has_room(),
        ensures
            final(self).inv(),
            r is Some <==> !old(self)@.streams.contains_key(stream_id) && !old(self)@.full(),
            match r {
                Some(flag) => old(self)@.added(
                    stream_id,
                    StreamView::Connecting(ConnectingView { early_data: seq![], cancel: flag }),
                    final(self)@,
                ),
                None => old(self)@.refused(final(self)@),
            },
            old(self)@.same_duties(final(self)@),
    {
        let ghost before = self@;
        let connecting = ConnectingStream::new(&mut self.board);
        let flag = connecting.cancel;
        proof {
            assert(connecting@ == (ConnectingView { early_data: seq![], cancel: flag }));
        }
        if self.add_stream(stream_id, ProxyStream::Connecting(connecting), Ghost(before)) {
            Some(flag)
        } else {
            let ghost middle = self@;
            flag.cancel(&mut self.board);
            proof {
                assert forall|id: u32| #[trigger] self@.streams.contains_key(id) implies self@.stream_ok(
                    id,
                ) by {
                    assert(middle.stream_ok(id));
                    assert(before.stream_ok(id));
                }
            }
            None
        }
    }

    /// Opens a UDP stream. Nothing comes back if the id is taken or the connection has as many
    /// streams as it may; else the flag that stops the task that reads from the backend.
    pub fn open_udp(&mut self, stream_id: u32, socket: U, dest_addr: SocketAddr) -> (r: Option<
        CancelFlag,
    >)
        requires
            old(self).inv(),
            old(self)@.has_room(),
        ensures
            final(self).inv(),
            r is Some <==> !old(self)@.streams.contains_key(stream_id) && !old(self)@.full(),
            match r {
                Some(flag) => old(self)@.added(
                    stream_id,
                    StreamView::Udp(UdpProxyStream { socket, dest_addr, cancel: flag }),
                    final(self)@,
                ),
                None => old(self)@.refused(final(self)@),
            },
            old(self)@.same_duties(final(self)@),
    {
        let ghost before = self@;
        let flag = CancelFlag::new(&mut self.board);
        let udp = UdpProxyStream::new(socket, dest_addr, flag);
        if self.add_stream(stream_id, ProxyStream::Udp(udp), Ghost(before)) {
            Some(flag)
        } else {
            let ghost middle = self@;
            flag.cancel(&mut self.board);
            proof {
                assert forall|id: u32| #[trigger] self@.streams.contains_key(id) implies self@.stream_ok(
                    id,
                ) by {
                    assert(middle.stream_ok(id));
                    assert(before.stream_ok(id));
                }
            }
            None
        }
    }

    /// The backend of a stream is connected: the stream leaves the table, its connecting task
    /// is told to stop, and its early data comes back to be written. A stream that is not
    /// connecting stays, though its flag is cancelled; nothing comes back then.
    pub fn tcp_connected(&mut self, stream_id: u32) -> (r: Option<EarlyFlush>)
        requires
            old(self).inv(),
            old(self)@.has_room(),
        ensures
            final(self).inv(),
            final(self)@.has_room(),
            match r {
                Some(flush) => {
                    &&& old(self)@.streams.contains_key(stream_id)
                    &&& old(self)@.streams[stream_id] matches StreamView::Connecting(connecting)
                    &&& flush@ == EarlyView {
                        waiting: connecting.early_data,
                        backlog: seq![],
                        dead: false,
                    }
                    &&& old(self)@.without(stream_id, final(self)@)
                },
                None => {
                    &&& !(old(self)@.streams.contains_key(stream_id)
                        && old(self)@.streams[stream_id] is Connecting)
                    &&& final(self)@ == DispatcherView {
                        board: final(self)@.board,
                        ..old(self)@
                    }
                    &&& final(self)@.board.left() == old(self)@.board.left()
                    &&& if old(self)@.streams.contains_key(stream_id) {
                        let flag = old(self)@.streams[stream_id].flag();
                        &&& final(self)@.board.cancelled(flag)
                        &&& final(self)@.board.issued(flag)
                        &&& cancel::others_kept(old(self)@.board, final(self)@.board, flag)
                    } else {
                        final(self)@.board == old(self)@.board
                    }
                },
            },
    {
        let ghost before = self@;
        let taken = self.table.remove(stream_id, &mut self.board);
        let ghost removed = self.table@;
        proof {
            lemma_stream_views(old(self).table@, stream_id);
            lemma_stream_views(removed, stream_id);
            assert(self@.streams == before.streams.remove(stream_id));
            assert(self@.streams.dom() == before.streams.dom().remove(stream_id));
            assert(self@.streams.dom() == removed.dom());
            assert forall|id: u32| before.streams.contains_key(id) implies #[trigger]
                before.stream_ok(id) by {}
        }
        match taken {
            Some(ProxyStream::Connecting(connecting)) => {
                proof {
                    assert forall|id: u32| #[trigger] self@.streams.contains_key(id) implies
                        self@.stream_ok(id) by {
                        assert(before.stream_ok(id));
                    }
                }
                Some(EarlyFlush::new(connecting.early_data))
            },
            Some(existing) => {
                let put_back = self.table.insert(stream_id, existing);
                proof {
                    assert(put_back);
                    assert(self@.streams == before.streams);
                    assert forall|id: u32| #[trigger] self@.streams.contains_key(id) implies
                        self@.stream_ok(id) by {
                        assert(before.stream_ok(id));
                    }
                }
                None
            },
            None => {
                proof {
                    assert(self@.streams == before.streams);
                    assert(self@ == before);
                }
                None
            },
        }
    }

    /// The early data of a connected stream was offered: the stream joins the table as a TCP
    /// stream with what is left as its backlog, which puts it on the list. The flag stops the
    /// task that reads from the backend.
    pub fn tcp_ready(&mut self, stream_id: u32, writer: W, flush: EarlyFlush) -> (r: CancelFlag)
        requires
            old(self).inv(),
            old(self)@.has_room(),
        ensures
            final(self).inv(),
            old(self)@.added(
                stream_id,
                StreamView::Tcp(
                    TcpView {
                        writer,
                        pending: flush@.unwritten(),
                        packets_since_continue: 0,
                        queued_for_drain: flush@.unwritten().len() > 0,
                        cancel: r,
                    },
                ),
                final(self)@,
            ),
            final(self)@.streams_with_pending == if flush@.unwritten().len() > 0 {
                old(self)@.streams_with_pending.push(stream_id)
            } else {
                old(self)@.streams_with_pending
            },
            final(self)@.pending_continues == old(self)@.pending_continues,
            final(self)@.drain_queue == old(self)@.drain_queue,
    {
        let ghost before = self@;
        let flag = CancelFlag::new(&mut self.board);
        let pending = flush.into_backlog();
        let has_pending = pending.len() > 0;
        let tcp = TcpProxyStream::with_pending(writer, pending, flag);
        self.add_stream(stream_id, ProxyStream::Tcp(tcp), Ghost(before));
        if has_pending {
            self.streams_with_pending.push(stream_id);
        }
        flag
    }

    /// Takes the CONTINUE packets that are due.
    pub fn take_continues(&mut self) -> (r: Vec<(u32, u32)>)
        requires
            old(self).inv(),
        ensures
            final(self).inv(),
            r@ == old(self)@.pending_continues,
            final(self)@ == (DispatcherView { pending_continues: seq![], ..old(self)@ }),
    {
        let ghost before = self@;
        let mut due: Vec<(u32, u32)> = Vec::new();
        std::mem::swap(&mut due, &mut self.pending_continues);
        proof {
            assert forall|id: u32| #[trigger] self@.streams.contains_key(id) implies self@.stream_ok(
                id,
            ) by {
                assert(before.stream_ok(id));
            }
        }
        due
    }
}

// ---------------------------------------------------------------------------------------
// Laws
// ---------------------------------------------------------------------------------------

/// Draining a stream because DATA came for it neither loses, repeats nor reorders a byte: what
/// the backend took, followed by what is queued, is what was queued, followed by the data if
/// the data is queued as well.
pub proof fn data_drain_keeps_the_stream<W, U>(
    before: DispatcherView<W, U>,
    id: u32,
    data: Seq<u8>,
    outcome: WriteOutcome,
    step: DataStep,
    after: DispatcherView<W, U>,
)
    requires
        before.is_tcp(id),
        outcome != WriteOutcome::Failed,
        backlog::within(outcome, backlog::offered(before.backlog(id)).flatten().len() as int),
        before.data_drained(id, data, outcome, step, after),
    ensures
        after.is_tcp(id),
        backlog::taken(backlog::offered(before.backlog(id)).flatten(), outcome) + after.backlog(
            id,
        ).flatten() == before.backlog(id).flatten() + if step == DataStep::Done {
            data
        } else {
            seq![]
        },
{
    let pending = before.backlog(id);
    let left = backlog::after_drain(pending, outcome);
    let offer = backlog::offered(pending).flatten();
    match outcome {
        WriteOutcome::Wrote(count) => {
            backlog::draining_keeps_the_stream(pending, count as int);
        },
        _ => {
            assert(backlog::taken(offer, outcome) + left.flatten() == pending.flatten());
        },
    }
    assert(backlog::taken(offer, outcome) + left.flatten() == pending.flatten());
    if left.len() > 0 {
        left.lemma_flatten_push(data);
        assert(backlog::taken(offer, outcome) + (left.flatten() + data) == pending.flatten() + data);
    } else {
        assert(pending.flatten() + Seq::<u8>::empty() == pending.flatten());
    }
}

/// Writing DATA to a stream without a backlog neither loses, repeats nor reorders a byte: what
/// the backend took, followed by what is queued, is the data.
pub proof fn data_write_keeps_the_stream<W, U>(
    before: DispatcherView<W, U>,
    id: u32,
    data: Seq<u8>,
    outcome: WriteOutcome,
    step: DataStep,
    after: DispatcherView<W, U>,
)
    requires
        before.is_tcp(id),
        before.backlog(id).len() == 0,
        outcome != WriteOutcome::Failed,
        backlog::within(outcome, data.len() as int),
        before.data_written(id, data, outcome, step, after),
    ensures
        after.is_tcp(id),
        backlog::taken(data, outcome) + after.backlog(id).flatten() == data,
{
    assert(before.backlog(id) == Seq::<Seq<u8>>::empty());
    match outcome {
        WriteOutcome::Wrote(count) => {
            backlog::writing_keeps_the_stream(data, count);
        },
        _ => {
            backlog::writing_keeps_the_stream(data, 0);
            assert(Seq::<u8>::empty() + data == data);
        },
    }
}

/// A round of draining neither loses, repeats nor reorders a byte of the stream it visits.
pub proof fn round_keeps_the_stream<W, U>(
    before: DispatcherView<W, U>,
    outcome: WriteOutcome,
    after: DispatcherView<W, U>,
)
    requires
        before.drain_queue.len() > 0,
        before.is_tcp(before.drain_queue[0]),
        outcome != WriteOutcome::Failed,
        backlog::within(
            outcome,
            backlog::offered(before.backlog(before.drain_queue[0])).flatten().len() as int,
        ),
        before.front_drained(outcome, after),
    ensures
        after.is_tcp(before.drain_queue[0]),
        backlog::taken(backlog::offered(before.backlog(before.drain_queue[0])).flatten(), outcome)
            + after.backlog(before.drain_queue[0]).flatten() == before.backlog(
            before.drain_queue[0],
        ).flatten(),
{
    let pending = before.backlog(before.drain_queue[0]);
    match outcome {
        WriteOutcome::Wrote(count) => {
            backlog::draining_keeps_the_stream(pending, count as int);
        },
        _ => {
            assert(Seq::<u8>::empty() + pending.flatten() == pending.flatten());
        },
    }
}

/// Whether the history of a stream adds up: what its backend took, followed by the backlog, is
/// what the client sent.
pub open spec fn adds_up<W, U>(
    state: DispatcherView<W, U>,
    id: u32,
    delivered: Seq<u8>,
    accepted: Seq<u8>,
) -> bool {
    state.is_tcp(id) && delivered + state.backlog(id).flatten() == accepted
}

/// A history that adds up still does after a DATA packet was settled behind a backlog.
pub proof fn history_adds_up_after_a_drain<W, U>(
    before: DispatcherView<W, U>,
    id: u32,
    delivered: Seq<u8>,
    accepted: Seq<u8>,
    data: Seq<u8>,
    outcome: WriteOutcome,
    step: DataStep,
    after: DispatcherView<W, U>,
)
    requires
        adds_up(before, id, delivered, accepted),
        outcome != WriteOutcome::Failed,
        backlog::within(outcome, backlog::offered(before.backlog(id)).flatten().len() as int),
        before.data_drained(id, data, outcome, step, after),
    ensures
        adds_up(
            after,
            id,
            delivered + backlog::taken(backlog::offered(before.backlog(id)).flatten(), outcome),
            if step == DataStep::Done {
                accepted + data
            } else {
                accepted
            },
        ),
{
    data_drain_keeps_the_stream(before, id, data, outcome, step, after);
    let got = backlog::taken(backlog::offered(before.backlog(id)).flatten(), outcome);
    let left = after.backlog(id).flatten();
    let queued = before.backlog(id).flatten();
    assert(delivered + got + left == delivered + (got + left));
    if step == DataStep::Done {
        assert(delivered + (queued + data) == delivered + queued + data);
    } else {
        assert(delivered + (queued + Seq::<u8>::empty()) == delivered + queued);
    }
}

/// A history that adds up still does after a DATA packet was written without a backlog.
pub proof fn history_adds_up_after_a_write<W, U>(
    before: DispatcherView<W, U>,
    id: u32,
    delivered: Seq<u8>,
    accepted: Seq<u8>,
    data: Seq<u8>,
    outcome: WriteOutcome,
    step: DataStep,
    after: DispatcherView<W, U>,
)
    requires
        adds_up(before, id, delivered, accepted),
        before.backlog(id).len() == 0,
        outcome != WriteOutcome::Failed,
        backlog::within(outcome, data.len() as int),
        before.data_written(id, data, outcome, step, after),
    ensures
        adds_up(after, id, delivered + backlog::taken(data, outcome), accepted + data),
{
    data_write_keeps_the_stream(before, id, data, outcome, step, after);
    assert(before.backlog(id).flatten() == Seq::<u8>::empty());
    assert(delivered + Seq::<u8>::empty() == delivered);
    let got = backlog::taken(data, outcome);
    let left = after.backlog(id).flatten();
    assert(delivered + got + left == delivered + (got + left));
}

/// A history that adds up still does after a round of draining visited the stream.
pub proof fn history_adds_up_after_a_round<W, U>(
    before: DispatcherView<W, U>,
    delivered: Seq<u8>,
    accepted: Seq<u8>,
    outcome: WriteOutcome,
    after: DispatcherView<W, U>,
)
    requires
        before.drain_queue.len() > 0,
        adds_up(before, before.drain_queue[0], delivered, accepted),
        outcome != WriteOutcome::Failed,
        backlog::within(
            outcome,
            backlog::offered(before.backlog(before.drain_queue[0])).flatten().len() as int,
        ),
        before.front_drained(outcome, after),
    ensures
        adds_up(
            after,
            before.drain_queue[0],
            delivered + backlog::taken(
                backlog::offered(before.backlog(before.drain_queue[0])).flatten(),
                outcome,
            ),
            accepted,
        ),
{
    round_keeps_the_stream(before, outcome, after);
    let got = backlog::taken(
        backlog::offered(before.backlog(before.drain_queue[0])).flatten(),
        outcome,
    );
    let left = after.backlog(before.drain_queue[0]).flatten();
    assert(delivered + got + left == delivered + (got + left));
}

/// The history of a stream adds up from the moment its backend is connected, with the early data
/// as what the client sent so far.
pub proof fn history_starts_with_the_early_data<W, U>(
    before: DispatcherView<W, U>,
    id: u32,
    flush: EarlyView,
    tcp: TcpView<W>,
    delivered: Seq<u8>,
    sent: Seq<u8>,
    after: DispatcherView<W, U>,
)
    requires
        early::accounts_for(flush, delivered, sent),
        tcp.pending == flush.unwritten(),
        !before.streams.contains_key(id),
        !before.full(),
        before.added(id, StreamView::Tcp(tcp), after),
    ensures
        adds_up(after, id, delivered, sent),
{
    vstd::seq_lib::lemma_flatten_concat(flush.backlog, flush.waiting);
    assert(delivered + flush.backlog.flatten() + flush.waiting.flatten() == delivered + (
    flush.backlog.flatten() + flush.waiting.flatten()));
}

/// Visiting one stream in a round leaves every other stream as it was.
pub proof fn a_round_leaves_other_streams<W, U>(
    before: DispatcherView<W, U>,
    outcome: WriteOutcome,
    after: DispatcherView<W, U>,
    other: u32,
)
    requires
        other != before.drain_queue[0],
        before.front_drained(outcome, after),
    ensures
        after.streams.contains_key(other) == before.streams.contains_key(other),
        before.streams.contains_key(other) ==> after.streams[other] == before.streams[other],
{
}

/// Passing streams by in a round changes no history.
pub proof fn passing_by_changes_no_history<W, U>(state: DispatcherView<W, U>, id: u32)
    ensures
        state.idle_passed().is_tcp(id) == state.is_tcp(id),
        state.idle_passed().backlog(id) == state.backlog(id),
    decreases state.drain_queue.len(),
{
    if state.drain_queue.len() > 0 && state.backlog(state.drain_queue[0]).len() == 0 {
        let passed = state.unmarked(state.drain_queue[0]);
        passing_by_changes_no_history(
            DispatcherView { drain_queue: state.drain_queue.skip(1), ..passed },
            id,
        );
    }
}

/// A CONTINUE is due with exactly that packet of a stream that is the threshold-th since the
/// last one, and the count starts anew with it.
pub proof fn credit_is_renewed_at_the_threshold<W, U>(
    before: DispatcherView<W, U>,
    id: u32,
    tcp: TcpView<W>,
)
    requires
        before.wf(),
        before.is_tcp(id),
        tcp.packets_since_continue == before.streams[id]->Tcp_0.packets_since_continue,
    ensures
        ({
            let after = before.counted(id, tcp);
            let count = after.streams[id]->Tcp_0.packets_since_continue;
            if tcp.packets_since_continue + 1 == before.threshold {
                &&& after.pending_continues == before.pending_continues.push(
                    (id, before.buffer_size),
                )
                &&& count == 0
            } else {
                &&& after.pending_continues == before.pending_continues
                &&& count == tcp.packets_since_continue + 1
                &&& count < before.threshold
            }
        }),
{
    assert(before.stream_ok(id));
}

/// Between any two operations every stream with a backlog is on the list to be drained, and its
/// count of packets is below the threshold.
pub proof fn no_backlog_is_forgotten<W, U>(state: DispatcherView<W, U>, id: u32)
    requires
        state.wf(),
        state.is_tcp(id),
    ensures
        state.backlog(id).len() > 0 ==> state.listed(id),
        state.streams[id]->Tcp_0.packets_since_continue < state.threshold,
{
    assert(state.stream_ok(id));
}

/// Closing a stream stops its own task and no other: the flags of all other streams are as they
/// were.
pub proof fn closing_stops_one_task<W, U>(
    before: DispatcherView<W, U>,
    id: u32,
    after: DispatcherView<W, U>,
    other: u32,
)
    requires
        before.wf(),
        before.without(id, after),
        before.streams.contains_key(id),
        before.streams.contains_key(other),
        other != id,
    ensures
        after.streams.contains_key(other),
        after.streams[other] == before.streams[other],
        after.board.cancelled(before.streams[id].flag()),
        after.board.cancelled(before.streams[other].flag()) == before.board.cancelled(
            before.streams[other].flag(),
        ),
{
    assert(before.streams[id].flag() != before.streams[other].flag());
}

/// DATA for one stream leaves every other stream as it was.
pub proof fn data_leaves_other_streams<W, U>(
    before: DispatcherView<W, U>,
    id: u32,
    data: Seq<u8>,
    outcome: WriteOutcome,
    step: DataStep,
    after: DispatcherView<W, U>,
    other: u32,
)
    requires
        other != id,
        before.data_drained(id, data, outcome, step, after) || before.data_written(
            id,
            data,
            outcome,
            step,
            after,
        ) || after == before.looked_at(id, data),
    ensures
        after.streams.contains_key(other) == before.streams.contains_key(other),
        before.streams.contains_key(other) ==> after.streams[other] == before.streams[other],
{
}

/// Early data is kept in the order in which it came, and no more than the limit of it.
pub proof fn early_data_is_kept_in_order<W, U>(
    before: DispatcherView<W, U>,
    id: u32,
    data: Seq<u8>,
)
    requires
        before.wf(),
        before.streams.contains_key(id),
        before.streams[id] is Connecting,
    ensures
        ({
            let early = before.streams[id]->Connecting_0.early_data;
            let after = before.looked_at(id, data).streams[id]->Connecting_0.early_data;
            &&& after.len() <= MAX_EARLY_DATA
            &&& after == if early.len() < MAX_EARLY_DATA {
                early.push(data)
            } else {
                early
            }
        }),
{
    assert(before.stream_ok(id));
}

/// What happens to a connection's streams, as far as the bytes that clients send to TCP backends
/// are concerned.
pub enum StreamEvent<W, U> {
    /// DATA comes for a stream, and the attempts that it asks for are made: to drain the backlog,
    /// which leads to `middle`, and to write the data.
    Packet {
        stream: u32,
        data: Seq<u8>,
        drain: WriteOutcome,
        drained: DataStep,
        middle: DispatcherView<W, U>,
        write: WriteOutcome,
        written: DataStep,
    },
    /// A round of draining begins.
    RoundBegins,
    /// Streams without a backlog are passed by.
    PassedBy,
    /// The backlog at the front of the round is offered.
    Visited { outcome: WriteOutcome },
    /// Something that does not concern the stream in question.
    Elsewhere,
}

/// Whether an event leads from one state to another, where `id` is the stream in question.
pub open spec fn leads_to<W, U>(
    before: DispatcherView<W, U>,
    event: StreamEvent<W, U>,
    after: DispatcherView<W, U>,
    id: u32,
) -> bool {
    match event {
        StreamEvent::Packet { stream, data, drain, drained, middle, write, written } => {
            let seen = before.looked_at(stream, data);
            match before.first_step(stream) {
                DataStep::Drain => {
                    &&& backlog::within(
                        drain,
                        backlog::offered(seen.backlog(stream)).flatten().len() as int,
                    )
                    &&& seen.data_drained(stream, data, drain, drained, middle)
                    &&& if drained == DataStep::Write {
                        &&& backlog::within(write, data.len() as int)
                        &&& middle.data_written(stream, data, write, written, after)
                    } else {
                        after == middle
                    }
                },
                DataStep::Write => {
                    &&& backlog::within(write, data.len() as int)
                    &&& seen.data_written(stream, data, write, written, after)
                },
                _ => after == seen,
            }
        },
        StreamEvent::RoundBegins => after == before.round_begun(),
        StreamEvent::PassedBy => after == before.idle_passed(),
        StreamEvent::Visited { outcome } => {
            &&& before.drain_queue.len() > 0
            &&& before.is_tcp(before.drain_queue[0])
            &&& backlog::within(
                outcome,
                backlog::offered(before.backlog(before.drain_queue[0])).flatten().len() as int,
            )
            &&& before.front_drained(outcome, after)
        },
        StreamEvent::Elsewhere => {
            &&& after.streams.contains_key(id) == before.streams.contains_key(id)
            &&& after.streams[id] == before.streams[id]
        },
    }
}

/// What the client sends on a stream with an event.
pub open spec fn sent_with<W, U>(event: StreamEvent<W, U>, id: u32) -> Seq<u8> {
    match event {
        StreamEvent::Packet { stream, data, .. } => if stream == id {
            data
        } else {
            seq![]
        },
        _ => seq![],
    }
}

/// What the backend of a stream takes with an event.
pub open spec fn taken_with<W, U>(
    before: DispatcherView<W, U>,
    event: StreamEvent<W, U>,
    id: u32,
) -> Seq<u8> {
    let offer = backlog::offered(before.backlog(id)).flatten();
    match event {
        StreamEvent::Packet { stream, data, drain, drained, write, .. } => if stream != id {
            seq![]
        } else {
            match before.first_step(id) {
                DataStep::Drain => backlog::taken(offer, drain) + if drained == DataStep::Write {
                    backlog::taken(data, write)
                } else {
                    seq![]
                },
                DataStep::Write => backlog::taken(data, write),
                _ => seq![],
            }
        },
        StreamEvent::Visited { outcome } => if before.drain_queue[0] == id {
            backlog::taken(offer, outcome)
        } else {
            seq![]
        },
        _ => seq![],
    }
}

/// What the client has sent on a stream over a course of events.
pub open spec fn all_sent<W, U>(events: Seq<StreamEvent<W, U>>, id: u32) -> Seq<u8>
    decreases events.len(),
{
    if events.len() == 0 {
        seq![]
    } else {
        all_sent(events.drop_last(), id) + sent_with(events.last(), id)
    }
}

/// What the backend of a stream has taken over a course of events.
pub open spec fn all_taken<W, U>(
    states: Seq<DispatcherView<W, U>>,
    events: Seq<StreamEvent<W, U>>,
    id: u32,
) -> Seq<u8>
    decreases events.len(),
{
    if events.len() == 0 {
        seq![]
    } else {
        all_taken(states.drop_last(), events.drop_last(), id) + taken_with(
            states[events.len() - 1],
            events.last(),
            id,
        )
    }
}

/// An event that an open TCP stream survives keeps its history: what the client sends with it is
/// what its history grows by, whether the backend takes it or it is queued.
pub proof fn no_event_breaks_a_history<W, U>(
    before: DispatcherView<W, U>,
    event: StreamEvent<W, U>,
    after: DispatcherView<W, U>,
    id: u32,
    delivered: Seq<u8>,
    sent: Seq<u8>,
)
    requires
        adds_up(before, id, delivered, sent),
        leads_to(before, event, after, id),
        after.is_tcp(id),
    ensures
        adds_up(
            after,
            id,
            delivered + taken_with(before, event, id),
            sent + sent_with(event, id),
        ),
{
    let none = Seq::<u8>::empty();
    assert(delivered + none == delivered);
    assert(sent + none == sent);
    match event {
        StreamEvent::Packet { stream, data, drain, drained, middle, write, written } => {
            let seen = before.looked_at(stream, data);
            if stream != id {
                if before.first_step(stream) == DataStep::Drain {
                    data_leaves_other_streams(seen, stream, data, drain, drained, middle, id);
                    if drained == DataStep::Write {
                        data_leaves_other_streams(middle, stream, data, write, written, after, id);
                    }
                } else if before.first_step(stream) == DataStep::Write {
                    data_leaves_other_streams(seen, stream, data, write, written, after, id);
                }
            } else if before.first_step(id) == DataStep::Drain {
                let got = backlog::taken(
                    backlog::offered(before.backlog(id)).flatten(),
                    drain,
                );
                history_adds_up_after_a_drain(
                    before,
                    id,
                    delivered,
                    sent,
                    data,
                    drain,
                    drained,
                    middle,
                );
                if drained == DataStep::Write {
                    history_adds_up_after_a_write(
                        middle,
                        id,
                        delivered + got,
                        sent,
                        data,
                        write,
                        written,
                        after,
                    );
                    assert(delivered + got + backlog::taken(data, write) == delivered + (got
                        + backlog::taken(data, write)));
                } else {
                    assert(delivered + (got + none) == delivered + got);
                }
            } else {
                history_adds_up_after_a_write(
                    before,
                    id,
                    delivered,
                    sent,
                    data,
                    write,
                    written,
                    after,
                );
            }
        },
        StreamEvent::PassedBy => {
            passing_by_changes_no_history(before, id);
        },
        StreamEvent::Visited { outcome } => {
            if before.drain_queue[0] == id {
                history_adds_up_after_a_round(before, delivered, sent, outcome, after);
            } else {
                a_round_leaves_other_streams(before, outcome, after, id);
            }
        },
        _ => {},
    }
}

/// Over any course of events that an open TCP stream survives, what its backend has taken,
/// followed by the backlog, is what the client has sent in DATA packets: every byte of every
/// packet, once and in order.
pub proof fn what_a_client_sends_arrives<W, U>(
    states: Seq<DispatcherView<W, U>>,
    events: Seq<StreamEvent<W, U>>,
    id: u32,
    delivered: Seq<u8>,
    sent: Seq<u8>,
)
    requires
        states.len() == events.len() + 1,
        forall|i: int| 0 <= i < states.len() ==> (#[trigger] states[i]).is_tcp(id),
        forall|i: int|
            0 <= i < events.len() ==> leads_to(
                states[i],
                #[trigger] events[i],
                states[i + 1],
                id,
            ),
        adds_up(states[0], id, delivered, sent),
    ensures
        (delivered + all_taken(states, events, id)) + states.last().backlog(id).flatten() == sent
            + all_sent(events, id),
    decreases events.len(),
{
    if events.len() == 0 {
        assert(delivered + Seq::<u8>::empty() == delivered);
        assert(sent + Seq::<u8>::empty() == sent);
    } else {
        let n = events.len() - 1;
        let earlier = events.drop_last();
        let past = states.drop_last();
        assert forall|i: int| 0 <= i < earlier.len() implies leads_to(
            past[i],
            #[trigger] earlier[i],
            past[i + 1],
            id,
        ) by {
            assert(earlier[i] == events[i]);
        }
        assert forall|i: int| 0 <= i < past.len() implies (#[trigger] past[i]).is_tcp(id) by {
            assert(past[i] == states[i]);
        }
        what_a_client_sends_arrives(past, earlier, id, delivered, sent);
        assert(past.last() == states[n]);
        assert(states[n].is_tcp(id));
        assert(states[n + 1].is_tcp(id));
        assert(leads_to(states[n], events[n], states[n + 1], id));
        let taken = all_taken(past, earlier, id);
        let got = taken_with(states[n], events[n], id);
        no_event_breaks_a_history(
            states[n],
            events[n],
            states[n + 1],
            id,
            delivered + taken,
            sent + all_sent(earlier, id),
        );
        assert(delivered + (taken + got) == delivered + taken + got);
        assert(sent + (all_sent(earlier, id) + sent_with(events[n], id)) == sent + all_sent(
            earlier,
            id,
        ) + sent_with(events[n], id));
    }
}

/// Every DATA packet of an open TCP stream is offered to the backend, behind the backlog if there
/// is one, and none is passed over.
pub proof fn no_packet_is_passed_over<W, U>(state: DispatcherView<W, U>, id: u32, data: Seq<u8>)
    requires
        state.is_tcp(id),
    ensures
        state.first_step(id) == DataStep::Drain <==> state.backlog(id).len() > 0,
        state.first_step(id) == DataStep::Write <==> state.backlog(id).len() == 0,
        state.looked_at(id, data) == state,
{
}

/// DATA of a UDP stream is sent as a datagram each time, and leaves no trace. DATA for a stream
/// that there is not is dropped. A connecting stream's DATA waits.
pub proof fn data_of_other_streams<W, U>(state: DispatcherView<W, U>, id: u32, data: Seq<u8>)
    requires
        !state.is_tcp(id),
    ensures
        state.first_step(id) == DataStep::SendDatagram <==> state.streams.contains_key(id)
            && state.streams[id] is Udp,
        state.first_step(id) == DataStep::Done <==> !state.streams.contains_key(id)
            || state.streams[id] is Connecting,
        !(state.streams.contains_key(id) && state.streams[id] is Connecting) ==> state.looked_at(
            id,
            data,
        ) == state,
{
}

/// Every DATA packet that an open TCP stream survives counts: after as many packets as the
/// threshold says the stream's credit is renewed in full and the count starts anew, and before
/// that it only grows by one.
pub proof fn every_packet_counts<W, U>(
    before: DispatcherView<W, U>,
    event: StreamEvent<W, U>,
    after: DispatcherView<W, U>,
    id: u32,
)
    requires
        before.wf(),
        before.is_tcp(id),
        event matches StreamEvent::Packet { stream, .. } && stream == id,
        leads_to(before, event, after, id),
        after.is_tcp(id),
    ensures
        ({
            let count = before.streams[id]->Tcp_0.packets_since_continue + 1;
            let left = after.streams[id]->Tcp_0.packets_since_continue;
            if count == before.threshold {
                &&& left == 0
                &&& after.pending_continues == before.pending_continues.push(
                    (id, before.buffer_size),
                )
            } else {
                &&& left == count
                &&& left < before.threshold
                &&& after.pending_continues == before.pending_continues
            }
        }),
{
    assert(before.stream_ok(id));
}

/// When a round of draining begins, every stream with a backlog is in it, and each is offered its
/// turn before the round is over.
pub proof fn every_backlog_gets_its_turn<W, U>(state: DispatcherView<W, U>, id: u32)
    requires
        state.wf(),
        state.is_tcp(id),
        state.backlog(id).len() > 0,
    ensures
        state.round_begun().drain_queue.contains(id),
        state.round_begun().idle_passed().drain_queue.contains(id),
        state.round_begun().idle_passed().drain_queue.len() > 0,
{
    assert(state.stream_ok(id));
    let queue = state.drain_queue;
    let list = state.streams_with_pending;
    if queue.contains(id) {
        assert((queue + list)[queue.index_of(id)] == id);
    } else {
        assert((queue + list)[queue.len() + list.index_of(id)] == id);
    }
    lemma_passing_by_keeps(state.round_begun(), id);
}

/// Passing streams by takes no stream with a backlog out of the round.
proof fn lemma_passing_by_keeps<W, U>(state: DispatcherView<W, U>, id: u32)
    requires
        state.backlog(id).len() > 0,
        state.drain_queue.contains(id),
    ensures
        state.idle_passed().drain_queue.contains(id),
    decreases state.drain_queue.len(),
{
    if state.backlog(state.drain_queue[0]).len() == 0 {
        lemma_skip_first(state.drain_queue, id);
        let passed = state.unmarked(state.drain_queue[0]);
        lemma_passing_by_keeps(
            DispatcherView { drain_queue: state.drain_queue.skip(1), ..passed },
            id,
        );
    }
}

/// A connection has room for a stream as long as a flag is left for it and the machine can count
/// it, however many there are.
pub proof fn only_the_machine_limits_the_room<W, U>(state: DispatcherView<W, U>)
    ensures
        state.has_room() <==> state.board.left() > 0 && state.streams.dom().len() < usize::MAX,
        state.full() <==> state.limit != 0 && !(state.streams.dom().len() < state.limit),
{
}

/// Once the backend has taken the whole backlog the data that came is offered to it at once; as
/// long as any of the backlog is left the data waits behind it; and a backend that is gone gets
/// nothing more.
pub proof fn data_waits_only_behind_a_backlog<W, U>(
    before: DispatcherView<W, U>,
    id: u32,
    data: Seq<u8>,
    outcome: WriteOutcome,
    step: DataStep,
    after: DispatcherView<W, U>,
)
    requires
        before.is_tcp(id),
        before.data_drained(id, data, outcome, step, after),
        backlog::within(outcome, backlog::offered(before.backlog(id)).flatten().len() as int),
    ensures
        outcome == WriteOutcome::Failed <==> step == DataStep::Dead,
        outcome matches WriteOutcome::Wrote(count) ==> {
            let all = before.backlog(id).flatten().len();
            &&& count < all ==> step == DataStep::Done
            &&& count == all && before.backlog(id).len() <= 1024 ==> {
                &&& step == DataStep::Write
                &&& after.backlog(id).len() == 0
            }
        },
        outcome == WriteOutcome::WouldBlock && before.backlog(id).len() > 0 ==> {
            &&& step == DataStep::Done
            &&& after.backlog(id) == before.backlog(id).push(data)
        },
{
    if let WriteOutcome::Wrote(count) = outcome {
        let pending = before.backlog(id);
        backlog::draining_keeps_the_stream(pending, count as int);
        let left = backlog::drained(pending, count as int);
        if left.len() == 0 {
            assert(left == Seq::<Seq<u8>>::empty());
            assert(left.flatten() == Seq::<u8>::empty());
        }
    }
}

/// Data that is written is settled with one attempt: what the backend does not take is queued, and
/// the stream is gone exactly if the backend is.
pub proof fn writes_are_settled_at_once<W, U>(
    before: DispatcherView<W, U>,
    id: u32,
    data: Seq<u8>,
    outcome: WriteOutcome,
    step: DataStep,
    after: DispatcherView<W, U>,
)
    requires
        before.is_tcp(id),
        before.data_written(id, data, outcome, step, after),
    ensures
        outcome == WriteOutcome::Failed ==> step == DataStep::Dead && after.streams
            == before.streams.remove(id) && after.board.cancelled(before.streams[id].flag()),
        outcome != WriteOutcome::Failed ==> step == DataStep::Done && after.is_tcp(id)
            && after.streams[id].flag() == before.streams[id].flag() && after.board == before.board,
{
}

/// A round takes over the streams of the round before that were not visited, and behind them those
/// that were listed since, in order; nothing else changes.
pub proof fn rounds_begin_with_what_is_listed<W, U>(state: DispatcherView<W, U>)
    ensures
        ({
            let begun = state.round_begun();
            &&& begun.drain_queue == state.drain_queue + state.streams_with_pending
            &&& begun.streams_with_pending.len() == 0
            &&& begun.streams == state.streams
            &&& begun.board == state.board
            &&& begun.limit == state.limit
            &&& begun.pending_continues == state.pending_continues
            &&& begun.buffer_size == state.buffer_size
            &&& begun.threshold == state.threshold
        }),
{
}

/// Passing by goes no further than the first stream with a backlog, changes the order of no one,
/// and touches nothing but the marks of the streams that it passes.
pub proof fn passing_by_stops_at_a_backlog<W, U>(state: DispatcherView<W, U>)
    ensures
        ({
            let passed = state.idle_passed();
            let gone = state.drain_queue.len() - passed.drain_queue.len();
            &&& gone >= 0
            &&& passed.drain_queue == state.drain_queue.skip(gone)
            &&& passed.drain_queue.len() > 0 ==> passed.backlog(passed.drain_queue[0]).len() > 0
            &&& passed.streams.dom() == state.streams.dom()
            &&& passed.board == state.board
            &&& passed.limit == state.limit
            &&& passed.pending_continues == state.pending_continues
            &&& passed.streams_with_pending == state.streams_with_pending
            &&& passed.buffer_size == state.buffer_size
            &&& passed.threshold == state.threshold
            &&& forall|id: u32| #[trigger]
                state.streams.contains_key(id) ==> same_but_for_the_mark(
                    state.streams[id],
                    passed.streams[id],
                )
        }),
    decreases state.drain_queue.len(),
{
    if state.drain_queue.len() > 0 && state.backlog(state.drain_queue[0]).len() == 0 {
        let first = state.drain_queue[0];
        let marked = state.unmarked(first);
        let next = DispatcherView { drain_queue: state.drain_queue.skip(1), ..marked };
        passing_by_stops_at_a_backlog(next);
        let passed = state.idle_passed();
        let gone = next.drain_queue.len() - passed.drain_queue.len();
        assert(next.drain_queue.skip(gone) == state.drain_queue.skip(gone + 1));
        assert(next.streams.dom() == state.streams.dom());
        assert forall|id: u32| #[trigger] state.streams.contains_key(id) implies
            same_but_for_the_mark(state.streams[id], passed.streams[id]) by {
            assert(next.streams.contains_key(id));
            assert(same_but_for_the_mark(state.streams[id], next.streams[id]));
        }
    } else {
        assert(state.drain_queue.skip(0) == state.drain_queue);
    }
}

/// Whether two states of a stream are the same but for the mark of a TCP stream to be drained.
pub open spec fn same_but_for_the_mark<W, U>(a: StreamView<W, U>, b: StreamView<W, U>) -> bool {
    match a {
        StreamView::Tcp(tcp) => {
            &&& b matches StreamView::Tcp(other)
            &&& other.writer == tcp.writer
            &&& other.pending == tcp.pending
            &&& other.packets_since_continue == tcp.packets_since_continue
            &&& other.cancel == tcp.cancel
        },
        _ => b == a,
    }
}

/// A visit takes the stream out of the round. It is closed and its task stopped if its backend is
/// gone; it is listed for the next round exactly if anything of its backlog is left; and no packet
/// is counted.
pub proof fn visits_take_streams_out_of_the_round<W, U>(
    before: DispatcherView<W, U>,
    outcome: WriteOutcome,
    after: DispatcherView<W, U>,
)
    requires
        before.drain_queue.len() > 0,
        before.is_tcp(before.drain_queue[0]),
        before.front_drained(outcome, after),
    ensures
        ({
            let id = before.drain_queue[0];
            &&& after.drain_queue == before.drain_queue.skip(1)
            &&& after.pending_continues == before.pending_continues
            &&& outcome == WriteOutcome::Failed ==> {
                &&& after.streams == before.streams.remove(id)
                &&& after.board.cancelled(before.streams[id].flag())
                &&& after.streams_with_pending == before.streams_with_pending
            }
            &&& outcome != WriteOutcome::Failed ==> {
                &&& after.is_tcp(id)
                &&& after.board == before.board
                &&& after.streams[id]->Tcp_0.packets_since_continue
                    == before.streams[id]->Tcp_0.packets_since_continue
                &&& after.streams_with_pending == if after.backlog(id).len() > 0 {
                    before.streams_with_pending.push(id)
                } else {
                    before.streams_with_pending
                }
            }
        }),
{
}

/// A stream that is added is there exactly if its id was free and a place was left; no other stream
/// changes, and what is owed for the others stays.
pub proof fn streams_are_added_where_there_is_a_place<W, U>(
    before: DispatcherView<W, U>,
    id: u32,
    stream: StreamView<W, U>,
    after: DispatcherView<W, U>,
)
    requires
        before.added(id, stream, after),
    ensures
        ({
            let free = !before.streams.contains_key(id);
            let place = before.limit == 0 || before.streams.dom().len() < before.limit;
            &&& free && place ==> after.streams == before.streams.insert(id, stream)
            &&& !(free && place) ==> after.streams == before.streams
            &&& after.limit == before.limit
            &&& after.buffer_size == before.buffer_size
            &&& after.threshold == before.threshold
            &&& !after.board.cancelled(stream.flag())
            &&& forall|flag: CancelFlag| #[trigger]
                before.board.issued(flag) ==> after.board.cancelled(flag)
                    == before.board.cancelled(flag)
        }),
{
    assert forall|flag: CancelFlag| #[trigger] before.board.issued(flag) implies
        after.board.cancelled(flag) == before.board.cancelled(flag) by {
        assert(flag != stream.flag());
    }
}

/// A stream that is refused changes nothing but the numbering of flags.
pub proof fn refused_streams_leave_no_trace<W, U>(
    before: DispatcherView<W, U>,
    after: DispatcherView<W, U>,
)
    requires
        before.refused(after),
    ensures
        after.streams == before.streams,
        before.same_duties(after),
        after.limit == before.limit,
        after.buffer_size == before.buffer_size,
        after.threshold == before.threshold,
        after.board.left() + 1 == before.board.left(),
        forall|flag: CancelFlag| #[trigger]
            before.board.issued(flag) ==> after.board.cancelled(flag) == before.board.cancelled(
                flag,
            ),
{
    assert forall|flag: CancelFlag| #[trigger] before.board.issued(flag) implies
        after.board.cancelled(flag) == before.board.cancelled(flag) by {}
}

/// Taking a DATA packet asks for a write or a drain on every TCP stream, whatever it has received
/// before, and leaves the data where it is; a UDP stream's is sent each time; a connecting stream
/// takes it in behind what it already holds, up to 128 packets.
pub proof fn data_is_taken<W, U>(
    streams: &mut Dispatcher<W, U>,
    id: u32,
    data: &mut BytesMut,
    r: DataStep,
)
    requires
        call_ensures(Dispatcher::<W, U>::handle_data_zerocopy, (streams, id, data), r),
    ensures
        ({
            let before = old(streams)@.streams;
            let after = final(streams)@.streams;
            &&& before.contains_key(id) && before[id] is Tcp ==> {
                &&& r == DataStep::Write || r == DataStep::Drain
                &&& r == DataStep::Drain <==> before[id]->Tcp_0.pending.len() > 0
                &&& after == before
                &&& *final(data) == *old(data)
            }
            &&& before.contains_key(id) && before[id] is Udp ==> {
                &&& r == DataStep::SendDatagram
                &&& after == before
                &&& *final(data) == *old(data)
            }
            &&& before.contains_key(id) && before[id] is Connecting ==> {
                let early = before[id]->Connecting_0.early_data;
                &&& r == DataStep::Done
                &&& after.contains_key(id)
                &&& after[id] is Connecting
                &&& after[id].flag() == before[id].flag()
                &&& after[id]->Connecting_0.early_data == if early.len() < 128 {
                    early.push(buffers::contents_mut(*old(data)))
                } else {
                    early
                }
            }
            &&& !before.contains_key(id) ==> r == DataStep::Done && after == before
        }),
{
}

/// The streams of a table stand for their values, each under its id.
pub proof fn streams_stand_for_their_values<W, U>(table: Map<u32, ProxyStream<W, U>>, id: u32)
    ensures
        stream_views(table).contains_key(id) <==> table.contains_key(id),
        table.contains_key(id) ==> stream_views(table)[id] == table[id]@,
{
}

} // verus!
