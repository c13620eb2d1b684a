//! A connection after the handshake: its streams, its clockwork, and what it owes the client.
//!
//! An [`Engine`] is told of everything that happens on a connection and says what is to be done
//! about it. What the client has to be told collects in the outbox, in order; the caller writes
//! it to the client's socket.

use bytes::BytesMut;
use vstd::prelude::*;

use crate::buffers;
use crate::net::{IpAddr, SocketAddr};
use crate::protocol::frame;
use crate::protocol::frame::{build_close_frame, build_continue_frame};
use crate::protocol::types;
use crate::protocol::types::{
    CloseReason, ConnectPayload, ConnectView, StreamType, PACKET_CLOSE, PACKET_CONNECT,
    PACKET_DATA, STREAM_ID_CONTROL, WISP_HEADER_SIZE,
};
use crate::proxy::backlog;
use crate::proxy::backlog::WriteOutcome;
use crate::proxy::cancel;
use crate::proxy::early::{EarlyFlush, EarlyView};
use crate::proxy::stream::{
    CancelFlag, ConnectingView, ProxyStream, StreamView, TcpView, UdpProxyStream,
};
use crate::server::config::{ConfigView, ServerConfig};
use crate::server::connection;
use crate::server::connection::{
    control_step, handle_connect, handle_inbound, judge_resolution, process_inbound_frame,
    ControlStep, Inbound,
};
use crate::server::dispatch::{DataStep, Dispatcher, DispatcherView};
use crate::server::security;
use crate::server::session::{ConnState, PingStep};
use crate::wire;
use crate::ws::codec::{OpCode, WsFrame, WsFrameView};
use crate::ws::outbound;
use crate::ws::outbound::{
    encode_continues, ws_binary_frame, ws_close_frame, ws_ping_frame, ws_pong_frame,
};

verus! {

/// What is to be done about a packet.
#[derive(Debug)]
pub enum Step {
    /// Nothing more.
    Done,
    /// Go on with the data of a stream.
    Data { stream_id: u32, step: DataStep },
    /// Resolve the name and connect. The flag tells the connecting task to give up. A connection
    /// that has other streams is better served with large buffers.
    ConnectTcp { stream_id: u32, connect: ConnectPayload, flag: CancelFlag, multiplexed: bool },
    /// Make a socket, resolve the name, and report to `udp_resolved`.
    ConnectUdp { stream_id: u32, connect: ConnectPayload },
    /// The connection ends.
    End,
}

/// A connection after the handshake.
pub struct Engine<W, U> {
    streams: Dispatcher<W, U>,
    state: ConnState,
    outbox: Vec<u8>,
}

/// A connection after the handshake, as a mathematical value.
#[verifier::ext_equal]
pub struct EngineView<W, U> {
    /// Its streams.
    pub streams: DispatcherView<W, U>,
    /// What it remembers of time.
    pub state: ConnState,
    /// The bytes that the client has yet to be sent.
    pub outbox: Seq<u8>,
}

impl<W, U> View for Engine<W, U> {
    type V = EngineView<W, U>;

    closed spec fn view(&self) -> EngineView<W, U> {
        EngineView { streams: self.streams@, state: self.state, outbox: self.outbox@ }
    }
}

/// The frame that tells a client that a stream is closed.
pub open spec fn closing(stream_id: u32, reason: CloseReason) -> Seq<u8> {
    outbound::binary_frame(frame::close_bytes(stream_id, reason))
}

/// The frame that gives a stream credit.
pub open spec fn crediting(stream_id: u32, credit: u32) -> Seq<u8> {
    outbound::binary_frame(frame::continue_bytes(stream_id, credit))
}

impl<W, U> EngineView<W, U> {
    /// The state with something more to be sent.
    pub open spec fn told(self, bytes: Seq<u8>) -> Self {
        EngineView { outbox: self.outbox + bytes, ..self }
    }

    /// The state with other streams.
    pub open spec fn with_streams(self, streams: DispatcherView<W, U>) -> Self {
        EngineView { streams, ..self }
    }

    /// The state once a packet was counted: only a request for a stream is.
    pub open spec fn counted(self, packet_type: u8) -> Self {
        if packet_type == PACKET_CONNECT {
            EngineView {
                state: ConnState {
                    streams_opened: if self.state.streams_opened == u32::MAX {
                        0
                    } else {
                        (self.state.streams_opened + 1) as u32
                    },
                    ..self.state
                },
                ..self
            }
        } else {
            self
        }
    }

    /// Whether a request for a stream was handled as it must be. One that is refused is answered
    /// with the reason; so is one that no more streams are taken for.
    pub open spec fn connect_handled(
        self,
        config: ConfigView,
        stream_id: u32,
        connect: ConnectView,
        after: Self,
        r: Step,
    ) -> bool {
        match connection::connect_refusal(
            stream_id,
            self.streams.streams.contains_key(stream_id),
            connect,
            security::raw_ip(connect.hostname),
            config,
        ) {
            Some(reason) => r is Done && after == self.told(closing(stream_id, reason)),
            None => match connect.stream_type {
                StreamType::Udp => {
                    &&& r matches Step::ConnectUdp { stream_id: id, connect: got }
                    &&& id == stream_id
                    &&& got@ == connect
                    &&& after == self
                },
                StreamType::Tcp => if !self.streams.has_room() {
                    r is Done && after == self.told(closing(stream_id, CloseReason::Throttled))
                } else if self.streams.full() {
                    &&& r is Done
                    &&& self.streams.refused(after.streams)
                    &&& after == self.with_streams(after.streams).told(
                        closing(stream_id, CloseReason::Throttled),
                    )
                } else {
                    &&& r matches Step::ConnectTcp { stream_id: id, connect: got, flag, multiplexed }
                    &&& id == stream_id
                    &&& got@ == connect
                    &&& multiplexed == (self.streams.streams.dom().len() >= 1)
                    &&& after == self.with_streams(after.streams)
                    &&& self.streams.same_duties(after.streams)
                    &&& self.streams.added(
                        stream_id,
                        StreamView::Connecting(
                            ConnectingView { early_data: seq![], cancel: flag },
                        ),
                        after.streams,
                    )
                },
            },
        }
    }

    /// Whether a packet was handled as it must be.
    pub open spec fn packet_handled(
        self,
        config: ConfigView,
        packet_type: u8,
        stream_id: u32,
        payload: Seq<u8>,
        after: Self,
        r: Step,
    ) -> bool {
        if packet_type == PACKET_DATA {
            &&& r == Step::Data { stream_id, step: self.streams.first_step(stream_id) }
            &&& after == self.with_streams(self.streams.looked_at(stream_id, payload))
        } else if packet_type == PACKET_CONNECT {
            match frame::connect_of(payload) {
                Some(connect) => self.connect_handled(config, stream_id, connect, after, r),
                None => r is Done && after == self.told(
                    closing(stream_id, CloseReason::InvalidInfo),
                ),
            }
        } else if packet_type == PACKET_CLOSE {
            if stream_id == STREAM_ID_CONTROL {
                r is End && after == self.told(seq![0x88u8, 0x00u8])
            } else {
                &&& r is Done
                &&& after == self.with_streams(after.streams)
                &&& self.streams.without(stream_id, after.streams)
            }
        } else {
            r is Done && after == self
        }
    }
}

impl<W, U> Engine<W, U> {
    /// What holds between any two events.
    pub closed spec fn inv(&self) -> bool {
        self.streams.inv()
    }

    /// What `inv` says of the view.
    pub proof fn inv_gives_wf(&self)
        requires
            self.inv(),
        ensures
            self@.streams.wf(),
    {
        self.streams.inv_gives_wf();
    }

    /// A connection without streams that owes the client nothing.
    pub fn new(config: &ServerConfig, state: ConnState) -> (r: Self)
        ensures
            r.inv(),
            r@.streams.has_room(),
            r@.streams.board.left() == u64::MAX,
            forall|flag: CancelFlag|
                !r@.streams.board.issued(flag) && r@.streams.board.cancelled(flag),
            r@ == (EngineView {
                streams: DispatcherView {
                    streams: Map::<u32, StreamView<W, U>>::empty(),
                    limit: config.max_streams,
                    board: r@.streams.board,
                    pending_continues: seq![],
                    streams_with_pending: seq![],
                    drain_queue: seq![],
                    buffer_size: config.buffer_size,
                    threshold: config@.threshold() as u32,
                },
                state,
                outbox: seq![],
            }),
    {
        Engine {
            streams: Dispatcher::new(
                config.max_streams,
                config.buffer_size,
                config.continue_threshold(),
            ),
            state,
            outbox: Vec::new(),
        }
    }

    /// What the connection remembers of time.
    pub fn state(&self) -> (r: &ConnState)
        ensures
            *r == self@.state,
    {
        &self.state
    }

    /// The number of streams.
    pub fn len(&self) -> (r: usize)
        requires
            self.inv(),
        ensures
            r == self@.streams.streams.dom().len(),
    {
        self.streams.len()
    }

    /// Finds a stream, for use of its socket.
    pub fn stream(&self, stream_id: u32) -> (r: Option<&ProxyStream<W, U>>)
        requires
            self.inv(),
        ensures
            match r {
                Some(stream) => self@.streams.streams.contains_key(stream_id) && stream@
                    == self@.streams.streams[stream_id],
                None => !self@.streams.streams.contains_key(stream_id),
            },
    {
        self.streams.stream(stream_id)
    }

    /// Whether a flag of this connection was cancelled.
    pub fn is_cancelled(&self, flag: CancelFlag) -> (r: bool)
        ensures
            r == self@.streams.board.cancelled(flag),
    {
        self.streams.is_cancelled(flag)
    }

    /// Takes what the client has yet to be sent.
    pub fn take_outbox(&mut self) -> (r: Vec<u8>)
        requires
            old(self).inv(),
        ensures
            final(self).inv(),
            r@ == old(self)@.outbox,
            final(self)@ == (EngineView { outbox: seq![], ..old(self)@ }),
    {
        let mut bytes: Vec<u8> = Vec::new();
        std::mem::swap(&mut bytes, &mut self.outbox);
        bytes
    }

    /// Tells the client that a stream is closed.
    fn tell_closed(&mut self, stream_id: u32, reason: CloseReason)
        ensures
            final(self).streams == old(self).streams,
            final(self)@ == old(self)@.told(closing(stream_id, reason)),
    {
        let mut bytes = ws_binary_frame(&build_close_frame(stream_id, reason));
        self.outbox.append(&mut bytes);
    }

    // -----------------------------------------------------------------------------------
    // From the client
    // -----------------------------------------------------------------------------------

    /// Opens the stream that the client asks for, as far as that can be done before its name is
    /// resolved.
    fn open_stream(
        &mut self,
        config: &ServerConfig,
        stream_id: u32,
        connect: ConnectPayload,
    ) -> (r: Step)
        requires
            old(self).inv(),
        ensures
            final(self).inv(),
            old(self)@.connect_handled(config@, stream_id, connect@, final(self)@, r),
    {
        if let Some(reason) = handle_connect(&self.streams, config, stream_id, &connect) {
            self.tell_closed(stream_id, reason);
            return Step::Done;
        }
        match connect.stream_type {
            StreamType::Udp => Step::ConnectUdp { stream_id, connect },
            StreamType::Tcp => {
                let multiplexed = self.streams.len() >= 1;
                let opened = if self.streams.has_room() {
                    self.streams.open_connecting(stream_id)
                } else {
                    None
                };
                match opened {
                    Some(flag) => Step::ConnectTcp { stream_id, connect, flag, multiplexed },
                    None => {
                        self.tell_closed(stream_id, CloseReason::Throttled);
                        Step::Done
                    },
                }
            },
        }
    }

    /// Follows up a packet that the streams have seen.
    fn follow(&mut self, config: &ServerConfig, inbound: Inbound) -> (r: Step)
        requires
            old(self).inv(),
        ensures
            final(self).inv(),
            match inbound {
                Inbound::Nothing => r is Done && final(self)@ == old(self)@,
                Inbound::Data { stream_id, step } => r == (Step::Data { stream_id, step })
                    && final(self)@ == old(self)@,
                Inbound::Connect { stream_id, connect } => old(self)@.connect_handled(
                    config@,
                    stream_id,
                    connect@,
                    final(self)@,
                    r,
                ),
                Inbound::Malformed { stream_id } => r is Done && final(self)@ == old(self)@.told(
                    closing(stream_id, CloseReason::InvalidInfo),
                ),
                Inbound::CloseConnection => r is End && final(self)@ == old(self)@.told(
                    seq![0x88u8, 0x00u8],
                ),
            },
    {
        match inbound {
            Inbound::Nothing => Step::Done,
            Inbound::Data { stream_id, step } => Step::Data { stream_id, step },
            Inbound::Connect { stream_id, connect } => self.open_stream(
                config,
                stream_id,
                connect,
            ),
            Inbound::Malformed { stream_id } => {
                self.tell_closed(stream_id, CloseReason::InvalidInfo);
                Step::Done
            },
            Inbound::CloseConnection => {
                self.tell_end();
                Step::End
            },
        }
    }

    /// Takes a packet of the client whose header was taken off. Early data of a connecting stream
    /// is taken out of `payload`.
    pub fn packet_received(
        &mut self,
        config: &ServerConfig,
        packet_type: u8,
        stream_id: u32,
        payload: &mut BytesMut,
    ) -> (r: Step)
        requires
            old(self).inv(),
        ensures
            final(self).inv(),
            old(self)@.counted(packet_type).packet_handled(
                config@,
                packet_type,
                stream_id,
                buffers::contents_mut(*old(payload)),
                final(self)@,
                r,
            ),
            if packet_type == PACKET_DATA && final(self)@ != old(self)@ {
                buffers::contents_mut(*final(payload)) == Seq::<u8>::empty()
            } else {
                *final(payload) == *old(payload)
            },
    {
        if packet_type == PACKET_CONNECT {
            self.state.stream_asked_for();
        }
        let inbound = handle_inbound(&mut self.streams, packet_type, stream_id, payload);
        self.follow(config, inbound)
    }

    /// Tells the client that the connection ends.
    fn tell_end(&mut self)
        ensures
            final(self).streams == old(self).streams,
            final(self)@ == old(self)@.told(seq![0x88u8, 0x00u8]),
    {
        self.outbox.extend_from_slice(&ws_close_frame());
    }

    /// Takes the packet that came in place of an INFO packet, whole. It is dropped if it is
    /// larger than is accepted or too short for a header, and it is not counted. Its header is
    /// taken off; so is early data of a connecting stream.
    pub fn deferred_received(&mut self, config: &ServerConfig, packet: &mut BytesMut) -> (r: Step)
        requires
            old(self).inv(),
        ensures
            final(self).inv(),
            ({
                let bytes = buffers::contents_mut(*old(packet));
                let limit = config.max_frame_size;
                if (limit > 0 && bytes.len() > limit) || bytes.len() < WISP_HEADER_SIZE {
                    r is Done && final(self)@ == old(self)@ && *final(packet) == *old(packet)
                } else {
                    &&& old(self)@.packet_handled(
                        config@,
                        bytes[0],
                        frame::id_of(bytes),
                        bytes.skip(WISP_HEADER_SIZE as int),
                        final(self)@,
                        r,
                    )
                    &&& buffers::contents_mut(*final(packet)) == if bytes[0] == PACKET_DATA
                        && final(self)@ != old(self)@ {
                        Seq::<u8>::empty()
                    } else {
                        bytes.skip(WISP_HEADER_SIZE as int)
                    }
                }
            }),
    {
        let inbound = process_inbound_frame(&mut self.streams, config.max_frame_size, packet);
        self.follow(config, inbound)
    }
}

/// What a flush of early data stands for, if there is one.
pub open spec fn flush_view(flush: Option<EarlyFlush>) -> Option<EarlyView> {
    match flush {
        Some(flush) => Some(flush@),
        None => None,
    }
}

impl<W, U> EngineView<W, U> {
    /// Whether it was handled as it must be that a TCP backend is connected. A connecting stream
    /// leaves the others and hands out its early data. Any other stream stays, though its flag is
    /// cancelled. If no more flags can be numbered, the stream is closed and the client is told.
    pub open spec fn connected_handled(
        self,
        stream_id: u32,
        after: Self,
        flush: Option<EarlyView>,
    ) -> bool {
        let streams = self.streams.streams;
        if !self.streams.has_room() {
            &&& flush is None
            &&& self.streams.without(stream_id, after.streams)
            &&& after == self.with_streams(after.streams).told(
                closing(stream_id, CloseReason::Throttled),
            )
        } else if streams.contains_key(stream_id) && streams[stream_id] is Connecting {
            &&& flush == Some(
                EarlyView {
                    waiting: streams[stream_id]->Connecting_0.early_data,
                    backlog: seq![],
                    dead: false,
                },
            )
            &&& self.streams.without(stream_id, after.streams)
            &&& after == self.with_streams(after.streams)
        } else {
            let flag = streams[stream_id].flag();
            &&& flush is None
            &&& after == self.with_streams(
                DispatcherView { board: after.streams.board, ..self.streams },
            )
            &&& after.streams.board.left() == self.streams.board.left()
            &&& if streams.contains_key(stream_id) {
                &&& after.streams.board.cancelled(flag)
                &&& after.streams.board.issued(flag)
                &&& cancel::others_kept(self.streams.board, after.streams.board, flag)
            } else {
                after.streams.board == self.streams.board
            }
        }
    }

    /// Whether it was handled as it must be that the early data of a connected stream was
    /// offered.
    pub open spec fn ready_handled(
        self,
        stream_id: u32,
        writer: W,
        flush: EarlyView,
        after: Self,
        r: Option<CancelFlag>,
    ) -> bool {
        if flush.dead {
            r is None && after == self.told(closing(stream_id, CloseReason::NetworkError))
        } else if !self.streams.has_room() {
            r is None && after == self.told(closing(stream_id, CloseReason::Throttled))
        } else {
            let unwritten = flush.unwritten();
            &&& r matches Some(flag)
            &&& after == self.with_streams(after.streams).told(
                crediting(stream_id, self.streams.buffer_size),
            )
            &&& self.streams.added(
                stream_id,
                StreamView::Tcp(
                    TcpView {
                        writer,
                        pending: unwritten,
                        packets_since_continue: 0,
                        queued_for_drain: unwritten.len() > 0,
                        cancel: flag,
                    },
                ),
                after.streams,
            )
            &&& after.streams.streams_with_pending == if unwritten.len() > 0 {
                self.streams.streams_with_pending.push(stream_id)
            } else {
                self.streams.streams_with_pending
            }
            &&& after.streams.pending_continues == self.streams.pending_continues
            &&& after.streams.drain_queue == self.streams.drain_queue
        }
    }

    /// Whether a frame that is no binary one was handled as it must be: a close is answered and
    /// ends the connection, a ping is answered, and a pong is noted.
    pub open spec fn control_handled(
        self,
        frame: WsFrameView,
        now: u64,
        after: Self,
        ends: bool,
    ) -> bool {
        &&& ends == (frame.opcode == OpCode::Close)
        &&& after == match frame.opcode {
            OpCode::Close => self.told(seq![0x88u8, 0x00u8]),
            OpCode::Ping => self.told(outbound::pong_frame(frame.payload)),
            OpCode::Pong => EngineView { state: self.state.answered(now), ..self },
            _ => self,
        }
    }

    /// Whether it was handled as it must be that the name of a UDP stream has an address, or none.
    pub open spec fn udp_handled(
        self,
        config: ConfigView,
        stream_id: u32,
        connect: ConnectView,
        socket: U,
        address: Option<IpAddr>,
        after: Self,
        r: Option<CancelFlag>,
    ) -> bool {
        match connection::resolution(
            address,
            connect,
            security::raw_ip(connect.hostname),
            config,
        ) {
            Err(reason) => r is None && after == self.told(closing(stream_id, reason)),
            Ok(dest_addr) => if !self.streams.has_room() {
                r is None && after == self.told(closing(stream_id, CloseReason::Throttled))
            } else if self.streams.streams.contains_key(stream_id) || self.streams.full() {
                &&& r is None
                &&& self.streams.refused(after.streams)
                &&& after == self.with_streams(after.streams).told(
                    closing(stream_id, CloseReason::Throttled),
                )
            } else {
                &&& r matches Some(flag)
                &&& after == self.with_streams(after.streams)
                &&& self.streams.same_duties(after.streams)
                &&& self.streams.added(
                    stream_id,
                    StreamView::Udp(UdpProxyStream { socket, dest_addr, cancel: flag }),
                    after.streams,
                )
            },
        }
    }

    /// Whether `after` is this state once a stream was closed and the client was told why.
    pub open spec fn ended(self, stream_id: u32, reason: CloseReason, after: Self) -> bool {
        &&& self.streams.without(stream_id, after.streams)
        &&& after == self.with_streams(after.streams).told(closing(stream_id, reason))
    }

    /// Whether a ping that is due was handled as it must be.
    pub open spec fn ping_handled(self, now: u64, after: Self, ends: bool) -> bool {
        &&& ends == self.state.pong_overdue(now)
        &&& after == if ends {
            self
        } else {
            (EngineView { state: self.state.pinged(now), ..self }).told(seq![0x89u8, 0x00u8])
        }
    }

    /// The state after the data of a stream was settled: if its backend is gone, the client is
    /// told.
    pub open spec fn data_settled(
        self,
        stream_id: u32,
        step: DataStep,
        streams: DispatcherView<W, U>,
    ) -> Self {
        if step == DataStep::Dead {
            self.with_streams(streams).told(closing(stream_id, CloseReason::NetworkError))
        } else {
            self.with_streams(streams)
        }
    }
}

impl<W, U> Engine<W, U> {
    /// Settles an attempt to write a stream's backlog, made because DATA came for it. The data
    /// is taken out of `data` if it has to wait behind what is left.
    pub fn data_after_drain(
        &mut self,
        stream_id: u32,
        data: &mut BytesMut,
        outcome: WriteOutcome,
    ) -> (r: DataStep)
        requires
            old(self).inv(),
            old(self)@.streams.is_tcp(stream_id),
            old(self)@.streams.backlog(stream_id).len() > 0,
            backlog::within(
                outcome,
                backlog::offered(old(self)@.streams.backlog(stream_id)).flatten().len() as int,
            ),
        ensures
            final(self).inv(),
            old(self)@.streams.data_drained(
                stream_id,
                buffers::contents_mut(*old(data)),
                outcome,
                r,
                final(self)@.streams,
            ),
            final(self)@ == old(self)@.data_settled(stream_id, r, final(self)@.streams),
            r == DataStep::Done ==> buffers::contents_mut(*final(data)) == Seq::<u8>::empty(),
            r != DataStep::Done ==> *final(data) == *old(data),
    {
        let step = self.streams.data_after_drain(stream_id, data, outcome);
        if step == DataStep::Dead {
            self.tell_closed(stream_id, CloseReason::NetworkError);
        }
        step
    }

    /// Settles an attempt to write DATA to a stream that has no backlog. What was not written is
    /// taken out of `data`.
    pub fn data_after_write(
        &mut self,
        stream_id: u32,
        data: &mut BytesMut,
        outcome: WriteOutcome,
    ) -> (r: DataStep)
        requires
            old(self).inv(),
            old(self)@.streams.is_tcp(stream_id),
            old(self)@.streams.backlog(stream_id).len() == 0,
            backlog::within(outcome, buffers::contents_mut(*old(data)).len() as int),
        ensures
            final(self).inv(),
            old(self)@.streams.data_written(
                stream_id,
                buffers::contents_mut(*old(data)),
                outcome,
                r,
                final(self)@.streams,
            ),
            final(self)@ == old(self)@.data_settled(stream_id, r, final(self)@.streams),
            if outcome == WriteOutcome::Failed || outcome == WriteOutcome::Wrote(
                buffers::contents_mut(*old(data)).len() as usize,
            ) {
                *final(data) == *old(data)
            } else {
                buffers::contents_mut(*final(data)) == Seq::<u8>::empty()
            },
    {
        let step = self.streams.data_after_write(stream_id, data, outcome);
        if step == DataStep::Dead {
            self.tell_closed(stream_id, CloseReason::NetworkError);
        }
        step
    }

    /// Takes a frame that is no binary one. Says whether the connection ends.
    pub fn control_received(&mut self, frame: &WsFrame, now: u64) -> (r: bool)
        requires
            old(self).inv(),
        ensures
            final(self).inv(),
            old(self)@.control_handled(frame@, now, final(self)@, r),
    {
        match control_step(frame.opcode) {
            ControlStep::Close => {
                self.tell_end();
                true
            },
            ControlStep::Pong => {
                let mut bytes = ws_pong_frame(buffers::bytes_mut_as_slice(&frame.payload));
                self.outbox.append(&mut bytes);
                false
            },
            ControlStep::NotePong => {
                self.state.pong_received(now);
                false
            },
            ControlStep::Nothing => false,
        }
    }

    // -----------------------------------------------------------------------------------
    // Backends
    // -----------------------------------------------------------------------------------

    /// The name of a UDP stream has an address, or none: the stream is opened, or the client is
    /// told why not. The flag stops the task that reads from the backend.
    pub fn udp_resolved(
        &mut self,
        config: &ServerConfig,
        stream_id: u32,
        connect: &ConnectPayload,
        socket: U,
        address: Option<IpAddr>,
    ) -> (r: Option<CancelFlag>)
        requires
            old(self).inv(),
        ensures
            final(self).inv(),
            old(self)@.udp_handled(
                config@,
                stream_id,
                connect@,
                socket,
                address,
                final(self)@,
                r,
            ),
    {
        let dest_addr = match judge_resolution(address, connect, config) {
            Ok(dest_addr) => dest_addr,
            Err(reason) => {
                self.tell_closed(stream_id, reason);
                return None;
            },
        };
        let opened = if self.streams.has_room() {
            self.streams.open_udp(stream_id, socket, dest_addr)
        } else {
            None
        };
        if opened.is_none() {
            self.tell_closed(stream_id, CloseReason::Throttled);
        }
        opened
    }

    /// A stream was refused or its backend has ended it: it is closed, and the client is told
    /// why.
    pub fn stream_ended(&mut self, stream_id: u32, reason: CloseReason)
        requires
            old(self).inv(),
        ensures
            final(self).inv(),
            old(self)@.ended(stream_id, reason, final(self)@),
    {
        self.streams.close_stream(stream_id);
        self.tell_closed(stream_id, reason);
    }

    /// The backend of a TCP stream is connected: the early data comes back to be written. If no
    /// more streams can be numbered, the stream is closed and the client is told.
    pub fn backend_connected(&mut self, stream_id: u32) -> (r: Option<EarlyFlush>)
        requires
            old(self).inv(),
        ensures
            final(self).inv(),
            old(self)@.connected_handled(stream_id, final(self)@, flush_view(r)),
    {
        if self.streams.has_room() {
            self.streams.tcp_connected(stream_id)
        } else {
            self.stream_ended(stream_id, CloseReason::Throttled);
            None
        }
    }

    /// The early data of a connected stream was offered. If the backend is gone already, the
    /// client is told; else the stream joins the others with what is left as its backlog, chunks
    /// that were not offered included, and the client gets credit for it. The flag stops the task
    /// that reads from the backend.
    pub fn backend_ready(&mut self, stream_id: u32, writer: W, flush: EarlyFlush) -> (r: Option<
        CancelFlag,
    >)
        requires
            old(self).inv(),
        ensures
            final(self).inv(),
            old(self)@.ready_handled(stream_id, writer, flush@, final(self)@, r),
    {
        if flush.is_dead() {
            self.tell_closed(stream_id, CloseReason::NetworkError);
            return None;
        }
        if !self.streams.has_room() {
            self.tell_closed(stream_id, CloseReason::Throttled);
            return None;
        }
        let credit: u32 = self.streams.buffer_size();
        let flag = self.streams.tcp_ready(stream_id, writer, flush);
        let mut bytes = ws_binary_frame(&build_continue_frame(stream_id, credit));
        self.outbox.append(&mut bytes);
        Some(flag)
    }

    /// Begins a round of draining: every stream with a backlog will be visited once.
    pub fn begin_drain(&mut self)
        requires
            old(self).inv(),
        ensures
            final(self).inv(),
            final(self)@ == old(self)@.with_streams(old(self)@.streams.round_begun()),
    {
        self.streams.begin_drain();
    }

    /// The next stream of the round whose backlog is to be offered to its backend.
    pub fn next_drain(&mut self) -> (r: Option<u32>)
        requires
            old(self).inv(),
        ensures
            final(self).inv(),
            final(self)@ == old(self)@.with_streams(old(self)@.streams.idle_passed()),
            match r {
                Some(id) => {
                    &&& final(self)@.streams.drain_queue.len() > 0
                    &&& id == final(self)@.streams.drain_queue[0]
                    &&& final(self)@.streams.is_tcp(id)
                    &&& final(self)@.streams.backlog(id).len() > 0
                },
                None => final(self)@.streams.drain_queue.len() == 0,
            },
    {
        self.streams.next_drain()
    }

    /// Settles an attempt to write the backlog of the stream that `next_drain` named. If the
    /// backend is gone, the stream is closed and the client is told.
    pub fn drain_settled(&mut self, outcome: WriteOutcome)
        requires
            old(self).inv(),
            old(self)@.streams.drain_queue.len() > 0,
            old(self)@.streams.is_tcp(old(self)@.streams.drain_queue[0]),
            old(self)@.streams.backlog(old(self)@.streams.drain_queue[0]).len() > 0,
            backlog::within(
                outcome,
                backlog::offered(
                    old(self)@.streams.backlog(old(self)@.streams.drain_queue[0]),
                ).flatten().len() as int,
            ),
        ensures
            final(self).inv(),
            old(self)@.streams.front_drained(outcome, final(self)@.streams),
            final(self)@ == if outcome == WriteOutcome::Failed {
                old(self)@.with_streams(final(self)@.streams).told(
                    closing(old(self)@.streams.drain_queue[0], CloseReason::NetworkError),
                )
            } else {
                old(self)@.with_streams(final(self)@.streams)
            },
    {
        let stream_id: u32 = self.streams.drain_front();
        if self.streams.drain_settled(outcome) {
            self.tell_closed(stream_id, CloseReason::NetworkError);
        }
    }

    // -----------------------------------------------------------------------------------
    // Credit and time
    // -----------------------------------------------------------------------------------

    /// Renews the credit of every stream that is due, each in a frame of its own.
    pub fn renew_credit(&mut self)
        requires
            old(self).inv(),
        ensures
            final(self).inv(),
            final(self)@ == (EngineView {
                streams: DispatcherView { pending_continues: seq![], ..old(self)@.streams },
                ..old(self)@
            }).told(outbound::continue_frames(old(self)@.streams.pending_continues)),
    {
        let due = self.streams.take_continues();
        let mut bytes = encode_continues(due.as_slice());
        self.outbox.append(&mut bytes);
    }

    /// A ping is due: the client is pinged, unless it has left the last one unanswered for too
    /// long. Says whether the connection ends.
    pub fn ping_due(&mut self, now: u64) -> (r: bool)
        requires
            old(self).inv(),
        ensures
            final(self).inv(),
            old(self)@.ping_handled(now, final(self)@, r),
    {
        match self.state.ping_due(now) {
            PingStep::Close => true,
            PingStep::Ping => {
                self.outbox.extend_from_slice(&ws_ping_frame());
                proof {
                    assert(self@.outbox == old(self)@.outbox + seq![0x89u8, 0x00u8]);
                }
                false
            },
        }
    }
}

// ---------------------------------------------------------------------------------------
// Laws
// ---------------------------------------------------------------------------------------

/// A request for a stream that is refused is answered with a CLOSE packet that names the stream
/// and the reason, and with nothing else; the streams are as they were.
pub proof fn refused_requests_are_answered<W, U>(
    before: EngineView<W, U>,
    config: ConfigView,
    stream_id: u32,
    connect: ConnectView,
    after: EngineView<W, U>,
    r: Step,
    reason: CloseReason,
)
    requires
        before.connect_handled(config, stream_id, connect, after, r),
        connection::connect_refusal(
            stream_id,
            before.streams.streams.contains_key(stream_id),
            connect,
            security::raw_ip(connect.hostname),
            config,
        ) == Some(reason),
    ensures
        r is Done,
        after.streams == before.streams,
        after.outbox == before.outbox + closing(stream_id, reason),
        frame::frame_of(frame::close_bytes(stream_id, reason)) == Some(
            frame::FrameView::Close { stream_id, reason },
        ),
{
    frame::close_survives_the_wire(stream_id, reason);
}

/// Every request for a stream either leads on or is answered at once, and never both.
pub proof fn every_request_is_answered_once<W, U>(
    before: EngineView<W, U>,
    config: ConfigView,
    stream_id: u32,
    payload: Seq<u8>,
    after: EngineView<W, U>,
    r: Step,
)
    requires
        before.packet_handled(config, PACKET_CONNECT, stream_id, payload, after, r),
    ensures
        if r is Done {
            exists|reason: CloseReason|
                after.outbox == before.outbox + #[trigger] closing(stream_id, reason)
        } else {
            (r is ConnectTcp || r is ConnectUdp) && after.outbox == before.outbox
        },
{
}

/// A connecting stream opens once its backend is connected, unless the backend is gone again: its
/// early data is handed out, what is left of it becomes the backlog, and the client gets credit.
/// Other streams are as they were. Only the machine's limits can keep it from opening.
pub proof fn connecting_streams_open_once_connected<W, U>(
    before: EngineView<W, U>,
    stream_id: u32,
    connected: EngineView<W, U>,
    flush: Option<EarlyView>,
    writer: W,
    offered: EarlyView,
    ready: EngineView<W, U>,
    r: Option<CancelFlag>,
)
    requires
        before.streams.wf(),
        before.streams.has_room(),
        before.streams.streams.contains_key(stream_id),
        before.streams.streams[stream_id] is Connecting,
        before.connected_handled(stream_id, connected, flush),
        !offered.dead,
        connected.ready_handled(stream_id, writer, offered, ready, r),
    ensures
        flush == Some(
            EarlyView {
                waiting: before.streams.streams[stream_id]->Connecting_0.early_data,
                backlog: seq![],
                dead: false,
            },
        ),
        r is Some,
        !ready.streams.board.cancelled(r->0),
        ready.streams.streams == before.streams.streams.insert(
            stream_id,
            StreamView::Tcp(
                TcpView {
                    writer,
                    pending: offered.unwritten(),
                    packets_since_continue: 0,
                    queued_for_drain: offered.unwritten().len() > 0,
                    cancel: r->0,
                },
            ),
        ),
        ready.outbox == before.outbox + crediting(stream_id, before.streams.buffer_size),
{
    let streams = before.streams.streams;
    assert(streams.remove(stream_id).dom() == streams.dom().remove(stream_id));
    assert(!connected.streams.full());
}

/// A request for a TCP stream that is accepted leads to an open stream once its backend is
/// connected, as long as the machine can number two more flags and count one more stream.
pub proof fn accepted_streams_open_once_connected<W, U>(
    before: EngineView<W, U>,
    config: ConfigView,
    stream_id: u32,
    connect: ConnectView,
    accepted: EngineView<W, U>,
    step: Step,
    connected: EngineView<W, U>,
    flush: Option<EarlyView>,
    writer: W,
    offered: EarlyView,
    ready: EngineView<W, U>,
    r: Option<CancelFlag>,
)
    requires
        before.streams.wf(),
        before.streams.board.left() >= 2,
        before.streams.streams.dom().len() + 1 < usize::MAX,
        before.connect_handled(config, stream_id, connect, accepted, step),
        step is ConnectTcp,
        accepted.streams.wf(),
        accepted.connected_handled(stream_id, connected, flush),
        !offered.dead,
        connected.ready_handled(stream_id, writer, offered, ready, r),
    ensures
        flush == Some(EarlyView { waiting: seq![], backlog: seq![], dead: false }),
        r is Some,
        ready.streams.streams.contains_key(stream_id),
        ready.streams.streams[stream_id] is Tcp,
        ready.outbox == before.outbox + crediting(stream_id, before.streams.buffer_size),
{
    assert(accepted.streams.streams.dom() == before.streams.streams.dom().insert(stream_id));
    connecting_streams_open_once_connected(
        accepted,
        stream_id,
        connected,
        flush,
        writer,
        offered,
        ready,
        r,
    );
}

/// What is owed to the client is never taken back: a packet only adds to it.
pub proof fn nothing_owed_is_taken_back<W, U>(
    before: EngineView<W, U>,
    config: ConfigView,
    packet_type: u8,
    stream_id: u32,
    payload: Seq<u8>,
    after: EngineView<W, U>,
    r: Step,
)
    requires
        before.packet_handled(config, packet_type, stream_id, payload, after, r),
    ensures
        before.outbox.is_prefix_of(after.outbox),
{
    assert(after.outbox.subrange(0, before.outbox.len() as int) == before.outbox);
}

/// A packet for one stream leaves every other stream as it was.
pub proof fn packets_leave_other_streams<W, U>(
    before: EngineView<W, U>,
    config: ConfigView,
    packet_type: u8,
    stream_id: u32,
    payload: Seq<u8>,
    after: EngineView<W, U>,
    r: Step,
    other: u32,
)
    requires
        other != stream_id,
        before.packet_handled(config, packet_type, stream_id, payload, after, r),
    ensures
        after.streams.streams.contains_key(other) == before.streams.streams.contains_key(other),
        before.streams.streams.contains_key(other) ==> after.streams.streams[other]
            == before.streams.streams[other],
{
}

/// A client is told of a closed stream in one binary frame: a CLOSE packet with the stream's id in
/// little endian and the byte of the reason. Credit comes in one binary frame as well.
pub proof fn what_clients_are_told(stream_id: u32, reason: CloseReason, credit: u32)
    ensures
        closing(stream_id, reason) == seq![
            0x82u8,
            6u8,
            4u8,
            (stream_id % 0x100) as u8,
            (stream_id / 0x100 % 0x100) as u8,
            (stream_id / 0x1_0000 % 0x100) as u8,
            (stream_id / 0x100_0000) as u8,
            types::close_reason_byte(reason),
        ],
        crediting(stream_id, credit) == seq![0x82u8, 9u8, 3u8] + wire::le_of_u32(stream_id)
            + wire::le_of_u32(credit),
{
}

/// DATA goes to the stream that it names: to an open TCP stream's backend, behind the backlog if
/// there is one; to a UDP stream's as a datagram; a connecting stream keeps it, up to 128 packets;
/// and without a stream it is dropped. The client is told nothing, and nothing else changes.
pub proof fn data_goes_to_its_stream<W, U>(
    before: EngineView<W, U>,
    config: ConfigView,
    stream_id: u32,
    payload: Seq<u8>,
    after: EngineView<W, U>,
    r: Step,
)
    requires
        before.packet_handled(config, 0x02, stream_id, payload, after, r),
    ensures
        after.outbox == before.outbox,
        after.state == before.state,
        r matches Step::Data { stream_id: id, .. } && id == stream_id,
        ({
            let streams = before.streams.streams;
            let step = r->Data_step;
            if !streams.contains_key(stream_id) {
                step == DataStep::Done && after == before
            } else {
                match streams[stream_id] {
                    StreamView::Tcp(tcp) => after == before && step == if tcp.pending.len() == 0 {
                        DataStep::Write
                    } else {
                        DataStep::Drain
                    },
                    StreamView::Udp(_) => after == before && step == DataStep::SendDatagram,
                    StreamView::Connecting(connecting) => {
                        let kept = if connecting.early_data.len() < 128 {
                            connecting.early_data.push(payload)
                        } else {
                            connecting.early_data
                        };
                        &&& step == DataStep::Done
                        &&& after.streams.streams == streams.insert(
                            stream_id,
                            StreamView::Connecting(
                                ConnectingView { early_data: kept, cancel: connecting.cancel },
                            ),
                        )
                    },
                }
            }
        }),
{
    let streams = before.streams.streams;
    if streams.contains_key(stream_id) && streams[stream_id] is Connecting {
        let connecting = streams[stream_id]->Connecting_0;
        assert(streams.insert(stream_id, streams[stream_id]) == streams);
        assert(ConnectingView { early_data: connecting.early_data, cancel: connecting.cancel }
            == connecting);
    }
}

/// A CLOSE packet for a stream closes it: the stream is gone, its task is told to stop, every
/// other stream and flag is as it was, and nothing is answered. One for the connection ends it,
/// and is answered with a close.
pub proof fn close_packets_close<W, U>(
    before: EngineView<W, U>,
    config: ConfigView,
    stream_id: u32,
    payload: Seq<u8>,
    after: EngineView<W, U>,
    r: Step,
)
    requires
        before.packet_handled(config, 0x04, stream_id, payload, after, r),
    ensures
        stream_id == 0 ==> r is End && after == before.told(seq![0x88u8, 0x00u8]),
        stream_id != 0 ==> {
            &&& r is Done
            &&& after.outbox == before.outbox
            &&& after.streams.streams == before.streams.streams.remove(stream_id)
            &&& before.streams.streams.contains_key(stream_id) ==> after.streams.board.cancelled(
                before.streams.streams[stream_id].flag(),
            )
            &&& forall|flag: CancelFlag|
                !(before.streams.streams.contains_key(stream_id) && flag
                    == before.streams.streams[stream_id].flag())
                    ==> #[trigger] after.streams.board.cancelled(flag)
                    == before.streams.board.cancelled(flag)
        },
{
}

/// Packets of any other type, such as CONTINUE and INFO, change nothing and are not answered.
pub proof fn other_packets_change_nothing<W, U>(
    before: EngineView<W, U>,
    config: ConfigView,
    packet_type: u8,
    stream_id: u32,
    payload: Seq<u8>,
    after: EngineView<W, U>,
    r: Step,
)
    requires
        packet_type != 0x01,
        packet_type != 0x02,
        packet_type != 0x04,
        before.packet_handled(config, packet_type, stream_id, payload, after, r),
    ensures
        r is Done,
        after == before,
{
}

/// A request that nothing speaks against leads on with exactly what was asked for. A TCP stream
/// takes its place among the others at once, without data; a UDP stream does not yet.
pub proof fn requests_lead_to_what_was_asked_for<W, U>(
    before: EngineView<W, U>,
    config: ConfigView,
    stream_id: u32,
    connect: ConnectView,
    after: EngineView<W, U>,
    r: Step,
)
    requires
        1 <= vstd::utf8::encode_utf8(connect.hostname).len() <= 253,
        connection::connect_refusal(
            stream_id,
            before.streams.streams.contains_key(stream_id),
            connect,
            security::raw_ip(connect.hostname),
            config,
        ) is None,
        before.streams.has_room(),
        before.streams.limit == 0 || before.streams.streams.dom().len() < before.streams.limit,
        before.packet_handled(
            config,
            0x01,
            stream_id,
            frame::connect_bytes(connect),
            after,
            r,
        ),
    ensures
        after.outbox == before.outbox,
        connect.stream_type == StreamType::Tcp ==> {
            &&& r matches Step::ConnectTcp { stream_id: id, connect: got, flag, multiplexed }
            &&& id == stream_id
            &&& got@ == connect
            &&& multiplexed == (before.streams.streams.dom().len() > 0)
            &&& !after.streams.board.cancelled(flag)
            &&& after.streams.streams == before.streams.streams.insert(
                stream_id,
                StreamView::Connecting(ConnectingView { early_data: seq![], cancel: flag }),
            )
        },
        connect.stream_type == StreamType::Udp ==> {
            &&& r matches Step::ConnectUdp { stream_id: id, connect: got }
            &&& id == stream_id
            &&& got@ == connect
            &&& after == before
        },
{
    frame::connect_survives_the_wire(stream_id, connect);
}

/// A request for a TCP stream beyond the limit is turned down as throttled, and a payload that is
/// no request at all as invalid; the streams are as they were either way.
pub proof fn requests_that_cannot_be_met<W, U>(
    before: EngineView<W, U>,
    config: ConfigView,
    stream_id: u32,
    payload: Seq<u8>,
    after: EngineView<W, U>,
    r: Step,
)
    requires
        before.packet_handled(config, 0x01, stream_id, payload, after, r),
    ensures
        frame::connect_of(payload) is None ==> {
            &&& r is Done
            &&& after.outbox == before.outbox + closing(stream_id, CloseReason::InvalidInfo)
            &&& after.streams == before.streams
        },
        frame::connect_of(payload) matches Some(connect) ==> {
            let refusal = connection::connect_refusal(
                stream_id,
                before.streams.streams.contains_key(stream_id),
                connect,
                security::raw_ip(connect.hostname),
                config,
            );
            &&& refusal matches Some(reason) ==> {
                &&& r is Done
                &&& after.outbox == before.outbox + closing(stream_id, reason)
                &&& after.streams == before.streams
            }
            &&& refusal is None && connect.stream_type == StreamType::Tcp && before.streams.limit
                > 0 && before.streams.streams.dom().len() >= before.streams.limit ==> {
                &&& r is Done
                &&& after.outbox == before.outbox + closing(stream_id, CloseReason::Throttled)
                &&& after.streams.streams == before.streams.streams
            }
        },
{
}

/// Only requests for streams are counted, each of them once, whatever becomes of it.
pub proof fn only_requests_are_counted<W, U>(before: EngineView<W, U>, packet_type: u8)
    ensures
        ({
            let after = before.counted(packet_type);
            let count = before.state.streams_opened;
            &&& after.streams == before.streams
            &&& after.outbox == before.outbox
            &&& packet_type != 0x01 ==> after == before
            &&& packet_type == 0x01 && count < u32::MAX ==> after.state.streams_opened == count + 1
            &&& packet_type == 0x01 && count == u32::MAX ==> after.state.streams_opened == 0
            &&& after.state == (ConnState {
                streams_opened: after.state.streams_opened,
                ..before.state
            })
        }),
{
}

/// A UDP stream that is opened talks through its socket to exactly the address that its name
/// resolved to and the port that was asked for. It is opened if that address is allowed and there
/// is a place; if not, the client is told one reason and the streams are as they were.
pub proof fn udp_streams_lead_where_they_were_asked_to<W, U>(
    before: EngineView<W, U>,
    config: ConfigView,
    stream_id: u32,
    connect: ConnectView,
    socket: U,
    address: Option<IpAddr>,
    after: EngineView<W, U>,
    r: Option<CancelFlag>,
)
    requires
        connect.stream_type == StreamType::Udp,
        before.streams.has_room(),
        before.udp_handled(config, stream_id, connect, socket, address, after, r),
    ensures
        r is Some <==> {
            &&& address is Some
            &&& !security::ip_blocked(address->0, config)
            &&& !before.streams.streams.contains_key(stream_id)
            &&& before.streams.limit == 0 || before.streams.streams.dom().len()
                < before.streams.limit
        },
        r matches Some(flag) ==> {
            &&& after.outbox == before.outbox
            &&& !after.streams.board.cancelled(flag)
            &&& after.streams.streams == before.streams.streams.insert(
                stream_id,
                StreamView::Udp(
                    UdpProxyStream {
                        socket,
                        dest_addr: SocketAddr { ip: address->0, port: connect.port },
                        cancel: flag,
                    },
                ),
            )
        },
        r is None ==> {
            &&& after.streams.streams == before.streams.streams
            &&& after.outbox == before.outbox + closing(
                stream_id,
                if address is None {
                    CloseReason::Unreachable
                } else if security::ip_blocked(address->0, config) {
                    CloseReason::Blocked
                } else {
                    CloseReason::Throttled
                },
            )
        },
{
}

/// When a backend is gone or a stream cannot be had, the stream is taken away, its task is told to
/// stop, and the client is told once, with the reason that was given.
pub proof fn ends_are_told<W, U>(
    before: EngineView<W, U>,
    stream_id: u32,
    reason: CloseReason,
    after: EngineView<W, U>,
)
    requires
        before.ended(stream_id, reason, after),
    ensures
        after.outbox == before.outbox + closing(stream_id, reason),
        after.streams.streams == before.streams.streams.remove(stream_id),
        before.streams.streams.contains_key(stream_id) ==> after.streams.board.cancelled(
            before.streams.streams[stream_id].flag(),
        ),
        after.state == before.state,
{
}

/// A backend that turns out to be gone when data is written is reported as a network error, and
/// data that is settled otherwise is not reported at all.
pub proof fn dead_backends_are_told<W, U>(
    before: EngineView<W, U>,
    stream_id: u32,
    data: Seq<u8>,
    outcome: WriteOutcome,
    step: DataStep,
    streams: DispatcherView<W, U>,
)
    requires
        before.streams.is_tcp(stream_id),
        before.streams.data_drained(stream_id, data, outcome, step, streams)
            || before.streams.data_written(stream_id, data, outcome, step, streams),
    ensures
        ({
            let after = before.data_settled(stream_id, step, streams);
            if outcome == WriteOutcome::Failed {
                &&& after.outbox == before.outbox + closing(stream_id, CloseReason::NetworkError)
                &&& after.streams.streams == before.streams.streams.remove(stream_id)
            } else {
                &&& after.outbox == before.outbox
                &&& after.streams.is_tcp(stream_id)
            }
        }),
{
}

/// A ping is answered with its own payload, a close with a close, and a pong settles the pings that
/// were sent; no other frame has any effect, and only a close ends the connection.
pub proof fn control_frames_are_answered<W, U>(
    before: EngineView<W, U>,
    frame: WsFrameView,
    now: u64,
    after: EngineView<W, U>,
    ends: bool,
)
    requires
        before.control_handled(frame, now, after, ends),
    ensures
        ends <==> frame.opcode == OpCode::Close,
        after.streams == before.streams,
        frame.opcode == OpCode::Close ==> after.outbox == before.outbox + seq![0x88u8, 0x00u8],
        frame.opcode == OpCode::Ping && frame.payload.len() <= 125 ==> after.outbox
            == before.outbox + (seq![0x8au8, frame.payload.len() as u8] + frame.payload),
        frame.opcode == OpCode::Pong ==> {
            &&& after.outbox == before.outbox
            &&& !after.state.awaiting_pong
            &&& after.state.last_pong == now
        },
        frame.opcode != OpCode::Pong ==> after.state == before.state,
        frame.opcode != OpCode::Ping && frame.opcode != OpCode::Close ==> after.outbox
            == before.outbox,
{
}

/// A ping that is due is sent, and an answer awaited from its moment on, unless an earlier one has
/// been unanswered for longer than it may; the connection ends then.
pub proof fn due_pings_are_sent<W, U>(
    before: EngineView<W, U>,
    now: u64,
    after: EngineView<W, U>,
    ends: bool,
)
    requires
        before.ping_handled(now, after, ends),
    ensures
        ends ==> before.state.awaiting_pong && after == before,
        ends ==> now - before.state.ping_sent > before.state.pong_timeout_secs * 1_000_000_000,
        before.state.awaiting_pong && now - before.state.ping_sent
            > before.state.pong_timeout_secs * 1_000_000_000 ==> ends,
        !ends ==> {
            &&& after.outbox == before.outbox + seq![0x89u8, 0x00u8]
            &&& after.state.awaiting_pong
            &&& after.state.ping_sent == if before.state.awaiting_pong {
                before.state.ping_sent
            } else {
                now
            }
        },
{
}

/// A backend that is connected for a stream that does not wait for it, or is not there any more,
/// gets no data: no stream changes, and the client is told nothing.
pub proof fn late_backends_change_no_stream<W, U>(
    before: EngineView<W, U>,
    stream_id: u32,
    after: EngineView<W, U>,
    flush: Option<EarlyView>,
)
    requires
        before.streams.has_room(),
        before.connected_handled(stream_id, after, flush),
        !(before.streams.streams.contains_key(stream_id)
            && before.streams.streams[stream_id] is Connecting),
    ensures
        flush is None,
        after.outbox == before.outbox,
        after.state == before.state,
        after.streams.streams == before.streams.streams,
        before.streams.same_duties(after.streams),
{
}

/// A connecting stream hands out its early data, all of it and in order, when its backend is
/// connected, and the client is told nothing yet; where no flag is left it is closed as throttled.
pub proof fn early_data_is_handed_out<W, U>(
    before: EngineView<W, U>,
    stream_id: u32,
    after: EngineView<W, U>,
    flush: Option<EarlyView>,
)
    requires
        before.connected_handled(stream_id, after, flush),
    ensures
        before.streams.has_room() && before.streams.streams.contains_key(stream_id)
            && before.streams.streams[stream_id] is Connecting ==> {
            &&& flush matches Some(early)
            &&& early.waiting == before.streams.streams[stream_id]->Connecting_0.early_data
            &&& early.backlog.len() == 0
            &&& !early.dead
            &&& after.outbox == before.outbox
            &&& after.streams.streams == before.streams.streams.remove(stream_id)
        },
        !before.streams.has_room() ==> {
            &&& flush is None
            &&& after.outbox == before.outbox + closing(stream_id, CloseReason::Throttled)
            &&& after.streams.streams == before.streams.streams.remove(stream_id)
        },
        after.state == before.state,
{
}

/// A backend that is gone before its stream is open is reported as a network error, and one that no
/// flag is left for as throttled; no stream is opened either way. In all other cases the client
/// gets its credit.
pub proof fn backends_that_are_gone_open_no_stream<W, U>(
    before: EngineView<W, U>,
    stream_id: u32,
    writer: W,
    flush: EarlyView,
    after: EngineView<W, U>,
    r: Option<CancelFlag>,
)
    requires
        before.ready_handled(stream_id, writer, flush, after, r),
    ensures
        r is Some <==> !flush.dead && before.streams.has_room(),
        r is None ==> after.streams == before.streams && after.outbox == before.outbox + closing(
            stream_id,
            if flush.dead {
                CloseReason::NetworkError
            } else {
                CloseReason::Throttled
            },
        ),
        r is Some ==> after.outbox == before.outbox + crediting(
            stream_id,
            before.streams.buffer_size,
        ),
        r is Some && before.streams.streams.contains_key(stream_id) ==> after.streams.streams
            == before.streams.streams,
        after.state == before.state,
{
}

/// What becomes of a packet, type by type: DATA leads to its stream, and is left in place for a
/// stream that is open; a CLOSE takes its stream away, or ends the connection; a request is
/// counted; and all others are ignored.
pub proof fn packets_are_received<W, U>(
    engine: &mut Engine<W, U>,
    config: ServerConfig,
    packet_type: u8,
    stream_id: u32,
    payload: &mut BytesMut,
    r: Step,
)
    requires
        call_ensures(
            Engine::<W, U>::packet_received,
            (engine, &config, packet_type, stream_id, payload),
            r,
        ),
    ensures
        ({
            let before = old(engine)@;
            let after = final(engine)@;
            let streams = before.streams.streams;
            &&& before.outbox.is_prefix_of(after.outbox)
            &&& packet_type == 0x02 ==> {
                &&& r matches Step::Data { stream_id: id, step }
                &&& id == stream_id
                &&& after.outbox == before.outbox
                &&& after.state == before.state
                &&& streams.contains_key(stream_id) && streams[stream_id] is Tcp ==> {
                    &&& step == if before.streams.backlog(stream_id).len() > 0 {
                        DataStep::Drain
                    } else {
                        DataStep::Write
                    }
                    &&& after == before
                    &&& *final(payload) == *old(payload)
                }
                &&& streams.contains_key(stream_id) && streams[stream_id] is Udp ==> {
                    &&& step == DataStep::SendDatagram
                    &&& after == before
                    &&& *final(payload) == *old(payload)
                }
            }
            &&& packet_type == 0x04 && stream_id != 0 ==> {
                &&& r is Done
                &&& after.outbox == before.outbox
                &&& after.streams.streams == streams.remove(stream_id)
            }
            &&& packet_type == 0x04 && stream_id == 0 ==> {
                &&& r is End
                &&& after.outbox == before.outbox + seq![0x88u8, 0x00u8]
            }
            &&& packet_type == 0x01 && before.state.streams_opened < u32::MAX
                ==> after.state.streams_opened == before.state.streams_opened + 1
            &&& packet_type == 0x00 || packet_type == 0x03 || packet_type >= 0x05 ==> {
                &&& r is Done
                &&& after == before
                &&& *final(payload) == *old(payload)
            }
        }),
{
    let counted = old(engine)@.counted(packet_type);
    nothing_owed_is_taken_back(
        counted,
        config@,
        packet_type,
        stream_id,
        buffers::contents_mut(*old(payload)),
        final(engine)@,
        r,
    );
    if packet_type == 0x02 {
        data_goes_to_its_stream(
            counted,
            config@,
            stream_id,
            buffers::contents_mut(*old(payload)),
            final(engine)@,
            r,
        );
    }
}

/// A packet that came in place of an INFO packet is handled as any other, unless it is larger than
/// is accepted or too short for a header, and it is not counted.
pub proof fn deferred_packets_are_handled_as_others<W, U>(
    engine: &mut Engine<W, U>,
    config: ServerConfig,
    packet: &mut BytesMut,
    packet_type: u8,
    stream_id: u32,
    body: Seq<u8>,
    r: Step,
)
    requires
        call_ensures(Engine::<W, U>::deferred_received, (engine, &config, packet), r),
    ensures
        buffers::contents_mut(*old(packet)) == seq![packet_type] + wire::le_of_u32(stream_id) + body
            && (config.max_frame_size == 0 || 5 + body.len() <= config.max_frame_size)
            ==> old(engine)@.packet_handled(
            config@,
            packet_type,
            stream_id,
            body,
            final(engine)@,
            r,
        ),
        buffers::contents_mut(*old(packet)).len() < 5 || (config.max_frame_size != 0
            && buffers::contents_mut(*old(packet)).len() > config.max_frame_size) ==> r is Done
            && final(engine)@ == old(engine)@,
{
    let bytes = buffers::contents_mut(*old(packet));
    if bytes == seq![packet_type] + wire::le_of_u32(stream_id) + body {
        assert(bytes.subrange(1, 5) == wire::le_of_u32(stream_id));
        wire::u32_survives_le(stream_id);
        assert(bytes.skip(5) == body);
    }
}

/// Every credit that is due is sent once, in order, and none is due any more; nothing else changes.
pub proof fn credit_is_sent_once<W, U>(engine: &mut Engine<W, U>, i: int)
    requires
        call_ensures(Engine::<W, U>::renew_credit, (engine,), ()),
    ensures
        ({
            let before = old(engine)@;
            let after = final(engine)@;
            let due = before.streams.pending_continues;
            let sent = after.outbox.skip(before.outbox.len() as int);
            &&& after.streams.pending_continues.len() == 0
            &&& after.streams.streams == before.streams.streams
            &&& after.state == before.state
            &&& after.outbox.take(before.outbox.len() as int) == before.outbox
            &&& sent.len() == 11 * due.len()
            &&& 0 <= i < due.len() ==> sent.subrange(11 * i, 11 * i + 11) == crediting(
                due[i].0,
                due[i].1,
            )
        }),
{
    let before = old(engine)@;
    let due = before.streams.pending_continues;
    let frames = outbound::continue_frames(due);
    outbound::continues_come_in_order(due, i);
    assert((before.outbox + frames).take(before.outbox.len() as int) == before.outbox);
    assert((before.outbox + frames).skip(before.outbox.len() as int) == frames);
    if 0 <= i < due.len() {
        what_clients_are_told(due[i].0, CloseReason::Unknown, due[i].1);
    }
}

/// What is owed to the client is handed out once, in order.
pub proof fn the_outbox_is_handed_out_once<W, U>(engine: &mut Engine<W, U>, r: Vec<u8>)
    requires
        call_ensures(Engine::<W, U>::take_outbox, (engine,), r),
    ensures
        r@ == old(engine)@.outbox,
        final(engine)@.outbox.len() == 0,
        final(engine)@.streams == old(engine)@.streams,
        final(engine)@.state == old(engine)@.state,
{
}

/// A connection starts without streams and owing nothing, with the credit, the limit and the
/// threshold of its configuration.
pub proof fn connections_start_without_streams<W, U>(
    config: ServerConfig,
    state: ConnState,
    r: Engine<W, U>,
)
    requires
        call_ensures(Engine::<W, U>::new, (&config, state), r),
    ensures
        r@.streams.streams == Map::<u32, StreamView<W, U>>::empty(),
        r@.streams.limit == config.max_streams,
        r@.streams.buffer_size == config.buffer_size,
        config.buffer_size * 9 >= 10 ==> r@.streams.threshold * 10 <= config.buffer_size * 9 && (
        r@.streams.threshold + 1) * 10 > config.buffer_size * 9,
        config.buffer_size * 9 < 10 ==> r@.streams.threshold == 1,
        r@.state == state,
        r@.outbox.len() == 0,
        r@.streams.pending_continues.len() == 0,
        r@.streams.has_room(),
{
}

/// A visit of a round that finds the backend gone tells the client of a network error and takes the
/// stream away; any other tells the client nothing and keeps every byte that was not taken.
pub proof fn visits_lose_nothing<W, U>(engine: &mut Engine<W, U>, outcome: WriteOutcome)
    requires
        call_ensures(Engine::<W, U>::drain_settled, (engine, outcome), ()),
        old(engine)@.streams.drain_queue.len() > 0,
        old(engine)@.streams.is_tcp(old(engine)@.streams.drain_queue[0]),
        backlog::within(
            outcome,
            backlog::offered(
                old(engine)@.streams.backlog(old(engine)@.streams.drain_queue[0]),
            ).flatten().len() as int,
        ),
    ensures
        ({
            let before = old(engine)@;
            let after = final(engine)@;
            let id = before.streams.drain_queue[0];
            let offer = backlog::offered(before.streams.backlog(id)).flatten();
            &&& outcome == WriteOutcome::Failed ==> {
                &&& after.outbox == before.outbox + closing(id, CloseReason::NetworkError)
                &&& after.streams.streams == before.streams.streams.remove(id)
            }
            &&& outcome != WriteOutcome::Failed ==> {
                &&& after.outbox == before.outbox
                &&& backlog::taken(offer, outcome) + after.streams.backlog(id).flatten()
                    == before.streams.backlog(id).flatten()
            }
            &&& after.state == before.state
        }),
{
    if outcome != WriteOutcome::Failed {
        crate::server::dispatch::round_keeps_the_stream(
            old(engine)@.streams,
            outcome,
            final(engine)@.streams,
        );
    }
}

} // verus!
