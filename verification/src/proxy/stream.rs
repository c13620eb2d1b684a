//! The state of proxied streams and the table that finds them by stream id.
//!
//! Sockets are left to the caller: `W` is whatever writes to a TCP backend and `U` whatever
//! talks to a UDP backend.

use bytes::Bytes;
use std::collections::hash_map::Entry;
use std::collections::{HashMap, VecDeque};
use vstd::prelude::*;

use crate::buffers;
use crate::net::SocketAddr;
use crate::proxy::cancel;
pub use crate::proxy::cancel::{CancelBoard, CancelFlag};

verus! {

broadcast use vstd::std_specs::hash::group_hash_axioms;

/// The bytes of each chunk of a queue.
pub open spec fn chunks(queue: Seq<Bytes>) -> Seq<Seq<u8>> {
    queue.map_values(|b: Bytes| buffers::contents(b))
}

/// A TCP stream.
pub struct TcpProxyStream<W> {
    /// Writes to the backend.
    pub writer: W,
    /// What the backend has not taken yet, in order.
    pub pending: VecDeque<Bytes>,
    /// DATA packets received from the client since the last CONTINUE.
    pub packets_since_continue: u32,
    /// Whether the stream is on the list of streams to be drained.
    pub queued_for_drain: bool,
    /// Tells the task that reads from the backend to stop.
    pub cancel: CancelFlag,
}

/// A TCP stream as a mathematical value.
#[verifier::ext_equal]
pub struct TcpView<W> {
    pub writer: W,
    pub pending: Seq<Seq<u8>>,
    pub packets_since_continue: u32,
    pub queued_for_drain: bool,
    pub cancel: CancelFlag,
}

impl<W> View for TcpProxyStream<W> {
    type V = TcpView<W>;

    open spec fn view(&self) -> TcpView<W> {
        TcpView {
            writer: self.writer,
            pending: chunks(self.pending@),
            packets_since_continue: self.packets_since_continue,
            queued_for_drain: self.queued_for_drain,
            cancel: self.cancel,
        }
    }
}

/// A UDP stream.
pub struct UdpProxyStream<U> {
    /// Talks to the backend.
    pub socket: U,
    /// Where the client's datagrams go.
    pub dest_addr: SocketAddr,
    /// Tells the task that reads from the backend to stop.
    pub cancel: CancelFlag,
}

/// A stream whose backend is still being connected.
pub struct ConnectingStream {
    /// DATA received before the backend is there, in order.
    pub early_data: Vec<Bytes>,
    /// Tells the connecting task to give up.
    pub cancel: CancelFlag,
}

/// A connecting stream as a mathematical value.
#[verifier::ext_equal]
pub struct ConnectingView {
    pub early_data: Seq<Seq<u8>>,
    pub cancel: CancelFlag,
}

impl View for ConnectingStream {
    type V = ConnectingView;

    open spec fn view(&self) -> ConnectingView {
        ConnectingView { early_data: chunks(self.early_data@), cancel: self.cancel }
    }
}

/// A proxied stream.
pub enum ProxyStream<W, U> {
    Tcp(TcpProxyStream<W>),
    Udp(UdpProxyStream<U>),
    Connecting(ConnectingStream),
}

/// A proxied stream as a mathematical value.
#[verifier::ext_equal]
pub enum StreamView<W, U> {
    Tcp(TcpView<W>),
    Udp(UdpProxyStream<U>),
    Connecting(ConnectingView),
}

impl<W, U> View for ProxyStream<W, U> {
    type V = StreamView<W, U>;

    open spec fn view(&self) -> StreamView<W, U> {
        match *self {
            ProxyStream::Tcp(tcp) => StreamView::Tcp(tcp@),
            ProxyStream::Udp(udp) => StreamView::Udp(udp),
            ProxyStream::Connecting(connecting) => StreamView::Connecting(connecting@),
        }
    }
}

impl<W, U> StreamView<W, U> {
    /// The flag that stops the stream's task.
    pub open spec fn flag(self) -> CancelFlag {
        match self {
            StreamView::Tcp(tcp) => tcp.cancel,
            StreamView::Udp(udp) => udp.cancel,
            StreamView::Connecting(connecting) => connecting.cancel,
        }
    }
}

impl<W, U> ProxyStream<W, U> {
    /// The flag that stops the stream's task.
    pub fn flag(&self) -> (r: CancelFlag)
        ensures
            r == self@.flag(),
    {
        match self {
            ProxyStream::Tcp(tcp) => tcp.cancel,
            ProxyStream::Udp(udp) => udp.cancel,
            ProxyStream::Connecting(connecting) => connecting.cancel,
        }
    }
}

impl<W> TcpProxyStream<W> {
    /// A TCP stream that starts with a backlog.
    pub fn with_pending(writer: W, pending: VecDeque<Bytes>, cancel: CancelFlag) -> (r: Self)
        ensures
            r@ == (TcpView {
                writer,
                pending: chunks(pending@),
                packets_since_continue: 0,
                queued_for_drain: pending@.len() > 0,
                cancel,
            }),
    {
        let has_pending = pending.len() > 0;
        TcpProxyStream {
            writer,
            pending,
            packets_since_continue: 0,
            queued_for_drain: has_pending,
            cancel,
        }
    }

    /// Counts a DATA packet. Says whether a CONTINUE is due.
    pub fn record_packet(&mut self, threshold: u32) -> (r: bool)
        requires
            old(self).packets_since_continue < u32::MAX,
        ensures
            final(self)@ == (TcpView {
                packets_since_continue: (old(self).packets_since_continue + 1) as u32,
                ..old(self)@
            }),
            r == (old(self).packets_since_continue + 1 >= threshold),
    {
        self.packets_since_continue = self.packets_since_continue + 1;
        self.packets_since_continue >= threshold
    }

    /// Starts counting anew after a CONTINUE.
    pub fn reset_counter(&mut self)
        ensures
            final(self)@ == (TcpView { packets_since_continue: 0, ..old(self)@ }),
    {
        self.packets_since_continue = 0;
    }
}

impl<U> UdpProxyStream<U> {
    pub fn new(socket: U, dest_addr: SocketAddr, cancel: CancelFlag) -> (r: Self)
        ensures
            r == (UdpProxyStream { socket, dest_addr, cancel }),
    {
        UdpProxyStream { socket, dest_addr, cancel }
    }
}

impl ConnectingStream {
    /// A connecting stream without early data, with a flag of its own.
    pub fn new(board: &mut CancelBoard) -> (r: Self)
        requires
            old(board).wf(),
            old(board).has_room_spec(),
        ensures
            final(board).wf(),
            r@.early_data == Seq::<Seq<u8>>::empty(),
            !old(board).issued(r.cancel),
            final(board).issued(r.cancel),
            !final(board).cancelled(r.cancel),
            final(board).left() == old(board).left() - 1,
            cancel::others_kept(*old(board), *final(board), r.cancel),
    {
        ConnectingStream { early_data: Vec::new(), cancel: CancelFlag::new(board) }
    }

    /// Keeps DATA that came before the backend is there.
    pub fn queue_early_data(&mut self, data: Bytes)
        ensures
            final(self)@ == (ConnectingView {
                early_data: old(self)@.early_data.push(buffers::contents(data)),
                ..old(self)@
            }),
    {
        self.early_data.push(data);
        proof {
            assert(self@.early_data == old(self)@.early_data.push(buffers::contents(data)));
        }
    }
}

/// Streams with an id below this stand in a vector at that index, the others in a hash map.
pub const DIRECT_INDEX_LIMIT: usize = 8192;

/// The streams of a connection by stream id.
///
/// Clients mostly count their ids up from one, which the vector serves without hashing. The
/// map is there for clients that choose their ids at random.
pub struct StreamTable<W, U> {
    direct: Vec<Option<ProxyStream<W, U>>>,
    sparse: HashMap<u32, ProxyStream<W, U>>,
    active_count: usize,
    max_streams: usize,
}

impl<W, U> View for StreamTable<W, U> {
    type V = Map<u32, ProxyStream<W, U>>;

    closed spec fn view(&self) -> Map<u32, ProxyStream<W, U>> {
        Map::new(
            |id: u32|
                if id < DIRECT_INDEX_LIMIT {
                    id < self.direct@.len() && self.direct@[id as int] is Some
                } else {
                    self.sparse@.contains_key(id)
                },
            |id: u32|
                if id < DIRECT_INDEX_LIMIT {
                    self.direct@[id as int]->0
                } else {
                    self.sparse@[id]
                },
        )
    }
}

impl<W, U> StreamTable<W, U> {
    /// The most streams that the table takes; zero stands for no limit.
    pub closed spec fn limit(&self) -> usize {
        self.max_streams
    }

    /// The count is the number of streams, and the limit is kept.
    pub closed spec fn wf(&self) -> bool {
        &&& self.direct@.len() <= DIRECT_INDEX_LIMIT
        &&& self@.dom().finite()
        &&& self@.dom().len() == self.active_count
        &&& self.max_streams > 0 ==> self.active_count <= self.max_streams
    }

    /// Whether the table is at its limit.
    pub open spec fn full(&self) -> bool {
        self.limit() > 0 && self@.dom().len() >= self.limit()
    }

    /// A table never holds more streams than its limit.
    pub proof fn limit_is_kept(&self)
        requires
            self.wf(),
        ensures
            self@.dom().finite(),
            self@.dom().len() <= usize::MAX,
            self.limit() > 0 ==> self@.dom().len() <= self.limit(),
    {
    }

    /// A table refuses streams for their number exactly if it holds as many as its limit.
    pub proof fn full_tables_are_at_their_limit(&self)
        requires
            self.wf(),
        ensures
            self.full() <==> self.limit() != 0 && self@.dom().len() == self.limit(),
    {
    }

    /// An empty table.
    pub fn new(max_streams: usize) -> (r: Self)
        ensures
            r.wf(),
            r.limit() == max_streams,
            r@ == Map::<u32, ProxyStream<W, U>>::empty(),
    {
        let r = StreamTable {
            direct: Vec::new(),
            sparse: HashMap::new(),
            active_count: 0,
            max_streams,
        };
        proof {
            assert(r@ == Map::<u32, ProxyStream<W, U>>::empty());
        }
        r
    }

    /// Puts a stream into the table, unless its id is taken or the table is full. Says whether
    /// it did. More streams than `usize` can count would not fit.
    pub fn insert(&mut self, stream_id: u32, stream: ProxyStream<W, U>) -> (r: bool)
        requires
            old(self).wf(),
            old(self)@.dom().len() < usize::MAX,
        ensures
            final(self).wf(),
            final(self).limit() == old(self).limit(),
            r == (!old(self)@.contains_key(stream_id) && !old(self).full()),
            final(self)@ == if r {
                old(self)@.insert(stream_id, stream)
            } else {
                old(self)@
            },
    {
        if self.max_streams > 0 && self.active_count >= self.max_streams {
            return false;
        }
        let id: usize = stream_id as usize;
        if id < DIRECT_INDEX_LIMIT {
            while self.direct.len() <= id
                invariant
                    id == stream_id,
                    id < DIRECT_INDEX_LIMIT,
                    self.wf(),
                    self@ == old(self)@,
                    self.limit() == old(self).limit(),
                    self.active_count == old(self).active_count,
                decreases id + 1 - self.direct.len(),
            {
                self.direct.push(None);
                proof {
                    assert(self@ == old(self)@);
                }
            }
            if self.direct[id].is_some() {
                return false;
            }
            self.direct[id] = Some(stream);
        } else {
            if self.sparse.contains_key(&stream_id) {
                return false;
            }
            self.sparse.insert(stream_id, stream);
        }
        self.active_count = self.active_count + 1;
        proof {
            assert(self@ == old(self)@.insert(stream_id, stream));
        }
        true
    }

    /// Finds a stream, for changing it in place. Other streams stay as they are.
    pub fn get_mut(&mut self, stream_id: u32) -> (r: Option<&mut ProxyStream<W, U>>)
        requires
            old(self).wf(),
        ensures
            final(self).wf(),
            final(self).limit() == old(self).limit(),
            match r {
                Some(stream) => {
                    &&& old(self)@.contains_key(stream_id)
                    &&& *stream == old(self)@[stream_id]
                    &&& final(self)@ == old(self)@.insert(stream_id, *final(stream))
                },
                None => !old(self)@.contains_key(stream_id) && final(self)@ == old(self)@,
            },
    {
        let id: usize = stream_id as usize;
        if id < DIRECT_INDEX_LIMIT {
            if id >= self.direct.len() {
                return None;
            }
            match self.direct[id].as_mut() {
                Some(stream) => {
                    proof {
                        assert(after_borrow(self)@ == old(self)@.insert(stream_id, *final(stream)));
                        assert(after_borrow(self)@.dom() == old(self)@.dom());
                    }
                    Some(stream)
                },
                None => {
                    proof {
                        assert(after_borrow(self)@ == old(self)@);
                    }
                    None
                },
            }
        } else {
            match self.sparse.entry(stream_id) {
                Entry::Occupied(entry) => {
                    let stream = entry.into_mut();
                    proof {
                        assert(after_borrow(self)@ == old(self)@.insert(stream_id, *final(stream)));
                        assert(after_borrow(self)@.dom() == old(self)@.dom());
                    }
                    Some(stream)
                },
                Entry::Vacant(_) => {
                    proof {
                        assert(after_borrow(self)@ == old(self)@);
                    }
                    None
                },
            }
        }
    }

    /// Finds a stream.
    pub fn get(&self, stream_id: u32) -> (r: Option<&ProxyStream<W, U>>)
        requires
            self.wf(),
        ensures
            match r {
                Some(stream) => self@.contains_key(stream_id) && *stream == self@[stream_id],
                None => !self@.contains_key(stream_id),
            },
    {
        let id: usize = stream_id as usize;
        if id < DIRECT_INDEX_LIMIT {
            if id >= self.direct.len() {
                return None;
            }
            self.direct[id].as_ref()
        } else {
            self.sparse.get(&stream_id)
        }
    }

    /// Takes a stream out of the table and cancels its flag. Other streams and other flags stay
    /// as they are.
    pub fn remove(&mut self, stream_id: u32, board: &mut CancelBoard) -> (r: Option<
        ProxyStream<W, U>,
    >)
        requires
            old(self).wf(),
            old(board).wf(),
        ensures
            final(self).wf(),
            final(board).wf(),
            final(self).limit() == old(self).limit(),
            final(self)@ == old(self)@.remove(stream_id),
            final(board).left() == old(board).left(),
            match r {
                Some(stream) => {
                    &&& old(self)@.contains_key(stream_id)
                    &&& stream == old(self)@[stream_id]
                    &&& final(board).cancelled(stream@.flag())
                    &&& final(board).issued(stream@.flag()) == old(board).issued(stream@.flag())
                    &&& cancel::others_kept(*old(board), *final(board), stream@.flag())
                },
                None => !old(self)@.contains_key(stream_id) && *final(board) == *old(board),
            },
    {
        let id: usize = stream_id as usize;
        let taken: Option<ProxyStream<W, U>>;
        if id < DIRECT_INDEX_LIMIT {
            if id >= self.direct.len() {
                proof {
                    assert(self@.remove(stream_id) == self@);
                }
                return None;
            }
            taken = self.direct[id].take();
        } else {
            taken = self.sparse.remove(&stream_id);
        }
        proof {
            assert(self@ == old(self)@.remove(stream_id));
        }
        match taken {
            Some(stream) => {
                self.active_count = self.active_count - 1;
                stream.flag().cancel(board);
                Some(stream)
            },
            None => None,
        }
    }

    /// Whether there is a stream with this id.
    pub fn contains(&self, stream_id: u32) -> (r: bool)
        requires
            self.wf(),
        ensures
            r == self@.contains_key(stream_id),
    {
        let id: usize = stream_id as usize;
        if id < DIRECT_INDEX_LIMIT {
            id < self.direct.len() && self.direct[id].is_some()
        } else {
            self.sparse.contains_key(&stream_id)
        }
    }

    /// The number of streams.
    pub fn len(&self) -> (r: usize)
        requires
            self.wf(),
        ensures
            r == self@.dom().len(),
    {
        self.active_count
    }
}

/// Every stream is stopped by the flag that it was made with, and its chunks are the contents of
/// its buffers, one by one.
pub proof fn streams_have_their_flags<W, U>(
    tcp: TcpProxyStream<W>,
    udp: UdpProxyStream<U>,
    connecting: ConnectingStream,
    i: int,
)
    ensures
        ProxyStream::<W, U>::Tcp(tcp)@.flag() == tcp.cancel,
        ProxyStream::<W, U>::Udp(udp)@.flag() == udp.cancel,
        ProxyStream::<W, U>::Connecting(connecting)@.flag() == connecting.cancel,
        tcp@.pending.len() == tcp.pending@.len(),
        0 <= i < tcp.pending@.len() ==> tcp@.pending[i] == buffers::contents(tcp.pending@[i]),
{
}

/// A stream that was put into a table is found under its id, if the id was free and the table not
/// at its limit; every other id leads to what it led to before.
pub proof fn what_is_put_in_is_found<W, U>(
    table: &mut StreamTable<W, U>,
    id: u32,
    stream: ProxyStream<W, U>,
    inserted: bool,
    after: StreamTable<W, U>,
    other: u32,
    found: Option<&ProxyStream<W, U>>,
)
    requires
        call_ensures(StreamTable::<W, U>::insert, (table, id, stream), inserted),
        after == *final(table),
        call_ensures(StreamTable::<W, U>::get, (&after, other), found),
        old(table).wf(),
    ensures
        inserted <==> !old(table)@.contains_key(id) && (old(table).limit() == 0 || old(
            table,
        )@.dom().len() < old(table).limit()),
        inserted && other == id ==> (found matches Some(got) && *got == stream),
        other != id || !inserted ==> {
            &&& found is Some <==> old(table)@.contains_key(other)
            &&& found matches Some(got) ==> *got == old(table)@[other]
        },
{
}

/// A stream that was taken out of a table is handed out and not found any more, its flag is
/// cancelled, and every other id leads to what it led to before.
pub proof fn what_is_taken_out_is_gone<W, U>(
    table: &mut StreamTable<W, U>,
    id: u32,
    board: &mut CancelBoard,
    taken: Option<ProxyStream<W, U>>,
    after: StreamTable<W, U>,
    other: u32,
    found: Option<&ProxyStream<W, U>>,
)
    requires
        call_ensures(StreamTable::<W, U>::remove, (table, id, board), taken),
        after == *final(table),
        call_ensures(StreamTable::<W, U>::get, (&after, other), found),
    ensures
        taken is Some <==> old(table)@.contains_key(id),
        taken matches Some(stream) ==> stream == old(table)@[id] && final(board).cancelled(
            stream@.flag(),
        ),
        other == id ==> found is None,
        other != id ==> (found is Some <==> old(table)@.contains_key(other)),
        other != id ==> (found matches Some(got) ==> *got == old(table)@[other]),
{
}

} // verus!
