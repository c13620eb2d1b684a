//! Streams, their table, their backlogs, and the dispatcher that holds them together.

use bytes::{Bytes, BytesMut};
use shrimpwisp::net::{IpAddr, SocketAddr};
use shrimpwisp::proxy::backlog::{drain_pending, queue_data, tcp_try_write, WriteOutcome};
use shrimpwisp::proxy::early::EarlyFlush;
use shrimpwisp::proxy::stream::{
    CancelBoard, CancelFlag, ConnectingStream, ProxyStream, StreamTable, TcpProxyStream,
    UdpProxyStream, DIRECT_INDEX_LIMIT,
};
use shrimpwisp::server::dispatch::{DataStep, Dispatcher, MAX_EARLY_DATA};
use std::collections::VecDeque;

type Table = StreamTable<&'static str, u8>;
type Streams = Dispatcher<&'static str, u8>;

fn addr() -> SocketAddr {
    SocketAddr { ip: IpAddr::V4(0x0808_0808), port: 53 }
}

fn packet(text: &str) -> BytesMut {
    BytesMut::from(text.as_bytes())
}

fn tcp_with(chunks: &[&str], flag: CancelFlag) -> TcpProxyStream<&'static str> {
    let pending: VecDeque<Bytes> =
        chunks.iter().map(|c| Bytes::copy_from_slice(c.as_bytes())).collect();
    TcpProxyStream::with_pending("w", pending, flag)
}

fn backlog_of(tcp: &TcpProxyStream<&'static str>) -> Vec<String> {
    tcp.pending.iter().map(|b| String::from_utf8(b.to_vec()).unwrap()).collect()
}

fn tcp_backlog(streams: &Streams, id: u32) -> Vec<String> {
    match streams.stream(id) {
        Some(ProxyStream::Tcp(tcp)) => backlog_of(tcp),
        _ => panic!("expected a TCP stream"),
    }
}

/// A dispatcher with a connected TCP stream of each given id.
fn connected(ids: &[u32], buffer_size: u32, threshold: u32) -> Streams {
    let mut streams: Streams = Dispatcher::new(0, buffer_size, threshold);
    for id in ids {
        streams.open_connecting(*id).unwrap();
        let flush = streams.tcp_connected(*id).unwrap();
        streams.tcp_ready(*id, "w", flush);
    }
    streams
}

#[test]
fn copies_of_a_flag_share_its_state() {
    let mut board = CancelBoard::new();
    assert!(board.has_room());
    let a = CancelFlag::new(&mut board);
    let b = CancelFlag::new(&mut board);
    let copy = a;
    assert!(!copy.is_cancelled(&board));
    a.cancel(&mut board);
    assert!(copy.is_cancelled(&board));
    assert!(!b.is_cancelled(&board));
    a.cancel(&mut board);
    assert!(a.is_cancelled(&board));
}

#[test]
fn flags_of_another_board_count_as_cancelled() {
    let mut one = CancelBoard::new();
    let other = CancelBoard::new();
    let flag = CancelFlag::new(&mut one);
    assert!(flag.is_cancelled(&other));
}

#[test]
fn the_table_finds_what_was_put_in() {
    let mut board = CancelBoard::new();
    let mut table: Table = StreamTable::new(0);
    let ids = [0, 1, 8191, 8192, 70_000, u32::MAX];
    for id in ids {
        let flag = CancelFlag::new(&mut board);
        let udp = UdpProxyStream::new((id % 251) as u8, addr(), flag);
        assert!(table.insert(id, ProxyStream::Udp(udp)));
    }
    assert_eq!(table.len(), ids.len());
    for id in ids {
        assert!(table.contains(id));
        match table.get(id) {
            Some(ProxyStream::Udp(udp)) => assert_eq!(udp.socket, (id % 251) as u8),
            _ => panic!("expected a UDP stream"),
        }
    }
    assert!(!table.contains(2));
    assert!(!table.contains(8193));
    assert!(table.get(2).is_none());
    assert!(table.get_mut(8193).is_none());
    assert!(DIRECT_INDEX_LIMIT == 8192);
}

#[test]
fn taken_ids_and_full_tables_are_refused() {
    let mut board = CancelBoard::new();
    let mut table: Table = StreamTable::new(2);
    for id in [7, 7, 9000, 9000, 8] {
        let connecting = ConnectingStream::new(&mut board);
        let inserted = table.insert(id, ProxyStream::Connecting(connecting));
        if id == 8 {
            assert!(!inserted);
        }
    }
    assert_eq!(table.len(), 2);
    assert!(table.contains(7));
    assert!(table.contains(9000));
    assert!(!table.contains(8));
}

#[test]
fn removal_cancels_the_flag_of_one_stream() {
    let mut board = CancelBoard::new();
    let mut table: Table = StreamTable::new(0);
    let mut flags = vec![];
    for id in [3, 20_000, 4] {
        let connecting = ConnectingStream::new(&mut board);
        flags.push(connecting.cancel);
        assert!(table.insert(id, ProxyStream::Connecting(connecting)));
    }
    assert!(table.remove(5, &mut board).is_none());
    assert_eq!(table.remove(3, &mut board).unwrap().flag(), flags[0]);
    assert!(flags[0].is_cancelled(&board));
    assert!(!flags[1].is_cancelled(&board));
    assert!(table.remove(20_000, &mut board).is_some());
    assert!(flags[1].is_cancelled(&board));
    assert!(!flags[2].is_cancelled(&board));
    assert!(table.remove(3, &mut board).is_none());
    assert_eq!(table.len(), 1);
}

#[test]
fn streams_change_in_place() {
    let mut board = CancelBoard::new();
    let mut table: Table = StreamTable::new(0);
    let connecting = ConnectingStream::new(&mut board);
    table.insert(9, ProxyStream::Connecting(connecting));
    match table.get_mut(9) {
        Some(ProxyStream::Connecting(c)) => c.queue_early_data(Bytes::from_static(b"x")),
        _ => panic!("expected a connecting stream"),
    }
    match table.get(9) {
        Some(ProxyStream::Connecting(c)) => assert_eq!(c.early_data, vec![Bytes::from_static(b"x")]),
        _ => panic!("expected a connecting stream"),
    }
}

#[test]
fn packets_are_counted_to_the_threshold() {
    let mut board = CancelBoard::new();
    let flag = CancelFlag::new(&mut board);
    let mut tcp = tcp_with(&[], flag);
    assert!(!tcp.queued_for_drain);
    assert!(!tcp.record_packet(3));
    assert!(!tcp.record_packet(3));
    assert!(tcp.record_packet(3));
    assert!(tcp.record_packet(3));
    assert_eq!(tcp.packets_since_continue, 4);
    tcp.reset_counter();
    assert_eq!(tcp.packets_since_continue, 0);
    assert!(tcp_with(&["a"], flag).queued_for_drain);
}

#[test]
fn draining_takes_bytes_from_the_front() {
    let mut board = CancelBoard::new();
    let flag = CancelFlag::new(&mut board);
    let cases: Vec<(usize, Vec<&str>)> = vec![
        (0, vec!["abc", "de", "f"]),
        (2, vec!["c", "de", "f"]),
        (3, vec!["de", "f"]),
        (4, vec!["e", "f"]),
        (5, vec!["f"]),
        (6, vec![]),
    ];
    for (taken, left) in cases {
        let mut tcp = tcp_with(&["abc", "de", "f"], flag);
        assert_eq!(tcp.chunks_offered(), 3);
        assert!(!drain_pending(&mut tcp, WriteOutcome::Wrote(taken)));
        assert_eq!(backlog_of(&tcp), left);
    }
}

#[test]
fn draining_without_progress_or_backend() {
    let mut board = CancelBoard::new();
    let flag = CancelFlag::new(&mut board);
    let mut tcp = tcp_with(&["abc", "de"], flag);
    assert!(!drain_pending(&mut tcp, WriteOutcome::WouldBlock));
    assert_eq!(backlog_of(&tcp), vec!["abc", "de"]);
    assert!(drain_pending(&mut tcp, WriteOutcome::Failed));
    assert!(tcp.pending.is_empty());
    assert!(!drain_pending(&mut tcp, WriteOutcome::Failed));
}

#[test]
fn empty_chunks_do_not_stay_behind() {
    let mut board = CancelBoard::new();
    let flag = CancelFlag::new(&mut board);
    let mut tcp = tcp_with(&["ab", "", ""], flag);
    assert!(!drain_pending(&mut tcp, WriteOutcome::Wrote(2)));
    assert!(tcp.pending.is_empty());
    let mut tcp = tcp_with(&["", ""], flag);
    assert!(!drain_pending(&mut tcp, WriteOutcome::Wrote(0)));
    assert!(tcp.pending.is_empty());
}

#[test]
fn one_write_offers_a_limited_number_of_chunks() {
    let mut board = CancelBoard::new();
    let flag = CancelFlag::new(&mut board);
    let chunks = vec!["x"; 1500];
    let mut tcp = tcp_with(&chunks, flag);
    assert_eq!(tcp.chunks_offered(), 1024);
    assert!(!drain_pending(&mut tcp, WriteOutcome::Wrote(1024)));
    assert_eq!(tcp.pending.len(), 476);
    assert_eq!(tcp.chunks_offered(), 476);
}

#[test]
fn what_is_not_taken_is_queued() {
    let mut board = CancelBoard::new();
    let flag = CancelFlag::new(&mut board);
    let mut tcp = tcp_with(&[], flag);
    assert!(!tcp_try_write(&mut tcp, &mut packet("hello"), WriteOutcome::Wrote(5)));
    assert!(tcp.pending.is_empty());
    assert!(!tcp_try_write(&mut tcp, &mut packet("hello"), WriteOutcome::Wrote(2)));
    assert_eq!(backlog_of(&tcp), vec!["llo"]);
    let mut data = packet("more");
    queue_data(&mut tcp, &mut data);
    assert!(data.is_empty());
    assert_eq!(backlog_of(&tcp), vec!["llo", "more"]);
    let mut tcp = tcp_with(&[], flag);
    assert!(!tcp_try_write(&mut tcp, &mut packet("hello"), WriteOutcome::WouldBlock));
    assert_eq!(backlog_of(&tcp), vec!["hello"]);
    let mut tcp = tcp_with(&[], flag);
    assert!(tcp_try_write(&mut tcp, &mut packet("hello"), WriteOutcome::Failed));
    assert!(tcp.pending.is_empty());
}

#[test]
fn early_data_is_offered_in_order() {
    let early = || {
        EarlyFlush::new(vec![
            Bytes::from_static(b"one"),
            Bytes::from_static(b"two"),
            Bytes::from_static(b"three"),
        ])
    };
    // Everything is taken.
    let mut flush = early();
    let mut seen = vec![];
    while let Some(chunk) = flush.next() {
        let n = chunk.len();
        seen.push(chunk.clone());
        flush.settle(WriteOutcome::Wrote(n));
    }
    assert_eq!(seen.concat(), b"onetwothree");
    assert!(!flush.is_dead());
    assert!(flush.into_backlog().is_empty());
    // A partial write ends the offering.
    let mut flush = early();
    flush.settle(WriteOutcome::Wrote(3));
    flush.settle(WriteOutcome::Wrote(1));
    assert!(flush.next().is_none());
    let left: Vec<Bytes> = flush.into_backlog().into_iter().collect();
    assert_eq!(left, vec![Bytes::from_static(b"wo"), Bytes::from_static(b"three")]);
    // So does a backend that takes nothing.
    let mut flush = early();
    flush.settle(WriteOutcome::WouldBlock);
    assert!(flush.next().is_none());
    assert_eq!(flush.into_backlog().len(), 3);
    // What was never offered is kept.
    let mut flush = early();
    flush.settle(WriteOutcome::Wrote(3));
    assert_eq!(flush.into_backlog().len(), 2);
    // A backend that is gone ends it as well.
    let mut flush = early();
    flush.settle(WriteOutcome::Wrote(3));
    flush.settle(WriteOutcome::Failed);
    assert!(flush.next().is_none());
    assert!(flush.is_dead());
}

#[test]
fn data_for_each_kind_of_stream() {
    let mut streams = connected(&[1], 128, 64);
    streams.open_connecting(2).unwrap();
    streams.open_udp(3, 9, addr()).unwrap();
    assert_eq!(streams.len(), 3);
    assert_eq!(streams.handle_data_zerocopy(1, &mut packet("a")), DataStep::Write);
    assert_eq!(streams.handle_data_zerocopy(3, &mut packet("a")), DataStep::SendDatagram);
    assert_eq!(streams.handle_data_zerocopy(4, &mut packet("a")), DataStep::Done);
    let mut data = packet("early");
    assert_eq!(streams.handle_data_zerocopy(2, &mut data), DataStep::Done);
    assert!(data.is_empty());
}

#[test]
fn early_data_has_a_limit() {
    let mut streams: Streams = Dispatcher::new(0, 128, 64);
    streams.open_connecting(2).unwrap();
    for i in 0..MAX_EARLY_DATA + 5 {
        streams.handle_data_zerocopy(2, &mut packet(&format!("{}", i)));
    }
    match streams.stream(2) {
        Some(ProxyStream::Connecting(c)) => {
            assert_eq!(c.early_data.len(), 128);
            assert_eq!(&c.early_data[127][..], b"127");
        }
        _ => panic!("expected a connecting stream"),
    }
}

#[test]
fn backlog_goes_before_new_data() {
    let mut streams = connected(&[1], 128, 64);
    let mut delivered = String::new();
    // The backend takes two bytes of the first packet.
    assert_eq!(
        streams.data_after_write(1, &mut packet("hello "), WriteOutcome::Wrote(2)),
        DataStep::Done
    );
    delivered.push_str("he");
    assert_eq!(tcp_backlog(&streams, 1), vec!["llo "]);
    // With a backlog, the next packet has to wait for it.
    let mut second = packet("big ");
    assert_eq!(streams.handle_data_zerocopy(1, &mut second), DataStep::Drain);
    assert_eq!(streams.data_after_drain(1, &mut second, WriteOutcome::Wrote(1)), DataStep::Done);
    delivered.push_str("l");
    assert_eq!(tcp_backlog(&streams, 1), vec!["lo ", "big "]);
    // Once the backlog is gone, new data is written.
    let mut third = packet("world");
    assert_eq!(streams.handle_data_zerocopy(1, &mut third), DataStep::Drain);
    assert_eq!(streams.data_after_drain(1, &mut third, WriteOutcome::Wrote(7)), DataStep::Write);
    delivered.push_str("lo big ");
    assert_eq!(third, packet("world"));
    assert_eq!(streams.data_after_write(1, &mut third, WriteOutcome::Wrote(5)), DataStep::Done);
    delivered.push_str("world");
    assert_eq!(delivered, "hello big world");
    assert!(tcp_backlog(&streams, 1).is_empty());
}

#[test]
fn dead_backends_close_their_streams() {
    let mut streams = connected(&[1, 2, 3], 128, 64);
    assert_eq!(
        streams.data_after_write(1, &mut packet("x"), WriteOutcome::Failed),
        DataStep::Dead
    );
    assert!(!streams.contains(1));
    streams.data_after_write(2, &mut packet("x"), WriteOutcome::WouldBlock);
    assert_eq!(
        streams.data_after_drain(2, &mut packet("y"), WriteOutcome::Failed),
        DataStep::Dead
    );
    assert!(!streams.contains(2));
    assert!(streams.contains(3));
    assert_eq!(streams.len(), 1);
}

#[test]
fn rounds_of_draining() {
    let mut streams = connected(&[1, 2, 3, 4], 128, 64);
    for id in [1, 2, 3, 4] {
        streams.data_after_write(id, &mut packet("abc"), WriteOutcome::WouldBlock);
    }
    streams.close_stream(3);
    streams.begin_drain();
    assert_eq!(streams.next_drain(), Some(1));
    assert!(!streams.drain_settled(WriteOutcome::Wrote(3)));
    assert_eq!(streams.next_drain(), Some(2));
    assert!(!streams.drain_settled(WriteOutcome::Wrote(1)));
    assert_eq!(streams.next_drain(), Some(4));
    assert!(streams.drain_settled(WriteOutcome::Failed));
    assert_eq!(streams.next_drain(), None);
    assert!(!streams.contains(4));
    assert_eq!(tcp_backlog(&streams, 2), vec!["bc"]);
    // Only the stream with a backlog is visited in the next round.
    streams.begin_drain();
    assert_eq!(streams.next_drain(), Some(2));
    assert!(!streams.drain_settled(WriteOutcome::Wrote(2)));
    assert_eq!(streams.next_drain(), None);
    streams.begin_drain();
    assert_eq!(streams.next_drain(), None);
    match streams.stream(2) {
        Some(ProxyStream::Tcp(tcp)) => assert!(!tcp.queued_for_drain),
        _ => panic!("expected a TCP stream"),
    }
}

#[test]
fn streams_drained_by_data_are_passed_by() {
    let mut streams = connected(&[1], 128, 64);
    streams.data_after_write(1, &mut packet("abc"), WriteOutcome::WouldBlock);
    let mut more = packet("def");
    assert_eq!(streams.data_after_drain(1, &mut more, WriteOutcome::Wrote(3)), DataStep::Write);
    streams.data_after_write(1, &mut more, WriteOutcome::Wrote(3));
    streams.begin_drain();
    assert_eq!(streams.next_drain(), None);
    // The stream is listed again when it needs to be.
    streams.data_after_write(1, &mut packet("abc"), WriteOutcome::WouldBlock);
    streams.begin_drain();
    assert_eq!(streams.next_drain(), Some(1));
}

#[test]
fn credit_is_renewed_every_threshold_packets() {
    let mut streams = connected(&[5, 6], 10, 3);
    for _ in 0..2 {
        streams.data_after_write(5, &mut packet("x"), WriteOutcome::Wrote(1));
    }
    assert!(streams.take_continues().is_empty());
    streams.data_after_write(6, &mut packet("x"), WriteOutcome::Wrote(1));
    streams.data_after_write(5, &mut packet("x"), WriteOutcome::WouldBlock);
    assert_eq!(streams.take_continues(), vec![(5, 10)]);
    assert!(streams.take_continues().is_empty());
    // Packets that wait behind a backlog count as well.
    for _ in 0..3 {
        streams.data_after_drain(5, &mut packet("x"), WriteOutcome::WouldBlock);
    }
    assert_eq!(streams.take_continues(), vec![(5, 10)]);
}

#[test]
fn opening_streams_keeps_the_limit() {
    let mut streams: Streams = Dispatcher::new(2, 128, 64);
    assert!(streams.has_room());
    assert!(streams.open_connecting(1).is_some());
    assert!(streams.open_connecting(1).is_none());
    assert!(streams.open_udp(1, 0, addr()).is_none());
    assert!(streams.open_udp(2, 0, addr()).is_some());
    assert!(streams.open_connecting(3).is_none());
    assert!(streams.open_udp(3, 0, addr()).is_none());
    streams.close_stream(1);
    assert!(streams.open_connecting(3).is_some());
    assert_eq!(streams.len(), 2);
}

#[test]
fn connecting_hands_the_early_data_over() {
    let mut streams: Streams = Dispatcher::new(0, 128, 64);
    let task = streams.open_connecting(1).unwrap();
    streams.handle_data_zerocopy(1, &mut packet("ab"));
    streams.handle_data_zerocopy(1, &mut packet("cd"));
    assert!(!streams.is_cancelled(task));
    let mut flush = streams.tcp_connected(1).unwrap();
    assert!(streams.is_cancelled(task));
    assert!(!streams.contains(1));
    flush.settle(WriteOutcome::Wrote(1));
    let reader = streams.tcp_ready(1, "w", flush);
    assert!(!streams.is_cancelled(reader));
    assert_eq!(tcp_backlog(&streams, 1), vec!["b", "cd"]);
    streams.begin_drain();
    assert_eq!(streams.next_drain(), Some(1));
    streams.close_stream(1);
    assert!(streams.is_cancelled(reader));
}

#[test]
fn only_connecting_streams_become_connected() {
    let mut streams = connected(&[1], 128, 64);
    assert!(streams.tcp_connected(7).is_none());
    let flag = streams.stream(1).unwrap().flag();
    assert!(streams.tcp_connected(1).is_none());
    assert!(streams.contains(1));
    assert!(streams.is_cancelled(flag));
}

#[test]
fn closing_one_stream_leaves_the_others() {
    let mut streams = connected(&[1, 2], 128, 64);
    let one = streams.stream(1).unwrap().flag();
    let two = streams.stream(2).unwrap().flag();
    streams.data_after_write(2, &mut packet("kept"), WriteOutcome::WouldBlock);
    streams.close_stream(1);
    streams.close_stream(1);
    assert!(streams.is_cancelled(one));
    assert!(!streams.is_cancelled(two));
    assert_eq!(tcp_backlog(&streams, 2), vec!["kept"]);
}
