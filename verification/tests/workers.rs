//! What a worker keeps beside its streams: resolved names, accepted connections, and time.

use shrimpwisp::clock::{elapsed, nanos};
use shrimpwisp::net::IpAddr;
use shrimpwisp::server::accept::{AcceptGate, Admission};
use shrimpwisp::server::config::ServerConfig;
use shrimpwisp::server::dns::{
    choose_known, order_addresses, DnsCache, DnsError, Lookup, ResultOrder,
};
use shrimpwisp::server::session::{ConnState, PingStep, YieldCounter, FAR_AWAY_SECS};
use shrimpwisp::text::{find_char, has_prefix, read_decimal, same_text, trim_range};

const SECOND: u64 = 1_000_000_000;
const A: IpAddr = IpAddr::V4(1);
const B: IpAddr = IpAddr::V4(2);
const C: IpAddr = IpAddr::V6(1);
const D: IpAddr = IpAddr::V6(2);

fn dns(order: &str, ttl: u64) -> DnsCache {
    let mut config = ServerConfig::default();
    config.dns_ttl = ttl;
    config.dns_result_order = order.to_string();
    DnsCache::new(&config)
}

#[test]
fn addresses_are_ordered() {
    let addrs = vec![C, C, A, D, B, B, A];
    assert_eq!(order_addresses(&addrs, ResultOrder::Ipv4First), vec![A, B, A, C, D]);
    assert_eq!(order_addresses(&addrs, ResultOrder::Ipv6First), vec![C, D, A, B, A]);
    assert_eq!(order_addresses(&addrs, ResultOrder::Verbatim), vec![C, A, D, B, A]);
    assert!(order_addresses(&vec![], ResultOrder::Ipv4First).is_empty());
}

#[test]
fn names_are_kept_for_their_time() {
    let mut cache = dns("ipv4first", 10);
    assert!(cache.ipv4_first());
    assert_eq!(cache.look_up("a.org", 0), Lookup::Resolve);
    assert_eq!(cache.resolved("a.org", &vec![C, A], 5).unwrap(), A);
    assert_eq!(cache.resolved("b.org", &vec![D], 5).unwrap(), D);
    assert_eq!(cache.get_cached("a.org", 5), Some(A));
    assert_eq!(cache.look_up("a.org", 10 * SECOND + 4), Lookup::Known(A));
    assert_eq!(cache.get_cached("a.org", 10 * SECOND + 5), None);
    assert_eq!(cache.get_cached("b.org", 6), Some(D));
    assert_eq!(cache.get_cached("A.org", 6), None);
    // A name that is resolved again starts anew.
    assert_eq!(cache.resolved("a.org", &vec![B], 10 * SECOND).unwrap(), B);
    assert_eq!(cache.get_cached("a.org", 15 * SECOND), Some(B));
    assert_eq!(cache.insert_resolved("c.org", vec![C, A], 0), C);
    assert_eq!(cache.get_cached("c.org", 1), Some(C));
}

#[test]
fn other_orders_are_kept() {
    let mut cache = dns("ipv6first", 10);
    assert!(!cache.ipv4_first());
    assert_eq!(cache.resolved("a.org", &vec![A, C], 0).unwrap(), C);
    let mut cache = dns("whatever", 10);
    assert!(!cache.ipv4_first());
    assert_eq!(cache.resolved("a.org", &vec![C, A], 0).unwrap(), C);
}

#[test]
fn eviction_drops_only_what_is_over() {
    let mut cache = dns("verbatim", 10);
    cache.resolved("old", &vec![A], 0).unwrap();
    cache.resolved("new", &vec![B], 5 * SECOND).unwrap();
    cache.resolved("newer", &vec![C], 6 * SECOND).unwrap();
    cache.evict_expired(10 * SECOND);
    assert_eq!(cache.get_cached("old", 0), None);
    assert_eq!(cache.get_cached("new", 10 * SECOND), Some(B));
    assert_eq!(cache.get_cached("newer", 10 * SECOND), Some(C));
    cache.resolved("old", &vec![D], 11 * SECOND).unwrap();
    assert_eq!(cache.get_cached("old", 11 * SECOND), Some(D));
    cache.evict_expired(u64::MAX);
    assert_eq!(cache.get_cached("newer", 0), None);
}

#[test]
fn addresses_name_themselves() {
    let cache = dns("ipv4first", 10);
    assert_eq!(cache.look_up("0.0.0.2", 0), Lookup::Known(B));
    assert_eq!(cache.look_up("::1", 0), Lookup::Known(C));
    assert_eq!(choose_known(Some(A), Some(B)), Lookup::Known(A));
    assert_eq!(choose_known(None, Some(B)), Lookup::Known(B));
    assert_eq!(choose_known(None, None), Lookup::Resolve);
}

#[test]
fn names_without_addresses() {
    let mut cache = dns("ipv4first", 10);
    match cache.resolved("a.org", &vec![], 0) {
        Err(e) => assert_eq!(e.message(), "No addresses returned for a.org"),
        Ok(_) => panic!("expected an error"),
    }
    assert_eq!(
        DnsError::ResolveFailed("x".to_string()).message(),
        "DNS resolution failed: x"
    );
}

fn gate(max: usize, per_ip: usize, window: u64) -> AcceptGate {
    let mut config = ServerConfig::default();
    config.max_connections = max;
    config.max_connections_per_ip = per_ip;
    config.connection_window_secs = window;
    AcceptGate::new(&config)
}

#[test]
fn a_worker_has_a_limit() {
    let mut gate = gate(2, 0, 60);
    assert_eq!(gate.decide(A, 0), Admission::Accepted);
    assert_eq!(gate.decide(A, 0), Admission::Accepted);
    assert_eq!(gate.decide(B, 0), Admission::TooMany);
    assert_eq!(gate.open(), 2);
    gate.release();
    assert_eq!(gate.decide(B, 0), Admission::Accepted);
    gate.release();
    gate.release();
    gate.release();
    assert_eq!(gate.open(), 0);
}

#[test]
fn an_address_has_a_limit() {
    let mut gate = gate(0, 2, 60);
    assert_eq!(gate.decide(A, 0), Admission::Accepted);
    assert_eq!(gate.decide(A, 1), Admission::Accepted);
    assert_eq!(gate.decide(A, 2), Admission::TooManyFromAddress);
    assert_eq!(gate.open(), 2);
    assert_eq!(gate.decide(C, 2), Admission::Accepted);
    assert_eq!(gate.decide(A, 60 * SECOND - 1), Admission::TooManyFromAddress);
    // The window is over.
    assert_eq!(gate.decide(A, 60 * SECOND), Admission::Accepted);
    assert_eq!(gate.decide(A, 60 * SECOND), Admission::Accepted);
    assert_eq!(gate.decide(A, 60 * SECOND), Admission::TooManyFromAddress);
}

#[test]
fn sweeping_forgets_no_one_too_early() {
    let mut gate = gate(0, 1, 60);
    for i in 0..3000u32 {
        assert_eq!(gate.decide(IpAddr::V4(i), SECOND), Admission::Accepted);
    }
    for i in 0..3000u32 {
        assert_eq!(gate.decide(IpAddr::V4(i), 2 * SECOND), Admission::TooManyFromAddress);
    }
    for i in 0..3000u32 {
        assert_eq!(gate.decide(IpAddr::V4(i), 61 * SECOND), Admission::Accepted);
    }
}

fn state(idle: u64, ping: u64, pong: u64) -> ConnState {
    let mut config = ServerConfig::default();
    config.idle_timeout_secs = idle;
    config.ws_ping_interval_secs = ping;
    config.ws_pong_timeout_secs = pong;
    ConnState::new(&config, A, 1000)
}

#[test]
fn deadlines() {
    let s = state(5, 0, 10);
    assert!(s.has_timers());
    assert!(!state(0, 0, 10).has_timers());
    assert!(state(0, 1, 10).has_timers());
    assert_eq!(s.idle_deadline(7), 7 + 5 * SECOND as u128);
    assert_eq!(s.ping_deadline(7), 7 + FAR_AWAY_SECS as u128 * SECOND as u128);
    assert_eq!(s.duration_ms(1000 + 2_999_999), 2);
    assert_eq!(s.duration_ms(0), 0);
    assert_eq!(elapsed(3, 5), 2);
    assert_eq!(elapsed(5, 3), 0);
    assert_eq!(nanos(2), 2_000_000_000);
}

#[test]
fn unanswered_pings_close_the_connection() {
    let mut s = state(0, 1, 10);
    assert_eq!(s.ping_due(100 * SECOND), PingStep::Ping);
    assert!(s.awaiting_pong);
    s.pong_received(100 * SECOND);
    assert!(!s.awaiting_pong);
    assert_eq!(s.ping_due(105 * SECOND), PingStep::Ping);
    // Further pings buy no time.
    assert_eq!(s.ping_due(110 * SECOND), PingStep::Ping);
    assert_eq!(s.ping_due(115 * SECOND), PingStep::Ping);
    assert_eq!(s.ping_sent, 105 * SECOND);
    assert_eq!(s.ping_due(115 * SECOND + 1), PingStep::Close);
    s.pong_received(116 * SECOND);
    assert_eq!(s.ping_due(200 * SECOND), PingStep::Ping);
    assert_eq!(s.ping_sent, 200 * SECOND);
}

#[test]
fn the_timeout_runs_from_the_ping() {
    // Pinged every 30 seconds, with 40 seconds to answer.
    let mut s = state(0, 30, 40);
    assert_eq!(s.ping_due(30 * SECOND), PingStep::Ping);
    s.pong_received(31 * SECOND);
    assert_eq!(s.ping_due(60 * SECOND), PingStep::Ping);
    assert_eq!(s.ping_due(90 * SECOND), PingStep::Ping);
    assert_eq!(s.ping_due(120 * SECOND), PingStep::Close);
}

#[test]
fn streams_are_counted() {
    let mut s = state(0, 0, 0);
    s.stream_asked_for();
    s.stream_asked_for();
    assert_eq!(s.streams_opened, 2);
    s.streams_opened = u32::MAX;
    s.stream_asked_for();
    assert_eq!(s.streams_opened, 0);
}

#[test]
fn other_work_gets_its_turn() {
    for (processors, limit) in [(None, 32), (Some(11), 32), (Some(12), 64)] {
        let mut counter = YieldCounter::new(processors);
        for round in 0..3 {
            // A frame that was waited for counts, but never yields.
            let start = if round == 1 { counter.waited(); 2 } else { 1 };
            for _ in start..limit {
                assert!(!counter.buffered());
            }
            assert!(counter.buffered());
        }
    }
}

#[test]
fn pieces_of_text() {
    let chars: Vec<char> = "  12, +7 ".chars().collect();
    assert_eq!(find_char(&chars, 0, ','), 4);
    assert_eq!(find_char(&chars, 5, ','), chars.len());
    assert_eq!(trim_range(&chars, 0, 4), (2, 4));
    assert_eq!(trim_range(&chars, 5, 9), (6, 8));
    assert_eq!(read_decimal(&chars, 2, 4, 100), Some(12));
    assert_eq!(read_decimal(&chars, 2, 4, 11), None);
    assert_eq!(read_decimal(&chars, 6, 8, 100), Some(7));
    assert_eq!(read_decimal(&chars, 6, 7, 100), None);
    assert_eq!(read_decimal(&chars, 0, 4, 100), None);
    assert!(has_prefix("cpu0", "cpu"));
    assert!(!has_prefix("cp", "cpu"));
    assert!(same_text("a", "a"));
    assert!(!same_text("a", "A"));
}
