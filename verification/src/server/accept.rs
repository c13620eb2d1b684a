//! Which connections a worker accepts.
//!
//! Time is a number of nanoseconds that the caller reads off a clock that never goes back.

use std::collections::HashMap;
use std::hash::Hash;
use vstd::prelude::*;

use crate::clock;
use crate::clock::{elapsed, nanos};
use crate::net::IpAddr;
use crate::server::config::ServerConfig;

verus! {

broadcast use vstd::std_specs::hash::group_hash_axioms;

/// After how many connections counted for an address the old windows are dropped.
pub const SWEEP_INTERVAL: u16 = 1024;

/// The connections of an address since its window began.
#[derive(Debug, Clone, Copy, PartialEq, Eq, Structural)]
pub struct Window {
    pub count: usize,
    pub start: u64,
}

/// What becomes of a connection.
#[derive(Debug, Clone, Copy, PartialEq, Eq, Structural)]
pub enum Admission {
    /// It is served.
    Accepted,
    /// The worker has as many as it may.
    TooMany,
    /// Its address has made as many as it may.
    TooManyFromAddress,
}

/// The connections of a worker.
pub struct AcceptGate {
    max_connections: usize,
    max_per_ip: usize,
    window_secs: u64,
    open: usize,
    since_sweep: u16,
    v4: HashMap<u32, Window>,
    v6: HashMap<u128, Window>,
}

/// The connections of a worker, as a mathematical value.
#[verifier::ext_equal]
pub struct GateView {
    /// The most connections at a time; zero stands for no limit.
    pub max_connections: usize,
    /// The most connections of an address in a window; zero stands for no limit.
    pub max_per_ip: usize,
    /// The length of a window in nanoseconds.
    pub window: int,
    /// The connections that are open.
    pub open: usize,
    /// The connections that were counted since old windows were dropped.
    pub since_sweep: int,
    /// The window of each address.
    pub windows: Map<IpAddr, Window>,
}

impl View for AcceptGate {
    type V = GateView;

    closed spec fn view(&self) -> GateView {
        GateView {
            max_connections: self.max_connections,
            max_per_ip: self.max_per_ip,
            window: clock::nanos_of(self.window_secs),
            open: self.open,
            since_sweep: self.since_sweep as int,
            windows: joined(self.v4@, self.v6@),
        }
    }
}

/// The windows of addresses of both versions.
pub open spec fn joined(v4: Map<u32, Window>, v6: Map<u128, Window>) -> Map<IpAddr, Window> {
    Map::new(
        |ip: IpAddr|
            match ip {
                IpAddr::V4(a) => v4.contains_key(a),
                IpAddr::V6(a) => v6.contains_key(a),
            },
        |ip: IpAddr|
            match ip {
                IpAddr::V4(a) => v4[a],
                IpAddr::V6(a) => v6[a],
            },
    )
}

/// Whether a window is not over.
pub open spec fn fresh(window: Window, now: u64, length: int) -> bool {
    clock::since(window.start, now) < length
}

/// The window of an address once a connection was counted: a new one if there was none or it
/// is over.
pub open spec fn counted(window: Option<Window>, now: u64, length: int) -> Window {
    match window {
        Some(w) => if fresh(w, now, length) {
            Window {
                count: if w.count == usize::MAX {
                    w.count
                } else {
                    (w.count + 1) as usize
                },
                start: w.start,
            }
        } else {
            Window { count: 1, start: now }
        },
        None => Window { count: 1, start: now },
    }
}

impl GateView {
    /// The window of an address, if it has one.
    pub open spec fn window_of(self, ip: IpAddr) -> Option<Window> {
        if self.windows.contains_key(ip) {
            Some(self.windows[ip])
        } else {
            None
        }
    }

    /// The state once a connection of an address was counted.
    pub open spec fn with_counted(self, ip: IpAddr, now: u64) -> Self {
        GateView {
            windows: self.windows.insert(ip, counted(self.window_of(ip), now, self.window)),
            ..self
        }
    }

    /// The state without the windows that are over.
    pub open spec fn swept(self, now: u64) -> Self {
        GateView {
            since_sweep: 0,
            windows: self.windows.restrict(
                Set::new(
                    |ip: IpAddr|
                        self.windows.contains_key(ip) && fresh(
                            self.windows[ip],
                            now,
                            self.window,
                        ),
                ),
            ),
            ..self
        }
    }

    /// The state after a connection was closed.
    pub open spec fn released(self) -> Self {
        GateView {
            open: if self.open == 0 {
                0
            } else {
                (self.open - 1) as usize
            },
            ..self
        }
    }

    /// What becomes of a connection. The worker's limit comes first.
    pub open spec fn admission(self, ip: IpAddr, now: u64) -> Admission {
        if self.max_connections > 0 && self.open >= self.max_connections {
            Admission::TooMany
        } else if self.max_per_ip > 0 && counted(self.window_of(ip), now, self.window).count
            > self.max_per_ip {
            Admission::TooManyFromAddress
        } else {
            Admission::Accepted
        }
    }

    /// The state after a connection came. One that the worker has no place for is not counted
    /// for its address; one that is refused for its address is.
    pub open spec fn after(self, ip: IpAddr, now: u64) -> Self {
        let counted = if self.max_per_ip > 0 {
            self.with_counted(ip, now)
        } else {
            self
        };
        match self.admission(ip, now) {
            Admission::TooMany => self,
            Admission::TooManyFromAddress => counted,
            Admission::Accepted => {
                let swept = if self.max_per_ip == 0 {
                    counted
                } else if self.since_sweep + 1 >= SWEEP_INTERVAL {
                    counted.swept(now)
                } else {
                    GateView { since_sweep: self.since_sweep + 1, ..counted }
                };
                GateView { open: (self.open + 1) as usize, ..swept }
            },
        }
    }
}

/// The windows of a map that are not over.
fn keep_fresh<K: Copy + Eq + Hash>(
    map: &HashMap<K, Window>,
    now: u64,
    length: u128,
) -> (r: HashMap<K, Window>)
    requires
        vstd::std_specs::hash::obeys_key_model::<K>(),
    ensures
        forall|k: K| #[trigger]
            r@.contains_key(k) <==> map@.contains_key(k) && fresh(map@[k], now, length as int),
        forall|k: K| #[trigger] r@.contains_key(k) ==> r@[k] == map@[k],
{
    let mut out: HashMap<K, Window> = HashMap::new();
    for pair in it: map.iter()
        invariant
            vstd::std_specs::hash::obeys_key_model::<K>(),
            forall|i: int|
                0 <= i < it.index() ==> {
                    let k = *(#[trigger] it.seq()[i]).0;
                    out@.contains_key(k) <==> fresh(map@[k], now, length as int)
                },
            forall|k: K| #[trigger]
                out@.contains_key(k) ==> {
                    &&& map@.contains_key(k)
                    &&& out@[k] == map@[k]
                    &&& fresh(map@[k], now, length as int)
                },
    {
        let (key, window) = pair;
        proof {
            assert(map@.contains_key(*it.seq()[it.index()].0));
        }
        if (elapsed(window.start, now) as u128) < length {
            out.insert(*key, *window);
        }
    }
    proof {
        assert forall|k: K| #[trigger] out@.contains_key(k) <==> map@.contains_key(k) && fresh(
            map@[k],
            now,
            length as int,
        ) by {
            if map@.contains_key(k) && fresh(map@[k], now, length as int) {
                let all = vstd::std_specs::iter::IteratorSpec::remaining(
                    &vstd::std_specs::hash::spec_hash_map_iter(map),
                );
                assert(all.contains((&k, &map@[k])));
            }
        }
    }
    out
}

/// The window of an address once a connection was counted.
fn count_in(window: Option<&Window>, now: u64, length: u128) -> (r: Window)
    ensures
        r == counted(
            match window {
                Some(w) => Some(*w),
                None => None,
            },
            now,
            length as int,
        ),
{
    match window {
        Some(w) => {
            if (elapsed(w.start, now) as u128) < length {
                let count: usize = if w.count == usize::MAX {
                    w.count
                } else {
                    w.count + 1
                };
                Window { count, start: w.start }
            } else {
                Window { count: 1, start: now }
            }
        },
        None => Window { count: 1, start: now },
    }
}

impl AcceptGate {
    /// No connections yet.
    pub fn new(config: &ServerConfig) -> (r: Self)
        ensures
            r@ == (GateView {
                max_connections: config.max_connections,
                max_per_ip: config.max_connections_per_ip,
                window: clock::nanos_of(config.connection_window_secs),
                open: 0,
                since_sweep: 0,
                windows: Map::<IpAddr, Window>::empty(),
            }),
    {
        let r = AcceptGate {
            max_connections: config.max_connections,
            max_per_ip: config.max_connections_per_ip,
            window_secs: config.connection_window_secs,
            open: 0,
            since_sweep: 0,
            v4: HashMap::new(),
            v6: HashMap::new(),
        };
        proof {
            assert(r@.windows == Map::<IpAddr, Window>::empty());
        }
        r
    }

    /// Decides about a connection. More open connections than `usize` can count would not fit.
    pub fn decide(&mut self, ip: IpAddr, now: u64) -> (r: Admission)
        requires
            old(self)@.open < usize::MAX,
        ensures
            r == old(self)@.admission(ip, now),
            final(self)@ == old(self)@.after(ip, now),
    {
        if self.max_connections > 0 && self.open >= self.max_connections {
            return Admission::TooMany;
        }
        if self.max_per_ip > 0 {
            let ghost before = self@;
            let length: u128 = nanos(self.window_secs);
            let window = match ip {
                IpAddr::V4(a) => count_in(self.v4.get(&a), now, length),
                IpAddr::V6(a) => count_in(self.v6.get(&a), now, length),
            };
            match ip {
                IpAddr::V4(a) => {
                    self.v4.insert(a, window);
                },
                IpAddr::V6(a) => {
                    self.v6.insert(a, window);
                },
            }
            proof {
                assert(self@.windows == before.with_counted(ip, now).windows);
            }
            if window.count > self.max_per_ip {
                return Admission::TooManyFromAddress;
            }
            let ghost middle = self@;
            if self.since_sweep >= SWEEP_INTERVAL - 1 {
                self.since_sweep = 0;
                self.v4 = keep_fresh(&self.v4, now, length);
                self.v6 = keep_fresh(&self.v6, now, length);
                proof {
                    assert(self@.windows == middle.swept(now).windows);
                }
            } else {
                self.since_sweep = self.since_sweep + 1;
            }
        }
        self.open = self.open + 1;
        Admission::Accepted
    }

    /// The number of open connections.
    pub fn open(&self) -> (r: usize)
        ensures
            r == self@.open,
    {
        self.open
    }

    /// A connection was closed.
    pub fn release(&mut self)
        ensures
            final(self)@ == old(self)@.released(),
    {
        if self.open > 0 {
            self.open = self.open - 1;
        }
    }
}

// ---------------------------------------------------------------------------------------
// Laws
// ---------------------------------------------------------------------------------------

/// A worker never has more connections than its limit, if it has one and kept it so far.
pub proof fn the_worker_limit_is_kept(gate: GateView, ip: IpAddr, now: u64)
    requires
        gate.max_connections > 0,
        gate.open <= gate.max_connections,
    ensures
        gate.after(ip, now).open <= gate.max_connections,
{
}

/// A connection is accepted only if its address has made no more than its limit in the window,
/// this one counted.
pub proof fn the_address_limit_is_kept(gate: GateView, ip: IpAddr, now: u64)
    requires
        gate.max_per_ip > 0,
        gate.admission(ip, now) == Admission::Accepted,
    ensures
        counted(gate.window_of(ip), now, gate.window).count <= gate.max_per_ip,
{
}

/// A refused connection takes no place.
pub proof fn refusal_takes_no_place(gate: GateView, ip: IpAddr, now: u64)
    requires
        gate.admission(ip, now) != Admission::Accepted,
    ensures
        gate.after(ip, now).open == gate.open,
{
}

/// A connection of one address changes nothing about what becomes of those of another, now or
/// later, but for the place that it takes.
pub proof fn addresses_do_not_disturb_each_other(
    gate: GateView,
    ip: IpAddr,
    now: u64,
    other: IpAddr,
    later: u64,
)
    requires
        ip != other,
        now <= later,
    ensures
        counted(gate.after(ip, now).window_of(other), later, gate.window) == counted(
            gate.window_of(other),
            later,
            gate.window,
        ),
{
    let after = gate.after(ip, now);
    if gate.windows.contains_key(other) && !after.windows.contains_key(other) {
        assert(!fresh(gate.windows[other], now, gate.window));
    }
}

/// Once its window is over, an address starts anew.
pub proof fn a_window_that_is_over_is_forgotten(gate: GateView, ip: IpAddr, now: u64)
    requires
        gate.windows.contains_key(ip),
        clock::since(gate.windows[ip].start, now) >= gate.window,
    ensures
        counted(gate.window_of(ip), now, gate.window) == (Window { count: 1, start: now }),
{
}

/// How many connections an address has made in a window that is not over, this one counted.
pub open spec fn made_by(gate: GateView, ip: IpAddr, now: u64) -> int {
    if gate.windows.contains_key(ip) && gate.window > 0 && now - gate.windows[ip].start
        < gate.window {
        gate.windows[ip].count + 1
    } else {
        1
    }
}

/// A connection is accepted exactly if the worker has a place and its address has not made more
/// connections than it may, this one counted, where zero stands for no limit. Each refusal says
/// which limit it is, the worker's first.
pub proof fn who_is_accepted(gate: GateView, ip: IpAddr, now: u64)
    requires
        gate.windows.contains_key(ip) ==> gate.windows[ip].count < usize::MAX,
    ensures
        ({
            let place = gate.max_connections == 0 || gate.open < gate.max_connections;
            let few = gate.max_per_ip == 0 || made_by(gate, ip, now) <= gate.max_per_ip;
            &&& gate.admission(ip, now) == Admission::Accepted <==> place && few
            &&& gate.admission(ip, now) == Admission::TooMany <==> !place
            &&& gate.admission(ip, now) == Admission::TooManyFromAddress <==> place && !few
        }),
{
}

/// A connection that finds a place counts for its address, accepted or not: the window that runs
/// goes on with one more, and one that is over starts anew. Only if it is accepted does it take a
/// place.
pub proof fn connections_are_counted(gate: GateView, ip: IpAddr, now: u64)
    requires
        gate.open < usize::MAX,
        gate.max_per_ip > 0,
        gate.window > 0,
        gate.admission(ip, now) != Admission::TooMany,
        gate.windows.contains_key(ip) ==> gate.windows[ip].count < usize::MAX,
    ensures
        ({
            let after = gate.after(ip, now);
            let runs = gate.windows.contains_key(ip) && now - gate.windows[ip].start
                < gate.window;
            &&& after.windows.contains_key(ip)
            &&& after.windows[ip].count == made_by(gate, ip, now)
            &&& after.windows[ip].start == if runs {
                gate.windows[ip].start
            } else {
                now
            }
            &&& after.open == gate.open + if gate.admission(ip, now) == Admission::Accepted {
                1int
            } else {
                0
            }
        }),
{
}

/// The limits never change, and without a limit for addresses nothing is remembered of them.
pub proof fn limits_stay(gate: GateView, ip: IpAddr, now: u64)
    ensures
        gate.after(ip, now).max_connections == gate.max_connections,
        gate.after(ip, now).max_per_ip == gate.max_per_ip,
        gate.after(ip, now).window == gate.window,
        gate.max_per_ip == 0 ==> gate.after(ip, now).windows == gate.windows,
        gate.admission(ip, now) == Admission::TooMany ==> gate.after(ip, now) == gate,
{
}

/// A connection that was accepted and closed gives its place back, and closing one changes nothing
/// else.
pub proof fn closed_connections_give_their_place_back(gate: GateView, ip: IpAddr, now: u64)
    requires
        gate.open < usize::MAX,
    ensures
        gate.admission(ip, now) == Admission::Accepted ==> gate.after(ip, now).released().open
            == gate.open,
        gate.open > 0 ==> gate.released().open == gate.open - 1,
        gate.released().windows == gate.windows,
        gate.released().max_connections == gate.max_connections,
        gate.released().max_per_ip == gate.max_per_ip,
{
}

/// A window that is not over is never dropped.
pub proof fn running_windows_are_kept(gate: GateView, ip: IpAddr, now: u64, other: IpAddr)
    requires
        ip != other,
        gate.window > 0,
        gate.windows.contains_key(other),
        now - gate.windows[other].start < gate.window,
    ensures
        gate.after(ip, now).windows.contains_key(other),
        gate.after(ip, now).windows[other] == gate.windows[other],
{
}

/// A worker starts without connections and with the limits of its configuration.
pub proof fn workers_start_empty(config: ServerConfig, gate: AcceptGate)
    requires
        call_ensures(AcceptGate::new, (&config,), gate),
    ensures
        gate@.open == 0,
        gate@.windows == Map::<IpAddr, Window>::empty(),
        gate@.max_connections == config.max_connections,
        gate@.max_per_ip == config.max_connections_per_ip,
        gate@.window == config.connection_window_secs * 1_000_000_000,
{
}

/// Deciding about a connection says exactly what the limits say, and takes a place exactly if it is
/// accepted.
pub proof fn decisions_follow_the_limits(gate: &mut AcceptGate, ip: IpAddr, now: u64, r: Admission)
    requires
        call_ensures(AcceptGate::decide, (gate, ip, now), r),
        old(gate)@.open < usize::MAX,
        old(gate)@.windows.contains_key(ip) ==> old(gate)@.windows[ip].count < usize::MAX,
    ensures
        ({
            let before = old(gate)@;
            let place = before.max_connections == 0 || before.open < before.max_connections;
            let few = before.max_per_ip == 0 || made_by(before, ip, now) <= before.max_per_ip;
            &&& r == Admission::Accepted <==> place && few
            &&& r == Admission::TooMany <==> !place
            &&& final(gate)@.open == before.open + if r == Admission::Accepted {
                1int
            } else {
                0
            }
        }),
{
    who_is_accepted(old(gate)@, ip, now);
}

/// Windows that are over are dropped with every 1024th connection that is counted and accepted, and
/// no window is dropped before.
pub proof fn old_windows_are_dropped_in_time(gate: GateView, ip: IpAddr, now: u64, other: IpAddr)
    requires
        gate.max_per_ip > 0,
        gate.admission(ip, now) == Admission::Accepted,
    ensures
        ({
            let after = gate.after(ip, now);
            &&& gate.since_sweep + 1 >= 1024 ==> after.since_sweep == 0 && (
            after.windows.contains_key(other) ==> now < after.windows[other].start + gate.window)
            &&& gate.since_sweep + 1 < 1024 ==> after.since_sweep == gate.since_sweep + 1 && (
            gate.windows.contains_key(other) ==> after.windows.contains_key(other))
        }),
{
}

} // verus!
