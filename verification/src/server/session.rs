//! The clockwork of a connection: when it is idle, when the client is pinged, and when other
//! work gets its turn.
//!
//! Time is a number of nanoseconds that the caller reads off a clock that never goes back.

use vstd::prelude::*;

use crate::clock;
use crate::clock::{elapsed, nanos};
use crate::net::IpAddr;
use crate::server::config::ServerConfig;

verus! {

/// A year in seconds, which stands for never.
pub const FAR_AWAY_SECS: u64 = 31_536_000;

/// What a connection remembers of time.
#[derive(Debug)]
pub struct ConnState {
    /// When the connection began.
    pub conn_start: u64,
    /// How many streams the client has asked for.
    pub streams_opened: u32,
    /// The client's address.
    pub client_ip: IpAddr,
    /// After how many seconds without a frame the connection is closed; zero stands for never.
    pub idle_timeout_secs: u64,
    /// How often the client is pinged, in seconds; zero stands for never.
    pub ping_interval_secs: u64,
    /// How long the answer to a ping may take, in seconds after the ping was sent.
    pub pong_timeout_secs: u64,
    /// Whether a ping is unanswered.
    pub awaiting_pong: bool,
    /// When the oldest ping that is unanswered was sent; of no account if none is.
    pub ping_sent: u64,
    /// When the last answer came.
    pub last_pong: u64,
}

/// What is to be done when a ping is due.
#[derive(Debug, Clone, Copy, PartialEq, Eq, Structural)]
pub enum PingStep {
    /// The client is gone: close the connection.
    Close,
    /// Ping it.
    Ping,
}

/// So many seconds later; zero seconds stand for never.
pub open spec fn later(now: u64, secs: u64) -> int {
    now + clock::nanos_of(
        if secs == 0 {
            FAR_AWAY_SECS
        } else {
            secs
        },
    )
}

impl ConnState {
    /// Whether the client has left a ping unanswered for longer than it may.
    pub open spec fn pong_overdue(self, now: u64) -> bool {
        self.awaiting_pong && clock::since(self.ping_sent, now) > clock::nanos_of(
            self.pong_timeout_secs,
        )
    }

    /// The state once the client was pinged. A ping that is already unanswered stays the oldest.
    pub open spec fn pinged(self, now: u64) -> ConnState {
        ConnState {
            awaiting_pong: true,
            ping_sent: if self.awaiting_pong {
                self.ping_sent
            } else {
                now
            },
            ..self
        }
    }

    /// The state once the client has answered.
    pub open spec fn answered(self, now: u64) -> ConnState {
        ConnState { awaiting_pong: false, last_pong: now, ..self }
    }

    /// A connection that begins.
    pub fn new(config: &ServerConfig, client_ip: IpAddr, now: u64) -> (r: Self)
        ensures
            r == (ConnState {
                conn_start: now,
                streams_opened: 0,
                client_ip,
                idle_timeout_secs: config.idle_timeout_secs,
                ping_interval_secs: config.ws_ping_interval_secs,
                pong_timeout_secs: config.ws_pong_timeout_secs,
                awaiting_pong: false,
                ping_sent: now,
                last_pong: now,
            }),
    {
        ConnState {
            conn_start: now,
            streams_opened: 0,
            client_ip,
            idle_timeout_secs: config.idle_timeout_secs,
            ping_interval_secs: config.ws_ping_interval_secs,
            pong_timeout_secs: config.ws_pong_timeout_secs,
            awaiting_pong: false,
            ping_sent: now,
            last_pong: now,
        }
    }

    /// Whether the connection watches the clock at all.
    pub fn has_timers(&self) -> (r: bool)
        ensures
            r == (self.idle_timeout_secs > 0 || self.ping_interval_secs > 0),
    {
        self.idle_timeout_secs > 0 || self.ping_interval_secs > 0
    }

    /// When the connection is idle, if no frame comes from now on.
    pub fn idle_deadline(&self, now: u64) -> (r: u128)
        ensures
            r == later(now, self.idle_timeout_secs),
    {
        Self::after_secs(now, self.idle_timeout_secs)
    }

    /// When the next ping is due.
    pub fn ping_deadline(&self, now: u64) -> (r: u128)
        ensures
            r == later(now, self.ping_interval_secs),
    {
        Self::after_secs(now, self.ping_interval_secs)
    }

    /// So many seconds later; zero seconds stand for never.
    fn after_secs(now: u64, secs: u64) -> (r: u128)
        ensures
            r == later(now, secs),
    {
        let delay: u64 = if secs == 0 {
            FAR_AWAY_SECS
        } else {
            secs
        };
        now as u128 + nanos(delay)
    }

    /// The client asked for a stream. The count starts anew when it no longer fits.
    pub fn stream_asked_for(&mut self)
        ensures
            *final(self) == (ConnState {
                streams_opened: if old(self).streams_opened == u32::MAX {
                    0
                } else {
                    (old(self).streams_opened + 1) as u32
                },
                ..*old(self)
            }),
    {
        self.streams_opened = if self.streams_opened == u32::MAX {
            0
        } else {
            self.streams_opened + 1
        };
    }

    /// The client answered a ping.
    pub fn pong_received(&mut self, now: u64)
        ensures
            *final(self) == old(self).answered(now),
    {
        self.awaiting_pong = false;
        self.last_pong = now;
    }

    /// A ping is due: if an earlier one is unanswered for too long the connection is closed, else
    /// the client is pinged and an answer is awaited.
    pub fn ping_due(&mut self, now: u64) -> (r: PingStep)
        ensures
            old(self).pong_overdue(now) ==> r == PingStep::Close && *final(self) == *old(self),
            !old(self).pong_overdue(now) ==> r == PingStep::Ping && *final(self) == old(
                self,
            ).pinged(now),
    {
        if self.awaiting_pong && elapsed(self.ping_sent, now) as u128 > nanos(
            self.pong_timeout_secs,
        ) {
            return PingStep::Close;
        }
        if !self.awaiting_pong {
            self.awaiting_pong = true;
            self.ping_sent = now;
        }
        PingStep::Ping
    }

    /// How long the connection has lasted, in milliseconds.
    pub fn duration_ms(&self, now: u64) -> (r: u64)
        ensures
            r == clock::since(self.conn_start, now) / 1_000_000,
    {
        elapsed(self.conn_start, now) / 1_000_000
    }
}

/// A client that answered is not given up before it is pinged again, and is given up exactly when
/// that ping has gone unanswered for longer than it may.
pub proof fn answers_keep_the_connection(state: ConnState, answered: u64, pinged: u64, now: u64)
    ensures
        !state.answered(answered).pong_overdue(now),
        state.answered(answered).pinged(pinged).pong_overdue(now) <==> clock::since(pinged, now)
            > clock::nanos_of(state.pong_timeout_secs),
{
}

/// Pinging a client again while it owes an answer gives it no more time.
pub proof fn further_pings_buy_no_time(state: ConnState, pinged: u64, now: u64)
    requires
        state.awaiting_pong,
    ensures
        state.pinged(pinged).pong_overdue(now) == state.pong_overdue(now),
{
}

/// The number of frames after which other work gets its turn: larger batches pay off on
/// machines with many processors. If their number is unknown, there are four.
pub open spec fn yield_limit_for(processors: Option<usize>) -> u32 {
    match processors {
        Some(n) => if n >= 12 {
            64
        } else {
            32
        },
        None => 32,
    }
}

/// Counts frames, to give other work its turn.
#[derive(Debug)]
pub struct YieldCounter {
    frames: u32,
    limit: u32,
}

impl YieldCounter {
    /// The frames since other work had its turn.
    pub closed spec fn frames_spec(&self) -> u32 {
        self.frames
    }

    /// The number of frames after which other work gets its turn.
    pub closed spec fn limit_spec(&self) -> u32 {
        self.limit
    }

    /// No frames yet, on a machine with so many processors.
    pub fn new(processors: Option<usize>) -> (r: Self)
        ensures
            r.frames_spec() == 0,
            r.limit_spec() == yield_limit_for(processors),
    {
        let n: usize = match processors {
            Some(n) => n,
            None => 4,
        };
        let limit: u32 = if n >= 12 {
            64
        } else {
            32
        };
        YieldCounter { frames: 0, limit }
    }

    /// A frame was read that had to be waited for.
    pub fn waited(&mut self)
        ensures
            final(self).limit_spec() == old(self).limit_spec(),
            final(self).frames_spec() == if old(self).frames_spec() == u32::MAX {
                u32::MAX
            } else {
                (old(self).frames_spec() + 1) as u32
            },
    {
        if self.frames < u32::MAX {
            self.frames = self.frames + 1;
        }
    }

    /// A frame was read without waiting. Says whether other work gets its turn; the count starts
    /// anew then.
    pub fn buffered(&mut self) -> (r: bool)
        ensures
            final(self).limit_spec() == old(self).limit_spec(),
            r == (old(self).frames_spec() + 1 >= old(self).limit_spec()),
            final(self).frames_spec() == if r {
                0
            } else {
                (old(self).frames_spec() + 1) as u32
            },
    {
        if self.frames == u32::MAX || self.frames + 1 >= self.limit {
            self.frames = 0;
            true
        } else {
            self.frames = self.frames + 1;
            false
        }
    }
}

/// A deadline lies as many seconds ahead as it should, and a year ahead where there is none.
pub proof fn deadlines_lie_ahead(now: u64, secs: u64)
    ensures
        secs > 0 ==> later(now, secs) == now + secs * 1_000_000_000,
        later(now, 0) == now + 365 * 24 * 3600 * 1_000_000_000,
        later(now, secs) > now,
{
}

/// Machines with twelve processors or more take sixty-four frames in a row, all others thirty-two.
pub proof fn larger_machines_take_larger_batches(processors: usize)
    ensures
        processors >= 12 ==> yield_limit_for(Some(processors)) == 64,
        processors < 12 ==> yield_limit_for(Some(processors)) == 32,
        yield_limit_for(None) == yield_limit_for(Some(4)),
{
}

/// Pinging and being answered change nothing but what is remembered of pings.
pub proof fn pings_change_nothing_else(state: ConnState, now: u64)
    ensures
        ({
            let pinged = state.pinged(now);
            let answered = state.answered(now);
            &&& pinged.awaiting_pong
            &&& !answered.awaiting_pong
            &&& answered.last_pong == now
            &&& pinged.last_pong == state.last_pong
            &&& state.awaiting_pong ==> pinged == state
            &&& !state.awaiting_pong ==> pinged.ping_sent == now
            &&& state == (ConnState {
                awaiting_pong: state.awaiting_pong,
                ping_sent: state.ping_sent,
                ..pinged
            })
            &&& state == (ConnState {
                awaiting_pong: state.awaiting_pong,
                last_pong: state.last_pong,
                ..answered
            })
        }),
{
}

/// Other work gets its turn exactly when as many frames as the limit have been read since it last
/// had it, and the count starts anew then; before that it grows by one with each frame.
pub proof fn other_work_gets_its_turn(counter: &mut YieldCounter, r: bool)
    requires
        call_ensures(YieldCounter::buffered, (counter,), r),
        old(counter).frames_spec() < old(counter).limit_spec(),
    ensures
        r <==> old(counter).frames_spec() + 1 == old(counter).limit_spec(),
        r ==> final(counter).frames_spec() == 0,
        !r ==> final(counter).frames_spec() == old(counter).frames_spec() + 1,
        final(counter).limit_spec() == old(counter).limit_spec(),
{
}

/// Frames that were waited for count as well, and never make other work wait.
pub proof fn frames_that_were_waited_for_count(counter: &mut YieldCounter)
    requires
        call_ensures(YieldCounter::waited, (counter,), ()),
        old(counter).frames_spec() < u32::MAX,
    ensures
        final(counter).frames_spec() == old(counter).frames_spec() + 1,
        final(counter).limit_spec() == old(counter).limit_spec(),
{
}

/// A connection starts with what the configuration says, owing no answer and having asked for
/// nothing; it watches the clock exactly if it may become idle or is pinged; and it has lasted as
/// many milliseconds as have gone by.
pub proof fn connections_start_afresh(
    config: ServerConfig,
    ip: IpAddr,
    start: u64,
    state: ConnState,
    timers: bool,
    now: u64,
    lasted: u64,
)
    requires
        call_ensures(ConnState::new, (&config, ip, start), state),
        call_ensures(ConnState::has_timers, (&state,), timers),
        call_ensures(ConnState::duration_ms, (&state, now), lasted),
    ensures
        state.client_ip == ip,
        state.streams_opened == 0,
        !state.awaiting_pong,
        state.idle_timeout_secs == config.idle_timeout_secs,
        state.ping_interval_secs == config.ws_ping_interval_secs,
        state.pong_timeout_secs == config.ws_pong_timeout_secs,
        !state.pong_overdue(now),
        timers <==> config.idle_timeout_secs != 0 || config.ws_ping_interval_secs != 0,
        start <= now ==> lasted * 1_000_000 <= now - start < (lasted + 1) * 1_000_000,
{
}

} // verus!
