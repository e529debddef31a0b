use vstd::prelude::*;

use crate::bytes;
use crate::error::Error;

verus! {

// ---------------------------------------------------------------------------
// The ping liveness behavior, one state per peer.  Both ends of a
// connection periodically open a fresh substream, write a 32-byte
// nonce, and expect it echoed verbatim.  A probe that is not answered
// by its deadline fails; the keep-alive policy decides whether a
// failed probe closes the connection.  The runtime owns the sockets
// and the clock and drives this machine with what it observes.
// ---------------------------------------------------------------------------

/// The length of a probe nonce, in bytes.
pub const NONCE_LEN: usize = 32;

/// The timing and keep-alive policy of the behavior.
#[derive(Clone, Copy, Debug, PartialEq, Eq, Structural)]
pub struct PingConfig {
    /// Milliseconds between successive probes on one connection; an
    /// unanswered probe fails after this same span.
    pub interval_ms: u64,
    /// Whether the connection outlives a failed probe.
    pub keep_alive: bool,
}

impl PingConfig {
    /// The default policy: probe every second, close on failure.
    pub fn new() -> (r: PingConfig)
        ensures
            r.interval_ms == 1000,
            !r.keep_alive,
    {
        PingConfig { interval_ms: 1000, keep_alive: false }
    }

    /// The same policy with the keep-alive flag replaced.
    pub fn with_keep_alive(self, keep_alive: bool) -> (r: PingConfig)
        ensures
            r.interval_ms == self.interval_ms,
            r.keep_alive == keep_alive,
    {
        PingConfig { keep_alive, ..self }
    }

    /// The same policy with the probe interval replaced.
    pub fn with_interval(self, interval_ms: u64) -> (r: PingConfig)
        ensures
            r.interval_ms == interval_ms,
            r.keep_alive == self.keep_alive,
    {
        PingConfig { interval_ms, ..self }
    }
}

/// The per-peer probe state.
#[derive(Clone, Debug, PartialEq, Eq)]
pub enum PingState {
    /// No probe in flight; the next is due at the stored time.
    Idle(u64),
    /// A probe in flight: its nonce, when it was sent, its deadline.
    InFlight(Vec<u8>, u64, u64),
}

/// The mathematical model of a probe state.
pub enum PingStateView {
    /// No probe in flight; the next is due at the stored time.
    Idle(u64),
    /// A probe in flight: nonce, send time, deadline.
    InFlight(Seq<u8>, u64, u64),
}

impl View for PingState {
    type V = PingStateView;

    open spec fn view(&self) -> PingStateView {
        match self {
            PingState::Idle(next) => PingStateView::Idle(*next),
            PingState::InFlight(nonce, sent, deadline) => PingStateView::InFlight(
                nonce@,
                *sent,
                *deadline,
            ),
        }
    }
}

/// What one observation of the machine produced.
#[derive(Clone, Copy, Debug, PartialEq, Eq, Structural)]
pub enum PingOutcome {
    /// The peer echoed the nonce; the round-trip time in milliseconds.
    Success(u64),
    /// The probe failed for the stored reason; the flag says whether
    /// the connection is to close.
    Failure(Error, bool),
}

/// The deadline `interval_ms` after `now_ms`, saturating at the top of
/// the clock.
pub open spec fn deadline_of(now_ms: u64, interval_ms: u64) -> u64 {
    if now_ms + interval_ms <= u64::MAX {
        (now_ms + interval_ms) as u64
    } else {
        u64::MAX
    }
}

/// The state of a connection just established: the first probe is due
/// at once.
pub fn initial_state(now_ms: u64) -> (r: PingState)
    ensures
        r@ == PingStateView::Idle(now_ms),
{
    PingState::Idle(now_ms)
}

/// Whether a fresh probe is due: the machine is idle and its next
/// probe time has come.
pub fn due(state: &PingState, now_ms: u64) -> (r: bool)
    ensures
        r == (state@ matches PingStateView::Idle(next) && now_ms >= next),
{
    match state {
        PingState::Idle(next) => now_ms >= *next,
        PingState::InFlight(_, _, _) => false,
    }
}

/// Send a probe: the machine takes the nonce in flight, with its
/// deadline one interval away.
pub fn start_ping(state: &PingState, nonce: Vec<u8>, now_ms: u64, config: &PingConfig) -> (r:
    PingState)
    requires
        state@ is Idle,
        nonce@.len() == NONCE_LEN,
    ensures
        r@ == PingStateView::InFlight(nonce@, now_ms, deadline_of(now_ms, config.interval_ms)),
{
    let deadline: u64 = if now_ms <= u64::MAX - config.interval_ms {
        now_ms + config.interval_ms
    } else {
        u64::MAX
    };
    PingState::InFlight(nonce, now_ms, deadline)
}

/// The round-trip time from `sent_ms` to `now_ms`, or zero on a clock
/// that moved backwards.
pub open spec fn rtt_of(sent_ms: u64, now_ms: u64) -> u64 {
    if now_ms >= sent_ms {
        (now_ms - sent_ms) as u64
    } else {
        0
    }
}

/// Judge an echo against the probe in flight.
///
/// The outcome is a success exactly when the echoed bytes equal the
/// nonce sent, and then carries the round-trip time; mismatched bytes
/// are a protocol violation, and close the connection unless
/// keep-alive is set.  Either way the machine goes idle, with the next
/// probe due at the old deadline.
pub fn on_echo(state: &PingState, echo: &[u8], now_ms: u64, config: &PingConfig) -> (r: (
    PingState,
    PingOutcome,
))
    requires
        state@ is InFlight,
    ensures
        state@ matches PingStateView::InFlight(nonce, sent, deadline) ==> {
            &&& r.0@ == PingStateView::Idle(deadline)
            &&& (r.1 is Success <==> echo@ == nonce)
            &&& (echo@ == nonce ==> r.1 == PingOutcome::Success(rtt_of(sent, now_ms)))
            &&& (echo@ != nonce ==> r.1 == PingOutcome::Failure(
                Error::ProtocolViolation,
                !config.keep_alive,
            ))
        },
{
    match state {
        PingState::InFlight(nonce, sent, deadline) => {
            if bytes::bytes_equal(echo, nonce.as_slice()) {
                let rtt: u64 = if now_ms >= *sent {
                    now_ms - *sent
                } else {
                    0
                };
                (PingState::Idle(*deadline), PingOutcome::Success(rtt))
            } else {
                (
                    PingState::Idle(*deadline),
                    PingOutcome::Failure(Error::ProtocolViolation, !config.keep_alive),
                )
            }
        },
        PingState::Idle(next) => (PingState::Idle(*next), PingOutcome::Failure(Error::Io, false)),
    }
}

/// Let time pass.
///
/// An idle machine is unchanged.  A probe still within its deadline
/// stays in flight.  A probe whose deadline has passed fails: the
/// machine reports the failure, closes the connection exactly when
/// keep-alive is off, and reschedules the next probe at the missed
/// deadline.
pub fn on_tick(state: PingState, now_ms: u64, config: &PingConfig) -> (r: (
    PingState,
    Option<PingOutcome>,
))
    ensures
        state@ matches PingStateView::Idle(next) ==> r.0@ == PingStateView::Idle(next) && r.1
            is None,
        state@ matches PingStateView::InFlight(nonce, sent, deadline) ==> {
            &&& (now_ms < deadline ==> r.0@ == state@ && r.1 is None)
            &&& (now_ms >= deadline ==> r.0@ == PingStateView::Idle(deadline) && r.1 == Some(
                PingOutcome::Failure(Error::Io, !config.keep_alive),
            ))
        },
{
    match state {
        PingState::Idle(next) => (PingState::Idle(next), None),
        PingState::InFlight(nonce, sent, deadline) => {
            if now_ms >= deadline {
                (
                    PingState::Idle(deadline),
                    Some(PingOutcome::Failure(Error::Io, !config.keep_alive)),
                )
            } else {
                (PingState::InFlight(nonce, sent, deadline), None)
            }
        },
    }
}

} // verus!
