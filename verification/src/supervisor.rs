//! The supervisor of sessions: it watches what the consumer receives and
//! decides when a session is given up and a new one is made.
use vstd::prelude::*;
use crate::stream_api::{MarketInfo, MarketInfoView, TryRecvError};

verus! {

/// Seconds without an event after which a session counts as stale.
pub const STALE_AFTER: u64 = 180;

/// Seconds to wait between giving up a session and making the next.
pub const COOLDOWN: u64 = 10;

/// Where the supervisor stands.
#[derive(Clone, Copy, Debug, PartialEq, Eq, Structural)]
pub enum Phase {
    /// A session is at work; the last event came at `last_receive`, in
    /// seconds since the epoch.
    Connected { last_receive: u64 },
    /// The session was given up; the next is not made yet.
    CoolingDown,
}

/// What the consumer does next.
#[derive(Clone, Copy, Debug, PartialEq, Eq, Structural)]
pub enum Action {
    /// Handle the event that was received.
    Handle,
    /// Wait briefly and try again.
    Wait,
    /// Stop the session, wait `COOLDOWN` seconds, and make a new one.
    Reconnect,
}

/// What an attempt to take an event gave.
pub enum Poll {
    /// An event other than the close event.
    Event,
    /// The close event.
    Closed,
    /// Nothing waits.
    Empty,
    /// Nothing waits, and the reader has ended.
    Disconnected,
}

/// What an attempt to take an event gave, by its outcome.
pub open spec fn poll_of(outcome: Result<MarketInfoView, TryRecvError>) -> Poll {
    match outcome {
        Ok(MarketInfoView::Close) => Poll::Closed,
        Ok(_) => Poll::Event,
        Err(TryRecvError::Empty) => Poll::Empty,
        Err(TryRecvError::Disconnected) => Poll::Disconnected,
    }
}

/// The session is stale at `now`: at least `STALE_AFTER` seconds have passed
/// since the last event.
pub open spec fn stale(last_receive: u64, now: u64) -> bool {
    now - last_receive >= STALE_AFTER
}

/// What the consumer does after an attempt at the second `now`.
///
/// With a session at work: an event is handled; the close event, a reader
/// that has ended, and staleness with nothing waiting lead to a reconnect;
/// otherwise the consumer waits. While cooling down the consumer waits.
pub open spec fn action_of(phase: Phase, poll: Poll, now: u64) -> Action {
    match phase {
        Phase::CoolingDown => Action::Wait,
        Phase::Connected { last_receive } => match poll {
            Poll::Event => Action::Handle,
            Poll::Closed => Action::Reconnect,
            Poll::Disconnected => Action::Reconnect,
            Poll::Empty => if stale(last_receive, now) {
                Action::Reconnect
            } else {
                Action::Wait
            },
        },
    }
}

/// Where the supervisor stands after an attempt at the second `now`: a
/// reconnect leads to cooling down, an event renews the time of the last
/// receipt, and all else changes nothing.
pub open spec fn phase_after(phase: Phase, poll: Poll, now: u64) -> Phase {
    match action_of(phase, poll, now) {
        Action::Reconnect => Phase::CoolingDown,
        Action::Handle => Phase::Connected { last_receive: now },
        Action::Wait => phase,
    }
}

/// The supervisor of the sessions with one exchange.
#[derive(Debug)]
pub struct Supervisor {
    phase: Phase,
}

impl View for Supervisor {
    type V = Phase;

    closed spec fn view(&self) -> Phase {
        self.phase
    }
}

impl Supervisor {
    /// A supervisor whose first session was made at the second `now`.
    pub fn new(now: u64) -> (r: Supervisor)
        ensures
            r@ == (Phase::Connected { last_receive: now }),
    {
        Supervisor { phase: Phase::Connected { last_receive: now } }
    }

    /// Where the supervisor stands.
    pub fn phase(&self) -> (r: Phase)
        ensures
            r == self@,
    {
        self.phase
    }

    /// Takes note of an attempt to take an event, made at the second `now`,
    /// and says what the consumer does next.
    pub fn observe(&mut self, outcome: &Result<MarketInfo, TryRecvError>, now: u64) -> (r: Action)
        ensures
            r == action_of(old(self)@, poll_of(outcome_view(*outcome)), now),
            final(self)@ == phase_after(old(self)@, poll_of(outcome_view(*outcome)), now),
    {
        let poll = match outcome {
            Ok(MarketInfo::Close) => Poll::Closed,
            Ok(_) => Poll::Event,
            Err(TryRecvError::Empty) => Poll::Empty,
            Err(TryRecvError::Disconnected) => Poll::Disconnected,
        };
        self.step(poll, now)
    }

    /// Takes note of what an attempt gave, at the second `now`, and says
    /// what the consumer does next.
    pub fn step(&mut self, poll: Poll, now: u64) -> (r: Action)
        ensures
            r == action_of(old(self)@, poll, now),
            final(self)@ == phase_after(old(self)@, poll, now),
    {
        let action = match self.phase {
            Phase::CoolingDown => Action::Wait,
            Phase::Connected { last_receive } => match poll {
                Poll::Event => Action::Handle,
                Poll::Closed => Action::Reconnect,
                Poll::Disconnected => Action::Reconnect,
                Poll::Empty => if now >= last_receive && now - last_receive >= STALE_AFTER {
                    Action::Reconnect
                } else {
                    Action::Wait
                },
            },
        };
        match action {
            Action::Reconnect => {
                self.phase = Phase::CoolingDown;
            },
            Action::Handle => {
                self.phase = Phase::Connected { last_receive: now };
            },
            Action::Wait => {},
        }
        action
    }

    /// A new session was made at the second `now`, after the cooldown.
    pub fn reconnected(&mut self, now: u64)
        ensures
            final(self)@ == (Phase::Connected { last_receive: now }),
    {
        self.phase = Phase::Connected { last_receive: now };
    }
}

/// The outcome of an attempt, with the event by its view.
pub open spec fn outcome_view(outcome: Result<MarketInfo, TryRecvError>) -> Result<
    MarketInfoView,
    TryRecvError,
> {
    match outcome {
        Ok(event) => Ok(event@),
        Err(e) => Err(e),
    }
}

/// A session that gave no event for `STALE_AFTER` seconds is given up, and
/// only once: the reconnect leads to cooling down, where no attempt leads to
/// another.
pub proof fn lemma_stale_reconnects_once(last_receive: u64, now: u64, poll: Poll, later: u64)
    requires
        now - last_receive >= STALE_AFTER,
    ensures
        action_of(Phase::Connected { last_receive }, Poll::Empty, now) == Action::Reconnect,
        phase_after(Phase::Connected { last_receive }, Poll::Empty, now) == Phase::CoolingDown,
        action_of(Phase::CoolingDown, poll, later) == Action::Wait,
        phase_after(Phase::CoolingDown, poll, later) == Phase::CoolingDown,
{
}

/// A session that gave an event less than `STALE_AFTER` seconds ago is kept
/// while nothing waits.
pub proof fn lemma_fresh_waits(last_receive: u64, now: u64)
    requires
        now - last_receive < STALE_AFTER,
    ensures
        action_of(Phase::Connected { last_receive }, Poll::Empty, now) == Action::Wait,
        phase_after(Phase::Connected { last_receive }, Poll::Empty, now) == (Phase::Connected {
            last_receive,
        }),
{
}

/// A reader that has ended, and the close event, lead to a reconnect at
/// once, however short the time since the last event.
pub proof fn lemma_disconnect_reconnects(last_receive: u64, now: u64)
    ensures
        action_of(Phase::Connected { last_receive }, Poll::Disconnected, now)
            == Action::Reconnect,
        action_of(Phase::Connected { last_receive }, Poll::Closed, now) == Action::Reconnect,
        phase_after(Phase::Connected { last_receive }, Poll::Disconnected, now)
            == Phase::CoolingDown,
        phase_after(Phase::Connected { last_receive }, Poll::Closed, now) == Phase::CoolingDown,
{
}

} // verus!
