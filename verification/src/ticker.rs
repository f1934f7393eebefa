//! The timing state machine behind one interval's background driver. The
//! host thread owns the clock, the sleeping, and the cancellation channel;
//! every decision — stop, fire, or wait, and for how long — is taken here.

use vstd::prelude::*;

verus! {

/// The lifecycle of a ticker: armed on creation, running once it has
/// fired, stopped for good once the cancellation signal is observed.
pub enum TickerState {
    /// Freshly created: the first turn fires immediately.
    Armed,
    /// Fired at least once; the next firing is due at `next_due_ms`.
    Running { next_due_ms: u64 },
    /// The cancellation signal was observed; no turn ever fires again.
    Stopped,
}

/// What one scheduling turn decided.
pub enum TickerTurn {
    /// The cancellation signal was observed: exit the loop.
    Stop,
    /// The bound checks are due: run them, then sleep `sleep_ms`.
    Fire { sleep_ms: u64 },
    /// Nothing is due yet: sleep `sleep_ms`, then take the next turn.
    Wait { sleep_ms: u64 },
}

/// Drives one interval's cadence. After a turn fires — however late it ran
/// — the next firing is due a full interval after the actual firing time,
/// so a briefly starved host never causes a burst of catch-up executions.
pub struct Ticker {
    interval_ms: u64,
    state: TickerState,
}

impl Ticker {
    /// The interval the ticker was armed with, in milliseconds.
    pub closed spec fn interval(self) -> u64 {
        self.interval_ms
    }

    /// Where the ticker stands in its lifecycle.
    pub closed spec fn state(self) -> TickerState {
        self.state
    }

    /// A live ticker still takes turns; a stopped one never does again.
    pub open spec fn is_live(self) -> bool {
        !(self.state() is Stopped)
    }

    /// The time from which the next firing is due: a freshly armed ticker
    /// is due at once, a running one at the time its last firing set.
    pub open spec fn due_from(self) -> u64 {
        match self.state() {
            TickerState::Armed => 0,
            TickerState::Running { next_due_ms } => next_due_ms,
            TickerState::Stopped => 0,
        }
    }

    /// Whether a turn at time `now_ms` fires the bound checks.
    pub open spec fn due_at(self, now_ms: u64) -> bool {
        self.is_live() && now_ms >= self.due_from()
    }

    /// Arms a ticker for the given interval; the first turn fires at once.
    pub fn new(interval_ms: u64) -> (t: Ticker)
        requires
            interval_ms > 0,
        ensures
            t.interval() == interval_ms,
            t.state() is Armed,
            t.due_from() == 0,
            forall|now_ms: u64| t.due_at(now_ms),
    {
        Ticker { interval_ms, state: TickerState::Armed }
    }

    /// One scheduling turn at time `now_ms`. The cancellation signal wins
    /// over everything else; otherwise a due turn fires and pushes the next
    /// due time a full interval past `now_ms`, and an early turn only says
    /// how long to wait. A fired turn guarantees the self-correcting
    /// cadence: nothing is due again before `now_ms + interval`.
    pub fn poll(&mut self, now_ms: u64, cancel_signalled: bool) -> (turn: TickerTurn)
        requires
            old(self).is_live(),
            now_ms + old(self).interval() <= u64::MAX,
        ensures
            final(self).interval() == old(self).interval(),
            cancel_signalled ==> turn == TickerTurn::Stop && final(self).state() is Stopped,
            !cancel_signalled ==> final(self).is_live(),
            !cancel_signalled && old(self).due_at(now_ms) ==> turn == (TickerTurn::Fire {
                sleep_ms: old(self).interval(),
            }),
            !cancel_signalled && old(self).due_at(now_ms) ==> final(self).state() == (
            TickerState::Running { next_due_ms: (now_ms + old(self).interval()) as u64 }),
            !cancel_signalled && old(self).due_at(now_ms) ==> final(self).due_from() == now_ms
                + old(self).interval(),
            !cancel_signalled && old(self).due_at(now_ms) ==> forall|t_ms: u64|
                final(self).due_at(t_ms) == (t_ms >= now_ms + old(self).interval()),
            !cancel_signalled && !old(self).due_at(now_ms) ==> *final(self) == *old(self),
            !cancel_signalled && !old(self).due_at(now_ms) ==> (turn matches TickerTurn::Wait {
                sleep_ms,
            } && sleep_ms > 0 && now_ms + sleep_ms == old(self).due_from() && forall|t_ms: u64|
                old(self).due_at(t_ms) == (t_ms >= now_ms + sleep_ms)),
    {
        if cancel_signalled {
            self.state = TickerState::Stopped;
            return TickerTurn::Stop;
        }
        match self.state {
            TickerState::Armed => {
                self.state = TickerState::Running { next_due_ms: now_ms + self.interval_ms };
                TickerTurn::Fire { sleep_ms: self.interval_ms }
            },
            TickerState::Running { next_due_ms } => {
                if now_ms >= next_due_ms {
                    self.state = TickerState::Running {
                        next_due_ms: now_ms + self.interval_ms,
                    };
                    TickerTurn::Fire { sleep_ms: self.interval_ms }
                } else {
                    TickerTurn::Wait { sleep_ms: next_due_ms - now_ms }
                }
            },
            TickerState::Stopped => {
                proof {
                    assert(false);
                }
                TickerTurn::Stop
            },
        }
    }
}

} // verus!
