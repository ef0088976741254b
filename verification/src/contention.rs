//! Watching whether the thread pool still answers.
//!
//! A thread of its own rests, pings the pool, and waits for the answer with ever longer timeouts.

use vstd::prelude::*;

verus! {

/// How long the checker rests between two pings, in milliseconds.
pub const REST_MILLIS: u64 = 1000;

/// How long the first wait for an answer takes, in milliseconds.
pub const FIRST_TIMEOUT_MILLIS: u64 = 10;

/// From what timeout on the waits get no longer, in milliseconds.
pub const LAST_TIMEOUT_MILLIS: u64 = 10_000;

/// What the checker is doing.
#[derive(Clone, Copy, Debug, PartialEq, Eq, Structural)]
pub enum CheckerState {
    /// Sleeping until the next ping.
    Resting,
    /// Sending a ping.
    Pinging,
    /// Waiting for the answer to a ping, this long at most.
    Waiting { timeout_millis: u64 },
    /// Done, because nobody takes pings any more.
    ShutDown,
    /// Ending the process, because the pool does not answer.
    Killing,
}

/// What the checker sees.
#[derive(Clone, Copy, Debug, PartialEq, Eq, Structural)]
pub enum CheckerEvent {
    /// The sleep is over.
    Rested,
    /// The ping was taken.
    PingSent,
    /// Nobody takes pings any more.
    PingRefused,
    /// The answer came, or it became certain that none will.
    WaitOver,
    /// No answer came in time. Says whether an unresponsive process is to be ended.
    TimedOut { kill_if_unresponsive: bool },
}

impl CheckerState {
    /// A wait takes 10, 100, 1000 or 10000 milliseconds.
    pub open spec fn valid(self) -> bool {
        match self {
            CheckerState::Waiting { timeout_millis } => timeout_millis == 10 || timeout_millis == 100
                || timeout_millis == 1000 || timeout_millis == 10_000,
            _ => true,
        }
    }

    /// What the checker does next. An event that does not answer what it is doing changes nothing.
    pub open spec fn after(self, event: CheckerEvent) -> CheckerState {
        match (self, event) {
            (CheckerState::Resting, CheckerEvent::Rested) => CheckerState::Pinging,
            (CheckerState::Pinging, CheckerEvent::PingSent) => CheckerState::Waiting {
                timeout_millis: FIRST_TIMEOUT_MILLIS,
            },
            (CheckerState::Pinging, CheckerEvent::PingRefused) => CheckerState::ShutDown,
            (CheckerState::Waiting { .. }, CheckerEvent::WaitOver) => CheckerState::Resting,
            (
                CheckerState::Waiting { timeout_millis },
                CheckerEvent::TimedOut { kill_if_unresponsive },
            ) => if timeout_millis < LAST_TIMEOUT_MILLIS {
                CheckerState::Waiting { timeout_millis: (timeout_millis * 10) as u64 }
            } else if kill_if_unresponsive {
                CheckerState::Killing
            } else {
                self
            },
            _ => self,
        }
    }

    /// What the checker does first.
    pub fn start() -> (state: CheckerState)
        ensures
            state == CheckerState::Resting,
            state.valid(),
    {
        CheckerState::Resting
    }

    /// What the checker does next.
    pub fn step(&self, event: CheckerEvent) -> (next: CheckerState)
        ensures
            next == self.after(event),
            self.valid() ==> next.valid(),
            self is Waiting && event == CheckerEvent::WaitOver ==> next == CheckerState::Resting,
            next == CheckerState::ShutDown <==> *self == CheckerState::ShutDown || (*self
                == CheckerState::Pinging && event == CheckerEvent::PingRefused),
    {
        match (*self, event) {
            (CheckerState::Resting, CheckerEvent::Rested) => CheckerState::Pinging,
            (CheckerState::Pinging, CheckerEvent::PingSent) => CheckerState::Waiting {
                timeout_millis: FIRST_TIMEOUT_MILLIS,
            },
            (CheckerState::Pinging, CheckerEvent::PingRefused) => CheckerState::ShutDown,
            (CheckerState::Waiting { .. }, CheckerEvent::WaitOver) => CheckerState::Resting,
            (
                CheckerState::Waiting { timeout_millis },
                CheckerEvent::TimedOut { kill_if_unresponsive },
            ) => {
                if timeout_millis < LAST_TIMEOUT_MILLIS {
                    CheckerState::Waiting { timeout_millis: timeout_millis * 10 }
                } else if kill_if_unresponsive {
                    CheckerState::Killing
                } else {
                    *self
                }
            },
            _ => *self,
        }
    }
}

/// What the checker does once a ping was sent and `n` waits in a row ran out.
pub open spec fn after_timeouts(n: nat, kill_if_unresponsive: bool) -> CheckerState
    decreases n,
{
    if n == 0 {
        CheckerState::Pinging.after(CheckerEvent::PingSent)
    } else {
        after_timeouts((n - 1) as nat, kill_if_unresponsive).after(
            CheckerEvent::TimedOut { kill_if_unresponsive },
        )
    }
}

/// What the checker does after a sequence of events.
pub open spec fn after_events(state: CheckerState, events: Seq<CheckerEvent>) -> CheckerState
    decreases events.len(),
{
    if events.len() == 0 {
        state
    } else {
        after_events(state, events.drop_last()).after(events.last())
    }
}

/// Each wait is ten times as long as the one before, up to ten seconds; the fourth that runs out
/// ends the process if it is to be ended, and otherwise the waits of ten seconds go on.
pub proof fn waits_escalate(n: nat, kill_if_unresponsive: bool)
    ensures
        after_timeouts(0, kill_if_unresponsive) == (CheckerState::Waiting { timeout_millis: 10 }),
        after_timeouts(1, kill_if_unresponsive) == (CheckerState::Waiting { timeout_millis: 100 }),
        after_timeouts(2, kill_if_unresponsive) == (CheckerState::Waiting { timeout_millis: 1000 }),
        after_timeouts(3, kill_if_unresponsive) == (CheckerState::Waiting {
            timeout_millis: 10_000,
        }),
        n >= 4 ==> after_timeouts(n, kill_if_unresponsive) == (if kill_if_unresponsive {
            CheckerState::Killing
        } else {
            CheckerState::Waiting { timeout_millis: 10_000 }
        }),
    decreases n,
{
    reveal_with_fuel(after_timeouts, 5);
    if n > 4 {
        waits_escalate((n - 1) as nat, kill_if_unresponsive);
    }
}

/// The process is ended only after a wait of ten seconds has run out, and only if it is to be
/// ended when it is unresponsive.
pub proof fn only_unresponsive_processes_are_killed(state: CheckerState, event: CheckerEvent)
    requires
        state.valid(),
        state != CheckerState::Killing,
        state.after(event) == CheckerState::Killing,
    ensures
        state == (CheckerState::Waiting { timeout_millis: 10_000 }),
        event == (CheckerEvent::TimedOut { kill_if_unresponsive: true }),
{
}

/// However events come, every state that is reached is valid, and a checker that has shut down or
/// ends the process does nothing else.
pub proof fn reachable_states_are_valid(state: CheckerState, events: Seq<CheckerEvent>)
    requires
        state.valid(),
    ensures
        after_events(state, events).valid(),
        state == CheckerState::ShutDown ==> after_events(state, events) == state,
        state == CheckerState::Killing ==> after_events(state, events) == state,
    decreases events.len(),
{
    if events.len() > 0 {
        reachable_states_are_valid(state, events.drop_last());
    }
}

} // verus!
