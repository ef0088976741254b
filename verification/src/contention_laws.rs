//! How the checker of the thread pool goes round, whatever timeout it has come to.

use crate::contention::{CheckerEvent, CheckerState, REST_MILLIS};
use crate::contention;
use vstd::prelude::*;

verus! {

/// The checker rests for a second, then pings, then waits ten milliseconds for the answer.
pub proof fn every_round_starts_alike()
    ensures
        REST_MILLIS == 1000,
        CheckerState::Resting.after(CheckerEvent::Rested) == CheckerState::Pinging,
        CheckerState::Pinging.after(CheckerEvent::PingSent) == (CheckerState::Waiting {
            timeout_millis: 10,
        }),
{
}

/// An answer ends the wait, however long it was, and the next round begins with a rest.
pub proof fn answers_begin_a_new_round(timeout_millis: u64)
    ensures
        (CheckerState::Waiting { timeout_millis }).after(CheckerEvent::WaitOver)
            == CheckerState::Resting,
{
}

/// Only an answer brings the checker to rest.
pub proof fn only_answers_lead_to_rest(state: CheckerState, event: CheckerEvent)
    requires
        state != CheckerState::Resting,
        state.after(event) == CheckerState::Resting,
    ensures
        state is Waiting,
        event == CheckerEvent::WaitOver,
{
}

/// The checker shuts down if and only if a ping is refused.
pub proof fn only_refused_pings_shut_down(state: CheckerState, event: CheckerEvent)
    requires
        state != CheckerState::ShutDown,
    ensures
        state.after(event) == CheckerState::ShutDown <==> state == CheckerState::Pinging && event
            == CheckerEvent::PingRefused,
{
}

/// A wait that runs out is followed by one ten times as long, until it was of ten seconds or more.
/// Then the process is ended, or the same wait goes on where it is not to be ended.
pub proof fn waits_that_run_out_grow(timeout_millis: u64, kill_if_unresponsive: bool)
    ensures
        timeout_millis < 10_000 ==> (CheckerState::Waiting { timeout_millis }).after(
            CheckerEvent::TimedOut { kill_if_unresponsive },
        ) == (CheckerState::Waiting { timeout_millis: (10 * timeout_millis) as u64 }),
        timeout_millis >= 10_000 ==> (CheckerState::Waiting { timeout_millis }).after(
            CheckerEvent::TimedOut { kill_if_unresponsive: true },
        ) == CheckerState::Killing,
        timeout_millis >= 10_000 ==> (CheckerState::Waiting { timeout_millis }).after(
            CheckerEvent::TimedOut { kill_if_unresponsive: false },
        ) == (CheckerState::Waiting { timeout_millis }),
{
}

/// The process is ended only by a wait of ten seconds or more that runs out while it is to be
/// ended, from whatever state.
pub proof fn only_long_waits_kill(state: CheckerState, event: CheckerEvent)
    requires
        state != CheckerState::Killing,
        state.after(event) == CheckerState::Killing,
    ensures
        state matches CheckerState::Waiting { timeout_millis } && timeout_millis >= 10_000,
        event == (CheckerEvent::TimedOut { kill_if_unresponsive: true }),
{
}

/// An event that does not answer what the checker is doing changes nothing.
pub proof fn other_events_change_nothing(state: CheckerState, event: CheckerEvent)
    requires
        state == CheckerState::Resting ==> event != CheckerEvent::Rested,
        state == CheckerState::Pinging ==> event != CheckerEvent::PingSent && event
            != CheckerEvent::PingRefused,
        state is Waiting ==> event != CheckerEvent::WaitOver && !(event is TimedOut),
    ensures
        state.after(event) == state,
{
}

/// A sequence of events is gone through one by one.
pub proof fn events_are_taken_in_turn(
    state: CheckerState,
    events: Seq<CheckerEvent>,
    event: CheckerEvent,
)
    ensures
        contention::after_events(state, Seq::empty()) == state,
        contention::after_events(state, events.push(event)) == contention::after_events(
            state,
            events,
        ).after(event),
{
    assert(events.push(event).drop_last() =~= events);
}

/// As long as pings are taken and answered in time, the checker goes on: after each round it is
/// where it was before.
pub proof fn answered_pings_go_round(state: CheckerState, timeouts: nat)
    requires
        state == CheckerState::Resting,
        timeouts <= 3,
    ensures
        state.after(CheckerEvent::Rested).after(CheckerEvent::PingSent)
            == contention::after_timeouts(0, false),
        contention::after_timeouts(timeouts, false).after(CheckerEvent::WaitOver) == state,
        contention::after_timeouts(timeouts, true).after(CheckerEvent::WaitOver) == state,
{
    contention::waits_escalate(timeouts, false);
    contention::waits_escalate(timeouts, true);
}

} // verus!
