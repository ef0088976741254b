use graph_node::contention::{CheckerEvent, CheckerState};

fn waiting(timeout_millis: u64) -> CheckerState {
    CheckerState::Waiting { timeout_millis }
}

fn timed_out(kill_if_unresponsive: bool) -> CheckerEvent {
    CheckerEvent::TimedOut {
        kill_if_unresponsive,
    }
}

#[test]
fn a_round_rests_pings_and_waits() {
    let mut state = CheckerState::start();
    assert_eq!(state, CheckerState::Resting);
    state = state.step(CheckerEvent::Rested);
    assert_eq!(state, CheckerState::Pinging);
    state = state.step(CheckerEvent::PingSent);
    assert_eq!(state, waiting(10));
    state = state.step(timed_out(true));
    assert_eq!(state, waiting(100));
    state = state.step(CheckerEvent::WaitOver);
    assert_eq!(state, CheckerState::Resting);
}

#[test]
fn waits_grow_to_ten_seconds() {
    for kill in [false, true] {
        let mut state = waiting(10);
        for expected in [100, 1000, 10_000] {
            state = state.step(timed_out(kill));
            assert_eq!(state, waiting(expected));
        }
        state = state.step(timed_out(kill));
        assert_eq!(
            state,
            if kill {
                CheckerState::Killing
            } else {
                waiting(10_000)
            }
        );
    }
}

#[test]
fn refused_pings_end_the_checker() {
    let state = CheckerState::Pinging.step(CheckerEvent::PingRefused);
    assert_eq!(state, CheckerState::ShutDown);
    for event in [
        CheckerEvent::Rested,
        CheckerEvent::PingSent,
        CheckerEvent::PingRefused,
        CheckerEvent::WaitOver,
        timed_out(true),
    ] {
        assert_eq!(state.step(event), state);
        assert_eq!(CheckerState::Killing.step(event), CheckerState::Killing);
    }
}

#[test]
fn events_out_of_turn_change_nothing() {
    assert_eq!(
        CheckerState::Resting.step(timed_out(true)),
        CheckerState::Resting
    );
    assert_eq!(waiting(10).step(CheckerEvent::PingSent), waiting(10));
}
