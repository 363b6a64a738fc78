use russ::errors::RunError;
use russ::schedule::{
    gate_outcome, RunEnd, Scheduler, SchedulerAction, SchedulerEvent, SchedulerState,
};

#[test]
fn a_tick_when_idle_starts_a_round() {
    let mut s = Scheduler::new();
    assert_eq!(SchedulerState::Idle, s.state());
    assert_eq!(SchedulerAction::StartRound, s.on_event(SchedulerEvent::Tick));
    assert_eq!(SchedulerState::Fetching, s.state());
}

#[test]
fn a_tick_mid_round_is_skipped_not_queued() {
    let mut s = Scheduler::new();
    s.on_event(SchedulerEvent::Tick);
    // The round overruns the interval: further ticks arrive while still
    // fetching and must not start a second concurrent round.
    assert_eq!(SchedulerAction::Ignore, s.on_event(SchedulerEvent::Tick));
    assert_eq!(SchedulerAction::Ignore, s.on_event(SchedulerEvent::Tick));
    assert_eq!(SchedulerState::Fetching, s.state());
    // Only after the round completes does the next tick start one more.
    assert_eq!(SchedulerAction::Ignore, s.on_event(SchedulerEvent::RoundComplete));
    assert_eq!(SchedulerState::Idle, s.state());
    assert_eq!(SchedulerAction::StartRound, s.on_event(SchedulerEvent::Tick));
}

#[test]
fn quit_between_rounds_cancels_for_good() {
    let mut s = Scheduler::new();
    s.on_event(SchedulerEvent::Tick);
    s.on_event(SchedulerEvent::RoundComplete);
    assert_eq!(SchedulerAction::Stop, s.on_event(SchedulerEvent::Quit));
    assert_eq!(SchedulerState::Cancelled, s.state());
    // No further round begins after the signal is observed.
    assert_eq!(SchedulerAction::Ignore, s.on_event(SchedulerEvent::Tick));
    assert_eq!(SchedulerAction::Ignore, s.on_event(SchedulerEvent::RoundComplete));
    assert_eq!(SchedulerState::Cancelled, s.state());
}

#[test]
fn a_second_quit_is_a_no_op() {
    let mut s = Scheduler::new();
    assert_eq!(SchedulerAction::Stop, s.on_event(SchedulerEvent::Quit));
    assert_eq!(SchedulerAction::Ignore, s.on_event(SchedulerEvent::Quit));
    assert_eq!(SchedulerState::Cancelled, s.state());
}

#[test]
fn quit_mid_round_cancels_softly() {
    let mut s = Scheduler::new();
    s.on_event(SchedulerEvent::Tick);
    assert_eq!(SchedulerAction::Stop, s.on_event(SchedulerEvent::Quit));
    assert_eq!(SchedulerState::Cancelled, s.state());
}

#[test]
fn the_gate_reports_a_quit_as_graceful_success() {
    assert!(gate_outcome(RunEnd::QuitRequested).is_ok());
}

#[test]
fn the_gate_reports_a_loop_exit_as_fatal() {
    match gate_outcome(RunEnd::LoopExited) {
        Err(e) => {
            assert_eq!(RunError::FatalSchedulerExit, e);
            assert_eq!("fetch loop exited unexpectedly", e.message());
        }
        Ok(()) => panic!("a loop exit must not be graceful"),
    }
}
