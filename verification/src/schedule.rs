//! The fetch scheduler's state machine and the cancellation gate.
//!
//! The scheduler paces rounds of fetching: a timer tick starts a round only
//! when no round is in flight (ticks that arrive mid-round are skipped, not
//! queued), and a quit signal cancels the machine for good.  The driver that
//! owns the timer, the tasks and the quit signal feeds events in and performs
//! the returned actions; every guarantee about round overlap and cancellation
//! is stated and proved here, over whole event traces.

use vstd::prelude::*;

use crate::errors::RunError;

verus! {

/// `Idle` between rounds, `Fetching` while one round's fan-out is in flight,
/// `Cancelled` once the quit signal has been observed.
#[derive(Clone, Copy, Debug, PartialEq, Eq, Structural)]
pub enum SchedulerState {
    Idle,
    Fetching,
    Cancelled,
}

/// What the scheduler's driver can observe: a timer tick, the completion of
/// the round in flight, or the one-shot quit signal.
#[derive(Clone, Copy, Debug, PartialEq, Eq, Structural)]
pub enum SchedulerEvent {
    Tick,
    RoundComplete,
    Quit,
}

/// What the driver must do after handing an event in: fan out one fetch per
/// source, do nothing, or stop driving the loop.
#[derive(Clone, Copy, Debug, PartialEq, Eq, Structural)]
pub enum SchedulerAction {
    StartRound,
    Ignore,
    Stop,
}

/// The complete transition function: next state and required action.
pub open spec fn spec_step(s: SchedulerState, e: SchedulerEvent) -> (SchedulerState, SchedulerAction) {
    match (s, e) {
        (SchedulerState::Idle, SchedulerEvent::Tick) => (
            SchedulerState::Fetching,
            SchedulerAction::StartRound,
        ),
        (SchedulerState::Idle, SchedulerEvent::RoundComplete) => (
            SchedulerState::Idle,
            SchedulerAction::Ignore,
        ),
        (SchedulerState::Fetching, SchedulerEvent::Tick) => (
            SchedulerState::Fetching,
            SchedulerAction::Ignore,
        ),
        (SchedulerState::Fetching, SchedulerEvent::RoundComplete) => (
            SchedulerState::Idle,
            SchedulerAction::Ignore,
        ),
        (SchedulerState::Cancelled, _) => (SchedulerState::Cancelled, SchedulerAction::Ignore),
        (_, SchedulerEvent::Quit) => (SchedulerState::Cancelled, SchedulerAction::Stop),
    }
}

/// The scheduler itself: nothing beyond the current state.
pub struct Scheduler {
    state: SchedulerState,
}

impl Scheduler {
    /// A fresh scheduler waits for its first tick.
    pub fn new() -> (s: Scheduler)
        ensures
            s@ == SchedulerState::Idle,
    {
        Scheduler { state: SchedulerState::Idle }
    }

    pub closed spec fn view(&self) -> SchedulerState {
        self.state
    }

    pub fn state(&self) -> (s: SchedulerState)
        ensures
            s == self@,
    {
        self.state
    }

    /// Advance by one event; the driver must perform the returned action.
    pub fn on_event(&mut self, e: SchedulerEvent) -> (a: SchedulerAction)
        ensures
            (final(self)@, a) == spec_step(old(self)@, e),
    {
        let (next, action) = match (self.state, e) {
            (SchedulerState::Idle, SchedulerEvent::Tick) => (
                SchedulerState::Fetching,
                SchedulerAction::StartRound,
            ),
            (SchedulerState::Idle, SchedulerEvent::RoundComplete) => (
                SchedulerState::Idle,
                SchedulerAction::Ignore,
            ),
            (SchedulerState::Fetching, SchedulerEvent::Tick) => (
                SchedulerState::Fetching,
                SchedulerAction::Ignore,
            ),
            (SchedulerState::Fetching, SchedulerEvent::RoundComplete) => (
                SchedulerState::Idle,
                SchedulerAction::Ignore,
            ),
            (SchedulerState::Cancelled, _) => (SchedulerState::Cancelled, SchedulerAction::Ignore),
            (_, SchedulerEvent::Quit) => (SchedulerState::Cancelled, SchedulerAction::Stop),
        };
        self.state = next;
        action
    }
}

/// The state after running a whole event trace from `s0`.
pub open spec fn state_after(s0: SchedulerState, evs: Seq<SchedulerEvent>) -> SchedulerState
    decreases evs.len(),
{
    if evs.len() == 0 {
        s0
    } else {
        state_after(spec_step(s0, evs[0]).0, evs.drop_first())
    }
}

/// The state just before event `i` of the trace is handled.
pub open spec fn state_at(s0: SchedulerState, evs: Seq<SchedulerEvent>, i: int) -> SchedulerState {
    state_after(s0, evs.take(i))
}

/// The action the scheduler demands for event `i` of the trace.
pub open spec fn action_at(s0: SchedulerState, evs: Seq<SchedulerEvent>, i: int) -> SchedulerAction {
    spec_step(state_at(s0, evs, i), evs[i]).1
}

/// Prepending one event shifts the whole trace by one.
proof fn lemma_state_at_unfold(s0: SchedulerState, evs: Seq<SchedulerEvent>, i: int)
    requires
        0 < i <= evs.len(),
    ensures
        state_at(s0, evs, i) == state_at(spec_step(s0, evs[0]).0, evs.drop_first(), i - 1),
    decreases i,
{
    assert(evs.take(i).len() == i);
    assert(evs.take(i)[0] == evs[0]);
    assert(evs.take(i).drop_first() =~= evs.drop_first().take(i - 1));
}

/// Stepping once more from the state before event `i` gives the state before
/// event `i + 1`.
proof fn lemma_state_at_succ(s0: SchedulerState, evs: Seq<SchedulerEvent>, i: int)
    requires
        0 <= i < evs.len(),
    ensures
        state_at(s0, evs, i + 1) == spec_step(state_at(s0, evs, i), evs[i]).0,
    decreases i,
{
    if i == 0 {
        reveal_with_fuel(state_after, 2);
        assert(evs.take(0) =~= Seq::<SchedulerEvent>::empty());
        assert(evs.take(1).len() == 1);
        assert(evs.take(1)[0] == evs[0]);
        assert(evs.take(1).drop_first() =~= Seq::<SchedulerEvent>::empty());
        assert(state_after(spec_step(s0, evs[0]).0, Seq::<SchedulerEvent>::empty()) == spec_step(
            s0,
            evs[0],
        ).0);
    } else {
        let s1 = spec_step(s0, evs[0]).0;
        lemma_state_at_unfold(s0, evs, i);
        lemma_state_at_unfold(s0, evs, i + 1);
        lemma_state_at_succ(s1, evs.drop_first(), i - 1);
        assert(evs.drop_first()[i - 1] == evs[i]);
    }
}

/// Cancellation is absorbing: once `Cancelled`, the scheduler stays
/// `Cancelled` and never again demands an action.
pub proof fn lemma_cancelled_absorbs(s0: SchedulerState, evs: Seq<SchedulerEvent>, i: int, j: int)
    requires
        0 <= i <= j <= evs.len(),
        state_at(s0, evs, i) == SchedulerState::Cancelled,
    ensures
        state_at(s0, evs, j) == SchedulerState::Cancelled,
    decreases j - i,
{
    if i < j {
        lemma_state_at_succ(s0, evs, i);
        lemma_cancelled_absorbs(s0, evs, i + 1, j);
    }
}

/// Cancellation correctness: however the trace runs on after a quit event,
/// no further round is ever started.
pub proof fn lemma_no_round_after_quit(
    s0: SchedulerState,
    evs: Seq<SchedulerEvent>,
    i: int,
    j: int,
)
    requires
        0 <= i < j < evs.len(),
        evs[i] == SchedulerEvent::Quit,
    ensures
        action_at(s0, evs, j) != SchedulerAction::StartRound,
{
    lemma_state_at_succ(s0, evs, i);
    lemma_cancelled_absorbs(s0, evs, i + 1, j);
}

/// From `Fetching` the scheduler reaches `Idle` only through a
/// `RoundComplete` event.
proof fn lemma_idle_needs_completion(s0: SchedulerState, evs: Seq<SchedulerEvent>, i: int, j: int)
    requires
        0 <= i <= j <= evs.len(),
        state_at(s0, evs, i) == SchedulerState::Fetching,
        state_at(s0, evs, j) == SchedulerState::Idle,
    ensures
        exists|k: int| i <= k < j && evs[k] == SchedulerEvent::RoundComplete,
    decreases j - i,
{
    if state_at(s0, evs, i + 1) == SchedulerState::Cancelled {
        lemma_cancelled_absorbs(s0, evs, i + 1, j);
    } else {
        lemma_state_at_succ(s0, evs, i);
        if evs[i] == SchedulerEvent::RoundComplete {
        } else {
            lemma_idle_needs_completion(s0, evs, i + 1, j);
        }
    }
}

/// No overlapping rounds: between any two round starts the earlier round has
/// completed, so a delayed round is never running twice concurrently.
pub proof fn lemma_no_overlapping_rounds(
    s0: SchedulerState,
    evs: Seq<SchedulerEvent>,
    i: int,
    j: int,
)
    requires
        0 <= i < j < evs.len(),
        action_at(s0, evs, i) == SchedulerAction::StartRound,
        action_at(s0, evs, j) == SchedulerAction::StartRound,
    ensures
        exists|k: int| i < k < j && evs[k] == SchedulerEvent::RoundComplete,
{
    lemma_state_at_succ(s0, evs, i);
    lemma_idle_needs_completion(s0, evs, i + 1, j);
}

/// Which of the two raced futures finished first: the external quit signal,
/// or the polling loop itself.
#[derive(Clone, Copy, Debug, PartialEq, Eq, Structural)]
pub enum RunEnd {
    QuitRequested,
    LoopExited,
}

/// The cancellation gate's verdict.  A quit signal is the one graceful way
/// out; the loop returning on its own is always fatal.
pub fn gate_outcome(end: RunEnd) -> (r: Result<(), RunError>)
    ensures
        r is Ok <==> end == RunEnd::QuitRequested,
        r is Err ==> r->Err_0 == RunError::FatalSchedulerExit,
{
    match end {
        RunEnd::QuitRequested => Ok(()),
        RunEnd::LoopExited => Err(RunError::FatalSchedulerExit),
    }
}

} // verus!
