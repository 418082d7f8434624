//! State machine of the periodic clock: a ticker that can be paused,
//! resumed and terminated, and that terminates itself when the mailbox
//! it feeds is gone.

use vstd::prelude::*;

verus! {

/// The message the clock sends on every period while it runs.
#[derive(Debug, Clone, Copy)]
pub struct Tick;

/// State of a clock.
#[derive(Debug, Clone, Copy, PartialEq, Eq, Structural)]
pub enum State {
    Idle,
    Running,
    Terminated,
}

/// Command accepted by a clock controller.
#[derive(Debug, Clone, Copy, PartialEq, Eq, Structural)]
pub enum Command {
    Terminate,
    Run,
    Pause,
}

/// What the ticker does on one period, depending on the clock state.
#[derive(Debug, Clone, Copy, PartialEq, Eq, Structural)]
pub enum TickAction {
    /// The clock is running: send one `Tick` to the mailbox.
    SendTick,
    /// The clock is idle: skip this period.
    Skip,
    /// The clock is terminated: stop the ticker task.
    Stop,
}

/// Applies one command to a clock state. `Terminated` absorbs every
/// command; otherwise `Terminate` terminates, `Pause` idles and `Run`
/// runs the clock.
pub fn apply_command(state: State, command: Command) -> (next: State)
    ensures
        next == spec_apply_command(state, command),
{
    match (state, command) {
        (State::Terminated, _) => State::Terminated,
        (_, Command::Terminate) => State::Terminated,
        (_, Command::Pause) => State::Idle,
        (_, Command::Run) => State::Running,
    }
}

/// The transition table of [`apply_command`].
pub open spec fn spec_apply_command(state: State, command: Command) -> State {
    match (state, command) {
        (State::Terminated, _) => State::Terminated,
        (_, Command::Terminate) => State::Terminated,
        (_, Command::Pause) => State::Idle,
        (_, Command::Run) => State::Running,
    }
}

/// What the ticker must do when one period elapses in `state`.
pub fn on_period(state: State) -> (action: TickAction)
    ensures
        state == State::Running ==> action == TickAction::SendTick,
        state == State::Idle ==> action == TickAction::Skip,
        state == State::Terminated ==> action == TickAction::Stop,
{
    match state {
        State::Running => TickAction::SendTick,
        State::Idle => TickAction::Skip,
        State::Terminated => TickAction::Stop,
    }
}

/// The state after the tick send failed because the receiver is gone:
/// the clock terminates itself.
pub fn after_failed_send(state: State) -> (next: State)
    ensures
        next == State::Terminated,
{
    let _ = state;
    State::Terminated
}

/// Once terminated, a clock stays terminated whatever commands follow.
pub proof fn lemma_terminated_absorbs(command: Command)
    ensures
        spec_apply_command(State::Terminated, command) == State::Terminated,
{
}

} // verus!
