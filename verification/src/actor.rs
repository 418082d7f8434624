//! Primitives of the actor runtime: the progress flag of the heartbeat
//! watchdog, the kill-switch group, and the outcomes of processing a
//! message or observing an actor.

use vstd::prelude::*;

verus! {

/// Error returned when sending on a mailbox whose receiver is gone.
#[derive(Debug, Clone, Copy, PartialEq, Eq, Structural)]
pub struct SendError;

/// Outcome of `process_message` that is not plain success.
#[derive(Debug, Clone, PartialEq, Eq)]
pub enum MessageProcessError {
    /// The actor asks to terminate gracefully; the kill-switch is left alone.
    OnDemand,
    /// A send to a downstream mailbox failed; the kill-switch must trip.
    DownstreamClosed,
    /// An application error; the kill-switch must trip.
    Error(String),
}

impl From<SendError> for MessageProcessError {
    fn from(e: SendError) -> (r: Self) {
        let _ = e;
        MessageProcessError::DownstreamClosed
    }
}

impl vstd::std_specs::convert::FromSpecImpl<SendError> for MessageProcessError {
    open spec fn obeys_from_spec() -> bool {
        true
    }

    open spec fn from_spec(e: SendError) -> Self {
        MessageProcessError::DownstreamClosed
    }
}

/// Why an actor stopped.
#[derive(Debug, Clone, PartialEq, Eq)]
pub enum ActorTermination {
    /// The actor asked to stop on its own.
    OnDemand,
    /// `process_message` returned an application error.
    ActorError(String),
    /// The shared kill-switch was tripped.
    KillSwitch,
    /// Every mailbox was dropped and the queue ran dry.
    Disconnect,
    /// A downstream mailbox was closed.
    DownstreamClosed,
}

/// The progress bit of one actor: set by the actor while it works,
/// cleared by the watchdog on each heartbeat tick.
#[derive(Debug, Clone, Copy, PartialEq, Eq, Structural)]
pub struct Progress {
    flag: bool,
}

impl Default for Progress {
    /// A fresh progress flag starts unset.
    fn default() -> (r: Progress)
        ensures
            !r.is_set(),
    {
        Progress { flag: false }
    }
}

impl Progress {
    /// Whether the flag is currently set.
    pub closed spec fn is_set(self) -> bool {
        self.flag
    }

    /// The actor calls this at least once per heartbeat while working.
    pub fn record_progress(&mut self)
        ensures
            final(self).is_set(),
    {
        self.flag = true;
    }

    /// Whether the actor has recorded progress since the last reset.
    pub fn has_changed(&self) -> (r: bool)
        ensures
            r == self.is_set(),
    {
        self.flag
    }

    /// The watchdog clears the flag after a live tick.
    pub fn reset(&mut self)
        ensures
            !final(self).is_set(),
    {
        self.flag = false;
    }
}

/// One actor's view of the kill-switch group of its pipeline: the
/// actor's own step id and the lowest step still alive. The floor is
/// shared by every actor of the pipeline and only ever grows.
#[derive(Debug, Clone, Copy, PartialEq, Eq, Structural)]
pub struct KillSwitch {
    step_id: usize,
    lowest_step_alive: usize,
}

impl Default for KillSwitch {
    /// A fresh group: step 0, floor 0, alive.
    fn default() -> (r: KillSwitch)
        ensures
            r.step() == 0,
            r.floor() == 0,
            r.alive(),
    {
        KillSwitch { step_id: 0, lowest_step_alive: 0 }
    }
}

impl KillSwitch {
    /// This actor's step id.
    pub closed spec fn step(self) -> usize {
        self.step_id
    }

    /// The lowest step still alive, as this actor last saw it.
    pub closed spec fn floor(self) -> usize {
        self.lowest_step_alive
    }

    /// An actor is alive while the floor has not climbed past its step.
    pub open spec fn alive(self) -> bool {
        self.floor() <= self.step()
    }

    /// Trips the switch: raises the floor just above this actor's step,
    /// so that every actor at the same or a lower step is dead.
    pub fn kill(&mut self)
        requires
            old(self).step() < usize::MAX,
        ensures
            final(self).step() == old(self).step(),
            final(self).floor() == if old(self).floor() >= old(self).step() + 1 {
                old(self).floor()
            } else {
                (old(self).step() + 1) as usize
            },
            !final(self).alive(),
    {
        if self.lowest_step_alive < self.step_id + 1 {
            self.lowest_step_alive = self.step_id + 1;
        }
    }

    /// Whether this actor is still alive.
    pub fn is_alive(&self) -> (r: bool)
        ensures
            r == self.alive(),
    {
        self.lowest_step_alive <= self.step_id
    }

    /// A view one step higher, sharing the same floor: the parent can
    /// kill the child without killing itself.
    pub fn add_step(&self) -> (r: KillSwitch)
        requires
            self.step() < usize::MAX,
        ensures
            r.step() == self.step() + 1,
            r.floor() == self.floor(),
    {
        KillSwitch { step_id: self.step_id + 1, lowest_step_alive: self.lowest_step_alive }
    }

    /// This actor's step id, for the runtime that shares the floor.
    pub fn step_id(&self) -> (r: usize)
        ensures
            r == self.step(),
    {
        self.step_id
    }

    /// The floor, for the runtime that shares it between actors.
    pub fn floor_value(&self) -> (r: usize)
        ensures
            r == self.floor(),
    {
        self.lowest_step_alive
    }

    /// Refreshes this view from the shared floor. The floor only grows,
    /// so the refresh keeps the larger of the two values.
    pub fn sync_floor(&mut self, shared_floor: usize)
        ensures
            final(self).step() == old(self).step(),
            final(self).floor() == if old(self).floor() >= shared_floor {
                old(self).floor()
            } else {
                shared_floor
            },
    {
        if self.lowest_step_alive < shared_floor {
            self.lowest_step_alive = shared_floor;
        }
    }
}

/// Tripping the switch at step `k` kills every actor of the group whose
/// step is at or below `k`: once the raised floor reaches the other
/// actor's view, that actor is no longer alive.
pub proof fn lemma_kill_reaches_lower_steps(killer: KillSwitch, before: KillSwitch, after: KillSwitch)
    requires
        killer.step() < usize::MAX,
        before.step() <= killer.step(),
        // `after` is `before` once it has seen the floor raised by the kill.
        after.step() == before.step(),
        after.floor() >= killer.step() + 1,
    ensures
        !after.alive(),
{
}

/// Once the floor has passed an actor's step it never comes back: the
/// floor only grows, so a dead actor stays dead.
pub proof fn lemma_death_is_stable(before: KillSwitch, after: KillSwitch)
    requires
        !before.alive(),
        after.step() == before.step(),
        after.floor() >= before.floor(),
    ensures
        !after.alive(),
{
}

/// One heartbeat tick of the watchdog of one actor: if no progress was
/// recorded since the previous tick the actor is considered hung and
/// the whole group is killed; otherwise the flag is cleared for the
/// next interval.
pub fn watchdog_tick(progress: &mut Progress, kill_switch: &mut KillSwitch)
    requires
        old(kill_switch).step() < usize::MAX,
    ensures
        old(progress).is_set() ==> {
            &&& !final(progress).is_set()
            &&& *final(kill_switch) == *old(kill_switch)
        },
        !old(progress).is_set() ==> {
            &&& *final(progress) == *old(progress)
            &&& !final(kill_switch).alive()
            &&& final(kill_switch).step() == old(kill_switch).step()
        },
{
    if !progress.has_changed() {
        kill_switch.kill();
    } else {
        progress.reset();
    }
}

/// Maps a failed `process_message` to the actor's termination and trips
/// the kill-switch exactly when the failure is not an on-demand stop.
pub fn termination_on_process_error(
    error: MessageProcessError,
    kill_switch: &mut KillSwitch,
) -> (termination: ActorTermination)
    requires
        old(kill_switch).step() < usize::MAX,
    ensures
        final(kill_switch).step() == old(kill_switch).step(),
        match error {
            MessageProcessError::OnDemand => {
                &&& termination == ActorTermination::OnDemand
                &&& *final(kill_switch) == *old(kill_switch)
            },
            MessageProcessError::DownstreamClosed => {
                &&& termination == ActorTermination::DownstreamClosed
                &&& !final(kill_switch).alive()
            },
            MessageProcessError::Error(msg) => {
                &&& termination == ActorTermination::ActorError(msg)
                &&& !final(kill_switch).alive()
            },
        },
{
    match error {
        MessageProcessError::OnDemand => ActorTermination::OnDemand,
        MessageProcessError::DownstreamClosed => {
            kill_switch.kill();
            ActorTermination::DownstreamClosed
        },
        MessageProcessError::Error(msg) => {
            kill_switch.kill();
            ActorTermination::ActorError(msg)
        },
    }
}

/// Snapshot of an actor's observable state, as returned by `observe`.
#[derive(Debug, Clone, PartialEq, Eq)]
pub enum Observation<S> {
    /// The actor acknowledged the observation; it had processed every
    /// message sent before the observe request.
    Running(S),
    /// The actor is gone; this is the last published snapshot.
    Terminated(S),
    /// The actor did not answer within one heartbeat but the
    /// kill-switch is still alive; the watchdog will decide.
    Timeout(S),
}

/// What came back on the observation reply channel.
#[derive(Debug, Clone, Copy, PartialEq, Eq, Structural)]
pub enum ObserveReply {
    /// The actor acknowledged in time.
    Acked,
    /// The reply channel was dropped: the actor has exited.
    SenderDropped,
    /// No answer within one heartbeat.
    TimedOut,
}

/// Classifies the outcome of an observation: an unanswered observe
/// aborts the actor only once the kill-switch is already tripped;
/// otherwise it reports a timeout and leaves the watchdog in charge.
pub fn observe_outcome<S>(reply: ObserveReply, alive: bool, state: S) -> (obs: Observation<S>)
    ensures
        match reply {
            ObserveReply::Acked => obs == Observation::Running(state),
            ObserveReply::SenderDropped => obs == Observation::Terminated(state),
            ObserveReply::TimedOut => if alive {
                obs == Observation::Timeout(state)
            } else {
                obs == Observation::Terminated(state)
            },
        },
{
    match reply {
        ObserveReply::Acked => Observation::Running(state),
        ObserveReply::SenderDropped => Observation::Terminated(state),
        ObserveReply::TimedOut => {
            if alive {
                Observation::Timeout(state)
            } else {
                Observation::Terminated(state)
            }
        },
    }
}

} // verus!
