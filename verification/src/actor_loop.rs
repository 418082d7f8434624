//! The message loop shared by sync and async actors, as a verified
//! interpreter over the events a mailbox hands out: payloads, observe
//! markers, receive timeouts, and finally disconnection. A runtime
//! only has to pump events out of the real channel and into this
//! loop; every decision — when to terminate, with which cause, when
//! to trip the kill-switch, what an observation shows — is made and
//! proved here.

use vstd::prelude::*;
use crate::actor::{ActorTermination, KillSwitch, MessageProcessError};

verus! {

/// An actor: a state machine fed one message at a time. The actor
/// carries a mathematical model of its state, and `process_message`
/// must follow the model's `step`; that is what lets the loop promise
/// what observations show.
pub trait Actor: Sized {
    /// The messages the actor receives.
    type Message;

    /// The snapshot of its state an observer sees.
    type ObservableState;

    /// The mathematical state the contracts speak of.
    type Model;

    /// The model of the actor's current state.
    spec fn model(self) -> Self::Model;

    /// The snapshot published in a given model state.
    spec fn obs_of(model: Self::Model) -> Self::ObservableState;

    /// The model state after one message is processed successfully.
    spec fn step(model: Self::Model, message: Self::Message) -> Self::Model;

    /// Whether processing this message fails in this state, and how.
    spec fn step_fails(model: Self::Model, message: Self::Message) -> Option<MessageProcessError>;

    /// The model state after the hand-over on disconnect succeeds.
    spec fn finalize_model(model: Self::Model) -> Self::Model;

    /// Whether the hand-over fails in this state, and with what
    /// message.
    spec fn finalize_fails(model: Self::Model) -> Option<String>;

    /// A name identifying the kind of actor; it need not be unique.
    fn name(&self) -> String;

    /// Publishes the snapshot of the current state.
    fn observable_state(&self) -> (r: Self::ObservableState)
        ensures
            r == Self::obs_of(self.model()),
    ;

    /// Processes one message: on success the state advances by
    /// `step`; on failure the loop terminates the actor.
    fn process_message(&mut self, message: Self::Message) -> (r: Result<(), MessageProcessError>)
        ensures
            match Self::step_fails(old(self).model(), message) {
                Option::None => r is Ok && final(self).model() == Self::step(
                    old(self).model(),
                    message,
                ),
                Option::Some(e) => r == Err::<(), MessageProcessError>(e),
            },
    ;

    /// Called exactly once, when every mailbox was dropped and the
    /// queue has run dry: the actor commits what it holds and hands
    /// it downstream. A failure here terminates the actor as an
    /// error of its own, without tripping the kill-switch.
    fn finalize(&mut self) -> (r: Result<(), String>)
        ensures
            match Self::finalize_fails(old(self).model()) {
                Option::None => r is Ok && final(self).model() == Self::finalize_model(
                    old(self).model(),
                ),
                Option::Some(message) => r == Err::<(), String>(message),
            },
    ;
}

/// One thing the mailbox hands the loop: a payload, an observe
/// marker, or a receive timeout (after which the loop re-checks the
/// kill-switch and waits again). The mailbox disconnecting is the end
/// of the event stream.
pub enum InboxEvent<M> {
    /// A user message.
    Payload(M),
    /// An observe marker: publish the current state.
    Observe,
    /// The timed receive ran out; nothing arrived.
    Timeout,
}

/// The termination a failed `process_message` maps to.
pub open spec fn failure_termination(e: MessageProcessError) -> ActorTermination {
    match e {
        MessageProcessError::OnDemand => ActorTermination::OnDemand,
        MessageProcessError::DownstreamClosed => ActorTermination::DownstreamClosed,
        MessageProcessError::Error(msg) => ActorTermination::ActorError(msg),
    }
}

/// The snapshots the loop publishes while it runs `events`, in
/// order: one per observe marker reached before any failure.
pub open spec fn run_observations<A: Actor>(a: A::Model, events: Seq<InboxEvent<A::Message>>) -> Seq<
    A::ObservableState,
>
    decreases events.len(),
{
    if events.len() == 0 {
        Seq::empty()
    } else {
        match events[0] {
            InboxEvent::Payload(m) => if A::step_fails(a, m) is None {
                run_observations::<A>(A::step(a, m), events.drop_first())
            } else {
                Seq::empty()
            },
            InboxEvent::Observe => seq![A::obs_of(a)] + run_observations::<A>(
                a,
                events.drop_first(),
            ),
            InboxEvent::Timeout => run_observations::<A>(a, events.drop_first()),
        }
    }
}

/// Why the loop stops on `events`: the first failure decides; a
/// drained mailbox finalizes the actor and ends in `Disconnect`, or
/// in `ActorError` when the hand-over itself fails.
pub open spec fn run_termination<A: Actor>(a: A::Model, events: Seq<InboxEvent<A::Message>>) -> ActorTermination
    decreases events.len(),
{
    if events.len() == 0 {
        match A::finalize_fails(a) {
            Option::None => ActorTermination::Disconnect,
            Option::Some(message) => ActorTermination::ActorError(message),
        }
    } else {
        match events[0] {
            InboxEvent::Payload(m) => match A::step_fails(a, m) {
                Option::None => run_termination::<A>(A::step(a, m), events.drop_first()),
                Option::Some(e) => failure_termination(e),
            },
            InboxEvent::Observe => run_termination::<A>(a, events.drop_first()),
            InboxEvent::Timeout => run_termination::<A>(a, events.drop_first()),
        }
    }
}

/// The actor's state after the whole event stream, the hand-over on
/// disconnect included.
pub open spec fn run_final_state<A: Actor>(a: A::Model, events: Seq<InboxEvent<A::Message>>) -> A::Model
    decreases events.len(),
{
    if events.len() == 0 {
        if A::finalize_fails(a) is None {
            A::finalize_model(a)
        } else {
            a
        }
    } else {
        match events[0] {
            InboxEvent::Payload(m) => if A::step_fails(a, m) is None {
                run_final_state::<A>(A::step(a, m), events.drop_first())
            } else {
                a
            },
            InboxEvent::Observe => run_final_state::<A>(a, events.drop_first()),
            InboxEvent::Timeout => run_final_state::<A>(a, events.drop_first()),
        }
    }
}

/// Whether running `events` trips the kill-switch: exactly when a
/// message fails with an application error or a closed downstream.
/// An on-demand stop and a failed hand-over on disconnect terminate
/// this actor alone.
pub open spec fn run_trips_kill<A: Actor>(a: A::Model, events: Seq<InboxEvent<A::Message>>) -> bool
    decreases events.len(),
{
    if events.len() == 0 {
        false
    } else {
        match events[0] {
            InboxEvent::Payload(m) => match A::step_fails(a, m) {
                Option::None => run_trips_kill::<A>(A::step(a, m), events.drop_first()),
                Option::Some(e) => !(e is OnDemand),
            },
            InboxEvent::Observe => run_trips_kill::<A>(a, events.drop_first()),
            InboxEvent::Timeout => run_trips_kill::<A>(a, events.drop_first()),
        }
    }
}

/// Runs one actor's whole message loop over the events of its
/// mailbox. With the kill-switch already tripped the actor stops at
/// once, untouched, as `KillSwitch`. Otherwise the loop processes the
/// events in order and stops at the first failure: an on-demand stop
/// leaves the kill-switch alone, any other failure trips it, so that
/// the rest of the pipeline dies with this actor. A loop that drains
/// its events finalizes the actor — the hand-over of spec fame — and
/// terminates as `Disconnect`, or as `ActorError` with the
/// hand-over's message, in either case without touching the
/// kill-switch.
pub fn run_sync_actor<A: Actor>(
    actor: &mut A,
    kill_switch: &mut KillSwitch,
    inbox: Vec<InboxEvent<A::Message>>,
) -> (r: (Vec<A::ObservableState>, ActorTermination))
    requires
        old(kill_switch).step() < usize::MAX,
    ensures
        !old(kill_switch).alive() ==> {
            &&& r.1 == ActorTermination::KillSwitch
            &&& *final(actor) == *old(actor)
            &&& r.0@ == Seq::<A::ObservableState>::empty()
            &&& *final(kill_switch) == *old(kill_switch)
        },
        old(kill_switch).alive() ==> {
            &&& r.1 == run_termination::<A>(old(actor).model(), inbox@)
            &&& r.0@ == run_observations::<A>(old(actor).model(), inbox@)
            &&& (r.1 == ActorTermination::Disconnect ==> final(actor).model() == run_final_state::<
                A,
            >(old(actor).model(), inbox@))
            &&& (run_trips_kill::<A>(old(actor).model(), inbox@) ==> !final(kill_switch).alive())
            &&& (!run_trips_kill::<A>(old(actor).model(), inbox@) ==> *final(kill_switch) == *old(
                kill_switch,
            ))
            &&& final(kill_switch).step() == old(kill_switch).step()
        },
{
    let mut observations: Vec<A::ObservableState> = Vec::new();
    if !kill_switch.is_alive() {
        proof {
            assert(observations@ =~= Seq::<A::ObservableState>::empty());
        }
        return (observations, ActorTermination::KillSwitch);
    }
    let mut events = inbox;
    while events.len() > 0
        invariant
            old(kill_switch).alive(),
            old(kill_switch).step() < usize::MAX,
            *kill_switch == *old(kill_switch),
            run_termination::<A>(old(actor).model(), inbox@) == run_termination::<A>(
                actor.model(),
                events@,
            ),
            run_observations::<A>(old(actor).model(), inbox@) == observations@
                + run_observations::<A>(actor.model(), events@),
            run_final_state::<A>(old(actor).model(), inbox@) == run_final_state::<A>(
                actor.model(),
                events@,
            ),
            run_trips_kill::<A>(old(actor).model(), inbox@) == run_trips_kill::<A>(
                actor.model(),
                events@,
            ),
        decreases events@.len(),
    {
        let ghost pre_events = events@;
        let ghost pre_actor = actor.model();
        let ghost pre_obs = observations@;
        let event = events.remove(0);
        proof {
            assert(events@ =~= pre_events.drop_first());
        }
        match event {
            InboxEvent::Payload(m) => {
                proof {
                    assert(pre_events[0] == InboxEvent::Payload(m));
                }
                let outcome = actor.process_message(m);
                match outcome {
                    Ok(()) => {
                        proof {
                            assert(A::step_fails(pre_actor, m) is None);
                            assert(actor.model() == A::step(pre_actor, m));
                            assert(run_observations::<A>(pre_actor, pre_events)
                                == run_observations::<A>(actor.model(), events@));
                            assert(run_termination::<A>(pre_actor, pre_events)
                                == run_termination::<A>(actor.model(), events@));
                            assert(run_final_state::<A>(pre_actor, pre_events)
                                == run_final_state::<A>(actor.model(), events@));
                            assert(run_trips_kill::<A>(pre_actor, pre_events)
                                == run_trips_kill::<A>(actor.model(), events@));
                        }
                    },
                    Err(e) => {
                        proof {
                            assert(A::step_fails(pre_actor, m) == Some(e));
                            assert(run_termination::<A>(pre_actor, pre_events)
                                == failure_termination(e));
                            assert(run_trips_kill::<A>(pre_actor, pre_events) == !(e
                                is OnDemand));
                            assert(run_observations::<A>(pre_actor, pre_events)
                                =~= Seq::<A::ObservableState>::empty());
                            assert(observations@ =~= pre_obs
                                + Seq::<A::ObservableState>::empty());
                        }
                        let termination = crate::actor::termination_on_process_error(
                            e,
                            kill_switch,
                        );
                        return (observations, termination);
                    },
                }
            },
            InboxEvent::Observe => {
                let state = actor.observable_state();
                observations.push(state);
                proof {
                    assert(pre_obs.push(A::obs_of(pre_actor)) + run_observations::<A>(
                        actor.model(),
                        events@,
                    ) =~= pre_obs + (seq![A::obs_of(pre_actor)] + run_observations::<A>(
                        actor.model(),
                        events@,
                    )));
                }
            },
            InboxEvent::Timeout => {},
        }
    }
    proof {
        assert(run_observations::<A>(actor.model(), events@)
            =~= Seq::<A::ObservableState>::empty());
        assert(observations@ + Seq::<A::ObservableState>::empty() =~= observations@);
    }
    let ghost drained_model = actor.model();
    let handover = actor.finalize();
    match handover {
        Ok(()) => {
            proof {
                assert(A::finalize_fails(drained_model) is None);
                assert(run_termination::<A>(drained_model, events@)
                    == ActorTermination::Disconnect);
                assert(run_final_state::<A>(drained_model, events@) == A::finalize_model(
                    drained_model,
                ));
            }
            (observations, ActorTermination::Disconnect)
        },
        Err(message) => {
            proof {
                assert(A::finalize_fails(drained_model) == Some(message));
                assert(run_termination::<A>(drained_model, events@)
                    == ActorTermination::ActorError(message));
            }
            (observations, ActorTermination::ActorError(message))
        },
    }
}

/// The actor's state after the payloads of `events`, markers and
/// timeouts skipped.
pub open spec fn apply_payloads<A: Actor>(a: A::Model, events: Seq<InboxEvent<A::Message>>) -> A::Model
    decreases events.len(),
{
    if events.len() == 0 {
        a
    } else {
        match events[0] {
            InboxEvent::Payload(m) => apply_payloads::<A>(A::step(a, m), events.drop_first()),
            InboxEvent::Observe => apply_payloads::<A>(a, events.drop_first()),
            InboxEvent::Timeout => apply_payloads::<A>(a, events.drop_first()),
        }
    }
}

/// Whether every payload of `events` processes without failure.
pub open spec fn prefix_succeeds<A: Actor>(a: A::Model, events: Seq<InboxEvent<A::Message>>) -> bool
    decreases events.len(),
{
    if events.len() == 0 {
        true
    } else {
        match events[0] {
            InboxEvent::Payload(m) => A::step_fails(a, m) is None && prefix_succeeds::<A>(
                A::step(a, m),
                events.drop_first(),
            ),
            InboxEvent::Observe => prefix_succeeds::<A>(a, events.drop_first()),
            InboxEvent::Timeout => prefix_succeeds::<A>(a, events.drop_first()),
        }
    }
}

/// How many observe markers sit in `events`.
pub open spec fn observe_count<M>(events: Seq<InboxEvent<M>>) -> int
    decreases events.len(),
{
    if events.len() == 0 {
        0
    } else {
        (if events[0] is Observe {
            1int
        } else {
            0int
        }) + observe_count(events.drop_first())
    }
}

/// The observation barrier. The observe marker travels through the
/// same queue as the messages, so by the time it is answered, every
/// message that entered the mailbox before it has been processed:
/// the snapshot published for the marker at position `i` is exactly
/// the actor's state after every payload before position `i` — no
/// earlier message is missing from it.
pub proof fn lemma_observation_barrier<A: Actor>(
    a: A::Model,
    events: Seq<InboxEvent<A::Message>>,
    i: int,
)
    requires
        0 <= i < events.len(),
        events[i] is Observe,
        prefix_succeeds::<A>(a, events.take(i)),
    ensures
        run_observations::<A>(a, events).len() > observe_count(events.take(i)),
        run_observations::<A>(a, events)[observe_count(events.take(i))] == A::obs_of(
            apply_payloads::<A>(a, events.take(i)),
        ),
        observe_count(events.take(i)) >= 0,
    decreases i,
{
    lemma_observe_count_nonneg(events.take(i));
    if i == 0 {
        assert(events.take(0) =~= Seq::<InboxEvent<A::Message>>::empty());
        assert(run_observations::<A>(a, events) == seq![A::obs_of(a)] + run_observations::<A>(
            a,
            events.drop_first(),
        ));
        assert(run_observations::<A>(a, events)[0] == A::obs_of(a));
    } else {
        let d = events.drop_first();
        assert(events.take(i)[0] == events[0]);
        assert(events.take(i).drop_first() =~= d.take(i - 1));
        assert(d[i - 1] == events[i]);
        match events[0] {
            InboxEvent::Payload(m) => {
                lemma_observation_barrier::<A>(A::step(a, m), d, i - 1);
            },
            InboxEvent::Observe => {
                lemma_observation_barrier::<A>(a, d, i - 1);
                lemma_observe_count_nonneg(d.take(i - 1));
                let c = observe_count(d.take(i - 1));
                assert(run_observations::<A>(a, events) == seq![A::obs_of(a)]
                    + run_observations::<A>(a, d));
                assert((seq![A::obs_of(a)] + run_observations::<A>(a, d))[1 + c]
                    == run_observations::<A>(a, d)[c]);
            },
            InboxEvent::Timeout => {
                lemma_observation_barrier::<A>(a, d, i - 1);
            },
        }
    }
}

proof fn lemma_observe_count_nonneg<M>(events: Seq<InboxEvent<M>>)
    ensures
        observe_count(events) >= 0,
    decreases events.len(),
{
    if events.len() > 0 {
        lemma_observe_count_nonneg(events.drop_first());
    }
}

} // verus!
