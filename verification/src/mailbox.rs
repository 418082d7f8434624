//! Mailboxes: the addressable bounded queues in front of actors. A
//! mailbox carries user payloads and observe markers through one FIFO
//! channel, is cheap to clone, and has an identity of its own — a
//! fresh random id at construction — that equality goes by, not the
//! queue it feeds.

use vstd::prelude::*;
use crate::actor::SendError;

verus! {

#[verifier::external_type_specification]
#[verifier::external_body]
#[verifier::reject_recursive_types(T)]
pub struct ExFlumeSender<T>(flume::Sender<T>);

#[verifier::external_type_specification]
#[verifier::external_body]
#[verifier::reject_recursive_types(T)]
pub struct ExFlumeReceiver<T>(flume::Receiver<T>);

/// What travels through a mailbox: a user payload, or an observe
/// marker carrying the channel on which the actor acknowledges it.
pub enum ActorMessage<M> {
    /// An ordinary message for the actor.
    Message(M),
    /// An observation request: the actor publishes its state and
    /// acknowledges on the carried channel.
    Observe(flume::Sender<()>),
}

/// The user payload of a queue item, if it carries one.
pub fn user_payload<M>(m: ActorMessage<M>) -> (r: Option<M>)
    ensures
        match m {
            ActorMessage::Message(payload) => r == Some(payload),
            ActorMessage::Observe(_) => r is None,
        },
{
    match m {
        ActorMessage::Message(payload) => Some(payload),
        ActorMessage::Observe(_) => None,
    }
}

/// Relies on uuid's `Uuid::new_v4`: a random identity, so nothing is
/// promised of the value.
#[verifier::external_body]
fn fresh_id() -> u128 {
    uuid::Uuid::new_v4().as_u128()
}

/// Relies on flume's `bounded`: a FIFO channel holding at most `cap`
/// items.
#[verifier::external_body]
fn flume_bounded<T>(cap: usize) -> (flume::Sender<T>, flume::Receiver<T>) {
    flume::bounded(cap)
}

/// Relies on flume's `unbounded`: a FIFO channel without a bound.
#[verifier::external_body]
fn flume_unbounded<T>() -> (flume::Sender<T>, flume::Receiver<T>) {
    flume::unbounded()
}

/// Relies on flume's `Sender::clone`: another handle to the same
/// queue.
#[verifier::external_body]
fn clone_sender<T>(sender: &flume::Sender<T>) -> flume::Sender<T> {
    sender.clone()
}

/// Relies on flume's `Sender::send`: delivers into the queue, blocking
/// while a bounded queue is full, and errs exactly when every
/// receiver is gone.
#[verifier::external_body]
fn send_on<T>(sender: &flume::Sender<T>, value: T) -> Result<(), SendError> {
    sender.send(value).map_err(|_e| SendError)
}

/// The address of one actor. Cloning a mailbox clones the address:
/// both reach the same queue and compare equal, by the identity drawn
/// at construction. Dropping every mailbox of an actor closes the
/// queue, and the actor drains what is left before it terminates.
#[verifier::reject_recursive_types(M)]
pub struct Mailbox<M> {
    sender: flume::Sender<ActorMessage<M>>,
    id: u128,
    actor_name: String,
}

impl<M> Mailbox<M> {
    /// The identity equality and hashing go by.
    pub closed spec fn id(self) -> u128 {
        self.id
    }

    /// The name of the actor the mailbox feeds.
    pub closed spec fn name(self) -> Seq<char> {
        self.actor_name@
    }

    /// Wraps a sender into a mailbox under a fresh identity.
    pub fn new(sender: flume::Sender<ActorMessage<M>>, actor_name: String) -> (r: Mailbox<M>)
        ensures
            r.name() == actor_name@,
    {
        Mailbox { sender, id: fresh_id(), actor_name }
    }

    /// The name of the actor this mailbox feeds.
    pub fn actor_name(&self) -> (r: String)
        ensures
            r@ == self.name(),
    {
        self.actor_name.clone()
    }

    /// Sends a user message, blocking while the queue is full.
    /// Returns `SendError` exactly when the receiving actor is gone;
    /// the channel decides, so nothing more is promised here.
    pub fn send_blocking(&self, msg: M) -> Result<(), SendError> {
        send_on(&self.sender, ActorMessage::Message(msg))
    }

    /// Sends an observe marker carrying the acknowledgement channel.
    /// The marker queues behind every message sent before it.
    pub fn send_observe(&self, ack: flume::Sender<()>) -> Result<(), SendError> {
        send_on(&self.sender, ActorMessage::Observe(ack))
    }

    /// Another handle on the same queue, for a runtime that delivers
    /// from outside the verified core.
    pub fn raw_sender(&self) -> flume::Sender<ActorMessage<M>> {
        clone_sender(&self.sender)
    }

    /// Whether two mailboxes are the same address.
    pub fn same_mailbox(&self, other: &Mailbox<M>) -> (r: bool)
        ensures
            r == (self.id() == other.id()),
    {
        self.id == other.id
    }
}

impl<M> Clone for Mailbox<M> {
    /// The clone is the same address: same queue, same identity.
    fn clone(&self) -> (r: Self)
        ensures
            r.id() == self.id(),
            r.name() == self.name(),
    {
        Mailbox {
            sender: clone_sender(&self.sender),
            id: self.id,
            actor_name: self.actor_name.clone(),
        }
    }
}

impl<M> PartialEq for Mailbox<M> {
    /// Mailboxes compare by identity, not by queue or name.
    fn eq(&self, other: &Self) -> (r: bool) {
        self.id == other.id
    }
}

impl<M> vstd::std_specs::cmp::PartialEqSpecImpl for Mailbox<M> {
    open spec fn obeys_eq_spec() -> bool {
        true
    }

    open spec fn eq_spec(&self, other: &Self) -> bool {
        self.id() == other.id()
    }
}

impl<M> Eq for Mailbox<M> {

}

/// The receiving end kept by a test: it drains what reached the
/// queue.
#[verifier::reject_recursive_types(M)]
pub struct DebugInbox<M> {
    receiver: flume::Receiver<ActorMessage<M>>,
}

impl<M> DebugInbox<M> {
    /// Relies on flume's `Receiver::drain`: takes every item sitting
    /// in the queue, in FIFO order; the user payloads among them are
    /// kept. What arrives is the channel's business, so nothing more
    /// is promised here.
    #[verifier::external_body]
    pub fn drain(&self) -> Vec<M> {
        self.receiver.drain().filter_map(|m| user_payload(m)).collect()
    }
}

/// A mailbox whose queue ends in a test's hands instead of an
/// actor's: what is sent can be drained and inspected.
pub fn mock_mailbox<M>() -> (r: (Mailbox<M>, DebugInbox<M>))
    ensures
        r.0.name() == "mock_actor"@,
{
    let (tx, rx) = flume_unbounded();
    let mailbox = Mailbox::new(tx, "mock_actor".to_owned());
    let debug_inbox = DebugInbox { receiver: rx };
    (mailbox, debug_inbox)
}

/// A mailbox of the given capacity together with the queue's
/// receiving end, for the runtime that runs the actor's loop.
pub fn channel_mailbox<M>(capacity: usize, actor_name: String) -> (r: (
    Mailbox<M>,
    flume::Receiver<ActorMessage<M>>,
))
    ensures
        r.0.name() == actor_name@,
{
    let (tx, rx) = flume_bounded(capacity);
    let mailbox = Mailbox::new(tx, actor_name);
    (mailbox, rx)
}

} // verus!
