//! Two small actors exercising the runtime: a sync receiver that
//! counts pings, and an async sender that counts its own pings and
//! forwards each one to every registered peer.

use vstd::prelude::*;
use crate::actor::MessageProcessError;
use crate::actor_loop::Actor;
use crate::mailbox::Mailbox;

verus! {

/// The message both actors deal in.
#[derive(Debug, Clone, Copy)]
pub struct Ping;

/// Counts the pings it receives.
pub struct PingReceiverSyncActor {
    ping_count: usize,
}

impl Default for PingReceiverSyncActor {
    /// A receiver that has seen no ping.
    fn default() -> (r: PingReceiverSyncActor)
        ensures
            r.model() == 0usize,
    {
        PingReceiverSyncActor { ping_count: 0 }
    }
}

impl Actor for PingReceiverSyncActor {
    type Message = Ping;

    type ObservableState = usize;

    type Model = usize;

    closed spec fn model(self) -> usize {
        self.ping_count
    }

    open spec fn obs_of(model: usize) -> usize {
        model
    }

    open spec fn step(model: usize, message: Ping) -> usize {
        if model < usize::MAX {
            (model + 1) as usize
        } else {
            model
        }
    }

    open spec fn step_fails(model: usize, message: Ping) -> Option<MessageProcessError> {
        None
    }

    open spec fn finalize_model(model: usize) -> usize {
        model
    }

    open spec fn finalize_fails(model: usize) -> Option<String> {
        None
    }

    fn name(&self) -> String {
        "Ping".to_owned()
    }

    fn observable_state(&self) -> usize {
        self.ping_count
    }

    /// One more ping.
    fn process_message(&mut self, message: Ping) -> Result<(), MessageProcessError> {
        let _ = message;
        if self.ping_count < usize::MAX {
            self.ping_count = self.ping_count + 1;
        }
        Ok(())
    }

    /// Nothing to hand over: the count is its own record.
    fn finalize(&mut self) -> Result<(), String> {
        Ok(())
    }
}

/// What an observer sees of the sender: how many pings it handled
/// and how many peers it forwards them to.
#[derive(Debug, Clone, Copy, PartialEq, Eq, Structural)]
pub struct SenderState {
    /// How many pings the sender has handled.
    pub count: usize,
    /// How many peers are registered.
    pub num_peers: usize,
}

/// What the sender can be told: register a peer, or handle a ping.
pub enum SenderMessage {
    /// Register one more peer to forward pings to.
    AddPeer(Mailbox<Ping>),
    /// Handle one ping and forward it to every peer.
    Ping,
}

/// Counts pings and forwards each to every registered peer. A peer
/// added twice — the same mailbox identity — is kept once.
pub struct PingerAsyncSenderActor {
    count: usize,
    peers: Vec<Mailbox<Ping>>,
}

impl Default for PingerAsyncSenderActor {
    /// A sender with no peer and no ping yet.
    fn default() -> (r: PingerAsyncSenderActor)
        ensures
            r.model() == (0usize, Seq::<u128>::empty()),
    {
        let peers: Vec<Mailbox<Ping>> = Vec::new();
        proof {
            assert(peers@.map_values(|p: Mailbox<Ping>| p.id()) =~= Seq::<u128>::empty());
        }
        PingerAsyncSenderActor { count: 0, peers }
    }
}

impl PingerAsyncSenderActor {
    fn has_peer(&self, peer: &Mailbox<Ping>) -> (r: bool)
        ensures
            r == self.model().1.contains(peer.id()),
    {
        let n = self.peers.len();
        let mut i: usize = 0;
        while i < n
            invariant
                n == self.peers@.len(),
                i <= n,
                forall|k: int| 0 <= k < i as int ==> self.peers@[k].id() != peer.id(),
            decreases n - i,
        {
            if self.peers[i].same_mailbox(peer) {
                proof {
                    let ids = self.model().1;
                    assert(ids[i as int] == peer.id());
                }
                return true;
            }
            i = i + 1;
        }
        proof {
            let ids = self.model().1;
            assert forall|k: int| 0 <= k < ids.len() implies ids[k] != peer.id() by {
                assert(ids[k] == self.peers@[k].id());
            }
        }
        false
    }
}

impl Actor for PingerAsyncSenderActor {
    type Message = SenderMessage;

    type ObservableState = SenderState;

    /// The count of handled pings and the identities of the peers.
    type Model = (usize, Seq<u128>);

    closed spec fn model(self) -> (usize, Seq<u128>) {
        (self.count, self.peers@.map_values(|p: Mailbox<Ping>| p.id()))
    }

    open spec fn obs_of(model: (usize, Seq<u128>)) -> SenderState {
        SenderState { count: model.0, num_peers: model.1.len() as usize }
    }

    open spec fn step(model: (usize, Seq<u128>), message: SenderMessage) -> (usize, Seq<u128>) {
        match message {
            SenderMessage::AddPeer(peer) => if model.1.contains(peer.id()) {
                model
            } else {
                (model.0, model.1.push(peer.id()))
            },
            SenderMessage::Ping => if model.0 < usize::MAX {
                ((model.0 + 1) as usize, model.1)
            } else {
                model
            },
        }
    }

    open spec fn step_fails(model: (usize, Seq<u128>), message: SenderMessage) -> Option<
        MessageProcessError,
    > {
        None
    }

    open spec fn finalize_model(model: (usize, Seq<u128>)) -> (usize, Seq<u128>) {
        model
    }

    open spec fn finalize_fails(model: (usize, Seq<u128>)) -> Option<String> {
        None
    }

    fn name(&self) -> String {
        "PingSender".to_owned()
    }

    fn observable_state(&self) -> SenderState {
        proof {
            assert(self.model().1.len() == self.peers@.len());
        }
        SenderState { count: self.count, num_peers: self.peers.len() }
    }

    /// Registers the peer once, or counts the ping and forwards it to
    /// every peer; a peer that is gone is skipped.
    fn process_message(&mut self, message: SenderMessage) -> Result<(), MessageProcessError> {
        match message {
            SenderMessage::AddPeer(peer) => {
                if !self.has_peer(&peer) {
                    let ghost pre = self.model().1;
                    self.peers.push(peer);
                    proof {
                        assert(self.model().1 =~= pre.push(peer.id()));
                    }
                }
            },
            SenderMessage::Ping => {
                if self.count < usize::MAX {
                    self.count = self.count + 1;
                }
                let n = self.peers.len();
                let mut i: usize = 0;
                while i < n
                    invariant
                        n == self.peers@.len(),
                        i <= n,
                    decreases n - i,
                {
                    let _ = self.peers[i].send_blocking(Ping);
                    i = i + 1;
                }
            },
        }
        Ok(())
    }

    /// Nothing to hand over: the peers keep their mailboxes.
    fn finalize(&mut self) -> Result<(), String> {
        Ok(())
    }
}

} // verus!
