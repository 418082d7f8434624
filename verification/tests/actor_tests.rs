use quickwit::actor::{
    observe_outcome, termination_on_process_error, watchdog_tick, ActorTermination, KillSwitch,
    MessageProcessError, Observation, ObserveReply, Progress, SendError,
};
use quickwit::actor_loop::{run_sync_actor, Actor, InboxEvent};
use quickwit::mailbox::mock_mailbox;
use quickwit::ping::{Ping, PingReceiverSyncActor, PingerAsyncSenderActor, SenderMessage, SenderState};

#[test]
fn test_kill_switch_kills_same_and_lower_steps() {
    let root = KillSwitch::default();
    assert!(root.is_alive());
    let mut peer = root.clone();
    assert!(peer.is_alive());
    let mut child = root.add_step();
    assert!(child.is_alive());

    // the child trips the switch: the child and its peers die,
    // actors one step above it die too, two steps above survive
    let mut killer = root.add_step();
    killer.kill();
    assert!(!killer.is_alive());
    peer.sync_floor(killer.floor_value());
    assert!(!peer.is_alive());
    child.sync_floor(killer.floor_value());
    assert!(!child.is_alive());
    let mut grandchild = root.add_step().add_step();
    grandchild.sync_floor(killer.floor_value());
    assert!(grandchild.is_alive());
}

#[test]
fn test_progress_flag_transitions() {
    let mut progress = Progress::default();
    assert!(!progress.has_changed());
    progress.record_progress();
    assert!(progress.has_changed());
    progress.reset();
    assert!(!progress.has_changed());
}

#[test]
fn test_watchdog_kills_after_a_silent_tick() {
    // progress recorded: the tick clears the flag and kills nobody
    let mut progress = Progress::default();
    let mut kill_switch = KillSwitch::default();
    progress.record_progress();
    watchdog_tick(&mut progress, &mut kill_switch);
    assert!(kill_switch.is_alive());
    assert!(!progress.has_changed());
    // still no progress at the next tick: the actor counts as hung
    watchdog_tick(&mut progress, &mut kill_switch);
    assert!(!kill_switch.is_alive());
}

#[test]
fn test_process_error_terminations() {
    let mut kill_switch = KillSwitch::default();
    let t = termination_on_process_error(MessageProcessError::OnDemand, &mut kill_switch);
    assert_eq!(t, ActorTermination::OnDemand);
    assert!(kill_switch.is_alive());

    let mut kill_switch = KillSwitch::default();
    let t = termination_on_process_error(MessageProcessError::DownstreamClosed, &mut kill_switch);
    assert_eq!(t, ActorTermination::DownstreamClosed);
    assert!(!kill_switch.is_alive());

    let mut kill_switch = KillSwitch::default();
    let t = termination_on_process_error(
        MessageProcessError::Error("boom".to_string()),
        &mut kill_switch,
    );
    assert_eq!(t, ActorTermination::ActorError("boom".to_string()));
    assert!(!kill_switch.is_alive());
}

#[test]
fn test_observe_outcomes() {
    assert_eq!(observe_outcome(ObserveReply::Acked, true, 7u32), Observation::Running(7));
    assert_eq!(observe_outcome(ObserveReply::SenderDropped, true, 7u32), Observation::Terminated(7));
    assert_eq!(observe_outcome(ObserveReply::TimedOut, true, 7u32), Observation::Timeout(7));
    assert_eq!(observe_outcome(ObserveReply::TimedOut, false, 7u32), Observation::Terminated(7));
}

#[test]
fn test_send_on_dropped_receiver_errs() {
    let (mailbox, debug_inbox) = mock_mailbox::<Ping>();
    assert!(mailbox.send_blocking(Ping).is_ok());
    drop(debug_inbox);
    assert_eq!(mailbox.send_blocking(Ping), Err(SendError));
}

#[test]
fn test_mailbox_identity() {
    let (mailbox, _inbox) = mock_mailbox::<Ping>();
    let twin = mailbox.clone();
    assert!(mailbox == twin);
    let (other, _other_inbox) = mock_mailbox::<Ping>();
    assert!(mailbox != other);
    assert_eq!(mailbox.actor_name(), "mock_actor");
}

#[test]
fn test_ping_actor() {
    // the sender forwards pings to its peers through real mailboxes
    let (receiver_mailbox, receiver_inbox) = mock_mailbox::<Ping>();
    let mut sender = PingerAsyncSenderActor::default();
    let mut sender_kill_switch = KillSwitch::default();
    let events = vec![
        InboxEvent::Observe,
        // this ping is sent before the peer registers: nobody gets it
        InboxEvent::Payload(SenderMessage::Ping),
        InboxEvent::Payload(SenderMessage::AddPeer(receiver_mailbox.clone())),
        InboxEvent::Observe,
        InboxEvent::Payload(SenderMessage::Ping),
        InboxEvent::Payload(SenderMessage::Ping),
        InboxEvent::Observe,
    ];
    let (observations, termination) = run_sync_actor(&mut sender, &mut sender_kill_switch, events);
    assert_eq!(termination, ActorTermination::Disconnect);
    assert_eq!(observations[0], SenderState { count: 0, num_peers: 0 });
    assert_eq!(observations[1], SenderState { count: 1, num_peers: 1 });
    assert_eq!(observations[2], SenderState { count: 3, num_peers: 1 });

    // only the two pings sent after the peer registered reached it
    let forwarded = receiver_inbox.drain();
    assert_eq!(forwarded.len(), 2);

    let mut receiver = PingReceiverSyncActor::default();
    let mut receiver_kill_switch = KillSwitch::default();
    let mut events: Vec<InboxEvent<Ping>> =
        forwarded.into_iter().map(InboxEvent::Payload).collect();
    events.push(InboxEvent::Observe);
    let (observations, termination) =
        run_sync_actor(&mut receiver, &mut receiver_kill_switch, events);
    assert_eq!(termination, ActorTermination::Disconnect);
    assert_eq!(observations, vec![2usize]);
}

#[test]
fn test_registering_a_peer_twice_keeps_it_once() {
    let (receiver_mailbox, _inbox) = mock_mailbox::<Ping>();
    let mut sender = PingerAsyncSenderActor::default();
    let mut kill_switch = KillSwitch::default();
    let events = vec![
        InboxEvent::Payload(SenderMessage::AddPeer(receiver_mailbox.clone())),
        InboxEvent::Payload(SenderMessage::AddPeer(receiver_mailbox.clone())),
        InboxEvent::Observe,
    ];
    let (observations, _termination) = run_sync_actor(&mut sender, &mut kill_switch, events);
    assert_eq!(observations, vec![SenderState { count: 0, num_peers: 1 }]);
}

#[test]
fn test_tripped_kill_switch_stops_the_loop_at_once() {
    let mut receiver = PingReceiverSyncActor::default();
    let mut kill_switch = KillSwitch::default();
    kill_switch.kill();
    let events = vec![InboxEvent::Payload(Ping), InboxEvent::Observe];
    let (observations, termination) = run_sync_actor(&mut receiver, &mut kill_switch, events);
    assert_eq!(termination, ActorTermination::KillSwitch);
    assert!(observations.is_empty());
    // nothing was processed
    assert_eq!(receiver.observable_state(), 0);
}

#[test]
fn test_timeouts_keep_the_loop_going() {
    let mut receiver = PingReceiverSyncActor::default();
    let mut kill_switch = KillSwitch::default();
    let events = vec![
        InboxEvent::Timeout,
        InboxEvent::Payload(Ping),
        InboxEvent::Timeout,
        InboxEvent::Observe,
    ];
    let (observations, termination) = run_sync_actor(&mut receiver, &mut kill_switch, events);
    assert_eq!(termination, ActorTermination::Disconnect);
    assert_eq!(observations, vec![1usize]);
}
