use netsync::codec::{decode, encode, Cmd, Pack};
use netsync::mailbox::Mailbox;
use netsync::session::{
    ClientSystem, MoveTracker, SendClass, SessionState, TransportEvent,
};

#[test]
fn new_refuses_unencodable_token() {
    assert!(ClientSystem::new("tøken".to_string()).is_none());
    assert!(ClientSystem::new("a".repeat(65536)).is_none());
    assert!(ClientSystem::new("token".to_string()).is_some());
}

#[test]
fn first_run_sends_unreliable_handshake() {
    let mut client = ClientSystem::new("token".to_string()).unwrap();
    let mut mailbox = Mailbox::new();
    let events: Vec<TransportEvent> = Vec::new();
    let sent = client.run(&events, &mut mailbox).unwrap();
    assert_eq!(sent.len(), 1);
    assert_eq!(sent[0].class, SendClass::Unreliable);
    let p = decode(&sent[0].bytes).unwrap();
    assert_eq!(p, Pack::new(Cmd::Connect("token".to_string()), 0, None));
    assert_eq!(client.state(), SessionState::Handshaking);
}

#[test]
fn first_decoded_reply_completes_handshake() {
    let mut client = ClientSystem::new("token".to_string()).unwrap();
    let mut mailbox = Mailbox::new();
    client.run(&Vec::new(), &mut mailbox).unwrap();
    // A transport Connected event alone does not finish the handshake.
    let events = vec![TransportEvent::Connected];
    client.run(&events, &mut mailbox).unwrap();
    assert_eq!(client.state(), SessionState::Handshaking);
    // The first decoded inbound packet does.
    let reply = Pack::new(Cmd::Leave, 0, Some(0));
    let events = vec![TransportEvent::Datagram(encode(&reply))];
    client.run(&events, &mut mailbox).unwrap();
    assert_eq!(client.state(), SessionState::Active);
    assert_eq!(mailbox.drain_inbound(), vec![reply]);
}

#[test]
fn malformed_datagram_is_discarded_not_fatal() {
    let mut client = ClientSystem::new("token".to_string()).unwrap();
    let mut mailbox = Mailbox::new();
    client.run(&Vec::new(), &mut mailbox).unwrap();
    let events = vec![TransportEvent::Datagram(vec![9, 9])];
    client.run(&events, &mut mailbox).unwrap();
    assert_eq!(client.state(), SessionState::Handshaking);
    assert_eq!(mailbox.inbound_len(), 0);
}

#[test]
fn disconnect_event_ends_session_but_keeps_mailbox() {
    let mut client = ClientSystem::new("token".to_string()).unwrap();
    let mut mailbox = Mailbox::new();
    client.run(&Vec::new(), &mut mailbox).unwrap();
    let reply = Pack::new(Cmd::Leave, 0, None);
    let events = vec![
        TransportEvent::Datagram(encode(&reply)),
        TransportEvent::Disconnected,
    ];
    client.run(&events, &mut mailbox).unwrap();
    assert_eq!(client.state(), SessionState::Disconnected);
    // The decoded packet is still there for the simulation to observe.
    assert_eq!(mailbox.drain_inbound(), vec![reply]);
}

#[test]
fn flush_stamps_fresh_sequences_and_classes() {
    let mut client = ClientSystem::new("token".to_string()).unwrap();
    let mut mailbox = Mailbox::new();
    client.run(&Vec::new(), &mut mailbox).unwrap(); // handshake takes sequence 0
    let reply = Pack::new(Cmd::Leave, 0, None);
    let events = vec![TransportEvent::Datagram(encode(&reply))];
    client.run(&events, &mut mailbox).unwrap();
    assert_eq!(client.state(), SessionState::Active);
    mailbox.drain_inbound();
    // The simulation queues a position update and an orderly leave; the
    // sequence numbers it wrote are replaced at send time.
    assert!(mailbox.try_push_outbound(Pack::new(Cmd::Move { x: 5, y: 6 }, 999, None)));
    assert!(mailbox.try_push_outbound(Pack::new(Cmd::Leave, 999, None)));
    let sent = client.run(&Vec::new(), &mut mailbox).unwrap();
    assert_eq!(sent.len(), 2);
    assert_eq!(sent[0].class, SendClass::Unreliable);
    assert_eq!(sent[1].class, SendClass::ReliableOrdered);
    let first = decode(&sent[0].bytes).unwrap();
    let second = decode(&sent[1].bytes).unwrap();
    assert_eq!(first, Pack::new(Cmd::Move { x: 5, y: 6 }, 1, None));
    assert_eq!(second, Pack::new(Cmd::Leave, 2, None));
    assert_eq!(mailbox.outbound_len(), 0);
}

#[test]
fn highest_sequence_wins_for_unreliable_updates() {
    let mut tracker = MoveTracker::new();
    let newer = Pack::new(Cmd::Move { x: 50, y: 51 }, 5, None);
    let stale = Pack::new(Cmd::Move { x: 30, y: 31 }, 3, None);
    assert!(tracker.apply(&newer));
    assert!(!tracker.apply(&stale));
    assert_eq!((tracker.x, tracker.y, tracker.last_seq), (50, 51, 5));
}

#[test]
fn duplicate_sequence_is_discarded() {
    let mut tracker = MoveTracker::new();
    let p = Pack::new(Cmd::Move { x: 1, y: 2 }, 4, None);
    assert!(tracker.apply(&p));
    assert!(!tracker.apply(&p));
    assert_eq!((tracker.x, tracker.y), (1, 2));
}
