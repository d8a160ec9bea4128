use netsync::codec::{decode, encode, Cmd, DecodeError, Pack};
use netsync::mailbox::ServerMailbox;
use netsync::registry::{ConnState, DatagramOutcome, ServerSystem};
use netsync::roster::Roster;
use netsync::session::SendClass;

fn connect_bytes(payload: &str, seq: u32) -> Vec<u8> {
    encode(&Pack::new(Cmd::Connect(payload.to_string()), seq, None))
}

#[test]
fn handshake_promotes_and_rosters_the_peer() {
    let mut server = ServerSystem::new("token".to_string(), 1000);
    let mut mailbox = ServerMailbox::new();
    let id = server.accept(0).unwrap();
    assert_eq!(server.state_of(id), Some(ConnState::Connecting));
    let outcome = server.on_datagram(id, &connect_bytes("token", 0), 5, &mut mailbox);
    assert_eq!(outcome, DatagramOutcome::Promoted);
    assert_eq!(server.state_of(id), Some(ConnState::Active));
    assert_eq!(server.roster().len(), 1);
    let record = server.roster().record(id).unwrap();
    assert_eq!(record.connection_id, id);
    assert_eq!(record.payload, "token");
}

#[test]
fn auth_rejection_disconnects_and_leaves_roster_untouched() {
    let mut server = ServerSystem::new("token".to_string(), 1000);
    let mut mailbox = ServerMailbox::new();
    let id = server.accept(0).unwrap();
    let outcome = server.on_datagram(id, &connect_bytes("bad-token", 0), 5, &mut mailbox);
    assert_eq!(outcome, DatagramOutcome::Rejected);
    assert_eq!(server.state_of(id), Some(ConnState::Disconnected));
    assert_eq!(server.roster().len(), 0);
    // The closed connection no longer takes datagrams.
    let late = server.on_datagram(id, &connect_bytes("token", 1), 6, &mut mailbox);
    assert_eq!(late, DatagramOutcome::Unknown);
}

#[test]
fn non_connect_first_packet_is_rejected() {
    let mut server = ServerSystem::new("token".to_string(), 1000);
    let mut mailbox = ServerMailbox::new();
    let id = server.accept(0).unwrap();
    let bytes = encode(&Pack::new(Cmd::Move { x: 1, y: 2 }, 0, None));
    let outcome = server.on_datagram(id, &bytes, 5, &mut mailbox);
    assert_eq!(outcome, DatagramOutcome::Rejected);
    assert_eq!(server.roster().len(), 0);
}

#[test]
fn malformed_datagram_is_tolerated() {
    let mut server = ServerSystem::new("token".to_string(), 1000);
    let mut mailbox = ServerMailbox::new();
    let id = server.accept(0).unwrap();
    server.on_datagram(id, &connect_bytes("token", 0), 1, &mut mailbox);
    let outcome = server.on_datagram(id, &vec![7], 2, &mut mailbox);
    assert_eq!(outcome, DatagramOutcome::Discarded(DecodeError::Truncated));
    assert_eq!(server.state_of(id), Some(ConnState::Active));
    assert_eq!(server.roster().len(), 1);
    assert_eq!(mailbox.inbound_len(), 0);
}

#[test]
fn active_packets_join_inbound_tagged() {
    let mut server = ServerSystem::new("token".to_string(), 1000);
    let mut mailbox = ServerMailbox::new();
    let id = server.accept(0).unwrap();
    server.on_datagram(id, &connect_bytes("token", 0), 1, &mut mailbox);
    let update = Pack::new(Cmd::Move { x: 8, y: 9 }, 1, None);
    let outcome = server.on_datagram(id, &encode(&update), 2, &mut mailbox);
    assert_eq!(outcome, DatagramOutcome::Delivered);
    let drained = mailbox.drain_inbound();
    assert_eq!(drained.len(), 1);
    assert_eq!(drained[0].id, id);
    assert_eq!(drained[0].pack, update);
}

#[test]
fn disconnect_retires_the_record() {
    let mut server = ServerSystem::new("token".to_string(), 1000);
    let mut mailbox = ServerMailbox::new();
    let id = server.accept(0).unwrap();
    server.on_datagram(id, &connect_bytes("token", 0), 1, &mut mailbox);
    assert_eq!(server.roster().len(), 1);
    assert!(server.on_disconnect(id));
    assert_eq!(server.state_of(id), Some(ConnState::Disconnected));
    assert_eq!(server.roster().len(), 0);
    assert!(!server.roster().contains_id(id));
}

#[test]
fn idle_timeout_retires_without_a_packet() {
    let mut server = ServerSystem::new("token".to_string(), 1000);
    let mut mailbox = ServerMailbox::new();
    let id = server.accept(0).unwrap();
    server.on_datagram(id, &connect_bytes("token", 0), 500, &mut mailbox);
    // Quiet for exactly the timeout: still considered alive.
    assert!(!server.check_idle(id, 1500));
    assert_eq!(server.state_of(id), Some(ConnState::Active));
    // Quiet for longer than the timeout: gone, roster retired.
    assert!(server.check_idle(id, 1501));
    assert_eq!(server.state_of(id), Some(ConnState::Disconnected));
    assert_eq!(server.roster().len(), 0);
}

#[test]
fn transport_timeout_acts_like_disconnect() {
    let mut server = ServerSystem::new("token".to_string(), 1000);
    let mut mailbox = ServerMailbox::new();
    let id = server.accept(0).unwrap();
    server.on_datagram(id, &connect_bytes("token", 0), 1, &mut mailbox);
    assert!(server.on_timeout(id));
    assert_eq!(server.state_of(id), Some(ConnState::Disconnected));
    assert_eq!(server.roster().len(), 0);
}

#[test]
fn ids_are_fresh_and_never_reused() {
    let mut server = ServerSystem::new("token".to_string(), 1000);
    let a = server.accept(0).unwrap();
    let b = server.accept(0).unwrap();
    assert_ne!(a, b);
    server.on_disconnect(a);
    let c = server.accept(0).unwrap();
    assert_ne!(a, c);
    assert_ne!(b, c);
}

#[test]
fn unknown_id_is_ignored() {
    let mut server = ServerSystem::new("token".to_string(), 1000);
    let mut mailbox = ServerMailbox::new();
    let outcome = server.on_datagram(77, &connect_bytes("token", 0), 1, &mut mailbox);
    assert_eq!(outcome, DatagramOutcome::Unknown);
    assert!(!server.on_disconnect(77));
}

#[test]
fn server_flush_stamps_sequences_and_addresses() {
    let mut server = ServerSystem::new("token".to_string(), 1000);
    let mut mailbox = ServerMailbox::new();
    let id = server.accept(0).unwrap();
    server.on_datagram(id, &connect_bytes("token", 0), 1, &mut mailbox);
    assert!(mailbox.try_push_outbound(id, Pack::new(Cmd::Move { x: 1, y: 2 }, 77, None)));
    assert!(mailbox.try_push_outbound(id, Pack::new(Cmd::Leave, 77, None)));
    let sent = server.flush_outbound(&mut mailbox).unwrap();
    assert_eq!(sent.len(), 2);
    assert_eq!(sent[0].0, id);
    assert_eq!(sent[0].1.class, SendClass::Unreliable);
    assert_eq!(
        decode(&sent[0].1.bytes).unwrap(),
        Pack::new(Cmd::Move { x: 1, y: 2 }, 0, None)
    );
    assert_eq!(
        decode(&sent[1].1.bytes).unwrap(),
        Pack::new(Cmd::Leave, 1, None)
    );
    assert_eq!(mailbox.outbound_len(), 0);
}

#[test]
fn duplicate_promotion_spawns_exactly_one_record() {
    let mut roster = Roster::new();
    assert!(roster.promote(7, "alpha".to_string()));
    assert!(!roster.promote(7, "beta".to_string()));
    assert_eq!(roster.len(), 1);
    assert_eq!(roster.record(7).unwrap().payload, "alpha");
}

#[test]
fn retire_then_promote_acts_as_new() {
    let mut roster = Roster::new();
    assert!(roster.promote(7, "alpha".to_string()));
    assert!(roster.retire(7));
    assert!(!roster.contains_id(7));
    assert!(!roster.retire(7));
    assert!(roster.promote(7, "gamma".to_string()));
    assert_eq!(roster.len(), 1);
    assert_eq!(roster.record(7).unwrap().payload, "gamma");
}
