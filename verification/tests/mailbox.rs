use netsync::codec::{Cmd, Pack};
use netsync::mailbox::{Mailbox, ServerMailbox};

fn pack(seq: u32) -> Pack {
    Pack::new(Cmd::Move { x: seq, y: seq }, seq, None)
}

#[test]
fn inbound_drain_preserves_push_order_and_empties() {
    let mut m = Mailbox::new();
    m.push_inbound(pack(1));
    m.push_inbound(pack(2));
    m.push_inbound(pack(3));
    let drained = m.drain_inbound();
    assert_eq!(drained, vec![pack(1), pack(2), pack(3)]);
    let again = m.drain_inbound();
    assert!(again.is_empty());
}

#[test]
fn outbound_drain_preserves_push_order_and_empties() {
    let mut m = Mailbox::new();
    m.push_outbound(pack(10));
    m.push_outbound(pack(11));
    let drained = m.drain_outbound();
    assert_eq!(drained, vec![pack(10), pack(11)]);
    assert!(m.drain_outbound().is_empty());
}

#[test]
fn queues_are_independent() {
    let mut m = Mailbox::new();
    m.push_inbound(pack(1));
    m.push_outbound(pack(2));
    assert_eq!(m.inbound_len(), 1);
    assert_eq!(m.outbound_len(), 1);
    let outb = m.drain_outbound();
    assert_eq!(outb, vec![pack(2)]);
    assert_eq!(m.inbound_len(), 1);
    assert_eq!(m.drain_inbound(), vec![pack(1)]);
}

#[test]
fn try_push_refuses_unencodable_packet() {
    let mut m = Mailbox::new();
    let bad = Pack::new(Cmd::Connect("nøt ascii".to_string()), 0, None);
    assert!(!m.try_push_outbound(bad));
    assert_eq!(m.outbound_len(), 0);
    let good = Pack::new(Cmd::Connect("ascii".to_string()), 0, None);
    assert!(m.try_push_outbound(good));
    assert_eq!(m.outbound_len(), 1);
}

#[test]
fn server_mailbox_keeps_tags_and_order() {
    let mut m = ServerMailbox::new();
    m.push_inbound(4, pack(1));
    m.push_inbound(9, pack(2));
    let drained = m.drain_inbound();
    assert_eq!(drained.len(), 2);
    assert_eq!(drained[0].id, 4);
    assert_eq!(drained[0].pack, pack(1));
    assert_eq!(drained[1].id, 9);
    assert_eq!(drained[1].pack, pack(2));
    assert_eq!(m.inbound_len(), 0);
    assert!(m.try_push_outbound(4, pack(3)));
    let out = m.drain_outbound();
    assert_eq!(out[0].id, 4);
    assert_eq!(out[0].pack, pack(3));
}
