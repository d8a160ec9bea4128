//! The client session driver: owns the one outbound connection, runs the
//! handshake, then — once per poll cycle — decodes what the transport
//! delivered into the inbound mailbox and drains the outbound mailbox to
//! the transport, stamping each departure with a fresh sequence number and
//! choosing its delivery class.

use vstd::prelude::*;
use vstd::utf8::is_ascii_chars;
use crate::codec::{
    Cmd, CmdV, Pack, PackV, DecodeError, pack_wf, spec_encode, spec_decode, decode,
    encode_with_seq, reseq, lemma_decode_wf, MAX_PAYLOAD,
};
use crate::mailbox::{Mailbox, mailbox_wf};

verus! {

/// The delivery guarantee asked of the transport for one datagram.
#[derive(Clone, Copy, Debug, PartialEq, Eq, Structural)]
pub enum SendClass {
    Unreliable,
    ReliableOrdered,
}

/// One datagram ready for the transport: its payload and delivery class.
pub struct Outgoing {
    pub bytes: Vec<u8>,
    pub class: SendClass,
}

/// A connection-fatal failure: the sequence space is spent, so the
/// per-connection ordering guarantee can no longer be upheld.
#[derive(Clone, Copy, Debug, PartialEq, Eq, Structural)]
pub enum SessionError {
    SequenceExhausted,
}

/// What one non-blocking transport poll reports.
pub enum TransportEvent {
    Connected,
    Disconnected,
    Datagram(Vec<u8>),
}

/// Mathematical model of a `TransportEvent`.
pub enum TransportEventV {
    Connected,
    Disconnected,
    Datagram(Seq<u8>),
}

impl View for TransportEvent {
    type V = TransportEventV;

    open spec fn view(&self) -> TransportEventV {
        match self {
            TransportEvent::Connected => TransportEventV::Connected,
            TransportEvent::Disconnected => TransportEventV::Disconnected,
            TransportEvent::Datagram(b) => TransportEventV::Datagram(b@),
        }
    }
}

/// The events of a poll, as their models, oldest first.
pub open spec fn event_views(s: Seq<TransportEvent>) -> Seq<TransportEventV> {
    s.map_values(|e: TransportEvent| e@)
}

/// The delivery class a command's loss tolerance calls for: a position
/// update is superseded by later ones and goes unreliable; connect and
/// leave, whose loss or reordering would corrupt game state, go
/// reliable-ordered.
pub open spec fn spec_class_of(c: CmdV) -> SendClass {
    match c {
        CmdV::Move { .. } => SendClass::Unreliable,
        CmdV::Connect { .. } => SendClass::ReliableOrdered,
        CmdV::Leave => SendClass::ReliableOrdered,
    }
}

/// Picks the delivery class for one command.
pub fn class_of(c: &Cmd) -> (r: SendClass)
    ensures
        r == spec_class_of(c@),
{
    match c {
        Cmd::Move { .. } => SendClass::Unreliable,
        Cmd::Connect(_) => SendClass::ReliableOrdered,
        Cmd::Leave => SendClass::ReliableOrdered,
    }
}

/// Lifecycle of the client's one connection.
#[derive(Clone, Copy, Debug, PartialEq, Eq, Structural)]
pub enum SessionState {
    Disconnected,
    Handshaking,
    Active,
}

/// Mathematical model of the driver.
#[verifier::ext_equal]
pub struct ClientSystemV {
    pub state: SessionState,
    pub token: Seq<char>,
    pub next_seq: u32,
}

/// The driver's handshake token is itself wire-encodable.
pub open spec fn client_wf(c: ClientSystemV) -> bool {
    c.token.len() <= MAX_PAYLOAD && is_ascii_chars(c.token)
}

/// The one connect packet the handshake sends.
pub open spec fn handshake_pack(c: ClientSystemV) -> PackV {
    PackV { cmd: CmdV::Connect { payload: c.token }, sequence: c.next_seq, ack: None }
}

/// What one transport event does to the driver state and the inbound
/// queue: a decoded datagram is appended (the first one completes the
/// handshake), a transport disconnect ends the session, everything else —
/// including malformed datagrams, which are discarded — changes nothing.
pub open spec fn apply_event(s: SessionState, inbound: Seq<PackV>, ev: TransportEventV) -> (
    SessionState,
    Seq<PackV>,
) {
    match ev {
        TransportEventV::Connected => (s, inbound),
        TransportEventV::Disconnected => (SessionState::Disconnected, inbound),
        TransportEventV::Datagram(b) => {
            if s == SessionState::Disconnected {
                (s, inbound)
            } else {
                match spec_decode(b) {
                    Ok(p) => (
                        if s == SessionState::Handshaking {
                            SessionState::Active
                        } else {
                            s
                        },
                        inbound.push(p),
                    ),
                    Err(_) => (s, inbound),
                }
            }
        },
    }
}

/// `apply_event` folded over a whole poll's events, oldest first.
pub open spec fn apply_events(
    s: SessionState,
    inbound: Seq<PackV>,
    evs: Seq<TransportEventV>,
) -> (SessionState, Seq<PackV>)
    decreases evs.len(),
{
    if evs.len() == 0 {
        (s, inbound)
    } else {
        let t = apply_events(s, inbound, evs.drop_last());
        apply_event(t.0, t.1, evs.last())
    }
}

/// The client session driver.
pub struct ClientSystem {
    state: SessionState,
    token: String,
    next_seq: u32,
}

impl View for ClientSystem {
    type V = ClientSystemV;

    closed spec fn view(&self) -> ClientSystemV {
        ClientSystemV { state: self.state, token: self.token@, next_seq: self.next_seq }
    }
}

impl ClientSystem {
    /// A fresh driver holding the handshake token it will present; refused
    /// if the token cannot ride the wire form.
    pub fn new(token: String) -> (r: Option<ClientSystem>)
        ensures
            match r {
                Some(c) => {
                    &&& client_wf(c@)
                    &&& c@ == (ClientSystemV {
                        state: SessionState::Disconnected,
                        token: token@,
                        next_seq: 0,
                    })
                },
                None => !(token@.len() <= MAX_PAYLOAD && is_ascii_chars(token@)),
            },
    {
        let st: &str = token.as_str();
        if st.is_ascii() {
            proof {
                vstd::string::is_ascii_spec_bytes(st);
            }
            if st.as_bytes().len() <= MAX_PAYLOAD {
                Some(ClientSystem { state: SessionState::Disconnected, token, next_seq: 0 })
            } else {
                None
            }
        } else {
            None
        }
    }

    /// Where the connection stands.
    pub fn state(&self) -> (s: SessionState)
        ensures
            s == self@.state,
    {
        self.state
    }

    /// Takes the next sequence number, which is never reused within the
    /// connection's lifetime; spending the last one is connection-fatal.
    fn take_seq(&mut self) -> (r: Result<u32, SessionError>)
        ensures
            final(self)@.token == old(self)@.token,
            match r {
                Ok(s) => {
                    &&& old(self)@.next_seq < u32::MAX
                    &&& s == old(self)@.next_seq
                    &&& final(self)@ == (ClientSystemV {
                        next_seq: (old(self)@.next_seq + 1) as u32,
                        ..old(self)@
                    })
                },
                Err(e) => {
                    &&& e == SessionError::SequenceExhausted
                    &&& old(self)@.next_seq == u32::MAX
                    &&& final(self)@ == (ClientSystemV {
                        state: SessionState::Disconnected,
                        ..old(self)@
                    })
                },
            },
    {
        if self.next_seq == u32::MAX {
            self.state = SessionState::Disconnected;
            Err(SessionError::SequenceExhausted)
        } else {
            let s = self.next_seq;
            self.next_seq = self.next_seq + 1;
            Ok(s)
        }
    }

    /// Enters the handshake: emits the one connect packet, over the
    /// unreliable class — the driver retries it, not the transport, so a
    /// lost handshake is never a fatal ordering error.
    pub fn start_handshake(&mut self) -> (r: Result<Outgoing, SessionError>)
        requires
            client_wf(old(self)@),
            old(self)@.state == SessionState::Disconnected,
        ensures
            client_wf(final(self)@),
            match r {
                Ok(o) => {
                    &&& old(self)@.next_seq < u32::MAX
                    &&& o.bytes@ == spec_encode(handshake_pack(old(self)@))
                    &&& o.class == SendClass::Unreliable
                    &&& final(self)@ == (ClientSystemV {
                        state: SessionState::Handshaking,
                        next_seq: (old(self)@.next_seq + 1) as u32,
                        ..old(self)@
                    })
                },
                Err(e) => {
                    &&& e == SessionError::SequenceExhausted
                    &&& old(self)@.next_seq == u32::MAX
                    &&& final(self)@ == old(self)@
                },
            },
    {
        let sequence = match self.take_seq() {
            Ok(s) => s,
            Err(e) => {
                return Err(e);
            },
        };
        let pack = Pack { cmd: Cmd::Connect(self.token.clone()), sequence, ack: None };
        let bytes = encode_with_seq(&pack, sequence);
        proof {
            assert(reseq(pack@, sequence) =~= handshake_pack(old(self)@));
        }
        self.state = SessionState::Handshaking;
        Ok(Outgoing { bytes, class: SendClass::Unreliable })
    }

    /// Applies one transport event, as `apply_event` says: a decoded
    /// datagram joins the inbound queue and completes a pending handshake;
    /// a disconnect ends the session but leaves the mailbox intact for the
    /// simulation to observe; a malformed datagram is discarded and
    /// reported, never fatal.
    pub fn handle_event(&mut self, ev: &TransportEvent, mailbox: &mut Mailbox) -> (r: Option<
        DecodeError,
    >)
        ensures
            final(self)@.token == old(self)@.token,
            final(self)@.next_seq == old(self)@.next_seq,
            final(mailbox)@.outbound == old(mailbox)@.outbound,
            mailbox_wf(old(mailbox)@) ==> mailbox_wf(final(mailbox)@),
            (final(self)@.state, final(mailbox)@.inbound) == apply_event(
                old(self)@.state,
                old(mailbox)@.inbound,
                ev@,
            ),
            r == (match ev@ {
                TransportEventV::Datagram(b) => {
                    if old(self)@.state != SessionState::Disconnected && spec_decode(b) is Err {
                        Some(spec_decode(b)->Err_0)
                    } else {
                        None::<DecodeError>
                    }
                },
                _ => None::<DecodeError>,
            }),
    {
        match ev {
            TransportEvent::Connected => None,
            TransportEvent::Disconnected => {
                self.state = SessionState::Disconnected;
                None
            },
            TransportEvent::Datagram(b) => {
                if self.state == SessionState::Disconnected {
                    return None;
                }
                match decode(b) {
                    Ok(p) => {
                        proof {
                            lemma_decode_wf(b@);
                        }
                        mailbox.push_inbound(p);
                        if self.state == SessionState::Handshaking {
                            self.state = SessionState::Active;
                        }
                        None
                    },
                    Err(e) => Some(e),
                }
            },
        }
    }

    /// Drains the simulation's outbound queue and turns each packet into a
    /// datagram, oldest first, stamped with consecutive fresh sequence
    /// numbers and carried by the class its command calls for. If the
    /// sequence space cannot cover the queue, nothing is drained and the
    /// session ends: ordering could no longer be guaranteed.
    pub fn flush_outbound(&mut self, mailbox: &mut Mailbox) -> (r: Result<Vec<Outgoing>, SessionError>)
        requires
            mailbox_wf(old(mailbox)@),
        ensures
            final(self)@.token == old(self)@.token,
            final(mailbox)@.inbound == old(mailbox)@.inbound,
            mailbox_wf(final(mailbox)@),
            match r {
                Ok(v) => {
                    &&& old(mailbox)@.outbound.len() <= u32::MAX - old(self)@.next_seq
                    &&& v@.len() == old(mailbox)@.outbound.len()
                    &&& (forall|i: int|
                        0 <= i < v@.len() ==> (#[trigger] v@[i]).bytes@ == spec_encode(
                            reseq(
                                old(mailbox)@.outbound[i],
                                (old(self)@.next_seq + i) as u32,
                            ),
                        ) && v@[i].class == spec_class_of(old(mailbox)@.outbound[i].cmd))
                    &&& final(mailbox)@.outbound == Seq::<PackV>::empty()
                    &&& final(self)@ == (ClientSystemV {
                        next_seq: (old(self)@.next_seq + v@.len()) as u32,
                        ..old(self)@
                    })
                },
                Err(e) => {
                    &&& e == SessionError::SequenceExhausted
                    &&& old(mailbox)@.outbound.len() > u32::MAX - old(self)@.next_seq
                    &&& final(mailbox)@ == old(mailbox)@
                    &&& final(self)@ == (ClientSystemV {
                        state: SessionState::Disconnected,
                        ..old(self)@
                    })
                },
            },
    {
        let pending = mailbox.outbound_len();
        if pending > (u32::MAX - self.next_seq) as usize {
            self.state = SessionState::Disconnected;
            return Err(SessionError::SequenceExhausted);
        }
        let drained = mailbox.drain_outbound();
        proof {
            assert forall|j: int| 0 <= j < drained@.len() implies pack_wf(
                #[trigger] drained@[j]@,
            ) by {
                assert(drained@[j]@ == crate::mailbox::pack_views(drained@)[j]);
                assert(crate::mailbox::pack_views(drained@)[j] == old(mailbox)@.outbound[j]);
            }
        }
        let mut out: Vec<Outgoing> = Vec::new();
        let mut i: usize = 0;
        while i < drained.len()
            invariant
                i <= drained@.len(),
                drained@.len() == pending,
                pending <= u32::MAX - old(self)@.next_seq,
                crate::mailbox::pack_views(drained@) == old(mailbox)@.outbound,
                forall|j: int|
                    0 <= j < drained@.len() ==> pack_wf(#[trigger] drained@[j]@),
                self@.next_seq == old(self)@.next_seq + i,
                self@.state == old(self)@.state,
                self@.token == old(self)@.token,
                out@.len() == i,
                forall|j: int|
                    0 <= j < i ==> (#[trigger] out@[j]).bytes@ == spec_encode(
                        reseq(drained@[j]@, (old(self)@.next_seq + j) as u32),
                    ) && out@[j].class == spec_class_of(drained@[j]@.cmd),
            decreases drained@.len() - i,
        {
            let p = &drained[i];
            let cls = class_of(&p.cmd);
            let sequence = self.next_seq;
            let bytes = encode_with_seq(p, sequence);
            self.next_seq = self.next_seq + 1;
            out.push(Outgoing { bytes, class: cls });
            i += 1;
        }
        assert forall|j: int| 0 <= j < out@.len() implies (#[trigger] out@[j]).bytes@
            == spec_encode(reseq(old(mailbox)@.outbound[j], (old(self)@.next_seq + j) as u32))
            && out@[j].class == spec_class_of(old(mailbox)@.outbound[j].cmd) by {
            assert(old(mailbox)@.outbound[j] == drained@[j]@);
        }
        Ok(out)
    }

    /// One poll cycle of the driver, run once per tick: a disconnected
    /// driver opens the handshake; otherwise every transport event is
    /// applied to the session and the inbound queue, and the outbound
    /// queue is drained to the wire.
    pub fn run(&mut self, events: &Vec<TransportEvent>, mailbox: &mut Mailbox) -> (r: Result<
        Vec<Outgoing>,
        SessionError,
    >)
        requires
            client_wf(old(self)@),
            mailbox_wf(old(mailbox)@),
        ensures
            client_wf(final(self)@),
            mailbox_wf(final(mailbox)@),
            final(self)@.token == old(self)@.token,
            old(self)@.state == SessionState::Disconnected ==> match r {
                Ok(v) => {
                    &&& v@.len() == 1
                    &&& v@[0].bytes@ == spec_encode(handshake_pack(old(self)@))
                    &&& v@[0].class == SendClass::Unreliable
                    &&& final(self)@ == (ClientSystemV {
                        state: SessionState::Handshaking,
                        next_seq: (old(self)@.next_seq + 1) as u32,
                        ..old(self)@
                    })
                    &&& final(mailbox)@ == old(mailbox)@
                },
                Err(e) => {
                    &&& e == SessionError::SequenceExhausted
                    &&& final(self)@ == old(self)@
                    &&& final(mailbox)@ == old(mailbox)@
                },
            },
            old(self)@.state != SessionState::Disconnected ==> ({
                let t = apply_events(
                    old(self)@.state,
                    old(mailbox)@.inbound,
                    event_views(events@),
                );
                match r {
                    Ok(v) => {
                        &&& final(mailbox)@.inbound == t.1
                        &&& final(mailbox)@.outbound == Seq::<PackV>::empty()
                        &&& final(self)@.state == t.0
                        &&& v@.len() == old(mailbox)@.outbound.len()
                        &&& (forall|i: int|
                            0 <= i < v@.len() ==> (#[trigger] v@[i]).bytes@ == spec_encode(
                                reseq(
                                    old(mailbox)@.outbound[i],
                                    (old(self)@.next_seq + i) as u32,
                                ),
                            ) && v@[i].class == spec_class_of(old(mailbox)@.outbound[i].cmd))
                        &&& final(self)@.next_seq == old(self)@.next_seq + v@.len()
                    },
                    Err(e) => {
                        &&& e == SessionError::SequenceExhausted
                        &&& final(self)@.state == SessionState::Disconnected
                        &&& final(mailbox)@.inbound == t.1
                        &&& final(mailbox)@.outbound == old(mailbox)@.outbound
                        &&& final(self)@.next_seq == old(self)@.next_seq
                    },
                }
            }),
    {
        if matches!(self.state, SessionState::Disconnected) {
            let o = self.start_handshake()?;
            let mut v: Vec<Outgoing> = Vec::new();
            v.push(o);
            return Ok(v);
        }
        let ghost evs = event_views(events@);
        let mut i: usize = 0;
        while i < events.len()
            invariant
                i <= events@.len(),
                evs == event_views(events@),
                self@.token == old(self)@.token,
                self@.next_seq == old(self)@.next_seq,
                mailbox@.outbound == old(mailbox)@.outbound,
                mailbox_wf(old(mailbox)@) ==> mailbox_wf(mailbox@),
                mailbox_wf(old(mailbox)@),
                (self@.state, mailbox@.inbound) == apply_events(
                    old(self)@.state,
                    old(mailbox)@.inbound,
                    evs.take(i as int),
                ),
            decreases events@.len() - i,
        {
            let _ = self.handle_event(&events[i], mailbox);
            proof {
                assert(evs.take(i + 1).drop_last() =~= evs.take(i as int));
                assert(evs.take(i + 1).last() == evs[i as int]);
            }
            i += 1;
        }
        proof {
            assert(evs.take(events@.len() as int) =~= evs);
        }
        self.flush_outbound(mailbox)
    }
}

/// A consumer of unreliable position updates: "highest sequence wins", so
/// dropped, duplicated or reordered datagrams never roll the position back.
pub struct MoveTracker {
    pub applied: bool,
    pub last_seq: u32,
    pub x: u32,
    pub y: u32,
}

impl MoveTracker {
    /// Whether the packet carries a position update newer than everything
    /// applied so far.
    pub open spec fn accepts(self, p: PackV) -> bool {
        p.cmd is Move && (!self.applied || p.sequence > self.last_seq)
    }

    /// A tracker that has applied nothing yet.
    pub fn new() -> (t: MoveTracker)
        ensures
            t == (MoveTracker { applied: false, last_seq: 0, x: 0, y: 0 }),
    {
        MoveTracker { applied: false, last_seq: 0, x: 0, y: 0 }
    }

    /// Applies a position update iff it is newer than everything applied so
    /// far; a stale sequence number is discarded, whatever its arrival
    /// order, so the tracker always ends in the state the highest sequence
    /// implies.
    pub fn apply(&mut self, p: &Pack) -> (applied: bool)
        ensures
            applied == old(self).accepts(p@),
            applied ==> *final(self) == (MoveTracker {
                applied: true,
                last_seq: p@.sequence,
                x: p@.cmd->Move_x,
                y: p@.cmd->Move_y,
            }),
            !applied ==> *final(self) == *old(self),
    {
        match &p.cmd {
            Cmd::Move { x, y } => {
                if !self.applied || p.sequence > self.last_seq {
                    self.applied = true;
                    self.last_seq = p.sequence;
                    self.x = *x;
                    self.y = *y;
                    true
                } else {
                    false
                }
            },
            _ => false,
        }
    }
}

} // verus!
