//! The server connection registry and authentication stage: accepts peers,
//! assigns never-reused connection ids, walks each connection through
//! `Connecting → Authenticating → Active → Disconnected`, and keeps the
//! player roster in lock-step — the roster holds exactly the participants
//! whose connection is `Active`.

use vstd::prelude::*;
use std::collections::HashMap;
use vstd::std_specs::hash::group_hash_axioms;
use crate::codec::{
    Cmd, CmdV, PackV, DecodeError, pack_wf, spec_decode, spec_encode, decode, encode_with_seq,
    reseq, lemma_decode_wf,
};
use crate::mailbox::{ServerMailbox, server_mailbox_wf, RoutedV, routed_views};
use crate::roster::{Roster, PlayerRecordV, spec_promote, spec_retire};
use crate::session::{Outgoing, SessionError, spec_class_of, class_of};

verus! {

broadcast use group_hash_axioms;

/// Lifecycle of one server-side peer connection. Authentication is decided
/// within the tick that decodes the handshake packet, so `Authenticating`
/// is passed through, never observed between calls.
#[derive(Clone, Copy, Debug, PartialEq, Eq, Structural)]
pub enum ConnState {
    Connecting,
    Authenticating,
    Active,
    Disconnected,
}

/// The registry's bookkeeping for one connection: where it stands and when
/// it was last heard from.
#[derive(Clone, Copy, Debug, PartialEq, Eq, Structural)]
pub struct ConnInfo {
    pub state: ConnState,
    pub last_heard_ms: u64,
}

/// What handling one datagram came to.
#[derive(Clone, Copy, Debug, PartialEq, Eq, Structural)]
pub enum DatagramOutcome {
    /// The id names no live connection: nothing happened.
    Unknown,
    /// Handshake accepted: the connection is now `Active`, the roster grew.
    Promoted,
    /// Authentication failed: the connection is now `Disconnected` and the
    /// caller closes the transport side.
    Rejected,
    /// A steady-state packet joined the inbound queue.
    Delivered,
    /// A malformed datagram was dropped; the connection is kept.
    Discarded(DecodeError),
}

/// Mathematical model of the server.
#[verifier::ext_equal]
pub struct ServerSystemV {
    pub conns: Map<u64, ConnInfo>,
    pub next_id: u64,
    pub next_seq: u32,
    pub roster: Map<u64, PlayerRecordV>,
    pub entity_counter: u64,
    pub expected: Seq<char>,
    pub idle_timeout_ms: u64,
}

/// The registry/roster tie: every rostered id is a connection the registry
/// holds `Active`, and every known id was allocated below the id counter,
/// so ids are never reused.
pub open spec fn server_wf(s: ServerSystemV) -> bool {
    &&& forall|id: u64|
        #[trigger] s.roster.contains_key(id) ==> s.conns.contains_key(id) && s.conns[id].state
            == ConnState::Active
    &&& forall|id: u64| #[trigger] s.conns.contains_key(id) ==> id < s.next_id
}

/// Where one connection stands, if the registry knows the id.
pub open spec fn spec_state_of(s: ServerSystemV, id: u64) -> Option<ConnState> {
    if s.conns.contains_key(id) {
        Some(s.conns[id].state)
    } else {
        None
    }
}

/// The authentication policy: the handshake payload must equal the
/// configured token. The cryptographic content of a real handshake is out
/// of scope; equality against a configured secret stands in for it.
pub open spec fn auth_ok(s: ServerSystemV, c: CmdV) -> bool {
    c matches CmdV::Connect { payload } && payload == s.expected
}

/// The server: connection registry, auth stage and roster in one owner, so
/// their joint invariant holds at every step.
pub struct ServerSystem {
    conns: HashMap<u64, ConnInfo>,
    next_id: u64,
    next_seq: u32,
    roster: Roster,
    expected: String,
    idle_timeout_ms: u64,
}

impl View for ServerSystem {
    type V = ServerSystemV;

    closed spec fn view(&self) -> ServerSystemV {
        ServerSystemV {
            conns: self.conns@,
            next_id: self.next_id,
            next_seq: self.next_seq,
            roster: self.roster.map(),
            entity_counter: self.roster.entity_counter(),
            expected: self.expected@,
            idle_timeout_ms: self.idle_timeout_ms,
        }
    }
}

impl ServerSystem {
    /// A fresh server that will accept payloads equal to `expected` and
    /// report peers silent for longer than `idle_timeout_ms` as gone.
    pub fn new(expected: String, idle_timeout_ms: u64) -> (s: ServerSystem)
        ensures
            s@ == (ServerSystemV {
                conns: Map::<u64, ConnInfo>::empty(),
                next_id: 0,
                next_seq: 0,
                roster: Map::<u64, PlayerRecordV>::empty(),
                entity_counter: 0,
                expected: expected@,
                idle_timeout_ms,
            }),
            server_wf(s@),
    {
        let s = ServerSystem {
            conns: HashMap::new(),
            next_id: 0,
            next_seq: 0,
            roster: Roster::new(),
            expected,
            idle_timeout_ms,
        };
        proof {
            assert(s@ =~= (ServerSystemV {
                conns: Map::<u64, ConnInfo>::empty(),
                next_id: 0,
                next_seq: 0,
                roster: Map::<u64, PlayerRecordV>::empty(),
                entity_counter: 0,
                expected: s.expected@,
                idle_timeout_ms,
            }));
        }
        s
    }

    /// The roster, the single source of truth for who is a participant.
    pub fn roster(&self) -> (r: &Roster)
        ensures
            r.map() == self@.roster,
            r.entity_counter() == self@.entity_counter,
    {
        &self.roster
    }

    /// Where one connection stands.
    pub fn state_of(&self, id: u64) -> (r: Option<ConnState>)
        ensures
            r == spec_state_of(self@, id),
    {
        match self.conns.get(&id) {
            Some(ci) => Some(ci.state),
            None => None,
        }
    }

    /// Accepts a new peer: allocates a fresh connection id — never reused,
    /// since the counter only grows — and enters it `Connecting`. `None`
    /// is slot exhaustion, surfaced to the operator without ending the
    /// process.
    pub fn accept(&mut self, now_ms: u64) -> (r: Option<u64>)
        requires
            server_wf(old(self)@),
        ensures
            server_wf(final(self)@),
            match r {
                Some(id) => {
                    &&& old(self)@.next_id < u64::MAX
                    &&& id == old(self)@.next_id
                    &&& !old(self)@.conns.contains_key(id)
                    &&& final(self)@ == (ServerSystemV {
                        conns: old(self)@.conns.insert(
                            id,
                            ConnInfo { state: ConnState::Connecting, last_heard_ms: now_ms },
                        ),
                        next_id: (old(self)@.next_id + 1) as u64,
                        ..old(self)@
                    })
                },
                None => old(self)@.next_id == u64::MAX && final(self)@ == old(self)@,
            },
    {
        if self.next_id == u64::MAX {
            return None;
        }
        let id = self.next_id;
        self.next_id = self.next_id + 1;
        self.conns.insert(id, ConnInfo { state: ConnState::Connecting, last_heard_ms: now_ms });
        proof {
            assert(!old(self)@.conns.contains_key(id));
            assert(self@ =~= (ServerSystemV {
                conns: old(self)@.conns.insert(
                    id,
                    ConnInfo { state: ConnState::Connecting, last_heard_ms: now_ms },
                ),
                next_id: (old(self)@.next_id + 1) as u64,
                ..old(self)@
            }));
        }
        Some(id)
    }

    /// Handles one datagram from the transport. A connection the registry
    /// does not hold live is ignored. A live connection's arrival refreshes
    /// its liveness clock. A malformed datagram is dropped and the
    /// connection kept — a single bad datagram is never fatal. The first
    /// decoded packet of a connecting peer reaches the auth stage: accepted,
    /// the connection turns `Active` and the roster gains its record;
    /// refused, the connection turns `Disconnected` for the caller to close.
    /// From an `Active` peer, the decoded packet joins the inbound queue,
    /// tagged with the connection.
    pub fn on_datagram(
        &mut self,
        id: u64,
        bytes: &Vec<u8>,
        now_ms: u64,
        mailbox: &mut ServerMailbox,
    ) -> (r: DatagramOutcome)
        requires
            server_wf(old(self)@),
        ensures
            server_wf(final(self)@),
            final(mailbox)@.outbound == old(mailbox)@.outbound,
            server_mailbox_wf(old(mailbox)@) ==> server_mailbox_wf(final(mailbox)@),
            ({
                let st = spec_state_of(old(self)@, id);
                let dec = spec_decode(bytes@);
                let refreshed = old(self)@.conns.insert(
                    id,
                    ConnInfo {
                        state: old(self)@.conns[id].state,
                        last_heard_ms: now_ms,
                    },
                );
                if st is None || st == Some(ConnState::Disconnected) {
                    &&& r == DatagramOutcome::Unknown
                    &&& final(self)@ == old(self)@
                    &&& final(mailbox)@.inbound == old(mailbox)@.inbound
                } else {
                    match dec {
                        Err(e) => {
                            &&& r == DatagramOutcome::Discarded(e)
                            &&& final(self)@ == (ServerSystemV { conns: refreshed, ..old(self)@ })
                            &&& final(mailbox)@.inbound == old(mailbox)@.inbound
                        },
                        Ok(p) => {
                            if st == Some(ConnState::Active) {
                                &&& r == DatagramOutcome::Delivered
                                &&& final(self)@ == (ServerSystemV {
                                    conns: refreshed,
                                    ..old(self)@
                                })
                                &&& final(mailbox)@.inbound == old(mailbox)@.inbound.push(
                                    RoutedV { id, pack: p },
                                )
                            } else if auth_ok(old(self)@, p.cmd) {
                                &&& r == DatagramOutcome::Promoted
                                &&& final(self)@ == (ServerSystemV {
                                    conns: old(self)@.conns.insert(
                                        id,
                                        ConnInfo {
                                            state: ConnState::Active,
                                            last_heard_ms: now_ms,
                                        },
                                    ),
                                    roster: spec_promote(
                                        old(self)@.roster,
                                        id,
                                        p.cmd->Connect_payload,
                                        old(self)@.entity_counter,
                                    ),
                                    entity_counter: if old(self)@.entity_counter < u64::MAX {
                                        (old(self)@.entity_counter + 1) as u64
                                    } else {
                                        old(self)@.entity_counter
                                    },
                                    ..old(self)@
                                })
                                &&& final(mailbox)@.inbound == old(mailbox)@.inbound
                            } else {
                                &&& r == DatagramOutcome::Rejected
                                &&& final(self)@ == (ServerSystemV {
                                    conns: old(self)@.conns.insert(
                                        id,
                                        ConnInfo {
                                            state: ConnState::Disconnected,
                                            last_heard_ms: now_ms,
                                        },
                                    ),
                                    ..old(self)@
                                })
                                &&& final(mailbox)@.inbound == old(mailbox)@.inbound
                            }
                        },
                    }
                }
            }),
    {
        let info = match self.conns.get(&id) {
            Some(ci) => *ci,
            None => {
                return DatagramOutcome::Unknown;
            },
        };
        if matches!(info.state, ConnState::Disconnected) {
            return DatagramOutcome::Unknown;
        }
        match decode(bytes) {
            Err(e) => {
                self.conns.insert(
                    id,
                    ConnInfo { state: info.state, last_heard_ms: now_ms },
                );
                proof {
                    assert(self@ =~= (ServerSystemV {
                        conns: old(self)@.conns.insert(
                            id,
                            ConnInfo { state: old(self)@.conns[id].state, last_heard_ms: now_ms },
                        ),
                        ..old(self)@
                    }));
                }
                DatagramOutcome::Discarded(e)
            },
            Ok(p) => {
                proof {
                    lemma_decode_wf(bytes@);
                }
                if matches!(info.state, ConnState::Active) {
                    self.conns.insert(
                        id,
                        ConnInfo { state: info.state, last_heard_ms: now_ms },
                    );
                    mailbox.push_inbound(id, p);
                    proof {
                        assert(self@ =~= (ServerSystemV {
                            conns: old(self)@.conns.insert(
                                id,
                                ConnInfo {
                                    state: old(self)@.conns[id].state,
                                    last_heard_ms: now_ms,
                                },
                            ),
                            ..old(self)@
                        }));
                    }
                    DatagramOutcome::Delivered
                } else {
                    match p.cmd {
                        Cmd::Connect(payload) => {
                            if payload == self.expected {
                                self.conns.insert(
                                    id,
                                    ConnInfo {
                                        state: ConnState::Active,
                                        last_heard_ms: now_ms,
                                    },
                                );
                                let _ = self.roster.promote(id, payload);
                                proof {
                                    assert(!old(self)@.roster.contains_key(id));
                                    assert(self@ =~= (ServerSystemV {
                                        conns: old(self)@.conns.insert(
                                            id,
                                            ConnInfo {
                                                state: ConnState::Active,
                                                last_heard_ms: now_ms,
                                            },
                                        ),
                                        roster: spec_promote(
                                            old(self)@.roster,
                                            id,
                                            spec_decode(bytes@)->Ok_0.cmd->Connect_payload,
                                            old(self)@.entity_counter,
                                        ),
                                        entity_counter: if old(self)@.entity_counter
                                            < u64::MAX {
                                            (old(self)@.entity_counter + 1) as u64
                                        } else {
                                            old(self)@.entity_counter
                                        },
                                        ..old(self)@
                                    }));
                                }
                                DatagramOutcome::Promoted
                            } else {
                                self.conns.insert(
                                    id,
                                    ConnInfo {
                                        state: ConnState::Disconnected,
                                        last_heard_ms: now_ms,
                                    },
                                );
                                proof {
                                    assert(self@ =~= (ServerSystemV {
                                        conns: old(self)@.conns.insert(
                                            id,
                                            ConnInfo {
                                                state: ConnState::Disconnected,
                                                last_heard_ms: now_ms,
                                            },
                                        ),
                                        ..old(self)@
                                    }));
                                }
                                DatagramOutcome::Rejected
                            }
                        },
                        _ => {
                            self.conns.insert(
                                id,
                                ConnInfo {
                                    state: ConnState::Disconnected,
                                    last_heard_ms: now_ms,
                                },
                            );
                            proof {
                                assert(self@ =~= (ServerSystemV {
                                    conns: old(self)@.conns.insert(
                                        id,
                                        ConnInfo {
                                            state: ConnState::Disconnected,
                                            last_heard_ms: now_ms,
                                        },
                                    ),
                                    ..old(self)@
                                }));
                            }
                            DatagramOutcome::Rejected
                        },
                    }
                }
            },
        }
    }

    /// Tears down one connection on a transport disconnect: the connection
    /// is marked `Disconnected` first, and only then is the roster record
    /// destroyed, so a drain in flight always observes a consistent state.
    /// A no-op for an unknown id. Returns whether a record was destroyed.
    pub fn on_disconnect(&mut self, id: u64) -> (retired: bool)
        requires
            server_wf(old(self)@),
        ensures
            server_wf(final(self)@),
            retired == old(self)@.roster.contains_key(id),
            final(self)@ == (ServerSystemV {
                conns: if old(self)@.conns.contains_key(id) {
                    old(self)@.conns.insert(
                        id,
                        ConnInfo {
                            state: ConnState::Disconnected,
                            last_heard_ms: old(self)@.conns[id].last_heard_ms,
                        },
                    )
                } else {
                    old(self)@.conns
                },
                roster: spec_retire(old(self)@.roster, id),
                ..old(self)@
            }),
    {
        let lh = match self.conns.get(&id) {
            Some(ci) => Some(ci.last_heard_ms),
            None => None,
        };
        match lh {
            Some(last_heard_ms) => {
                self.conns.insert(
                    id,
                    ConnInfo { state: ConnState::Disconnected, last_heard_ms },
                );
            },
            None => {},
        }
        let retired = self.roster.retire(id);
        proof {
            if old(self)@.conns.contains_key(id) {
                assert(self@ =~= (ServerSystemV {
                    conns: old(self)@.conns.insert(
                        id,
                        ConnInfo {
                            state: ConnState::Disconnected,
                            last_heard_ms: old(self)@.conns[id].last_heard_ms,
                        },
                    ),
                    roster: spec_retire(old(self)@.roster, id),
                    ..old(self)@
                }));
            } else {
                assert(self@ =~= (ServerSystemV {
                    conns: old(self)@.conns,
                    roster: spec_retire(old(self)@.roster, id),
                    ..old(self)@
                }));
            }
        }
        retired
    }

    /// A transport-reported idle timeout, treated identically to an
    /// explicit disconnect.
    pub fn on_timeout(&mut self, id: u64) -> (retired: bool)
        requires
            server_wf(old(self)@),
        ensures
            server_wf(final(self)@),
            retired == old(self)@.roster.contains_key(id),
            final(self)@ == (ServerSystemV {
                conns: if old(self)@.conns.contains_key(id) {
                    old(self)@.conns.insert(
                        id,
                        ConnInfo {
                            state: ConnState::Disconnected,
                            last_heard_ms: old(self)@.conns[id].last_heard_ms,
                        },
                    )
                } else {
                    old(self)@.conns
                },
                roster: spec_retire(old(self)@.roster, id),
                ..old(self)@
            }),
    {
        self.on_disconnect(id)
    }
}

/// A peer is idle-expired: live, but silent for longer than the configured
/// idle timeout.
pub open spec fn spec_idle_expired(s: ServerSystemV, id: u64, now_ms: u64) -> bool {
    &&& s.conns.contains_key(id)
    &&& s.conns[id].state != ConnState::Disconnected
    &&& now_ms > s.conns[id].last_heard_ms + s.idle_timeout_ms
}

impl ServerSystem {
    /// Applies the configured idle timeout to one connection: a peer silent
    /// for longer than the timeout is disconnected and retired, with no
    /// explicit disconnect packet required; anything else is untouched.
    pub fn check_idle(&mut self, id: u64, now_ms: u64) -> (timed_out: bool)
        requires
            server_wf(old(self)@),
        ensures
            server_wf(final(self)@),
            timed_out == spec_idle_expired(old(self)@, id, now_ms),
            timed_out ==> final(self)@ == (ServerSystemV {
                conns: old(self)@.conns.insert(
                    id,
                    ConnInfo {
                        state: ConnState::Disconnected,
                        last_heard_ms: old(self)@.conns[id].last_heard_ms,
                    },
                ),
                roster: spec_retire(old(self)@.roster, id),
                ..old(self)@
            }),
            !timed_out ==> final(self)@ == old(self)@,
    {
        let expired = match self.conns.get(&id) {
            Some(ci) => {
                if matches!(ci.state, ConnState::Disconnected) {
                    false
                } else if now_ms > ci.last_heard_ms {
                    now_ms - ci.last_heard_ms > self.idle_timeout_ms
                } else {
                    false
                }
            },
            None => false,
        };
        if expired {
            self.on_disconnect(id);
            true
        } else {
            false
        }
    }

    /// Drains the outbound queue and turns each addressed entry into a
    /// datagram, oldest first, stamped with consecutive sequence numbers
    /// from the server endpoint's counter and carried by the class its
    /// command calls for. If the sequence space cannot cover the queue,
    /// nothing is drained and the caller must tear the endpoint down:
    /// ordering can no longer be guaranteed.
    pub fn flush_outbound(&mut self, mailbox: &mut ServerMailbox) -> (r: Result<
        Vec<(u64, Outgoing)>,
        SessionError,
    >)
        requires
            server_wf(old(self)@),
            server_mailbox_wf(old(mailbox)@),
        ensures
            server_wf(final(self)@),
            server_mailbox_wf(final(mailbox)@),
            final(mailbox)@.inbound == old(mailbox)@.inbound,
            match r {
                Ok(v) => {
                    &&& old(mailbox)@.outbound.len() <= u32::MAX - old(self)@.next_seq
                    &&& v@.len() == old(mailbox)@.outbound.len()
                    &&& (forall|i: int|
                        0 <= i < v@.len() ==> (#[trigger] v@[i]).0 == old(
                            mailbox,
                        )@.outbound[i].id && v@[i].1.bytes@ == spec_encode(
                            reseq(
                                old(mailbox)@.outbound[i].pack,
                                (old(self)@.next_seq + i) as u32,
                            ),
                        ) && v@[i].1.class == spec_class_of(old(mailbox)@.outbound[i].pack.cmd))
                    &&& final(mailbox)@.outbound == Seq::<RoutedV>::empty()
                    &&& final(self)@ == (ServerSystemV {
                        next_seq: (old(self)@.next_seq + v@.len()) as u32,
                        ..old(self)@
                    })
                },
                Err(e) => {
                    &&& e == SessionError::SequenceExhausted
                    &&& old(mailbox)@.outbound.len() > u32::MAX - old(self)@.next_seq
                    &&& final(mailbox)@ == old(mailbox)@
                    &&& final(self)@ == old(self)@
                },
            },
    {
        let pending = mailbox.outbound_len();
        if pending > (u32::MAX - self.next_seq) as usize {
            return Err(SessionError::SequenceExhausted);
        }
        let drained = mailbox.drain_outbound();
        proof {
            assert forall|j: int| 0 <= j < drained@.len() implies pack_wf(
                #[trigger] drained@[j]@.pack,
            ) by {
                assert(drained@[j]@ == routed_views(drained@)[j]);
                assert(routed_views(drained@)[j] == old(mailbox)@.outbound[j]);
            }
        }
        let mut out: Vec<(u64, Outgoing)> = Vec::new();
        let mut i: usize = 0;
        while i < drained.len()
            invariant
                i <= drained@.len(),
                drained@.len() == pending,
                pending <= u32::MAX - old(self)@.next_seq,
                routed_views(drained@) == old(mailbox)@.outbound,
                forall|j: int| 0 <= j < drained@.len() ==> pack_wf(#[trigger] drained@[j]@.pack),
                self@ == (ServerSystemV {
                    next_seq: (old(self)@.next_seq + i) as u32,
                    ..old(self)@
                }),
                out@.len() == i,
                forall|j: int|
                    0 <= j < i ==> (#[trigger] out@[j]).0 == drained@[j]@.id && out@[j].1.bytes@
                        == spec_encode(
                        reseq(drained@[j]@.pack, (old(self)@.next_seq + j) as u32),
                    ) && out@[j].1.class == spec_class_of(drained@[j]@.pack.cmd),
            decreases drained@.len() - i,
        {
            let entry = &drained[i];
            assert(pack_wf(drained@[i as int]@.pack));
            let cls = class_of(&entry.pack.cmd);
            let sequence = self.next_seq;
            let bytes = encode_with_seq(&entry.pack, sequence);
            self.next_seq = self.next_seq + 1;
            out.push((entry.id, Outgoing { bytes, class: cls }));
            proof {
                assert(self@ =~= (ServerSystemV {
                    next_seq: (old(self)@.next_seq + i + 1) as u32,
                    ..old(self)@
                }));
            }
            i += 1;
        }
        assert forall|j: int| 0 <= j < out@.len() implies (#[trigger] out@[j]).0 == old(
            mailbox,
        )@.outbound[j].id && out@[j].1.bytes@ == spec_encode(
            reseq(old(mailbox)@.outbound[j].pack, (old(self)@.next_seq + j) as u32),
        ) && out@[j].1.class == spec_class_of(old(mailbox)@.outbound[j].pack.cmd) by {
            assert(old(mailbox)@.outbound[j] == drained@[j]@);
        }
        Ok(out)
    }
}

/// Handshake, end to end at the model level: the one connect datagram a
/// client driver emits decodes at the server to exactly the packet it
/// sent, and the auth stage accepts its payload precisely when the
/// client's token equals the server's expected token.
pub proof fn lemma_handshake_auth(c: crate::session::ClientSystemV, s: ServerSystemV)
    requires
        crate::session::client_wf(c),
    ensures
        spec_decode(spec_encode(crate::session::handshake_pack(c))) == Ok::<
            PackV,
            DecodeError,
        >(crate::session::handshake_pack(c)),
        auth_ok(s, crate::session::handshake_pack(c).cmd) <==> c.token == s.expected,
{
    crate::codec::lemma_round_trip(crate::session::handshake_pack(c));
}

} // verus!
