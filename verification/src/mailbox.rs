//! The mailbox: a pair of ordered, drain-once queues bridging the network
//! driver and the simulation tick. One side only appends to a queue, the
//! other only drains it, and a drain hands every entry over exactly once,
//! in arrival order. The mailbox itself never drops or duplicates an entry.

use vstd::prelude::*;
use crate::codec::{Pack, PackV, pack_wf, pack_encodable};

verus! {

/// The packets of a queue, as their models, oldest first.
pub open spec fn pack_views(s: Seq<Pack>) -> Seq<PackV> {
    s.map_values(|p: Pack| p@)
}

/// Model of a mailbox: the two queues' contents in arrival order.
pub struct MailboxV {
    pub inbound: Seq<PackV>,
    pub outbound: Seq<PackV>,
}

/// Every queued packet is well formed, so a driver can always encode
/// whatever it drains.
pub open spec fn mailbox_wf(m: MailboxV) -> bool {
    &&& forall|i: int| 0 <= i < m.inbound.len() ==> pack_wf(#[trigger] m.inbound[i])
    &&& forall|i: int| 0 <= i < m.outbound.len() ==> pack_wf(#[trigger] m.outbound[i])
}

/// The inbound (network to simulation) and outbound (simulation to network)
/// queues of one connection.
pub struct Mailbox {
    inbound: Vec<Pack>,
    outbound: Vec<Pack>,
}

impl View for Mailbox {
    type V = MailboxV;

    closed spec fn view(&self) -> MailboxV {
        MailboxV { inbound: pack_views(self.inbound@), outbound: pack_views(self.outbound@) }
    }
}

impl Mailbox {
    /// An empty mailbox.
    pub fn new() -> (m: Mailbox)
        ensures
            m@.inbound == Seq::<PackV>::empty(),
            m@.outbound == Seq::<PackV>::empty(),
            mailbox_wf(m@),
    {
        let m = Mailbox { inbound: Vec::new(), outbound: Vec::new() };
        proof {
            assert(pack_views(m.inbound@) =~= Seq::<PackV>::empty());
            assert(pack_views(m.outbound@) =~= Seq::<PackV>::empty());
        }
        m
    }

    /// Appends a decoded packet for the simulation to consume.
    pub fn push_inbound(&mut self, p: Pack)
        requires
            pack_wf(p@),
        ensures
            final(self)@.inbound == old(self)@.inbound.push(p@),
            final(self)@.outbound == old(self)@.outbound,
            mailbox_wf(old(self)@) ==> mailbox_wf(final(self)@),
    {
        self.inbound.push(p);
        proof {
            assert(pack_views(self.inbound@) =~= pack_views(old(self).inbound@).push(p@));
        }
    }

    /// Hands the consumer everything that arrived, oldest first, and empties
    /// the queue: the only read, so each packet is seen exactly once.
    pub fn drain_inbound(&mut self) -> (r: Vec<Pack>)
        ensures
            pack_views(r@) == old(self)@.inbound,
            final(self)@.inbound == Seq::<PackV>::empty(),
            final(self)@.outbound == old(self)@.outbound,
            mailbox_wf(old(self)@) ==> mailbox_wf(final(self)@),
    {
        let mut r: Vec<Pack> = Vec::new();
        core::mem::swap(&mut self.inbound, &mut r);
        proof {
            assert(pack_views(Seq::<Pack>::empty()) =~= Seq::<PackV>::empty());
        }
        r
    }

    /// Appends a simulation packet for the driver to send.
    pub fn push_outbound(&mut self, p: Pack)
        requires
            pack_wf(p@),
        ensures
            final(self)@.outbound == old(self)@.outbound.push(p@),
            final(self)@.inbound == old(self)@.inbound,
            mailbox_wf(old(self)@) ==> mailbox_wf(final(self)@),
    {
        self.outbound.push(p);
        proof {
            assert(pack_views(self.outbound@) =~= pack_views(old(self).outbound@).push(p@));
        }
    }

    /// Queues a simulation packet for sending, refusing one the wire form
    /// cannot carry; callers that cannot establish well-formedness use this.
    pub fn try_push_outbound(&mut self, p: Pack) -> (ok: bool)
        ensures
            ok == pack_wf(p@),
            ok ==> final(self)@.outbound == old(self)@.outbound.push(p@),
            !ok ==> final(self)@.outbound == old(self)@.outbound,
            final(self)@.inbound == old(self)@.inbound,
            mailbox_wf(old(self)@) ==> mailbox_wf(final(self)@),
    {
        if pack_encodable(&p) {
            self.push_outbound(p);
            true
        } else {
            false
        }
    }

    /// Hands the driver everything the simulation queued, oldest first, and
    /// empties the queue.
    pub fn drain_outbound(&mut self) -> (r: Vec<Pack>)
        ensures
            pack_views(r@) == old(self)@.outbound,
            final(self)@.outbound == Seq::<PackV>::empty(),
            final(self)@.inbound == old(self)@.inbound,
            mailbox_wf(old(self)@) ==> mailbox_wf(final(self)@),
    {
        let mut r: Vec<Pack> = Vec::new();
        core::mem::swap(&mut self.outbound, &mut r);
        proof {
            assert(pack_views(Seq::<Pack>::empty()) =~= Seq::<PackV>::empty());
        }
        r
    }

    /// How many packets wait for the simulation.
    pub fn inbound_len(&self) -> (n: usize)
        ensures
            n == self@.inbound.len(),
    {
        self.inbound.len()
    }

    /// How many packets wait for the driver.
    pub fn outbound_len(&self) -> (n: usize)
        ensures
            n == self@.outbound.len(),
    {
        self.outbound.len()
    }
}

/// The queue contents after a run of pushes, applied oldest first.
pub open spec fn spec_push_all(q: Seq<PackV>, ps: Seq<PackV>) -> Seq<PackV>
    decreases ps.len(),
{
    if ps.len() == 0 {
        q
    } else {
        spec_push_all(q.push(ps[0]), ps.skip(1))
    }
}

/// Mailbox ordering: a run of pushes appends exactly the pushed packets in
/// push order, so the drain that follows — which returns the whole queue and
/// leaves it empty — hands a consumer of a fresh mailbox exactly that run,
/// and a second drain right after returns the empty sequence.
pub proof fn lemma_mailbox_ordering(q: Seq<PackV>, ps: Seq<PackV>)
    ensures
        spec_push_all(q, ps) == q + ps,
    decreases ps.len(),
{
    if ps.len() == 0 {
        assert(spec_push_all(q, ps) =~= q + ps);
    } else {
        lemma_mailbox_ordering(q.push(ps[0]), ps.skip(1));
        assert(q.push(ps[0]) + ps.skip(1) =~= q + ps);
    }
}

/// A packet tagged with the connection it arrived on or is addressed to.
pub struct Routed {
    pub id: u64,
    pub pack: Pack,
}

/// Mathematical model of a `Routed` entry.
#[verifier::ext_equal]
pub struct RoutedV {
    pub id: u64,
    pub pack: PackV,
}

impl View for Routed {
    type V = RoutedV;

    open spec fn view(&self) -> RoutedV {
        RoutedV { id: self.id, pack: self.pack@ }
    }
}

/// The entries of a server queue, as their models, oldest first.
pub open spec fn routed_views(s: Seq<Routed>) -> Seq<RoutedV> {
    s.map_values(|r: Routed| r@)
}

/// Model of the server mailbox: both queues' contents in arrival order.
pub struct ServerMailboxV {
    pub inbound: Seq<RoutedV>,
    pub outbound: Seq<RoutedV>,
}

/// Every queued packet is well formed, so the registry can always encode
/// whatever it drains.
pub open spec fn server_mailbox_wf(m: ServerMailboxV) -> bool {
    &&& forall|i: int| 0 <= i < m.inbound.len() ==> pack_wf((#[trigger] m.inbound[i]).pack)
    &&& forall|i: int| 0 <= i < m.outbound.len() ==> pack_wf((#[trigger] m.outbound[i]).pack)
}

/// The server's queue pair: inbound entries are tagged with the connection
/// they arrived on, outbound entries with the connection they address.
pub struct ServerMailbox {
    inbound: Vec<Routed>,
    outbound: Vec<Routed>,
}

impl View for ServerMailbox {
    type V = ServerMailboxV;

    closed spec fn view(&self) -> ServerMailboxV {
        ServerMailboxV {
            inbound: routed_views(self.inbound@),
            outbound: routed_views(self.outbound@),
        }
    }
}

impl ServerMailbox {
    /// An empty server mailbox.
    pub fn new() -> (m: ServerMailbox)
        ensures
            m@.inbound == Seq::<RoutedV>::empty(),
            m@.outbound == Seq::<RoutedV>::empty(),
            server_mailbox_wf(m@),
    {
        let m = ServerMailbox { inbound: Vec::new(), outbound: Vec::new() };
        proof {
            assert(routed_views(m.inbound@) =~= Seq::<RoutedV>::empty());
            assert(routed_views(m.outbound@) =~= Seq::<RoutedV>::empty());
        }
        m
    }

    /// Appends a decoded packet, tagged with its connection, for the
    /// simulation to consume.
    pub fn push_inbound(&mut self, id: u64, p: Pack)
        requires
            pack_wf(p@),
        ensures
            final(self)@.inbound == old(self)@.inbound.push(RoutedV { id, pack: p@ }),
            final(self)@.outbound == old(self)@.outbound,
            server_mailbox_wf(old(self)@) ==> server_mailbox_wf(final(self)@),
    {
        self.inbound.push(Routed { id, pack: p });
        proof {
            assert(routed_views(self.inbound@) =~= routed_views(old(self).inbound@).push(
                RoutedV { id, pack: p@ },
            ));
        }
    }

    /// Hands the consumer everything that arrived, oldest first, and
    /// empties the queue.
    pub fn drain_inbound(&mut self) -> (r: Vec<Routed>)
        ensures
            routed_views(r@) == old(self)@.inbound,
            final(self)@.inbound == Seq::<RoutedV>::empty(),
            final(self)@.outbound == old(self)@.outbound,
            server_mailbox_wf(old(self)@) ==> server_mailbox_wf(final(self)@),
    {
        let mut r: Vec<Routed> = Vec::new();
        core::mem::swap(&mut self.inbound, &mut r);
        proof {
            assert(routed_views(Seq::<Routed>::empty()) =~= Seq::<RoutedV>::empty());
        }
        r
    }

    /// Appends a simulation packet addressed to one connection.
    pub fn push_outbound(&mut self, id: u64, p: Pack)
        requires
            pack_wf(p@),
        ensures
            final(self)@.outbound == old(self)@.outbound.push(RoutedV { id, pack: p@ }),
            final(self)@.inbound == old(self)@.inbound,
            server_mailbox_wf(old(self)@) ==> server_mailbox_wf(final(self)@),
    {
        self.outbound.push(Routed { id, pack: p });
        proof {
            assert(routed_views(self.outbound@) =~= routed_views(old(self).outbound@).push(
                RoutedV { id, pack: p@ },
            ));
        }
    }

    /// Queues an addressed packet for sending, refusing one the wire form
    /// cannot carry; callers that cannot establish well-formedness use this.
    pub fn try_push_outbound(&mut self, id: u64, p: Pack) -> (ok: bool)
        ensures
            ok == pack_wf(p@),
            ok ==> final(self)@.outbound == old(self)@.outbound.push(RoutedV { id, pack: p@ }),
            !ok ==> final(self)@.outbound == old(self)@.outbound,
            final(self)@.inbound == old(self)@.inbound,
            server_mailbox_wf(old(self)@) ==> server_mailbox_wf(final(self)@),
    {
        if pack_encodable(&p) {
            self.push_outbound(id, p);
            true
        } else {
            false
        }
    }

    /// Hands the registry everything the simulation queued, oldest first,
    /// and empties the queue.
    pub fn drain_outbound(&mut self) -> (r: Vec<Routed>)
        ensures
            routed_views(r@) == old(self)@.outbound,
            final(self)@.outbound == Seq::<RoutedV>::empty(),
            final(self)@.inbound == old(self)@.inbound,
            server_mailbox_wf(old(self)@) ==> server_mailbox_wf(final(self)@),
    {
        let mut r: Vec<Routed> = Vec::new();
        core::mem::swap(&mut self.outbound, &mut r);
        proof {
            assert(routed_views(Seq::<Routed>::empty()) =~= Seq::<RoutedV>::empty());
        }
        r
    }

    /// How many entries wait for the simulation.
    pub fn inbound_len(&self) -> (n: usize)
        ensures
            n == self@.inbound.len(),
    {
        self.inbound.len()
    }

    /// How many entries wait for the registry.
    pub fn outbound_len(&self) -> (n: usize)
        ensures
            n == self@.outbound.len(),
    {
        self.outbound.len()
    }
}

} // verus!
