//! The player roster: the authoritative set of active players, keyed by
//! connection identity. Records are created only by promotion after a
//! successful authentication and destroyed on disconnect or idle timeout.

use vstd::prelude::*;
use std::collections::HashMap;
use vstd::std_specs::hash::group_hash_axioms;

verus! {

broadcast use group_hash_axioms;

/// One active player: the connection it rides on, the authentication
/// payload it presented, and the handle of its simulation-side entity.
#[derive(Clone, Debug)]
pub struct PlayerRecord {
    pub connection_id: u64,
    pub payload: String,
    pub entity: u64,
}

/// Mathematical model of a `PlayerRecord`.
pub struct PlayerRecordV {
    pub connection_id: u64,
    pub payload: Seq<char>,
    pub entity: u64,
}

impl View for PlayerRecord {
    type V = PlayerRecordV;

    open spec fn view(&self) -> PlayerRecordV {
        PlayerRecordV {
            connection_id: self.connection_id,
            payload: self.payload@,
            entity: self.entity,
        }
    }
}

/// What promotion does to the roster: a no-op when the id is already
/// present, otherwise exactly one new record for it.
pub open spec fn spec_promote(
    m: Map<u64, PlayerRecordV>,
    id: u64,
    payload: Seq<char>,
    entity: u64,
) -> Map<u64, PlayerRecordV> {
    if m.contains_key(id) {
        m
    } else {
        m.insert(id, PlayerRecordV { connection_id: id, payload, entity })
    }
}

/// What retirement does to the roster: removes the id's record if any.
pub open spec fn spec_retire(m: Map<u64, PlayerRecordV>, id: u64) -> Map<u64, PlayerRecordV> {
    m.remove(id)
}

/// The roster itself: records by connection id, plus the source of fresh
/// simulation-entity handles.
pub struct Roster {
    records: HashMap<u64, PlayerRecord>,
    next_entity: u64,
}

impl Roster {
    /// The records by connection id.
    pub closed spec fn map(self) -> Map<u64, PlayerRecordV> {
        Map::new(
            |id: u64| self.records@.dom().contains(id),
            |id: u64| self.records@[id]@,
        )
    }

    /// The handle the next spawned record will carry.
    pub closed spec fn entity_counter(self) -> u64 {
        self.next_entity
    }

    /// Whether the id currently names a participant.
    pub open spec fn contains(self, id: u64) -> bool {
        self.map().contains_key(id)
    }

    /// An empty roster.
    pub fn new() -> (r: Roster)
        ensures
            r.map() == Map::<u64, PlayerRecordV>::empty(),
            r.entity_counter() == 0,
    {
        let r = Roster { records: HashMap::new(), next_entity: 0 };
        proof {
            assert(r.map() =~= Map::<u64, PlayerRecordV>::empty());
        }
        r
    }

    /// Promotes an authenticated connection into the roster: spawns one
    /// record carrying a fresh entity handle, or does nothing at all if the
    /// id is already a participant (the guard against duplicate promotion).
    pub fn promote(&mut self, id: u64, payload: String) -> (created: bool)
        ensures
            created == !old(self).contains(id),
            final(self).map() == spec_promote(
                old(self).map(),
                id,
                payload@,
                old(self).entity_counter(),
            ),
            final(self).entity_counter() == if created && old(self).entity_counter()
                < u64::MAX {
                (old(self).entity_counter() + 1) as u64
            } else {
                old(self).entity_counter()
            },
    {
        if self.records.contains_key(&id) {
            false
        } else {
            let entity = self.next_entity;
            self.records.insert(id, PlayerRecord { connection_id: id, payload, entity });
            if self.next_entity < u64::MAX {
                self.next_entity = self.next_entity + 1;
            }
            proof {
                assert(self.map() =~= spec_promote(
                    old(self).map(),
                    id,
                    payload@,
                    old(self).entity_counter(),
                ));
            }
            true
        }
    }

    /// Retires a connection on disconnect or timeout: removes its record,
    /// and is a no-op if the id is absent.
    pub fn retire(&mut self, id: u64) -> (had: bool)
        ensures
            had == old(self).contains(id),
            final(self).map() == spec_retire(old(self).map(), id),
            final(self).entity_counter() == old(self).entity_counter(),
    {
        let had = self.records.remove(&id);
        proof {
            assert(self.map() =~= spec_retire(old(self).map(), id));
        }
        had.is_some()
    }

    /// Whether the id currently names a participant.
    pub fn contains_id(&self, id: u64) -> (r: bool)
        ensures
            r == self.contains(id),
    {
        self.records.contains_key(&id)
    }

    /// The record of a participant, if the id names one.
    pub fn record(&self, id: u64) -> (r: Option<&PlayerRecord>)
        ensures
            match r {
                Some(rec) => self.contains(id) && rec@ == self.map()[id],
                None => !self.contains(id),
            },
    {
        self.records.get(&id)
    }

    /// How many participants the roster holds.
    pub fn len(&self) -> (n: usize)
        ensures
            n == self.map().len(),
    {
        let n = self.records.len();
        proof {
            assert(self.map().dom() =~= self.records@.dom());
        }
        n
    }
}

/// Idempotent promotion: promoting the same id a second time, with any
/// payload, changes nothing — the roster keeps exactly the one record that
/// the first promotion made.
pub proof fn lemma_promote_idempotent(
    m: Map<u64, PlayerRecordV>,
    id: u64,
    p1: Seq<char>,
    e1: u64,
    p2: Seq<char>,
    e2: u64,
)
    ensures
        spec_promote(spec_promote(m, id, p1, e1), id, p2, e2) == spec_promote(m, id, p1, e1),
{
}

/// Disconnect cleanup: after retirement the roster no longer contains the
/// id, and a subsequent promotion succeeds exactly as if the id were new.
pub proof fn lemma_retire_then_promote(
    m: Map<u64, PlayerRecordV>,
    id: u64,
    p: Seq<char>,
    e: u64,
)
    ensures
        !spec_retire(m, id).contains_key(id),
        spec_promote(spec_retire(m, id), id, p, e) == spec_retire(m, id).insert(
            id,
            PlayerRecordV { connection_id: id, payload: p, entity: e },
        ),
{
}

} // verus!
