//! Peers that relay, and the relays through which other peers are reached.
use crate::net::SocketAddr;
use crate::table::{Rows, Table};
use crate::types::PeerId;
use vstd::prelude::*;

verus! {

/// What a relay table holds.
#[verifier::ext_equal]
pub ghost struct Relays {
    /// The public address of each peer that relays.
    pub candidates: Rows<PeerId, SocketAddr>,
    /// The relay through which a peer is reached.
    pub paths: Map<PeerId, PeerId>,
}

impl Relays {
    /// Everything that involves a peer taken out: its candidacy, the path to it,
    /// and the paths through it.
    pub open spec fn without_peer(self, id: PeerId) -> Relays {
        Relays {
            candidates: self.candidates.without(id),
            paths: self.paths.restrict(
                Set::new(|dst: PeerId| dst != id && self.paths[dst] != id),
            ),
        }
    }
}

/// Peers that relay, and the relays through which other peers are reached.
pub struct RelayTable {
    candidates: Table<PeerId, SocketAddr>,
    paths: Table<PeerId, PeerId>,
}

impl View for RelayTable {
    type V = Relays;

    closed spec fn view(&self) -> Relays {
        Relays { candidates: self.candidates.rows(), paths: self.paths@ }
    }
}

impl RelayTable {
    /// The tables are in order.
    pub closed spec fn wf(&self) -> bool {
        self.candidates.wf() && self.paths.wf()
    }

    /// An empty table.
    pub fn new() -> (r: RelayTable)
        ensures
            r.wf(),
            r@ == (Relays { candidates: Rows::empty(), paths: Map::empty() }),
    {
        let r: RelayTable = RelayTable { candidates: Table::new(), paths: Table::new() };
        assert(r@.candidates.order =~= Seq::empty());
        r
    }

    /// Notes that a peer relays.
    pub fn add_candidate(&mut self, relay_id: PeerId, addr: SocketAddr)
        requires
            old(self).wf(),
        ensures
            final(self).wf(),
            final(self)@ == (Relays {
                candidates: old(self)@.candidates.with(relay_id, addr),
                ..old(self)@
            }),
    {
        self.candidates.insert(relay_id, addr);
    }

    /// Notes that `dst` is reached through `relay`.
    pub fn add_path(&mut self, dst: PeerId, relay: PeerId)
        requires
            old(self).wf(),
        ensures
            final(self).wf(),
            final(self)@ == (Relays { paths: old(self)@.paths.insert(dst, relay), ..old(self)@ }),
    {
        self.paths.insert(dst, relay);
    }

    /// Takes out everything that involves a peer.
    pub fn remove_peer(&mut self, peer_id: &PeerId)
        requires
            old(self).wf(),
        ensures
            final(self).wf(),
            final(self)@ == old(self)@.without_peer(*peer_id),
    {
        self.candidates.remove(peer_id);
        self.paths.remove(peer_id);
        let ghost kept = self.paths@;
        let ghost list = self.paths.list();
        let n: usize = self.paths.len();
        let mut through: Vec<PeerId> = Vec::new();
        let mut i: usize = 0;
        proof {
            self.paths.lemma_list();
        }
        while i < n
            invariant
                i <= n,
                n == list.len(),
                self.candidates.wf(),
                self.paths.wf(),
                list == self.paths.list(),
                kept == self.paths@,
                forall|j: int|
                    0 <= j < list.len() ==> kept.contains_key((#[trigger] list[j]).0)
                        && kept[list[j].0] == list[j].1,
                forall|j: int|
                    0 <= j < i ==> (through@.contains((#[trigger] list[j]).0) <==> list[j].1
                        == *peer_id),
                forall|d: PeerId| #[trigger]
                    through@.contains(d) ==> kept.contains_key(d) && kept[d] == *peer_id,
                crate::table::distinct_keys(list),
                self.candidates.rows() == old(self)@.candidates.without(*peer_id),
                kept == old(self)@.paths.remove(*peer_id),
            decreases n - i,
        {
            let (dst, relay) = self.paths.entry(i);
            let ghost before = through@;
            if *relay == *peer_id {
                through.push(dst);
                assert(through@.last() == dst);
                assert forall|d: PeerId| #[trigger] through@.contains(d) == (before.contains(d) || d
                    == dst) by {
                    if before.contains(d) {
                        let k = before.index_of(d);
                        assert(through@[k] == d);
                    }
                }
            }
            i = i + 1;
        }
        proof {
            assert(kept == crate::table::entries_map(list));
        }
        self.paths.remove_all(&through);
        proof {
            let want = old(self)@.without_peer(*peer_id).paths;
            assert forall|d: PeerId| self.paths@.dom().contains(d) <==> want.dom().contains(d) by {
                if kept.contains_key(d) {
                    let j = choose|j: int| 0 <= j < list.len() && (#[trigger] list[j]).0 == d;
                    assert(list[j].0 == d);
                }
            }
            assert(self.paths@ =~= want);
        }
    }

    /// The relay through which a peer is reached.
    pub fn relay_for(&self, dst: &PeerId) -> (r: Option<PeerId>)
        requires
            self.wf(),
        ensures
            match r {
                Some(relay) => self@.paths.contains_key(*dst) && self@.paths[*dst] == relay,
                None => !self@.paths.contains_key(*dst),
            },
    {
        match self.paths.get(dst) {
            Some(relay) => Some(*relay),
            None => None,
        }
    }

    /// The first candidate in the order of the table, if there is one.
    pub fn any_candidate(&self) -> (r: Option<(PeerId, SocketAddr)>)
        requires
            self.wf(),
        ensures
            match r {
                Some((id, addr)) => {
                    &&& self@.candidates.order.len() > 0
                    &&& id == self@.candidates.order[0]
                    &&& self@.candidates.has(id)
                    &&& addr == self@.candidates.map[id]
                },
                None => self@.candidates.order.len() == 0,
            },
    {
        if self.candidates.len() == 0 {
            return None;
        }
        let (id, addr) = self.candidates.entry(0);
        Some((id, *addr))
    }

    /// All candidates.
    pub fn candidates(&self) -> (r: Vec<(PeerId, SocketAddr)>)
        requires
            self.wf(),
        ensures
            r@ == self@.candidates.order.map_values(
                |id: PeerId| (id, self@.candidates.map[id]),
            ),
    {
        let ghost f = |id: PeerId| (id, self@.candidates.map[id]);
        let mut r: Vec<(PeerId, SocketAddr)> = Vec::new();
        let n: usize = self.candidates.len();
        let mut i: usize = 0;
        while i < n
            invariant
                i <= n,
                n == self.candidates.list().len(),
                self.wf(),
                f == (|id: PeerId| (id, self@.candidates.map[id])),
                r@ == self@.candidates.order.take(i as int).map_values(f),
            decreases n - i,
        {
            let (id, addr) = self.candidates.entry(i);
            r.push((id, *addr));
            i = i + 1;
            assert(r@ =~= self@.candidates.order.take(i as int).map_values(f));
        }
        assert(self@.candidates.order.take(n as int) =~= self@.candidates.order);
        r
    }

    /// Whether there is a candidate.
    pub fn has_candidates(&self) -> (r: bool)
        requires
            self.wf(),
        ensures
            r == (self@.candidates.order.len() > 0),
    {
        self.candidates.len() > 0
    }
}

impl Default for RelayTable {
    fn default() -> (r: RelayTable)
        ensures
            r.wf(),
            r@ == (Relays { candidates: Rows::empty(), paths: Map::empty() }),
    {
        RelayTable::new()
    }
}

/// After a peer is taken out nothing leads to it or through it.
pub proof fn removed_peer_is_gone(t: Relays, id: PeerId, dst: PeerId)
    ensures
        !t.without_peer(id).candidates.has(id),
        !t.without_peer(id).paths.contains_key(id),
        t.without_peer(id).paths.contains_key(dst) ==> t.without_peer(id).paths[dst] != id,
{
}


/// Removing a peer leaves alone every other candidate, and every way to another peer that
/// does not lead through it.
pub proof fn removal_leaves_the_others(t: Relays, id: PeerId, other: PeerId)
    requires
        other != id,
    ensures
        t.without_peer(id).candidates.has(other) == t.candidates.has(other),
        t.candidates.has(other) ==> t.without_peer(id).candidates.map[other]
            == t.candidates.map[other],
        t.without_peer(id).paths.contains_key(other) <==> (t.paths.contains_key(other)
            && t.paths[other] != id),
        t.without_peer(id).paths.contains_key(other) ==> t.without_peer(id).paths[other]
            == t.paths[other],
{
}
} // verus!
