//! The table of known peers.
use crate::clock::now;
use crate::net::{Ipv4Addr, SocketAddr};
use crate::peer::{Peer, PeerInfo};
use crate::state::{PeerState, TransitionError};
use crate::table::Table;
use crate::text::push_text;
use crate::types::{OverlayAddr, PeerId};
use std::time::Instant;
use vstd::prelude::*;

verus! {

/// How many events a subscriber may fall behind.
pub const EVENT_CHANNEL_CAPACITY: usize = 256;

/// A change in the table of peers.
#[derive(Clone, Copy, Debug, PartialEq, Eq)]
pub enum PeerEvent {
    Discovered { id: PeerId, underlay: SocketAddr },
    StateChanged { id: PeerId, from: PeerState, to: PeerState },
    OverlayAssigned { id: PeerId, overlay: OverlayAddr },
    Removed { id: PeerId },
}

impl PeerEvent {
    /// The text for log lines.
    pub open spec fn text(&self) -> Seq<char> {
        match self {
            PeerEvent::Discovered { id, underlay } => "Discovered("@ + crate::text::short_hex_text(
                id@,
            ) + " at "@ + underlay.text() + ")"@,
            PeerEvent::StateChanged { id, from, to } => "StateChanged("@
                + crate::text::short_hex_text(id@) + ": "@ + from.text() + " → "@ + to.text() + ")"@,
            PeerEvent::OverlayAssigned { id, overlay } => "OverlayAssigned("@
                + crate::text::short_hex_text(id@) + " → "@ + overlay.addr.text() + ")"@,
            PeerEvent::Removed { id } => "Removed("@ + crate::text::short_hex_text(id@) + ")"@,
        }
    }

    /// Gives the text for log lines.
    pub fn to_text(&self) -> (s: String)
        ensures
            s@ == self.text(),
    {
        let mut s: String = String::new();
        match self {
            PeerEvent::Discovered { id, underlay } => {
                push_text(&mut s, "Discovered(");
                push_text(&mut s, id.short().as_str());
                push_text(&mut s, " at ");
                underlay.push_text(&mut s);
                push_text(&mut s, ")");
            },
            PeerEvent::StateChanged { id, from, to } => {
                push_text(&mut s, "StateChanged(");
                push_text(&mut s, id.short().as_str());
                push_text(&mut s, ": ");
                push_text(&mut s, from.name());
                push_text(&mut s, " → ");
                push_text(&mut s, to.name());
                push_text(&mut s, ")");
            },
            PeerEvent::OverlayAssigned { id, overlay } => {
                push_text(&mut s, "OverlayAssigned(");
                push_text(&mut s, id.short().as_str());
                push_text(&mut s, " → ");
                overlay.addr.push_text(&mut s);
                push_text(&mut s, ")");
            },
            PeerEvent::Removed { id } => {
                push_text(&mut s, "Removed(");
                push_text(&mut s, id.short().as_str());
                push_text(&mut s, ")");
            },
        }
        assert(s@ =~= self.text());
        s
    }
}

/// Known peers and the events that nobody has taken yet.
#[verifier::ext_equal]
pub ghost struct Peers {
    /// What is known of each peer.
    pub known: Map<PeerId, PeerInfo>,
    /// When each peer entered its state.
    pub since: Map<PeerId, Instant>,
    /// The peers in the order of the table.
    pub order: Seq<PeerId>,
    /// Events, oldest first.
    pub events: Seq<PeerEvent>,
}

impl Peers {
    /// No peers and no events.
    pub open spec fn none() -> Peers {
        Peers {
            known: Map::empty(),
            since: Map::empty(),
            order: Seq::empty(),
            events: Seq::empty(),
        }
    }

    /// What is known of a peer replaced; the peer stays in its state since then.
    pub open spec fn with(self, id: PeerId, info: PeerInfo) -> Peers {
        Peers { known: self.known.insert(id, info), ..self }
    }

    /// What is known of a peer replaced, and since when it is in its state.
    pub open spec fn with_since(self, id: PeerId, info: PeerInfo, t: Instant) -> Peers {
        Peers { since: self.since.insert(id, t), ..self.with(id, info) }
    }

    /// Whether the order lists each peer once, under its own id, and a time is known
    /// for each.
    pub open spec fn ok(self) -> bool {
        &&& self.order.no_duplicates()
        &&& forall|id: PeerId| #[trigger] self.known.contains_key(id) ==> self.known[id].id == id
        &&& forall|id: PeerId| self.order.contains(id) <==> #[trigger] self.known.contains_key(id)
        &&& self.since.dom() == self.known.dom()
    }

    /// A sighting of a peer at an address: a known peer gets the address; an
    /// unknown one is added as discovered at a point in time, with an event.
    pub open spec fn discovered(self, id: PeerId, underlay: SocketAddr, t: Instant) -> Peers {
        if self.known.contains_key(id) {
            self.with(id, PeerInfo { underlay_addr: Some(underlay), ..self.known[id] })
        } else {
            Peers {
                known: self.known.insert(
                    id,
                    PeerInfo {
                        state: PeerState::Discovering,
                        ..crate::peer::new_peer(id, Some(underlay))
                    },
                ),
                since: self.since.insert(id, t),
                order: self.order.push(id),
                events: self.events.push(PeerEvent::Discovered { id, underlay }),
            }
        }
    }

    /// Whether a peer is known and may go to a state.
    pub open spec fn may_go(self, id: PeerId, next: PeerState) -> bool {
        self.known.contains_key(id) && crate::state::may_follow(self.known[id].state, next)
    }

    /// A step of a known peer that may take it, at a point in time, with an event;
    /// anything else changes nothing.
    pub open spec fn stepped(self, id: PeerId, next: PeerState, t: Instant) -> Peers {
        if self.may_go(id, next) {
            Peers {
                known: self.known.insert(id, PeerInfo { state: next, ..self.known[id] }),
                since: self.since.insert(id, t),
                order: self.order,
                events: self.events.push(
                    PeerEvent::StateChanged { id, from: self.known[id].state, to: next },
                ),
            }
        } else {
            self
        }
    }

    /// The three steps from discovered to connected, at a point in time.
    pub open spec fn brought_up(self, id: PeerId, t: Instant) -> Peers {
        self.stepped(id, PeerState::Connecting, t).stepped(id, PeerState::Handshaking, t).stepped(
            id,
            PeerState::Connected,
            t,
        )
    }
}

/// What tells that a peer was put into the table: that it was discovered at its
/// underlay address, or at no address in particular if it has none.
pub open spec fn entry_event(info: PeerInfo) -> PeerEvent {
    PeerEvent::Discovered {
        id: info.id,
        underlay: match info.underlay_addr {
            Some(a) => a,
            None => SocketAddr::V4 { ip: Ipv4Addr { a: 0, b: 0, c: 0, d: 0 }, port: 0 },
        },
    }
}

/// Being a connected peer.
pub open spec fn is_connected(known: Map<PeerId, PeerInfo>) -> spec_fn(PeerId) -> bool {
    |id: PeerId| known[id].state == PeerState::Connected
}

/// The table of known peers, with the events that nobody has taken yet.
pub struct PeerManager {
    peers: Table<PeerId, Peer>,
    events: Vec<PeerEvent>,
}

impl View for PeerManager {
    type V = Peers;

    closed spec fn view(&self) -> Peers {
        Peers {
            known: self.peers@.map_values(|p: Peer| p@),
            since: self.peers@.map_values(|p: Peer| p.since()),
            order: self.peers.order(),
            events: self.events@,
        }
    }
}

impl PeerManager {
    /// The table is in order, and each peer stands under its own id.
    pub closed spec fn wf(&self) -> bool {
        &&& self.peers.wf()
        &&& forall|id: PeerId| #[trigger]
            self.peers@.contains_key(id) ==> self.peers@[id]@.id == id
    }

    /// What every table of peers keeps.
    pub proof fn lemma_ok(&self)
        requires
            self.wf(),
        ensures
            self@.ok(),
    {
        self.peers.lemma_list();
        assert forall|id: PeerId| self@.order.contains(id) <==> #[trigger] self@.known.contains_key(
            id,
        ) by {
            assert(self.peers.order().contains(id) <==> self.peers@.contains_key(id));
        }
        assert(self@.since.dom() =~= self@.known.dom());
    }

    /// An empty table.
    pub fn new() -> (r: PeerManager)
        ensures
            r.wf(),
            r@ == Peers::none(),
    {
        let r: PeerManager = PeerManager { peers: Table::new(), events: Vec::new() };
        assert(r@.known =~= Map::empty());
        assert(r@.since =~= Map::empty());
        assert(r@.order =~= Seq::empty());
        r
    }

    /// Takes the events that nobody has taken yet.
    pub fn take_events(&mut self) -> (r: Vec<PeerEvent>)
        requires
            old(self).wf(),
        ensures
            final(self).wf(),
            r@ == old(self)@.events,
            final(self)@ == (Peers { events: Seq::empty(), ..old(self)@ }),
    {
        let mut r: Vec<PeerEvent> = Vec::new();
        core::mem::swap(&mut r, &mut self.events);
        r
    }

    /// Number of known peers.
    pub fn peer_count(&self) -> (r: usize)
        requires
            self.wf(),
        ensures
            r == self@.order.len(),
            r == self@.known.dom().len(),
    {
        proof {
            self.peers.lemma_list();
            assert(self@.known.dom() =~= self.peers@.dom());
        }
        self.peers.len()
    }

    /// Whether a peer is known.
    pub fn contains(&self, id: &PeerId) -> (r: bool)
        requires
            self.wf(),
        ensures
            r == self@.known.contains_key(*id),
    {
        self.peers.contains(id)
    }

    /// A known peer.
    pub fn get(&self, id: &PeerId) -> (r: Option<&Peer>)
        requires
            self.wf(),
        ensures
            match r {
                Some(p) => self@.known.contains_key(*id) && p@ == self@.known[*id] && p.since()
                    == self@.since[*id],
                None => !self@.known.contains_key(*id),
            },
    {
        self.peers.get(id)
    }

    /// Adds a peer, or replaces the one with the same id, with an event.
    pub fn insert(&mut self, peer: Peer)
        requires
            old(self).wf(),
        ensures
            final(self).wf(),
            final(self)@ == (Peers {
                known: old(self)@.known.insert(peer@.id, peer@),
                since: old(self)@.since.insert(peer@.id, peer.since()),
                order: if old(self)@.known.contains_key(peer@.id) {
                    old(self)@.order
                } else {
                    old(self)@.order.push(peer@.id)
                },
                events: old(self)@.events.push(entry_event(peer@)),
            }),
    {
        let id: PeerId = peer.id();
        let underlay: SocketAddr = match peer.underlay_addr() {
            Some(a) => a,
            None => SocketAddr::v4(Ipv4Addr::unspecified(), 0),
        };
        self.events.push(PeerEvent::Discovered { id, underlay });
        self.peers.insert(id, peer);
        assert(self@.known =~= old(self)@.known.insert(peer@.id, peer@));
        assert(self@.since =~= old(self)@.since.insert(peer@.id, peer.since()));
    }

    /// Removes a peer, with an event if it was known.
    pub fn remove(&mut self, id: &PeerId) -> (r: Option<Peer>)
        requires
            old(self).wf(),
        ensures
            final(self).wf(),
            match r {
                Some(p) => old(self)@.known.contains_key(*id) && p@ == old(self)@.known[*id]
                    && p.since() == old(self)@.since[*id] && final(self)@ == (Peers {
                    known: old(self)@.known.remove(*id),
                    since: old(self)@.since.remove(*id),
                    order: crate::table::order_without(old(self)@.order, *id),
                    events: old(self)@.events.push(PeerEvent::Removed { id: *id }),
                }),
                None => !old(self)@.known.contains_key(*id) && final(self)@ == old(self)@,
            },
    {
        let r: Option<Peer> = self.peers.remove(id);
        if r.is_some() {
            self.events.push(PeerEvent::Removed { id: *id });
        }
        assert(self@.known =~= old(self)@.known.remove(*id));
        assert(self@.since =~= old(self)@.since.remove(*id));
        r
    }

    /// The ids of all known peers.
    pub fn ids(&self) -> (r: Vec<PeerId>)
        requires
            self.wf(),
        ensures
            r@ == self@.order,
            r@.no_duplicates(),
            forall|id: PeerId| r@.contains(id) <==> #[trigger] self@.known.contains_key(id),
    {
        proof {
            self.lemma_ok();
        }
        self.peers.keys()
    }

    /// A known peer, for changing what is known of it.
    pub fn get_mut(&mut self, id: &PeerId) -> (r: Option<&mut Peer>)
        requires
            old(self).wf(),
        ensures
            match r {
                Some(p) => {
                    &&& old(self)@.known.contains_key(*id)
                    &&& p@ == old(self)@.known[*id]
                    &&& p.since() == old(self)@.since[*id]
                    &&& final(p)@.id == *id ==> final(self).wf()
                    &&& final(self)@ == old(self)@.with_since(*id, final(p)@, final(p).since())
                },
                None => !old(self)@.known.contains_key(*id) && *final(self) == *old(self),
            },
    {
        let ghost before = self.peers@;
        match self.peers.get_mut(id) {
            Some(p) => {
                proof {
                    assert(before.insert(*id, *final(p)).map_values(|q: Peer| q@)
                        =~= before.map_values(|q: Peer| q@).insert(*id, (*final(p))@));
                    assert(before.insert(*id, *final(p)).map_values(|q: Peer| q.since())
                        =~= before.map_values(|q: Peer| q.since()).insert(
                        *id,
                        (*final(p)).since(),
                    ));
                }
                Some(p)
            },
            None => None,
        }
    }

    /// Notes the sighting of a peer at an address, as of now. Gives the peer, for
    /// changing what is known of it.
    pub fn discover(&mut self, id: PeerId, underlay: SocketAddr) -> (r: &mut Peer)
        requires
            old(self).wf(),
        ensures
            r@.id == id,
            final(r)@.id == id ==> final(self).wf(),
            exists|t: Instant|
                {
                    let seen = #[trigger] old(self)@.discovered(id, underlay, t);
                    &&& r@ == seen.known[id]
                    &&& r.since() == seen.since[id]
                    &&& final(self)@ == seen.with_since(id, final(r)@, final(r).since())
                },
    {
        let t: Instant = now();
        proof {
            self.lemma_ok();
        }
        self.discover_at(id, underlay, t);
        self.get_mut(&id).unwrap()
    }

    /// Notes the sighting of a peer at an address, as of a point in time.
    pub fn discover_at(&mut self, id: PeerId, underlay: SocketAddr, t: Instant)
        requires
            old(self).wf(),
        ensures
            final(self).wf(),
            final(self)@ == old(self)@.discovered(id, underlay, t),
    {
        proof {
            self.lemma_ok();
        }
        if let Some(p) = self.get_mut(&id) {
            p.set_underlay_addr(underlay);
            assert(self@.since =~= old(self)@.since);
        } else {
            let mut peer: Peer = Peer::new_at(id, Some(underlay), t);
            let _ = peer.transition_at(PeerState::Discovering, t);
            self.insert(peer);
        }
    }

    /// Takes a peer to `next`, if it is known and `next` may follow, as of now. A peer
    /// that is not known counts as dead.
    pub fn transition_peer(&mut self, id: &PeerId, next: PeerState) -> (r: Result<
        PeerState,
        TransitionError,
    >)
        requires
            old(self).wf(),
        ensures
            final(self).wf(),
            exists|t: Instant| final(self)@ == #[trigger] old(self)@.stepped(*id, next, t),
            match r {
                Ok(s) => s == next && old(self)@.may_go(*id, next),
                Err(e) => !old(self)@.may_go(*id, next) && e
                    == (TransitionError::InvalidTransition {
                    from: if old(self)@.known.contains_key(*id) {
                        old(self)@.known[*id].state
                    } else {
                        PeerState::Dead
                    },
                    to: next,
                }),
            },
    {
        let t: Instant = now();
        self.transition_peer_at(id, next, t)
    }

    /// Takes a peer to `next`, if it is known and `next` may follow, as of a point in
    /// time. A peer that is not known counts as dead.
    pub fn transition_peer_at(&mut self, id: &PeerId, next: PeerState, t: Instant) -> (r: Result<
        PeerState,
        TransitionError,
    >)
        requires
            old(self).wf(),
        ensures
            final(self).wf(),
            final(self)@ == old(self)@.stepped(*id, next, t),
            match r {
                Ok(s) => s == next && old(self)@.may_go(*id, next),
                Err(e) => !old(self)@.may_go(*id, next) && e
                    == (TransitionError::InvalidTransition {
                    from: if old(self)@.known.contains_key(*id) {
                        old(self)@.known[*id].state
                    } else {
                        PeerState::Dead
                    },
                    to: next,
                }),
            },
    {
        proof {
            self.lemma_ok();
        }
        let (from, result) = match self.get_mut(id) {
            Some(p) => {
                let from: PeerState = p.state();
                (from, p.transition_at(next, t))
            },
            None => return Err(
                TransitionError::InvalidTransition { from: PeerState::Dead, to: next },
            ),
        };
        match result {
            Ok(to) => {
                self.events.push(PeerEvent::StateChanged { id: *id, from, to });
                Ok(to)
            },
            Err(e) => {
                assert(self@.known =~= old(self)@.known);
                assert(self@.since =~= old(self)@.since);
                Err(e)
            },
        }
    }

    /// Takes a peer through the three steps from discovered to connected; steps
    /// that may not be taken are left out.
    pub fn bring_up_at(&mut self, id: &PeerId, t: Instant)
        requires
            old(self).wf(),
        ensures
            final(self).wf(),
            final(self)@ == old(self)@.brought_up(*id, t),
    {
        let _ = self.transition_peer_at(id, PeerState::Connecting, t);
        let _ = self.transition_peer_at(id, PeerState::Handshaking, t);
        let _ = self.transition_peer_at(id, PeerState::Connected, t);
    }

    /// Gives a known peer an overlay address, with an event.
    pub fn assign_overlay(&mut self, id: &PeerId, overlay: OverlayAddr) -> (r: bool)
        requires
            old(self).wf(),
        ensures
            final(self).wf(),
            r == old(self)@.known.contains_key(*id),
            final(self)@ == (if r {
                Peers {
                    events: old(self)@.events.push(PeerEvent::OverlayAssigned { id: *id, overlay }),
                    ..old(self)@.with(
                        *id,
                        PeerInfo { overlay_addr: Some(overlay), ..old(self)@.known[*id] },
                    )
                }
            } else {
                old(self)@
            }),
    {
        proof {
            self.lemma_ok();
        }
        let known: bool = match self.get_mut(id) {
            Some(p) => {
                p.set_overlay_addr(overlay);
                true
            },
            None => false,
        };
        if known {
            self.events.push(PeerEvent::OverlayAssigned { id: *id, overlay });
            assert(self@.since =~= old(self)@.since);
        }
        known
    }

    /// The ids of the connected peers.
    pub fn connected_peers(&self) -> (r: Vec<PeerId>)
        requires
            self.wf(),
        ensures
            r@ == self@.order.filter(is_connected(self@.known)),
            forall|id: PeerId|
                r@.contains(id) <==> (#[trigger] self@.known.contains_key(id)
                    && self@.known[id].state == PeerState::Connected),
    {
        let ghost f = is_connected(self@.known);
        let ghost order = self@.order;
        let mut r: Vec<PeerId> = Vec::new();
        let n: usize = self.peers.len();
        let mut i: usize = 0;
        assert(order.take(0).filter(f) =~= Seq::empty()) by {
            reveal(Seq::filter);
        }
        while i < n
            invariant
                i <= n,
                n == self.peers.list().len(),
                self.wf(),
                order == self@.order,
                f == is_connected(self@.known),
                r@ == order.take(i as int).filter(f),
            decreases n - i,
        {
            let (id, p) = self.peers.entry(i);
            proof {
                assert(order[i as int] == id);
                assert(order.take(i + 1).drop_last() =~= order.take(i as int));
                reveal(Seq::filter);
            }
            if p.state() == PeerState::Connected {
                r.push(id);
            }
            i = i + 1;
        }
        assert(order.take(n as int) =~= order);
        proof {
            self.lemma_ok();
            assert forall|id: PeerId|
                r@.contains(id) <==> (#[trigger] self@.known.contains_key(id)
                    && self@.known[id].state == PeerState::Connected) by {
                if self@.known.contains_key(id) && f(id) {
                    assert(order.contains(id));
                    let i = order.index_of(id);
                    order.lemma_filter_contains(f, i);
                }
                if r@.contains(id) {
                    order.lemma_filter_contains_rev(f, id);
                    let i = r@.index_of(id);
                    order.lemma_filter_pred(f, i);
                }
            }
        }
        r
    }
}

impl Default for PeerManager {
    fn default() -> (r: PeerManager)
        ensures
            r.wf(),
            r@ == Peers::none(),
    {
        PeerManager::new()
    }
}

/// A newly sighted peer that is then brought up is connected.
pub proof fn new_peer_comes_up(
    peers: Peers,
    id: PeerId,
    underlay: SocketAddr,
    seen: Instant,
    up: Instant,
)
    requires
        !peers.known.contains_key(id),
    ensures
        ({
            let after = peers.discovered(id, underlay, seen).brought_up(id, up);
            &&& after.known[id].state == PeerState::Connected
            &&& after.known[id].underlay_addr == Some(underlay)
            &&& after.since[id] == up
        }),
{
}

/// Sightings and steps concern one peer: what is known of others stays, and so does
/// the time since which they are in their states.
pub proof fn others_unchanged(
    peers: Peers,
    id: PeerId,
    underlay: SocketAddr,
    next: PeerState,
    t: Instant,
    other: PeerId,
)
    requires
        peers.ok(),
        other != id,
        peers.known.contains_key(other),
    ensures
        peers.discovered(id, underlay, t).known.contains_key(other),
        peers.discovered(id, underlay, t).known[other] == peers.known[other],
        peers.discovered(id, underlay, t).since[other] == peers.since[other],
        peers.stepped(id, next, t).known.contains_key(other),
        peers.stepped(id, next, t).known[other] == peers.known[other],
        peers.stepped(id, next, t).since[other] == peers.since[other],
{
}

/// A sighting of a known peer leaves the peer in its state since then, and so does a
/// step that it may not take.
pub proof fn state_time_stays(
    peers: Peers,
    id: PeerId,
    underlay: SocketAddr,
    next: PeerState,
    t: Instant,
)
    requires
        peers.known.contains_key(id),
    ensures
        peers.discovered(id, underlay, t).known[id].state == peers.known[id].state,
        peers.discovered(id, underlay, t).since == peers.since,
        !crate::state::may_follow(peers.known[id].state, next) ==> peers.stepped(id, next, t)
            == peers,
{
}


/// Discovering a stranger makes it known under its address, in the second stage of the
/// way up, last in the list of peers, and tells so once; nobody else changes.
pub proof fn strangers_become_known(
    peers: Peers,
    id: PeerId,
    underlay: SocketAddr,
    t: Instant,
    other: PeerId,
)
    requires
        !peers.known.contains_key(id),
        other != id,
    ensures
        ({
            let after = peers.discovered(id, underlay, t);
            &&& after.known.contains_key(id)
            &&& after.known[id].id == id
            &&& after.known[id].state == PeerState::Discovering
            &&& after.known[id].underlay_addr == Some(underlay)
            &&& after.known[id].overlay_addr is None
            &&& after.known[id].overlay_ipv6 is None
            &&& after.known[id].public_addr is None
            &&& after.known[id].latency_ms is None
            &&& after.known[id].hostname.len() == 0
            &&& after.known[id].path_kind == crate::peer::PathKind::Direct
            &&& after.since[id] == t
            &&& after.order == peers.order.push(id)
            &&& after.events == peers.events.push(PeerEvent::Discovered { id, underlay })
            &&& after.known.contains_key(other) == peers.known.contains_key(other)
            &&& after.known[other] == peers.known[other]
        }),
{
}

/// Discovering a known peer again gives it the new address and changes nothing else:
/// its state, its place in the list and the events stay.
pub proof fn known_peers_get_the_new_address(
    peers: Peers,
    id: PeerId,
    underlay: SocketAddr,
    t: Instant,
)
    requires
        peers.known.contains_key(id),
    ensures
        ({
            let (before, after) = (peers.known[id], peers.discovered(id, underlay, t));
            &&& after.known.dom() =~= peers.known.dom()
            &&& after.known[id].underlay_addr == Some(underlay)
            &&& after.known[id].id == before.id
            &&& after.known[id].state == before.state
            &&& after.known[id].overlay_addr == before.overlay_addr
            &&& after.known[id].overlay_ipv6 == before.overlay_ipv6
            &&& after.known[id].public_addr == before.public_addr
            &&& after.known[id].hostname == before.hostname
            &&& after.known[id].latency_ms == before.latency_ms
            &&& after.known[id].path_kind == before.path_kind
            &&& after.order == peers.order
            &&& after.events == peers.events
            &&& after.since == peers.since
        }),
{
}

/// A step to the next stage, or back to the first, is taken, timed and told with where
/// it came from and where it went; the rest of the peer stays. Any other step leaves
/// everything as it is.
pub proof fn steps_are_told(peers: Peers, id: PeerId, next: PeerState, t: Instant)
    requires
        peers.known.contains_key(id),
    ensures
        ({
            let before = peers.known[id];
            let after = peers.stepped(id, next, t);
            if crate::state::stage(next) == crate::state::stage(before.state) + 1 || (
            crate::state::stage(next) == 0 && crate::state::stage(before.state) > 0) {
                &&& after.known[id].state == next
                &&& after.known[id].id == before.id
                &&& after.known[id].underlay_addr == before.underlay_addr
                &&& after.known[id].overlay_addr == before.overlay_addr
                &&& after.known[id].overlay_ipv6 == before.overlay_ipv6
                &&& after.known[id].public_addr == before.public_addr
                &&& after.known[id].hostname == before.hostname
                &&& after.known[id].latency_ms == before.latency_ms
                &&& after.known[id].path_kind == before.path_kind
                &&& after.since[id] == t
                &&& after.events == peers.events.push(
                    PeerEvent::StateChanged { id, from: before.state, to: next },
                )
                &&& after.order == peers.order
            } else {
                after == peers
            }
        }),
{
}

/// A peer that was only discovered is brought up through three told steps to connected.
pub proof fn coming_up_is_told_step_by_step(peers: Peers, id: PeerId, t: Instant)
    requires
        peers.known.contains_key(id),
        peers.known[id].state == PeerState::Discovering,
    ensures
        ({
            let after = peers.brought_up(id, t);
            &&& after.known[id].state == PeerState::Connected
            &&& after.since[id] == t
            &&& after.order == peers.order
            &&& after.events == peers.events + seq![
                PeerEvent::StateChanged {
                    id,
                    from: PeerState::Discovering,
                    to: PeerState::Connecting,
                },
                PeerEvent::StateChanged {
                    id,
                    from: PeerState::Connecting,
                    to: PeerState::Handshaking,
                },
                PeerEvent::StateChanged {
                    id,
                    from: PeerState::Handshaking,
                    to: PeerState::Connected,
                },
            ]
        }),
{
}

/// A peer that is connected already stays as it is when it is brought up.
pub proof fn connected_peers_stay_up(peers: Peers, id: PeerId, t: Instant)
    requires
        peers.known.contains_key(id),
        peers.known[id].state == PeerState::Connected,
    ensures
        peers.brought_up(id, t) == peers,
{
}
} // verus!
