//! A running node, as a state machine. Packets, timers and outcomes come in as
//! calls; what the node wants done goes out as a list of [`Output`]s. The model
//! of it is [`NodeState`].
use crate::claim::{self, make_claim};
use crate::clock::now;
use crate::constants::HOLE_PUNCH_PROBE_PREFIX;
use crate::derive::{derive_overlay_addr, derive_overlay_ipv6};
use crate::device::DeviceKeys;
use crate::error::Error;
use crate::manager::{PeerEvent, PeerManager, Peers};
use crate::message::{deserialize_message, serialize_message, Message, Msg};
use crate::net::{Ipv4Addr, Ipv6Addr, SocketAddr};
use crate::node_state::{
    Effect, Entry, Link, NodeState, HANDSHAKE_FINAL_PREFIX, HANDSHAKE_INITIATOR_PREFIX,
    HANDSHAKE_RESPONDER_PREFIX, HANDSHAKE_TIMEOUT_NANOS, MAX_HOP_REBROADCAST, MAX_WAITING_PACKETS,
};
use crate::noise::{
    HandshakeResult, InitiatorHandshake, NoiseSession, ResponderHandshake, SecureTransport,
};
use crate::peer::PathKind;
use crate::punch::{ack_bytes, probe_bytes, random_u64};
use crate::reach::is_publicly_routable;
use crate::routing::{parse_ipv4_packet, RoutingTable};
use crate::table::{Rows, Table};
use crate::text::{copy_bytes, has_prefix, push_bytes, sub_bytes};
use crate::transport::TransportAddr;
use crate::types::{NetworkSecret, OverlayAddr, PeerId};
use std::time::Instant;
use vstd::prelude::*;

verus! {

// ---------------------------------------------------------------------------
// Parts
// ---------------------------------------------------------------------------
/// What a node asks the world to do.
#[allow(inconsistent_fields)]
#[derive(Debug, PartialEq, Eq)]
pub enum Output {
    /// Send a packet.
    Send { to: TransportAddr, bytes: Vec<u8> },
    /// Send a packet that begins a handshake over UDP. If that fails, say so with
    /// [`Node::call_failed`].
    Call { to: SocketAddr, bytes: Vec<u8> },
    /// Send the last packet of a handshake over UDP, and report with
    /// [`Node::finish_handshake`].
    Finish { to: SocketAddr, bytes: Vec<u8> },
    /// Hand an IP packet to the TUN device.
    Tun(Vec<u8>),
}

impl View for Output {
    type V = Effect;

    open spec fn view(&self) -> Effect {
        match self {
            Output::Send { to, bytes } => Effect::Send { to: *to, bytes: bytes@ },
            Output::Call { to, bytes } => Effect::Call { to: *to, bytes: bytes@ },
            Output::Finish { to, bytes } => Effect::Finish { to: *to, bytes: bytes@ },
            Output::Tun(bytes) => Effect::Tun(bytes@),
        }
    }
}

/// What a list of outputs asks for.
pub open spec fn effects(out: Seq<Output>) -> Seq<Effect> {
    out.map_values(|o: Output| o@)
}

/// A session with a peer, and where the peer is.
pub struct PeerSession {
    transport: SecureTransport,
    underlay: TransportAddr,
}

impl PeerSession {
    closed spec fn link(&self) -> Link {
        Link { session: self.transport.session(), underlay: self.underlay }
    }
}

/// A handshake begun by us.
struct Caller {
    handshake: InitiatorHandshake,
    started: u64,
}

/// A handshake that we answered.
struct Answerer {
    handshake: ResponderHandshake,
    started: u64,
}

/// A handshake begun by us whose last message is being sent.
struct Closer {
    peer: PeerId,
    transport: SecureTransport,
}

spec fn links(m: Map<PeerId, PeerSession>) -> Map<PeerId, Link> {
    m.map_values(|s: PeerSession| s.link())
}

spec fn callers(m: Map<SocketAddr, Caller>) -> Map<SocketAddr, (Seq<u8>, u64)> {
    m.map_values(|c: Caller| (c.handshake@.transcript[0], c.started))
}

spec fn answerers(m: Map<SocketAddr, Answerer>) -> Map<SocketAddr, (Seq<u8>, Seq<u8>, u64)> {
    m.map_values(
        |a: Answerer| (a.handshake@.transcript[0], a.handshake@.transcript[1], a.started),
    )
}

spec fn closers(m: Map<SocketAddr, Closer>) -> Map<SocketAddr, (PeerId, NoiseSession)> {
    m.map_values(|c: Closer| (c.peer, c.transport.session()))
}

spec fn sessions_of(m: Map<PeerId, SecureTransport>) -> Map<PeerId, NoiseSession> {
    m.map_values(|t: SecureTransport| t.session())
}

spec fn packets(v: Seq<Vec<u8>>) -> Seq<Seq<u8>> {
    v.map_values(|p: Vec<u8>| p@)
}

spec fn waiters(m: Map<PeerId, Vec<Vec<u8>>>) -> Map<PeerId, Seq<Seq<u8>>> {
    m.map_values(|v: Vec<Vec<u8>>| packets(v@))
}

spec fn knockers(m: Map<PeerId, Caller>) -> Map<PeerId, (Seq<u8>, u64)> {
    m.map_values(|c: Caller| (c.handshake@.transcript[0], c.started))
}

spec fn openers(m: Map<PeerId, ResponderHandshake>) -> Map<PeerId, (Seq<u8>, Seq<u8>)> {
    m.map_values(|h: ResponderHandshake| (h@.transcript[0], h@.transcript[1]))
}

/// A running node.
pub struct Node {
    id: PeerId,
    overlay: OverlayAddr,
    overlay_ipv6: Ipv6Addr,
    hostname: String,
    network: NetworkSecret,
    keys: DeviceKeys,
    claim: Vec<u8>,
    public: Option<SocketAddr>,
    can_relay: bool,
    sessions: Table<PeerId, PeerSession>,
    by_addr: Table<TransportAddr, PeerId>,
    relays: Table<PeerId, SocketAddr>,
    paths: Table<PeerId, (PeerId, u8)>,
    routes: RoutingTable,
    peers: PeerManager,
    calling: Table<SocketAddr, Caller>,
    answering: Table<SocketAddr, Answerer>,
    closing: Table<SocketAddr, Closer>,
    outward: Table<PeerId, SecureTransport>,
    inward: Table<PeerId, SecureTransport>,
    knocking: Table<PeerId, Caller>,
    opening: Table<PeerId, ResponderHandshake>,
    waiting: Table<PeerId, Vec<Vec<u8>>>,
    clock: Instant,
    out: Vec<Output>,
}

impl View for Node {
    type V = NodeState;

    closed spec fn view(&self) -> NodeState {
        NodeState {
            id: self.id,
            overlay: self.overlay,
            overlay_ipv6: self.overlay_ipv6,
            hostname: self.hostname@,
            network: self.network@,
            device: self.keys.seed(),
            secret: self.keys.noise_secret(),
            claim: self.claim@,
            public: self.public,
            can_relay: self.can_relay,
            sessions: Rows { map: links(self.sessions@), order: self.sessions.order() },
            by_addr: self.by_addr@,
            relays: self.relays.rows(),
            paths: self.paths.rows(),
            routes: self.routes@,
            peers: self.peers@,
            calling: callers(self.calling@),
            answering: answerers(self.answering@),
            closing: closers(self.closing@),
            outward: sessions_of(self.outward@),
            inward: sessions_of(self.inward@),
            knocking: knockers(self.knocking@),
            opening: openers(self.opening@),
            waiting: waiters(self.waiting@),
            clock: self.clock,
            out: effects(self.out@),
        }
    }
}

impl Node {
    // -----------------------------------------------------------------------
    // Invariant
    // -----------------------------------------------------------------------
    /// All tables are in order; each session is one of this library's; each handshake
    /// under way is in our network with our key and has seen the messages that it
    /// should have; our claim proves our id.
    pub closed spec fn wf(&self) -> bool {
        &&& self.sessions.wf()
        &&& self.by_addr.wf()
        &&& self.relays.wf()
        &&& self.paths.wf()
        &&& self.routes.wf()
        &&& self.peers.wf()
        &&& self.calling.wf()
        &&& self.answering.wf()
        &&& self.closing.wf()
        &&& self.outward.wf()
        &&& self.inward.wf()
        &&& self.knocking.wf()
        &&& self.opening.wf()
        &&& self.waiting.wf()
        &&& self.id@ == crate::device::ed25519_public(self.keys.seed())
        &&& self.claim@ == crate::claim::claim_of(self.keys.seed())
        &&& self.claim@.len() == 96
        &&& crate::claim::claimed_id(
            self.claim@,
            crate::device::x25519_public(self.keys.noise_secret()),
        ) == Some(self.id)
        &&& self.can_relay == (self.public matches Some(a) && crate::reach::publicly_routable(a))
        &&& forall|id: PeerId| #[trigger]
            self.sessions@.contains_key(id) ==> self.sessions@[id].transport.wf()
        &&& forall|a: SocketAddr| #[trigger]
            self.calling@.contains_key(a) ==> self.caller_ok(self.calling@[a].handshake)
        &&& forall|a: SocketAddr| #[trigger]
            self.answering@.contains_key(a) ==> self.answerer_ok(self.answering@[a].handshake)
        &&& forall|a: SocketAddr| #[trigger]
            self.closing@.contains_key(a) ==> self.closing@[a].transport.wf()
        &&& forall|id: PeerId| #[trigger]
            self.outward@.contains_key(id) ==> self.outward@[id].wf()
        &&& forall|id: PeerId| #[trigger]
            self.inward@.contains_key(id) ==> self.inward@[id].wf()
        &&& forall|id: PeerId| #[trigger]
            self.knocking@.contains_key(id) ==> self.caller_ok(self.knocking@[id].handshake)
        &&& forall|id: PeerId| #[trigger]
            self.opening@.contains_key(id) ==> self.answerer_ok(self.opening@[id])
    }

    spec fn caller_ok(&self, h: InitiatorHandshake) -> bool {
        &&& h.wf()
        &&& h@.prologue == self.network@
        &&& h@.secret == self.keys.noise_secret()
        &&& h@.transcript.len() == 1
    }

    spec fn answerer_ok(&self, h: ResponderHandshake) -> bool {
        &&& h.wf()
        &&& h@.prologue == self.network@
        &&& h@.secret == self.keys.noise_secret()
        &&& h@.transcript.len() == 2
    }

    /// What holds of every node.
    pub proof fn lemma_ok(&self)
        requires
            self.wf(),
        ensures
            self@.ok(),
    {
        self.sessions.lemma_list();
        self.relays.lemma_list();
        self.paths.lemma_list();
        self.peers.lemma_ok();
        assert forall|k: PeerId| self@.sessions.order.contains(k) <==> #[trigger]
            self@.sessions.map.contains_key(k) by {
            assert(self.sessions.order().contains(k) <==> self.sessions@.contains_key(k));
        }
    }

    // -----------------------------------------------------------------------
    // Beginning
    // -----------------------------------------------------------------------
    /// A node of the network of `network` with the given keys, before anything
    /// has happened. Its id is its Ed25519 public key, and its overlay addresses
    /// come from its id.
    pub fn new(network: NetworkSecret, keys: DeviceKeys, hostname: String) -> (r: Node)
        ensures
            r.wf(),
            r@.is_new(network@, keys.seed(), hostname@),
    {
        let id: PeerId = keys.peer_id();
        let claim: Vec<u8> = make_claim(&keys);
        proof {
            let proved = crate::claim::claimed_id(
                claim@,
                crate::device::x25519_public(keys.noise_secret()),
            )->Some_0;
            crate::types::peer_id_by_bytes(proved, id);
        }
        let r: Node = Node {
            id,
            overlay: derive_overlay_addr(&id),
            overlay_ipv6: derive_overlay_ipv6(&id),
            hostname,
            network,
            keys,
            claim,
            public: None,
            can_relay: false,
            sessions: Table::new(),
            by_addr: Table::new(),
            relays: Table::new(),
            paths: Table::new(),
            routes: RoutingTable::new(),
            peers: PeerManager::new(),
            calling: Table::new(),
            answering: Table::new(),
            closing: Table::new(),
            outward: Table::new(),
            inward: Table::new(),
            knocking: Table::new(),
            opening: Table::new(),
            waiting: Table::new(),
            clock: now(),
            out: Vec::new(),
        };
        proof {
            assert(r@.sessions =~= Rows::<PeerId, Link>::empty());
            assert(r@.relays =~= Rows::<PeerId, SocketAddr>::empty());
            assert(r@.paths =~= Rows::<PeerId, (PeerId, u8)>::empty());
            assert(r@.calling =~= Map::empty());
            assert(r@.answering =~= Map::empty());
            assert(r@.closing =~= Map::empty());
            assert(r@.outward =~= Map::empty());
            assert(r@.inward =~= Map::empty());
            assert(r@.knocking =~= Map::empty());
            assert(r@.opening =~= Map::empty());
            assert(r@.waiting =~= Map::empty());
            assert(r@.by_addr =~= Map::empty());
            assert(r@.out =~= Seq::empty());
        }
        r
    }

    // -----------------------------------------------------------------------
    // Sending
    // -----------------------------------------------------------------------
    fn emit(&mut self, o: Output)
        requires
            old(self).wf(),
        ensures
            final(self).wf(),
            final(self)@ == old(self)@.emitted(o@),
    {
        self.out.push(o);
        assert(effects(self.out@) =~= effects(old(self).out@).push(o@));
    }

    fn send_to(&mut self, peer: &PeerId, to: TransportAddr, m: &Message)
        requires
            old(self).wf(),
        ensures
            final(self).wf(),
            final(self)@ == old(self)@.sent_to(*peer, to, m@),
    {
        let ghost before = self.sessions@;
        let plain: Vec<u8> = serialize_message(m);
        let result = match self.sessions.get_mut(peer) {
            Some(s) => s.transport.encrypt(plain.as_slice()),
            None => return,
        };
        match result {
            Ok(c) => {
                self.out.push(Output::Send { to, bytes: c });
                proof {
                    assert(links(self.sessions@) =~= links(before).insert(
                        *peer,
                        self.sessions@[*peer].link(),
                    ));
                    assert(effects(self.out@) =~= effects(old(self).out@).push(
                        self.out@.last()@,
                    ));
                    assert(self@ =~= old(self)@.sent_to(*peer, to, m@));
                }
            },
            Err(_) => {
                assert(links(self.sessions@) =~= links(before));
            },
        }
    }

    fn send(&mut self, peer: &PeerId, m: &Message)
        requires
            old(self).wf(),
        ensures
            final(self).wf(),
            final(self)@ == old(self)@.sent(*peer, m@),
    {
        let to: TransportAddr = match self.sessions.get(peer) {
            Some(s) => s.underlay,
            None => return,
        };
        self.send_to(peer, to, m);
    }

    fn tell(&mut self, peers: &Vec<PeerId>, m: &Message)
        requires
            old(self).wf(),
        ensures
            final(self).wf(),
            final(self)@ == old(self)@.told(peers@, m@),
    {
        let mut i: usize = 0;
        while i < peers.len()
            invariant
                self.wf(),
                i <= peers@.len(),
                self@ == old(self)@.told(peers@.take(i as int), m@),
            decreases peers.len() - i,
        {
            self.send(&peers[i], m);
            i = i + 1;
            assert(peers@.take(i as int).drop_last() =~= peers@.take(i - 1));
        }
        assert(peers@.take(i as int) =~= peers@);
    }

    fn tell_entries(&mut self, peers: &Vec<PeerId>, entries: &Vec<Entry>)
        requires
            old(self).wf(),
        ensures
            final(self).wf(),
            final(self)@ == old(self)@.told_entries(peers@, entries@),
    {
        let mut i: usize = 0;
        while i < peers.len()
            invariant
                self.wf(),
                i <= peers@.len(),
                self@ == old(self)@.told_entries(peers@.take(i as int), entries@),
            decreases peers.len() - i,
        {
            let own: Vec<Entry> = without_entries(entries, &peers[i]);
            if own.len() > 0 {
                self.send(&peers[i], &Message::PeerDirectory { entries: own });
            }
            i = i + 1;
            assert(peers@.take(i as int).drop_last() =~= peers@.take(i - 1));
        }
        assert(peers@.take(i as int) =~= peers@);
    }

    // -----------------------------------------------------------------------
    // Directories
    // -----------------------------------------------------------------------
    fn direct_entries(&self, ids: &Vec<PeerId>) -> (r: Vec<Entry>)
        requires
            self.wf(),
            forall|i: int| 0 <= i < ids@.len() ==> self@.sessions.has(#[trigger] ids@[i]),
        ensures
            r@ == self@.direct_entries(ids@),
    {
        let mut r: Vec<Entry> = Vec::new();
        let mut i: usize = 0;
        while i < ids.len()
            invariant
                self.wf(),
                i <= ids@.len(),
                forall|i: int| 0 <= i < ids@.len() ==> self@.sessions.has(#[trigger] ids@[i]),
                r@ == self@.direct_entries(ids@.take(i as int)),
            decreases ids.len() - i,
        {
            let id: PeerId = ids[i];
            assert(self@.sessions.has(ids@[i as int]));
            if let Some(s) = self.sessions.get(&id) {
                if let TransportAddr::Udp(a) = s.underlay {
                    r.push((id, a, 1));
                }
            }
            i = i + 1;
            assert(ids@.take(i as int).drop_last() =~= ids@.take(i - 1));
        }
        assert(ids@.take(i as int) =~= ids@);
        r
    }

    fn with_indirect(&self, entries: Vec<Entry>, skip: &PeerId) -> (r: Vec<Entry>)
        requires
            self.wf(),
        ensures
            r@ == self@.with_indirect(entries@, self@.paths.order, *skip),
    {
        let mut r: Vec<Entry> = entries;
        let n: usize = self.paths.len();
        let mut i: usize = 0;
        let ghost order = self@.paths.order;
        while i < n
            invariant
                self.wf(),
                i <= n,
                n == self.paths.list().len(),
                order == self@.paths.order,
                r@ == self@.with_indirect(entries@, order.take(i as int), *skip),
            decreases n - i,
        {
            let (id, path) = self.paths.entry(i);
            proof {
                assert(order[i as int] == id);
                assert(order.take(i + 1).drop_last() =~= order.take(i as int));
            }
            if id != *skip && !has_entry(&r, &id) {
                if let Some(p) = self.peers.get(&id) {
                    if let Some(a) = p.public_addr() {
                        r.push((id, a, path.1));
                    }
                }
            }
            i = i + 1;
        }
        assert(order.take(n as int) =~= order);
        r
    }

    // -----------------------------------------------------------------------
    // Sessions
    // -----------------------------------------------------------------------
    fn enter(&mut self, peer: PeerId, transport: SecureTransport, underlay: TransportAddr)
        requires
            old(self).wf(),
            transport.wf(),
        ensures
            final(self).wf(),
            final(self)@ == old(self)@.entered(peer, transport.session(), underlay),
    {
        let ghost before = self.sessions@;
        self.paths.remove(&peer);
        let session: PeerSession = PeerSession { transport, underlay };
        self.sessions.insert(peer, session);
        self.by_addr.insert(underlay, peer);
        self.routes.add_route(derive_overlay_addr(&peer), peer);
        proof {
            assert(links(self.sessions@) =~= links(before).insert(peer, session.link()));
            assert(self@ =~= old(self)@.entered(peer, transport.session(), underlay));
        }
    }

    fn introduction(&self) -> (m: Message)
        ensures
            m@ == self@.introduction(),
    {
        let mut hostname: String = String::new();
        crate::text::push_text(&mut hostname, self.hostname.as_str());
        assert(hostname@ =~= self.hostname@);
        Message::SessionInit {
            overlay: self.overlay,
            overlay_ipv6: Some(self.overlay_ipv6.octets()),
            hostname,
            public_addr: self.public,
        }
    }

    fn greet(&mut self, peer: &PeerId, to: TransportAddr)
        requires
            old(self).wf(),
        ensures
            final(self).wf(),
            final(self)@ == old(self)@.greeted(*peer, to),
    {
        let m: Message = self.introduction();
        self.send_to(peer, to, &m);
        if self.can_relay {
            if let Some(a) = self.public {
                let announce: Message = Message::RelayAnnounce {
                    relay_peer_id: self.id,
                    public_addr: a,
                };
                self.send_to(peer, to, &announce);
            }
        }
    }

    fn note(&mut self, peer: PeerId, at: SocketAddr)
        requires
            old(self).wf(),
        ensures
            final(self).wf(),
            final(self)@ == old(self)@.noted(peer, at),
    {
        self.peers.discover_at(peer, at, self.clock);
        self.peers.bring_up_at(&peer, self.clock);
    }

    fn flush(&mut self, peer: &PeerId)
        requires
            old(self).wf(),
        ensures
            final(self).wf(),
            final(self)@ == old(self)@.flushed(*peer),
    {
        let waiting: Vec<Vec<u8>> = self.take_waiting(peer);
        let ghost start = self@;
        let ghost all = packets(waiting@);
        let mut i: usize = 0;
        assert(all.take(0) =~= Seq::empty());
        while i < waiting.len()
            invariant
                self.wf(),
                i <= waiting@.len(),
                all == packets(waiting@),
                self@ == start.sent_all(*peer, all.take(i as int)),
            decreases waiting.len() - i,
        {
            self.send(peer, &Message::Data(copy_bytes(waiting[i].as_slice())));
            i = i + 1;
            assert(all.take(i as int).drop_last() =~= all.take(i - 1));
        }
        assert(all.take(i as int) =~= all);
    }

    fn take_waiting(&mut self, peer: &PeerId) -> (r: Vec<Vec<u8>>)
        requires
            old(self).wf(),
        ensures
            final(self).wf(),
            packets(r@) == old(self)@.held(*peer),
            final(self)@ == (NodeState {
                waiting: old(self)@.waiting.remove(*peer),
                ..old(self)@
            }),
    {
        let ghost before = self.waiting@;
        let r: Vec<Vec<u8>> = match self.waiting.remove(peer) {
            Some(v) => v,
            None => Vec::new(),
        };
        proof {
            assert(waiters(self.waiting@) =~= waiters(before).remove(*peer));
            assert(packets(r@) =~= old(self)@.held(*peer));
        }
        r
    }

    /// Ids of the peers with a session, without one of them.
    fn others(&self, id: &PeerId) -> (r: Vec<PeerId>)
        requires
            self.wf(),
        ensures
            r@ == crate::node_state::ids_without(self@.sessions.order, *id),
            forall|i: int| 0 <= i < r@.len() ==> self@.sessions.has(#[trigger] r@[i]),
    {
        let all: Vec<PeerId> = self.sessions.keys();
        let r: Vec<PeerId> = without_id(&all, id);
        proof {
            self.lemma_ok();
            let f = crate::node_state::is_not(*id);
            assert forall|i: int| 0 <= i < r@.len() implies self@.sessions.has(#[trigger] r@[i]) by {
                assert(all@.filter(f).contains(r@[i]));
                all@.lemma_filter_contains_rev(f, r@[i]);
                assert(self@.sessions.order.contains(r@[i]));
            }
        }
        r
    }

    fn show_around(&mut self, peer: &PeerId, to: TransportAddr)
        requires
            old(self).wf(),
        ensures
            final(self).wf(),
            final(self)@ == old(self)@.shown_around(*peer, to),
    {
        if self.can_relay && self.public.is_some() {
            let ids: Vec<PeerId> = self.others(peer);
            let entries: Vec<Entry> = self.direct_entries(&ids);
            if entries.len() > 0 {
                self.send_to(peer, to, &Message::PeerDirectory { entries });
            }
        }
    }

    fn join_by(&mut self, peer: PeerId, transport: SecureTransport, from: TransportAddr)
        requires
            old(self).wf(),
            transport.wf(),
        ensures
            final(self).wf(),
            final(self)@ == old(self)@.joined_by(peer, transport.session(), from),
    {
        self.enter(peer, transport, from);
        self.greet(&peer, from);
        self.note(peer, from.socket_addr());
        self.flush(&peer);
    }

    fn join(&mut self, peer: PeerId, transport: SecureTransport, at: SocketAddr)
        requires
            old(self).wf(),
            transport.wf(),
        ensures
            final(self).wf(),
            final(self)@ == old(self)@.joined(peer, transport.session(), at),
    {
        let to: TransportAddr = TransportAddr::Udp(at);
        self.enter(peer, transport, to);
        self.greet(&peer, to);
        self.show_around(&peer, to);
        self.note(peer, at);
        self.flush(&peer);
    }
}

// ---------------------------------------------------------------------------
// Handshakes
// ---------------------------------------------------------------------------
impl Node {
    /// Begins a handshake with an address, and says whether it did: it does unless
    /// one is under way. It fails, and changes nothing, only if message A could not
    /// be written, for want of randomness.
    pub fn start_handshake(&mut self, to: SocketAddr, now_ns: u64) -> (r: Result<bool, Error>)
        requires
            old(self).wf(),
        ensures
            final(self).wf(),
            match r {
                Ok(true) => {
                    &&& !old(self)@.calling.contains_key(to)
                    &&& exists|a: Seq<u8>| #[trigger]
                        old(self)@.is_message_a(a) && final(self)@ == old(self)@.called(
                            to,
                            a,
                            now_ns,
                        )
                },
                Ok(false) => old(self)@.calling.contains_key(to) && final(self)@ == old(self)@,
                Err(e) => crate::noise::handshake_error(e, "msg A write: "@) && final(self)@ == old(
                    self,
                )@,
            },
    {
        match self.begin() {
            Ok((handshake, a)) => {
                assert(self@.is_message_a(a@));
                self.call_with(to, handshake, Ok(a), now_ns)
            },
            Err(e) => Err(e),
        }
    }

    /// A handshake with its message A.
    fn begin(&self) -> (r: Result<(InitiatorHandshake, Vec<u8>), Error>)
        ensures
            match r {
                Ok((h, a)) => {
                    &&& self@.is_message_a(a@)
                    &&& h.wf()
                    &&& h@.prologue == self@.network
                    &&& h@.secret == self@.secret
                    &&& h@.transcript == seq![a@]
                },
                Err(e) => crate::noise::handshake_error(e, "msg A write: "@),
            },
    {
        let none: [u8; 0] = [];
        let mut handshake: InitiatorHandshake = match InitiatorHandshake::new(
            &self.network,
            &self.keys,
        ) {
            Ok(h) => h,
            Err(e) => return Err(e),
        };
        assert(none@ =~= Seq::empty());
        assert(handshake@.transcript =~= Seq::empty());
        match handshake.write_message_a(none.as_slice()) {
            Ok(a) => {
                assert(handshake@.transcript =~= seq![a@]);
                Ok((handshake, a))
            },
            Err(e) => Err(e),
        }
    }

    /// An answer to message A: the handshake, and message B with our claim.
    fn reply(&self, a: &[u8]) -> (r: Result<(ResponderHandshake, Vec<u8>), Error>)
        requires
            self.wf(),
        ensures
            match r {
                Ok((h, b)) => {
                    &&& self@.accepts_a(a@)
                    &&& self@.is_message_b(a@, b@)
                    &&& h.wf()
                    &&& h@.prologue == self@.network
                    &&& h@.secret == self@.secret
                    &&& h@.transcript == seq![a@, b@]
                },
                Err(e) => self@.is_unanswered(a@, e),
            },
    {
        let mut handshake: ResponderHandshake = match ResponderHandshake::new(
            &self.network,
            &self.keys,
        ) {
            Ok(h) => h,
            Err(e) => return Err(e),
        };
        assert(handshake@.transcript =~= Seq::empty());
        match handshake.read_message_a(a) {
            Ok(_) => {},
            Err(e) => return Err(e),
        }
        assert(handshake@.transcript =~= seq![a@]);
        match handshake.write_message_b(self.claim.as_slice()) {
            Ok(b) => {
                assert(handshake@.transcript =~= seq![a@, b@]);
                Ok((handshake, b))
            },
            Err(e) => Err(e),
        }
    }

    /// Begins a handshake with an address, given the handshake and what came of
    /// writing message A, unless one is under way. Says whether it did, or hands
    /// the failure on.
    pub fn call_with(
        &mut self,
        to: SocketAddr,
        handshake: InitiatorHandshake,
        message_a: Result<Vec<u8>, Error>,
        now_ns: u64,
    ) -> (r: Result<bool, Error>)
        requires
            old(self).wf(),
            message_a matches Ok(a) ==> {
                &&& handshake.wf()
                &&& handshake@.prologue == old(self)@.network
                &&& handshake@.secret == old(self)@.secret
                &&& handshake@.transcript == seq![a@]
            },
        ensures
            final(self).wf(),
            match message_a {
                Ok(a) => {
                    &&& r == Ok::<bool, Error>(!old(self)@.calling.contains_key(to))
                    &&& final(self)@ == (if old(self)@.calling.contains_key(to) {
                        old(self)@
                    } else {
                        old(self)@.called(to, a@, now_ns)
                    })
                },
                Err(e) => r == Err::<bool, Error>(e) && final(self)@ == old(self)@,
            },
    {
        let a: Vec<u8> = match message_a {
            Ok(a) => a,
            Err(e) => return Err(e),
        };
        if self.calling.contains(&to) {
            return Ok(false);
        }
        let ghost before = self.calling@;
        let mut bytes: Vec<u8> = Vec::new();
        push_bytes(&mut bytes, HANDSHAKE_INITIATOR_PREFIX.as_slice());
        push_bytes(&mut bytes, a.as_slice());
        let caller: Caller = Caller { handshake, started: now_ns };
        self.calling.insert(to, caller);
        proof {
            assert(callers(self.calling@) =~= callers(before).insert(to, (a@, now_ns)));
            assert(bytes@ =~= HANDSHAKE_INITIATOR_PREFIX@ + a@);
        }
        self.emit(Output::Call { to, bytes });
        Ok(true)
    }

    /// Notes that message A could not be sent.
    pub fn call_failed(&mut self, to: &SocketAddr)
        requires
            old(self).wf(),
        ensures
            final(self).wf(),
            final(self)@ == old(self)@.gave_up(*to),
    {
        let ghost before = self.calling@;
        self.calling.remove(to);
        assert(callers(self.calling@) =~= callers(before).remove(*to));
    }

    /// Notes that the time for message B, counted from when message A was written,
    /// is over: if it is still waited for, the peer is looked for in other ways.
    /// The token of the probe is random.
    pub fn handshake_timed_out(&mut self, at: SocketAddr, started: u64) -> (r: bool)
        requires
            old(self).wf(),
        ensures
            final(self).wf(),
            r == (old(self)@.calling.contains_key(at) && old(self)@.calling[at].1 == started),
            r ==> exists|token: u64| final(self)@ == #[trigger] old(self)@.timed_out(at, token),
            !r ==> final(self)@ == old(self)@,
    {
        let waiting: bool = match self.calling.get(&at) {
            Some(c) => c.started == started,
            None => false,
        };
        if waiting {
            let token: u64 = random_u64();
            self.give_up(at, token);
        }
        waiting
    }

    /// Gives a handshake up and looks for the peer in other ways, with a given
    /// token.
    pub fn give_up(&mut self, at: SocketAddr, token: u64)
        requires
            old(self).wf(),
        ensures
            final(self).wf(),
            final(self)@ == old(self)@.timed_out(at, token),
    {
        self.call_failed(&at);
        let target: PeerId = match self.by_addr.get(&TransportAddr::Udp(at)) {
            Some(id) => *id,
            None => return,
        };
        let all: Vec<PeerId> = self.relays.keys();
        let relays: Vec<PeerId> = without_id(&all, &target);
        self.tell(&relays, &Message::RelayRequest { dst_peer_id: target });
        let public: Option<SocketAddr> = match self.peers.get(&target) {
            Some(p) => p.public_addr(),
            None => None,
        };
        if let Some(p) = public {
            if p != at {
                let bytes: Vec<u8> = probe_bytes(token);
                self.emit(Output::Send { to: TransportAddr::Udp(p), bytes });
            }
        }
    }

    fn complete(&mut self, at: SocketAddr, b: &[u8]) -> (refused: Option<Error>)
        requires
            old(self).wf(),
            old(self)@.calling.contains_key(at),
        ensures
            final(self).wf(),
            old(self)@.completes(at, b@, final(self)@, refused),
    {
        let ghost before = self.calling@;
        let caller: Caller = match self.calling.remove(&at) {
            Some(c) => c,
            None => return None,
        };
        assert(callers(self.calling@) =~= callers(before).remove(at));
        let ghost a = caller.handshake@.transcript[0];
        assert(caller.handshake@.transcript =~= seq![a]);
        assert(seq![a].push(b@) =~= seq![a, b@]);
        let (peer, done) = match claim::finish_initiator(
            caller.handshake,
            b,
            self.claim.as_slice(),
        ) {
            Ok(d) => d,
            Err(e) => return Some(e),
        };
        let ghost c = done.msg_bytes@;
        assert(seq![a, b@].push(c) =~= seq![a, b@, c]);
        let ghost closing = self.closing@;
        let closer: Closer = Closer { peer, transport: done.transport };
        self.closing.insert(at, closer);
        assert(closers(self.closing@) =~= closers(closing).insert(
            at,
            (peer, closer.transport.session()),
        ));
        self.emit(Output::Finish { to: at, bytes: done.msg_bytes });
        proof {
            assert(old(self)@.is_message_c(a, b@, c));
            assert(self@ =~= old(self)@.completed(at, b@, c));
        }
        None
    }

    /// Notes, at a point in time, that message C was sent, or could not be.
    pub fn finish_handshake(&mut self, at: SocketAddr, sent: bool, t: Instant)
        requires
            old(self).wf(),
        ensures
            final(self).wf(),
            final(self)@ == old(self)@.finished(at, sent, t),
    {
        self.clock = t;
        let ghost before = self.closing@;
        let closer: Closer = match self.closing.remove(&at) {
            Some(c) => c,
            None => {
                assert(self.closing@ =~= before);
                return;
            },
        };
        assert(closers(self.closing@) =~= closers(before).remove(at));
        if sent && closer.peer != self.id {
            self.join(closer.peer, closer.transport, at);
        }
    }

    fn conclude(&mut self, from: TransportAddr, c: &[u8]) -> (refused: Option<Error>)
        requires
            old(self).wf(),
            old(self)@.answering.contains_key(from.addr()),
        ensures
            final(self).wf(),
            final(self)@ == old(self)@.concluded(from, c@),
            crate::node_state::refused_at(
                refused,
                old(self)@.network,
                seq![
                    old(self)@.answering[from.addr()].0,
                    old(self)@.answering[from.addr()].1,
                ],
                c@,
                "msg C read: "@,
            ),
    {
        let ghost before = self.answering@;
        let answerer: Answerer = match self.answering.remove(&from.socket_addr()) {
            Some(a) => a,
            None => return None,
        };
        assert(answerers(self.answering@) =~= answerers(before).remove(from.addr()));
        let ghost t = answerer.handshake@.transcript;
        assert(t =~= seq![t[0], t[1]]);
        assert(t.push(c@) =~= seq![t[0], t[1], c@]);
        match claim::finish_responder(answerer.handshake, c) {
            Ok((peer, transport)) => {
                self.join_by(peer, transport, from);
                None
            },
            Err(e) => Some(e),
        }
    }

    fn answer(&mut self, from: TransportAddr, a: &[u8], now_ns: u64) -> (refused: Option<Error>)
        requires
            old(self).wf(),
        ensures
            final(self).wf(),
            old(self)@.answers(from, a@, now_ns, final(self)@, refused),
    {
        match self.reply(a) {
            Ok((handshake, b)) => {
                assert(self@.is_message_b(a@, b@));
                self.answer_with(from, a, handshake, Ok(b), now_ns)
            },
            Err(e) => Some(e),
        }
    }

    /// Answers a handshake, given the handshake, the message A that it has read
    /// and what came of writing message B. Hands the failure on, if it is one.
    pub fn answer_with(
        &mut self,
        from: TransportAddr,
        message_a: &[u8],
        handshake: ResponderHandshake,
        message_b: Result<Vec<u8>, Error>,
        now_ns: u64,
    ) -> (refused: Option<Error>)
        requires
            old(self).wf(),
            message_b matches Ok(b) ==> {
                &&& handshake.wf()
                &&& handshake@.prologue == old(self)@.network
                &&& handshake@.secret == old(self)@.secret
                &&& handshake@.transcript == seq![message_a@, b@]
            },
        ensures
            final(self).wf(),
            match message_b {
                Ok(b) => refused is None && final(self)@ == old(self)@.answered(
                    from,
                    message_a@,
                    b@,
                    now_ns,
                ),
                Err(e) => refused == Some(e) && final(self)@ == old(self)@,
            },
    {
        let b: Vec<u8> = match message_b {
            Ok(b) => b,
            Err(e) => return Some(e),
        };
        let ghost before = self.answering@;
        let mut bytes: Vec<u8> = Vec::new();
        push_bytes(&mut bytes, HANDSHAKE_RESPONDER_PREFIX.as_slice());
        push_bytes(&mut bytes, b.as_slice());
        let answerer: Answerer = Answerer { handshake, started: now_ns };
        self.answering.insert(from.socket_addr(), answerer);
        proof {
            assert(answerers(self.answering@) =~= answerers(before).insert(
                from.addr(),
                (message_a@, b@, now_ns),
            ));
            assert(bytes@ =~= HANDSHAKE_RESPONDER_PREFIX@ + b@);
        }
        self.emit(Output::Send { to: from, bytes });
        None
    }

    fn prune(&mut self, now_ns: u64)
        requires
            old(self).wf(),
        ensures
            final(self).wf(),
            final(self)@ == old(self)@.pruned(now_ns),
    {
        let ghost before = self.answering@;
        let ghost list = self.answering.list();
        let n: usize = self.answering.len();
        let mut stale: Vec<SocketAddr> = Vec::new();
        let mut i: usize = 0;
        proof {
            self.answering.lemma_list();
        }
        while i < n
            invariant
                i <= n,
                n == list.len(),
                self.wf(),
                *self == *old(self),
                list == self.answering.list(),
                before == self.answering@,
                crate::table::distinct_keys(list),
                forall|j: int|
                    0 <= j < list.len() ==> before.contains_key((#[trigger] list[j]).0)
                        && before[list[j].0] == list[j].1,
                forall|j: int|
                    0 <= j < i ==> (stale@.contains((#[trigger] list[j]).0) <==> now_ns
                        - list[j].1.started >= HANDSHAKE_TIMEOUT_NANOS),
                forall|a: SocketAddr| #[trigger]
                    stale@.contains(a) ==> before.contains_key(a) && now_ns - before[a].started
                        >= HANDSHAKE_TIMEOUT_NANOS,
            decreases n - i,
        {
            let (a, answerer) = self.answering.entry(i);
            let ghost was = stale@;
            if now_ns >= answerer.started && now_ns - answerer.started >= HANDSHAKE_TIMEOUT_NANOS {
                stale.push(a);
                assert(stale@.last() == a);
                assert forall|x: SocketAddr| #[trigger] stale@.contains(x) == (was.contains(x) || x
                    == a) by {
                    if was.contains(x) {
                        let k = was.index_of(x);
                        assert(stale@[k] == x);
                    }
                }
            }
            i = i + 1;
        }
        proof {
            assert(before == crate::table::entries_map(list));
        }
        self.answering.remove_all(&stale);
        proof {
            let want = old(self)@.pruned(now_ns).answering;
            let after = answerers(self.answering@);
            assert forall|a: SocketAddr| after.dom().contains(a) <==> want.dom().contains(a) by {
                if before.contains_key(a) {
                    let j = choose|j: int| 0 <= j < list.len() && (#[trigger] list[j]).0 == a;
                    assert(list[j].0 == a);
                }
            }
            assert(after =~= want);
        }
    }
}

// ---------------------------------------------------------------------------
// Messages
// ---------------------------------------------------------------------------
impl Node {
    /// Acts upon a packet from the network that came at `t`. `now_ns` is the monotonic
    /// clock, and `now_ms` the time of day. Says why, if it is a handshake message that
    /// is not taken.
    pub fn on_datagram(
        &mut self,
        from: TransportAddr,
        data: &[u8],
        now_ns: u64,
        now_ms: u64,
        t: Instant,
    ) -> (refused: Option<Error>)
        requires
            old(self).wf(),
        ensures
            final(self).wf(),
            old(self)@.received(from, data@, now_ns, now_ms, t, final(self)@, refused),
    {
        self.clock = t;
        self.prune(now_ns);
        if has_prefix(data, HOLE_PUNCH_PROBE_PREFIX.as_slice()) {
            let payload: &[u8] = sub_bytes(data, 11, data.len());
            assert(payload@ =~= data@.skip(11));
            self.on_probe(from, payload);
            return None;
        }
        if has_prefix(data, HANDSHAKE_RESPONDER_PREFIX.as_slice()) {
            if self.calling.contains(&from.socket_addr()) {
                let b: &[u8] = sub_bytes(data, 12, data.len());
                assert(b@ =~= data@.skip(12));
                return self.complete(from.socket_addr(), b);
            }
        }
        if self.answering.contains(&from.socket_addr()) {
            return self.conclude(from, data);
        }
        if self.by_addr.contains(&from) {
            return self.hear(from, data, now_ms);
        }
        if has_prefix(data, HANDSHAKE_INITIATOR_PREFIX.as_slice()) {
            let a: &[u8] = sub_bytes(data, 12, data.len());
            assert(a@ =~= data@.skip(12));
            return self.answer(from, a, now_ns);
        }
        None
    }

    fn on_probe(&mut self, from: TransportAddr, payload: &[u8])
        requires
            old(self).wf(),
        ensures
            final(self).wf(),
            final(self)@ == old(self)@.probed(from, payload@),
    {
        match deserialize_message(payload) {
            Ok(Message::HolePunchProbe { token }) => {
                self.emit(Output::Send { to: from, bytes: ack_bytes(token) });
                self.emit(Output::Send { to: from, bytes: probe_bytes(token) });
            },
            _ => {},
        }
    }

    fn hear(&mut self, from: TransportAddr, data: &[u8], now_ms: u64) -> (refused: Option<Error>)
        requires
            old(self).wf(),
            old(self)@.by_addr.contains_key(from),
        ensures
            final(self).wf(),
            old(self)@.hears(from, data@, now_ms, final(self)@, refused),
    {
        let peer: PeerId = match self.by_addr.get(&from) {
            Some(id) => *id,
            None => return None,
        };
        let ghost before = self.sessions@;
        let result = match self.sessions.get_mut(&peer) {
            Some(s) => s.transport.decrypt(data),
            None => return None,
        };
        let plain: Vec<u8> = match result {
            Ok(p) => p,
            Err(_) => {
                assert(links(self.sessions@) =~= links(before));
                return None;
            },
        };
        proof {
            assert(links(self.sessions@) =~= links(before).insert(
                peer,
                self.sessions@[peer].link(),
            ));
            assert(self@ =~= old(self)@.counted(peer));
        }
        match deserialize_message(plain.as_slice()) {
            Ok(Message::RelayData { src_peer_id, dst_peer_id, payload }) => {
                if self.is_for_us(&dst_peer_id) && is_knock(payload.as_slice()) {
                    self.on_knock(peer, src_peer_id, payload.as_slice())
                } else {
                    self.on_relay_data(src_peer_id, dst_peer_id, payload);
                    None
                }
            },
            Ok(m) => {
                self.on_message(from, peer, m, now_ms);
                None
            },
            Err(_) => None,
        }
    }

    fn is_for_us(&self, dst: &PeerId) -> (r: bool)
        requires
            self.wf(),
        ensures
            r == self@.is_for_us(*dst),
    {
        *dst == self.id || (!self.can_relay && !self.sessions.contains(dst))
    }

    fn on_message(&mut self, from: TransportAddr, peer: PeerId, m: Message, now_ms: u64)
        requires
            old(self).wf(),
        ensures
            final(self).wf(),
            final(self)@ == old(self)@.got(from, peer, m@, now_ms),
    {
        match m {
            Message::Data(packet) => self.emit(Output::Tun(packet)),
            Message::Heartbeat => {},
            Message::Ping { sent_ms } => self.send_to(&peer, from, &Message::Pong { sent_ms }),
            Message::Pong { sent_ms } => self.on_pong(&peer, sent_ms, now_ms),
            Message::SessionInit { overlay, overlay_ipv6, hostname, public_addr } => {
                self.on_session_init(from, peer, overlay, overlay_ipv6, hostname, public_addr)
            },
            Message::HolePunchProbe { .. } => {},
            Message::HolePunchAck { .. } => {},
            Message::RelayRequest { dst_peer_id } => self.on_relay_request(peer, dst_peer_id),
            Message::RelayReady { relay_peer_id, dst_peer_id } => {
                self.on_relay_ready(relay_peer_id, dst_peer_id)
            },
            Message::RelayData { src_peer_id, dst_peer_id, payload } => {
                self.on_relay_data(src_peer_id, dst_peer_id, payload)
            },
            Message::RelayAnnounce { relay_peer_id, public_addr } => {
                self.relays.insert(relay_peer_id, public_addr);
                assert(self@ =~= old(self)@.got(from, peer, m@, now_ms));
            },
            Message::PeerDirectory { entries } => self.on_directory(peer, &entries),
        }
    }

    fn on_pong(&mut self, peer: &PeerId, sent_ms: u64, now_ms: u64)
        requires
            old(self).wf(),
        ensures
            final(self).wf(),
            final(self)@ == old(self)@.timed(*peer, sent_ms, now_ms),
    {
        let gap: u64 = now_ms.saturating_sub(sent_ms);
        let rtt: u32 = (gap % 0x1_0000_0000) as u32;
        proof {
            self.peers.lemma_ok();
        }
        if let Some(p) = self.peers.get_mut(peer) {
            p.set_latency_ms(rtt);
        }
        assert(self@.peers.since =~= old(self)@.peers.since);
    }

    fn on_session_init(
        &mut self,
        from: TransportAddr,
        peer: PeerId,
        overlay: OverlayAddr,
        overlay_ipv6: Option<[u8; 16]>,
        hostname: String,
        public_addr: Option<SocketAddr>,
    )
        requires
            old(self).wf(),
        ensures
            final(self).wf(),
            final(self)@ == old(self)@.got_session_init(
                from,
                peer,
                overlay,
                match overlay_ipv6 {
                    Some(b) => Some(b@),
                    None => None,
                },
                hostname@,
                public_addr,
            ),
    {
        self.routes.add_route(overlay, peer);
        if self.can_relay {
            if let TransportAddr::Udp(at) = from {
                self.introduce(peer, at);
            }
        }
        self.learn_of(&peer, overlay_ipv6, hostname, public_addr);
    }

    fn introduce(&mut self, peer: PeerId, at: SocketAddr)
        requires
            old(self).wf(),
        ensures
            final(self).wf(),
            final(self)@ == old(self)@.introduced(peer, at),
    {
        let others: Vec<PeerId> = self.others(&peer);
        let direct: Vec<Entry> = self.direct_entries(&others);
        let entries: Vec<Entry> = self.with_indirect(direct, &peer);
        if entries.len() > 0 {
            self.send(&peer, &Message::PeerDirectory { entries });
        }
        let mut news: Vec<Entry> = Vec::new();
        news.push((peer, at, 1));
        assert(news@ =~= seq![(peer, at, 1u8)]);
        self.tell(&others, &Message::PeerDirectory { entries: news });
    }

    fn learn_of(
        &mut self,
        peer: &PeerId,
        overlay_ipv6: Option<[u8; 16]>,
        hostname: String,
        public_addr: Option<SocketAddr>,
    )
        requires
            old(self).wf(),
        ensures
            final(self).wf(),
            final(self)@ == old(self)@.told_of(
                *peer,
                match overlay_ipv6 {
                    Some(b) => Some(b@),
                    None => None,
                },
                hostname@,
                public_addr,
            ),
    {
        let named: bool = chars_len(&hostname) > 0;
        proof {
            self.peers.lemma_ok();
        }
        if let Some(p) = self.peers.get_mut(peer) {
            if let Some(b) = overlay_ipv6 {
                p.set_overlay_ipv6(Ipv6Addr::from_octets(&b));
            }
            if named {
                p.set_hostname(hostname);
            }
            if let Some(a) = public_addr {
                p.set_public_addr(a);
            }
        }
        assert(self@.peers.since =~= old(self)@.peers.since);
    }

    fn add_path(&mut self, peer: PeerId, relay: PeerId, hops: u8)
        requires
            old(self).wf(),
        ensures
            final(self).wf(),
            final(self)@ == old(self)@.with_path(peer, relay, hops),
    {
        self.paths.insert(peer, (relay, hops));
        self.routes.add_route(derive_overlay_addr(&peer), peer);
        assert(self@ =~= old(self)@.with_path(peer, relay, hops));
    }

    fn learn_one(&mut self, relay: &PeerId, e: &Entry)
        requires
            old(self).wf(),
        ensures
            final(self).wf(),
            final(self)@ == old(self)@.learned_one(*relay, *e),
    {
        let id: PeerId = e.0;
        if id == self.id {
            return;
        }
        let hops: u8 = e.2.saturating_add(1);
        self.peers.discover_at(id, e.1, self.clock);
        let ghost seen = self@;
        proof {
            self.peers.lemma_ok();
        }
        if let Some(p) = self.peers.get_mut(&id) {
            p.set_public_addr(e.1);
        }
        assert(self@.peers.since =~= seen.peers.since);
        if !self.sessions.contains(&id) {
            let shorter: bool = match self.paths.get(&id) {
                Some(path) => hops < path.1,
                None => true,
            };
            if shorter {
                self.add_path(id, *relay, hops);
                self.send(relay, &Message::RelayRequest { dst_peer_id: id });
            }
        }
    }

    fn on_directory(&mut self, relay: PeerId, entries: &Vec<Entry>)
        requires
            old(self).wf(),
        ensures
            final(self).wf(),
            final(self)@ == old(self)@.got_directory(relay, entries@),
    {
        let onward: Vec<Entry> = self.pass_on(entries);
        let mut i: usize = 0;
        while i < entries.len()
            invariant
                self.wf(),
                i <= entries@.len(),
                self@ == old(self)@.learned(relay, entries@.take(i as int)),
                self.can_relay == old(self)@.can_relay,
            decreases entries.len() - i,
        {
            self.learn_one(&relay, &entries[i]);
            i = i + 1;
            assert(entries@.take(i as int).drop_last() =~= entries@.take(i - 1));
            assert(self@.can_relay == old(self)@.can_relay);
        }
        assert(entries@.take(i as int) =~= entries@);
        if self.can_relay && onward.len() > 0 {
            let others: Vec<PeerId> = self.others(&relay);
            self.tell(&others, &Message::PeerDirectory { entries: onward });
        }
    }

    fn pass_on(&self, entries: &Vec<Entry>) -> (r: Vec<Entry>)
        ensures
            r@ == self@.passed_on(entries@),
    {
        let mut r: Vec<Entry> = Vec::new();
        let mut i: usize = 0;
        while i < entries.len()
            invariant
                i <= entries@.len(),
                r@ == self@.passed_on(entries@.take(i as int)),
            decreases entries.len() - i,
        {
            let e: Entry = entries[i];
            if e.0 != self.id && e.2 < MAX_HOP_REBROADCAST {
                r.push((e.0, e.1, e.2.saturating_add(1)));
            }
            i = i + 1;
            assert(entries@.take(i as int).drop_last() =~= entries@.take(i - 1));
        }
        assert(entries@.take(i as int) =~= entries@);
        r
    }

    fn on_relay_request(&mut self, requester: PeerId, dst: PeerId)
        requires
            old(self).wf(),
        ensures
            final(self).wf(),
            final(self)@ == old(self)@.got_relay_request(requester, dst),
    {
        if !self.can_relay {
            self.add_path(dst, requester, 1);
            return;
        }
        let next: Option<PeerId> = match self.paths.get(&dst) {
            Some(path) => Some(path.0),
            None => None,
        };
        let direct: bool = self.sessions.contains(&dst);
        if !direct && next.is_none() {
            return;
        }
        let us: PeerId = self.id;
        self.send(&requester, &Message::RelayReady { relay_peer_id: us, dst_peer_id: dst });
        if direct {
            self.send(&dst, &Message::RelayReady { relay_peer_id: us, dst_peer_id: requester });
        } else if let Some(relay) = next {
            self.send(&relay, &Message::RelayRequest { dst_peer_id: requester });
        }
    }

    fn on_relay_ready(&mut self, relay: PeerId, dst: PeerId)
        requires
            old(self).wf(),
        ensures
            final(self).wf(),
            final(self)@ == old(self)@.got_relay_ready(relay, dst),
    {
        let ghost before = self.outward@;
        self.outward.remove(&dst);
        assert(sessions_of(self.outward@) =~= sessions_of(before).remove(dst));
        self.add_path(dst, relay, 1);
        self.note(dst, SocketAddr::v4(Ipv4Addr::unspecified(), 0));
    }

    fn on_relay_data(&mut self, src: PeerId, dst: PeerId, payload: Vec<u8>)
        requires
            old(self).wf(),
        ensures
            final(self).wf(),
            final(self)@ == old(self)@.got_relay_data(src, dst, payload@),
    {
        let direct: bool = self.sessions.contains(&dst);
        if self.is_for_us(&dst) {
            self.hear_through(&src, payload.as_slice());
        } else if self.can_relay {
            let next: Option<PeerId> = if direct {
                Some(dst)
            } else {
                match self.paths.get(&dst) {
                    Some(path) => Some(path.0),
                    None => None,
                }
            };
            if let Some(peer) = next {
                let onward: Message = Message::RelayData {
                    src_peer_id: src,
                    dst_peer_id: dst,
                    payload,
                };
                self.send(&peer, &onward);
            }
        }
    }
}

// ---------------------------------------------------------------------------
// Through relays
// ---------------------------------------------------------------------------
/// Whether relayed bytes are a message of a handshake.
fn is_knock(payload: &[u8]) -> (r: bool)
    ensures
        r == crate::node_state::is_knock(payload@),
{
    has_prefix(payload, HANDSHAKE_INITIATOR_PREFIX.as_slice()) || has_prefix(
        payload,
        HANDSHAKE_RESPONDER_PREFIX.as_slice(),
    ) || has_prefix(payload, HANDSHAKE_FINAL_PREFIX.as_slice())
}

fn tagged(prefix: &[u8], msg: &[u8]) -> (r: Vec<u8>)
    ensures
        r@ == prefix@ + msg@,
{
    let mut r: Vec<u8> = Vec::new();
    push_bytes(&mut r, prefix);
    push_bytes(&mut r, msg);
    assert(r@ =~= prefix@ + msg@);
    r
}

impl Node {
    fn relay_to(&mut self, relay: &PeerId, peer: PeerId, payload: Vec<u8>)
        requires
            old(self).wf(),
        ensures
            final(self).wf(),
            final(self)@ == old(self)@.relayed(*relay, peer, payload@),
    {
        let us: PeerId = self.id;
        self.send(relay, &Message::RelayData { src_peer_id: us, dst_peer_id: peer, payload });
    }

    fn send_through(&mut self, relay: &PeerId, peer: PeerId, data: &Message)
        requires
            old(self).wf(),
            old(self)@.outward.contains_key(peer),
            data@ is Data,
        ensures
            final(self).wf(),
            final(self)@ == old(self)@.sent_through(*relay, peer, data@->Data_0),
    {
        let ghost before = self.outward@;
        let plain: Vec<u8> = serialize_message(data);
        let result = match self.outward.get_mut(&peer) {
            Some(t) => t.encrypt(plain.as_slice()),
            None => return,
        };
        match result {
            Ok(sealed) => {
                proof {
                    let s = old(self)@.outward[peer];
                    assert(sessions_of(self.outward@) =~= sessions_of(before).insert(
                        peer,
                        NoiseSession { sent: s.sent + 1, ..s },
                    ));
                }
                self.relay_to(relay, peer, sealed);
            },
            Err(_) => {
                assert(sessions_of(self.outward@) =~= sessions_of(before));
            },
        }
    }

    fn hear_through(&mut self, peer: &PeerId, payload: &[u8])
        requires
            old(self).wf(),
        ensures
            final(self).wf(),
            final(self)@ == old(self)@.heard_through(*peer, payload@),
    {
        let ghost before = self.inward@;
        let result = match self.inward.get_mut(peer) {
            Some(t) => t.decrypt(payload),
            None => return,
        };
        let plain: Vec<u8> = match result {
            Ok(p) => p,
            Err(_) => {
                assert(sessions_of(self.inward@) =~= sessions_of(before));
                return;
            },
        };
        proof {
            let s = old(self)@.inward[*peer];
            assert(sessions_of(self.inward@) =~= sessions_of(before).insert(
                *peer,
                NoiseSession { received: s.received + 1, ..s },
            ));
        }
        match deserialize_message(plain.as_slice()) {
            Ok(Message::Data(packet)) => self.emit(Output::Tun(packet)),
            _ => {},
        }
    }

    /// Begins a handshake with a peer through a relay, given the handshake and its
    /// message A.
    pub fn knock_with(
        &mut self,
        relay: PeerId,
        peer: PeerId,
        handshake: InitiatorHandshake,
        a: &[u8],
        now_ns: u64,
    )
        requires
            old(self).wf(),
            handshake.wf(),
            handshake@.prologue == old(self)@.network,
            handshake@.secret == old(self)@.secret,
            handshake@.transcript == seq![a@],
        ensures
            final(self).wf(),
            final(self)@ == old(self)@.knocked(relay, peer, a@, now_ns),
    {
        let ghost before = self.knocking@;
        self.knocking.insert(peer, Caller { handshake, started: now_ns });
        assert(knockers(self.knocking@) =~= knockers(before).insert(peer, (a@, now_ns)));
        let bytes: Vec<u8> = tagged(HANDSHAKE_INITIATOR_PREFIX.as_slice(), a);
        self.relay_to(&relay, peer, bytes);
    }

    /// Answers a handshake with a peer through a relay, given the handshake, the
    /// message A that it has read and the message B that it has written.
    pub fn open_with(
        &mut self,
        relay: PeerId,
        peer: PeerId,
        handshake: ResponderHandshake,
        a: &[u8],
        b: &[u8],
    )
        requires
            old(self).wf(),
            handshake.wf(),
            handshake@.prologue == old(self)@.network,
            handshake@.secret == old(self)@.secret,
            handshake@.transcript == seq![a@, b@],
        ensures
            final(self).wf(),
            final(self)@ == old(self)@.answered_through(relay, peer, a@, b@),
    {
        let ghost before = self.opening@;
        self.opening.insert(peer, handshake);
        assert(openers(self.opening@) =~= openers(before).insert(peer, (a@, b@)));
        let bytes: Vec<u8> = tagged(HANDSHAKE_RESPONDER_PREFIX.as_slice(), b);
        self.relay_to(&relay, peer, bytes);
    }

    /// Acts upon a message of a handshake that came from a peer through a relay.
    fn on_knock(&mut self, relay: PeerId, peer: PeerId, payload: &[u8]) -> (refused: Option<Error>)
        requires
            old(self).wf(),
            crate::node_state::is_knock(payload@),
        ensures
            final(self).wf(),
            old(self)@.answers_knock(relay, peer, payload@, final(self)@, refused),
    {
        let msg: &[u8] = sub_bytes(payload, 12, payload.len());
        assert(msg@ =~= payload@.skip(12));
        if has_prefix(payload, HANDSHAKE_INITIATOR_PREFIX.as_slice()) {
            return match self.reply(msg) {
                Ok((handshake, b)) => {
                    assert(self@.is_message_b(msg@, b@));
                    self.open_with(relay, peer, handshake, msg, b.as_slice());
                    None
                },
                Err(e) => Some(e),
            };
        }
        if has_prefix(payload, HANDSHAKE_RESPONDER_PREFIX.as_slice()) {
            return self.complete_through(relay, peer, msg);
        }
        self.conclude_through(peer, msg)
    }

    fn complete_through(&mut self, relay: PeerId, peer: PeerId, b: &[u8]) -> (refused: Option<Error>)
        requires
            old(self).wf(),
        ensures
            final(self).wf(),
            if old(self)@.knocking.contains_key(peer) {
                old(self)@.completes_through(relay, peer, b@, final(self)@, refused)
            } else {
                final(self)@ == old(self)@ && refused is None
            },
    {
        let ghost before = self.knocking@;
        let caller: Caller = match self.knocking.remove(&peer) {
            Some(c) => c,
            None => {
                assert(self.knocking@ =~= before);
                return None;
            },
        };
        assert(knockers(self.knocking@) =~= knockers(before).remove(peer));
        let ghost a = caller.handshake@.transcript[0];
        assert(caller.handshake@.transcript =~= seq![a]);
        assert(seq![a].push(b@) =~= seq![a, b@]);
        let (id, done) = match claim::finish_initiator(
            caller.handshake,
            b,
            self.claim.as_slice(),
        ) {
            Ok(d) => d,
            Err(e) => return Some(e),
        };
        if id != peer {
            return Some(Error::NoiseHandshake("another peer answered".to_owned()));
        }
        let ghost c = done.msg_bytes@;
        assert(seq![a, b@].push(c) =~= seq![a, b@, c]);
        let ghost outward = self.outward@;
        let HandshakeResult { transport, msg_bytes } = done;
        let ghost session = transport.session();
        self.outward.insert(peer, transport);
        assert(sessions_of(self.outward@) =~= sessions_of(outward).insert(peer, session));
        let bytes: Vec<u8> = tagged(HANDSHAKE_FINAL_PREFIX.as_slice(), msg_bytes.as_slice());
        self.relay_to(&relay, peer, bytes);
        proof {
            assert(old(self)@.is_message_c(a, b@, c));
            assert(self@ =~= old(self)@.ended_through(relay, peer, b@, c));
        }
        let waiting: Vec<Vec<u8>> = self.take_waiting(&peer);
        self.send_all_through(&relay, peer, &waiting);
        assert(self@ == old(self)@.completed_through(relay, peer, b@, c));
        None
    }

    fn send_all_through(&mut self, relay: &PeerId, peer: PeerId, waiting: &Vec<Vec<u8>>)
        requires
            old(self).wf(),
            old(self)@.outward.contains_key(peer),
        ensures
            final(self).wf(),
            final(self)@ == old(self)@.sent_all_through(*relay, peer, packets(waiting@)),
    {
        let ghost all = packets(waiting@);
        let mut i: usize = 0;
        assert(all.take(0) =~= Seq::empty());
        while i < waiting.len()
            invariant
                self.wf(),
                self@.outward.contains_key(peer),
                i <= waiting@.len(),
                all == packets(waiting@),
                self@ == old(self)@.sent_all_through(*relay, peer, all.take(i as int)),
            decreases waiting.len() - i,
        {
            let data: Message = Message::Data(copy_bytes(waiting[i].as_slice()));
            self.send_through(relay, peer, &data);
            i = i + 1;
            assert(all.take(i as int).drop_last() =~= all.take(i - 1));
        }
        assert(all.take(i as int) =~= all);
    }

    fn conclude_through(&mut self, peer: PeerId, c: &[u8]) -> (refused: Option<Error>)
        requires
            old(self).wf(),
        ensures
            final(self).wf(),
            if old(self)@.opening.contains_key(peer) {
                let (a, b) = old(self)@.opening[peer];
                &&& final(self)@ == old(self)@.concluded_through(peer, c@)
                &&& crate::node_state::refused_from(
                    refused,
                    peer,
                    old(self)@.network,
                    seq![a, b],
                    c@,
                    "msg C read: "@,
                )
            } else {
                final(self)@ == old(self)@ && refused is None
            },
    {
        let ghost before = self.opening@;
        let handshake: ResponderHandshake = match self.opening.remove(&peer) {
            Some(h) => h,
            None => {
                assert(self.opening@ =~= before);
                return None;
            },
        };
        assert(openers(self.opening@) =~= openers(before).remove(peer));
        let ghost t = handshake@.transcript;
        assert(t =~= seq![t[0], t[1]]);
        assert(t.push(c@) =~= seq![t[0], t[1], c@]);
        match claim::finish_responder(handshake, c) {
            Ok((id, transport)) => {
                if id != peer {
                    return Some(Error::NoiseHandshake("another peer answered".to_owned()));
                }
                let ghost inward = self.inward@;
                self.inward.insert(peer, transport);
                assert(sessions_of(self.inward@) =~= sessions_of(inward).insert(
                    peer,
                    transport.session(),
                ));
                None
            },
            Err(e) => Some(e),
        }
    }
}

// ---------------------------------------------------------------------------
// Packets of our own
// ---------------------------------------------------------------------------
impl Node {
    /// Acts upon an IP packet from the TUN device. `now_ns` is the monotonic clock.
    /// Says why, if a handshake through a relay had to be begun and could not be.
    pub fn on_tun_packet(&mut self, packet: &[u8], now_ns: u64) -> (refused: Option<Error>)
        requires
            old(self).wf(),
        ensures
            final(self).wf(),
            old(self)@.takes_packet(packet@, now_ns, final(self)@, refused),
    {
        if packet.len() == 0 {
            return None;
        }
        let dst: Ipv4Addr = match parse_ipv4_packet(packet) {
            Ok(p) => p.dst_ip,
            Err(_) => Ipv4Addr::unspecified(),
        };
        if dst == self.overlay.ip() {
            self.emit(Output::Tun(copy_bytes(packet)));
            return None;
        }
        let peer: PeerId = match self.routes.lookup(dst) {
            Some(id) => *id,
            None => return None,
        };
        let data: Message = Message::Data(copy_bytes(packet));
        if self.sessions.contains(&peer) {
            self.send(&peer, &data);
            return None;
        }
        let relay: Option<PeerId> = match self.paths.get(&peer) {
            Some(path) => Some(path.0),
            None => None,
        };
        match relay {
            Some(relay) => {
                if self.outward.contains(&peer) {
                    self.send_through(&relay, peer, &data);
                    None
                } else {
                    self.knock(relay, peer, packet, now_ns)
                }
            },
            None => {
                self.look_for(&peer);
                None
            },
        }
    }

    fn knock(&mut self, relay: PeerId, peer: PeerId, packet: &[u8], now_ns: u64) -> (refused:
        Option<Error>)
        requires
            old(self).wf(),
        ensures
            final(self).wf(),
            if old(self)@.is_knocking(peer, now_ns) {
                final(self)@ == old(self)@.kept_waiting(peer, packet@) && refused is None
            } else {
                match refused {
                    None => exists|a: Seq<u8>| #[trigger]
                        old(self)@.is_message_a(a) && final(self)@ == old(self)@.kept_waiting(
                            peer,
                            packet@,
                        ).knocked(relay, peer, a, now_ns),
                    Some(e) => final(self)@ == old(self)@.kept_waiting(peer, packet@) && crate::noise::handshake_error(
                        e,
                        "msg A write: "@,
                    ),
                }
            },
    {
        let under_way: bool = match self.knocking.get(&peer) {
            Some(k) => now_ns < k.started || now_ns - k.started < HANDSHAKE_TIMEOUT_NANOS,
            None => false,
        };
        self.keep_waiting(peer, packet);
        if under_way {
            return None;
        }
        match self.begin() {
            Ok((handshake, a)) => {
                assert(old(self)@.is_message_a(a@));
                self.knock_with(relay, peer, handshake, a.as_slice(), now_ns);
                None
            },
            Err(e) => Some(e),
        }
    }

    fn keep_waiting(&mut self, peer: PeerId, packet: &[u8])
        requires
            old(self).wf(),
        ensures
            final(self).wf(),
            final(self)@ == old(self)@.kept_waiting(peer, packet@),
    {
        let ghost before = self.waiting@;
        let mut held: Vec<Vec<u8>> = match self.waiting.remove(&peer) {
            Some(v) => v,
            None => Vec::new(),
        };
        let ghost was = held@;
        assert(packets(was) =~= old(self)@.held(peer));
        if held.len() < MAX_WAITING_PACKETS {
            held.push(copy_bytes(packet));
            assert(packets(held@) =~= packets(was).push(packet@));
        }
        self.waiting.insert(peer, held);
        assert(waiters(self.waiting@) =~= old(self)@.kept_waiting(peer, packet@).waiting);
    }

    fn look_for(&mut self, peer: &PeerId)
        requires
            old(self).wf(),
        ensures
            final(self).wf(),
            final(self)@ == old(self)@.unreachable(*peer),
    {
        if let Some(ip) = self.routes.lookup_peer_ip(peer) {
            self.routes.remove_route(&OverlayAddr::new(ip));
        }
        if self.relays.len() > 0 {
            let (relay, _) = self.relays.entry(0);
            assert(relay == self@.relays.order[0]);
            self.send(&relay, &Message::RelayRequest { dst_peer_id: *peer });
        }
    }
}

// ---------------------------------------------------------------------------
// Recurring work
// ---------------------------------------------------------------------------
impl Node {
    /// Sends every peer a heartbeat.
    pub fn heartbeat(&mut self)
        requires
            old(self).wf(),
        ensures
            final(self).wf(),
            final(self)@ == old(self)@.told(old(self)@.sessions.order, Msg::Heartbeat),
    {
        let all: Vec<PeerId> = self.sessions.keys();
        self.tell(&all, &Message::Heartbeat);
    }

    /// Pings every peer, and notes how it is reached.
    pub fn health_check(&mut self, now_ms: u64)
        requires
            old(self).wf(),
        ensures
            final(self).wf(),
            final(self)@ == old(self)@.pinged(old(self)@.sessions.order, now_ms),
    {
        let all: Vec<PeerId> = self.sessions.keys();
        let ping: Message = Message::Ping { sent_ms: now_ms };
        let mut i: usize = 0;
        while i < all.len()
            invariant
                self.wf(),
                i <= all@.len(),
                ping@ == (Msg::Ping { sent_ms: now_ms }),
                self@ == old(self)@.pinged(all@.take(i as int), now_ms),
            decreases all.len() - i,
        {
            let id: PeerId = all[i];
            let ghost before = self@;
            self.send(&id, &ping);
            let path: PathKind = match self.paths.get(&id) {
                Some(p) => PathKind::Relay(p.0),
                None => PathKind::Direct,
            };
            assert(path == before.path_kind(id));
            proof {
                self.peers.lemma_ok();
            }
            if let Some(p) = self.peers.get_mut(&id) {
                p.set_path_kind(path);
            }
            assert(self@.peers.since =~= before.peers.since);
            i = i + 1;
            assert(all@.take(i as int).drop_last() =~= all@.take(i - 1));
        }
        assert(all@.take(i as int) =~= all@);
    }

    /// Tells every peer of all others, if at least two have a session.
    pub fn spread_directory(&mut self)
        requires
            old(self).wf(),
        ensures
            final(self).wf(),
            final(self)@ == old(self)@.spread_all(),
    {
        if self.sessions.len() < 2 {
            return;
        }
        let all: Vec<PeerId> = self.session_ids();
        let direct: Vec<Entry> = self.direct_entries(&all);
        let us: PeerId = self.id;
        let entries: Vec<Entry> = self.with_indirect(direct, &us);
        self.tell_entries(&all, &entries);
    }

    /// As a relay with a known address, tells every peer of the others that are
    /// reached over UDP.
    pub fn spread_neighbours(&mut self)
        requires
            old(self).wf(),
        ensures
            final(self).wf(),
            final(self)@ == old(self)@.spread_direct(),
    {
        if self.can_relay && self.public.is_some() {
            let all: Vec<PeerId> = self.session_ids();
            let entries: Vec<Entry> = self.direct_entries(&all);
            if entries.len() >= 2 {
                self.tell_entries(&all, &entries);
            }
        }
    }

    /// Ids of the peers with a session.
    pub fn session_ids(&self) -> (r: Vec<PeerId>)
        requires
            self.wf(),
        ensures
            r@ == self@.sessions.order,
            forall|i: int| 0 <= i < r@.len() ==> self@.sessions.has(#[trigger] r@[i]),
    {
        let r: Vec<PeerId> = self.sessions.keys();
        proof {
            self.lemma_ok();
            assert forall|i: int| 0 <= i < r@.len() implies self@.sessions.has(#[trigger] r@[i]) by {
                assert(self@.sessions.order.contains(r@[i]));
            }
        }
        r
    }

    /// Notes our public address. Says whether that is news.
    pub fn set_public_addr(&mut self, addr: SocketAddr) -> (r: bool)
        requires
            old(self).wf(),
        ensures
            final(self).wf(),
            final(self)@ == old(self)@.at_public(addr),
            r == (old(self)@.public != Some(addr)),
    {
        let news: bool = match self.public {
            Some(a) => a != addr,
            None => true,
        };
        if news {
            self.public = Some(addr);
            self.can_relay = is_publicly_routable(addr);
        }
        news
    }

    /// The port to announce: that of our public address, or another while that is
    /// not known.
    pub fn announce_port(&self, otherwise: u16) -> (r: u16)
        ensures
            r == (match self@.public {
                Some(a) => a.port_of(),
                None => otherwise,
            }),
    {
        match self.public {
            Some(a) => a.port(),
            None => otherwise,
        }
    }

    /// Whether a handshake should be begun with an address. If so, the peer last
    /// known there is forgotten.
    pub fn consider(&mut self, addr: SocketAddr) -> (r: bool)
        requires
            old(self).wf(),
        ensures
            final(self).wf(),
            r == old(self)@.worth_calling(addr),
            final(self)@ == (if r {
                old(self)@.forgot_addr(addr)
            } else {
                old(self)@
            }),
    {
        if let Some(ours) = self.public {
            if ours == addr {
                return false;
            }
        }
        let at: TransportAddr = TransportAddr::Udp(addr);
        if let Some(id) = self.by_addr.get(&at) {
            if self.sessions.contains(id) {
                return false;
            }
        }
        if self.calling.contains(&addr) {
            return false;
        }
        self.by_addr.remove(&at);
        true
    }

    /// Ends the session with a peer, if there is one.
    pub fn drop_session(&mut self, peer: &PeerId) -> (r: bool)
        requires
            old(self).wf(),
        ensures
            final(self).wf(),
            r == old(self)@.sessions.has(*peer),
            final(self)@ == old(self)@.dropped(*peer),
    {
        let ghost before = self.sessions@;
        match self.sessions.remove(peer) {
            Some(s) => {
                self.by_addr.remove(&s.underlay);
                assert(links(self.sessions@) =~= links(before).remove(*peer));
                true
            },
            None => {
                assert(links(self.sessions@) =~= links(before));
                false
            },
        }
    }

    /// Takes the outputs that the world has yet to carry out.
    pub fn take_output(&mut self) -> (r: Vec<Output>)
        requires
            old(self).wf(),
        ensures
            final(self).wf(),
            effects(r@) == old(self)@.out,
            final(self)@ == (NodeState { out: Seq::empty(), ..old(self)@ }),
    {
        let mut r: Vec<Output> = Vec::new();
        core::mem::swap(&mut r, &mut self.out);
        assert(effects(self.out@) =~= Seq::empty());
        r
    }

    /// Takes the events of the table of peers that nobody has taken yet.
    pub fn take_events(&mut self) -> (r: Vec<PeerEvent>)
        requires
            old(self).wf(),
        ensures
            final(self).wf(),
            r@ == old(self)@.peers.events,
            final(self)@ == (NodeState {
                peers: Peers { events: Seq::empty(), ..old(self)@.peers },
                ..old(self)@
            }),
    {
        self.peers.take_events()
    }

    /// Removes a peer from the table of peers, with an event if it was known.
    pub fn remove_peer(&mut self, peer: &PeerId) -> (r: bool)
        requires
            old(self).wf(),
        ensures
            final(self).wf(),
            r == old(self)@.peers.known.contains_key(*peer),
            r ==> final(self)@ == (NodeState {
                peers: Peers {
                    known: old(self)@.peers.known.remove(*peer),
                    since: old(self)@.peers.since.remove(*peer),
                    order: crate::table::order_without(old(self)@.peers.order, *peer),
                    events: old(self)@.peers.events.push(PeerEvent::Removed { id: *peer }),
                },
                ..old(self)@
            }),
            !r ==> final(self)@ == old(self)@,
    {
        self.peers.remove(peer).is_some()
    }
}

// ---------------------------------------------------------------------------
// What is asked of a node
// ---------------------------------------------------------------------------
impl Node {
    /// Our id.
    pub fn id(&self) -> (r: PeerId)
        ensures
            r == self@.id,
    {
        self.id
    }

    /// Our overlay address.
    pub fn overlay(&self) -> (r: OverlayAddr)
        ensures
            r == self@.overlay,
    {
        self.overlay
    }

    /// Our overlay IPv6 address.
    pub fn overlay_ipv6(&self) -> (r: Ipv6Addr)
        ensures
            r == self@.overlay_ipv6,
    {
        self.overlay_ipv6
    }

    /// Our host name.
    pub fn hostname(&self) -> (r: &str)
        ensures
            r@ == self@.hostname,
    {
        self.hostname.as_str()
    }

    /// The network secret.
    pub fn network_secret(&self) -> (r: &NetworkSecret)
        ensures
            r@ == self@.network,
    {
        &self.network
    }

    /// The keys of this device.
    pub fn device_keys(&self) -> (r: &DeviceKeys)
        ensures
            r.seed() == self@.device,
            r.noise_secret() == self@.secret,
    {
        &self.keys
    }

    /// Our public address, if known.
    pub fn public_addr(&self) -> (r: Option<SocketAddr>)
        ensures
            r == self@.public,
    {
        self.public
    }

    /// Whether we relay for others.
    pub fn can_relay(&self) -> (r: bool)
        ensures
            r == self@.can_relay,
    {
        self.can_relay
    }

    /// Known peers.
    pub fn peers(&self) -> (r: &PeerManager)
        requires
            self.wf(),
        ensures
            r.wf(),
            r@ == self@.peers,
    {
        &self.peers
    }

    /// Routes.
    pub fn routes(&self) -> (r: &RoutingTable)
        requires
            self.wf(),
        ensures
            r.wf(),
            r@ == self@.routes,
    {
        &self.routes
    }

    /// Routes, for changing them.
    pub fn routes_mut(&mut self) -> (r: &mut RoutingTable)
        requires
            old(self).wf(),
        ensures
            r.wf(),
            r@ == old(self)@.routes,
            final(r).wf() ==> final(self).wf(),
            final(self)@ == (NodeState { routes: final(r)@, ..old(self)@ }),
    {
        &mut self.routes
    }

    /// Whether there is a session with a peer.
    pub fn has_session(&self, peer: &PeerId) -> (r: bool)
        requires
            self.wf(),
        ensures
            r == self@.sessions.has(*peer),
    {
        self.sessions.contains(peer)
    }

    /// The relay toward a peer, and the hops to it.
    pub fn path(&self, peer: &PeerId) -> (r: Option<(PeerId, u8)>)
        requires
            self.wf(),
        ensures
            match r {
                Some(p) => self@.paths.has(*peer) && p == self@.paths.map[*peer],
                None => !self@.paths.has(*peer),
            },
    {
        match self.paths.get(peer) {
            Some(p) => Some(*p),
            None => None,
        }
    }
}

/// Number of characters of a text.
fn chars_len(s: &String) -> (n: usize)
    ensures
        n == s@.len(),
{
    crate::text::chars_of(s.as_str()).len()
}

// ---------------------------------------------------------------------------
// Lists
// ---------------------------------------------------------------------------
/// Ids without one of them.
fn without_id(ids: &Vec<PeerId>, id: &PeerId) -> (r: Vec<PeerId>)
    ensures
        r@ == crate::node_state::ids_without(ids@, *id),
{
    let ghost f = crate::node_state::is_not(*id);
    let mut r: Vec<PeerId> = Vec::new();
    let mut i: usize = 0;
    assert(ids@.take(0).filter(f) =~= Seq::empty()) by {
        reveal(Seq::filter);
    }
    while i < ids.len()
        invariant
            i <= ids@.len(),
            f == crate::node_state::is_not(*id),
            r@ == ids@.take(i as int).filter(f),
        decreases ids.len() - i,
    {
        proof {
            assert(ids@.take(i + 1).drop_last() =~= ids@.take(i as int));
            reveal(Seq::filter);
        }
        if ids[i] != *id {
            r.push(ids[i]);
        }
        i = i + 1;
    }
    assert(ids@.take(i as int) =~= ids@);
    r
}

/// Entries without those of one peer.
fn without_entries(entries: &Vec<Entry>, id: &PeerId) -> (r: Vec<Entry>)
    ensures
        r@ == crate::node_state::entries_without(entries@, *id),
{
    let ghost f = crate::node_state::not_for(*id);
    let mut r: Vec<Entry> = Vec::new();
    let mut i: usize = 0;
    assert(entries@.take(0).filter(f) =~= Seq::empty()) by {
        reveal(Seq::filter);
    }
    while i < entries.len()
        invariant
            i <= entries@.len(),
            f == crate::node_state::not_for(*id),
            r@ == entries@.take(i as int).filter(f),
        decreases entries.len() - i,
    {
        proof {
            assert(entries@.take(i + 1).drop_last() =~= entries@.take(i as int));
            reveal(Seq::filter);
        }
        if entries[i].0 != *id {
            r.push(entries[i]);
        }
        i = i + 1;
    }
    assert(entries@.take(i as int) =~= entries@);
    r
}

/// Whether a directory has an entry for a peer.
fn has_entry(entries: &Vec<Entry>, id: &PeerId) -> (r: bool)
    ensures
        r == crate::node_state::lists(entries@, *id),
{
    let mut i: usize = 0;
    while i < entries.len()
        invariant
            i <= entries@.len(),
            forall|j: int| 0 <= j < i ==> (#[trigger] entries@[j]).0 != *id,
        decreases entries.len() - i,
    {
        if entries[i].0 == *id {
            return true;
        }
        i = i + 1;
    }
    false
}

} // verus!
