//! What a running node is and how it changes: the model that [`crate::node`]
//! carries out.
use crate::claim::{is_refusal, proved_id};
use crate::error::Error;
use crate::manager::Peers;
use crate::message::Msg;
use crate::net::{Ipv4Addr, Ipv6Addr, SocketAddr};
use crate::noise::{noise_payload, noise_seal, noise_static_key, NoiseSession, SecureTransport};
use crate::peer::{PathKind, PeerInfo};
use crate::routing::Routes;
use crate::table::Rows;
use crate::transport::TransportAddr;
use crate::types::{OverlayAddr, PeerId};
use std::time::Instant;
use vstd::prelude::*;

verus! {

/// Tag of a packet with handshake message A, the bytes of `seednet-hs-a`.
pub const HANDSHAKE_INITIATOR_PREFIX: [u8; 12] = [
    115,
    101,
    101,
    100,
    110,
    101,
    116,
    45,
    104,
    115,
    45,
    97,
];

/// Tag of a packet with handshake message B, the bytes of `seednet-hs-b`.
pub const HANDSHAKE_RESPONDER_PREFIX: [u8; 12] = [
    115,
    101,
    101,
    100,
    110,
    101,
    116,
    45,
    104,
    115,
    45,
    98,
];

/// Tag of a relayed message C, the bytes of `seednet-hs-c`.
pub const HANDSHAKE_FINAL_PREFIX: [u8; 12] = [
    115,
    101,
    101,
    100,
    110,
    101,
    116,
    45,
    104,
    115,
    45,
    99,
];

/// Nanoseconds that each side of a handshake waits for the other.
pub const HANDSHAKE_TIMEOUT_NANOS: u64 = 2_000_000_000;

/// How many packets for a peer wait for a session with it, at most. A peer that never
/// answers must not fill our memory; IP packets may get lost, so further ones do.
pub const MAX_WAITING_PACKETS: usize = 1024;

/// Directory entries that are this many hops away are not passed on.
pub const MAX_HOP_REBROADCAST: u8 = 8;

/// What a node asks the world to do.
#[verifier::ext_equal]
#[allow(inconsistent_fields)]
pub ghost enum Effect {
    /// Send a packet.
    Send { to: TransportAddr, bytes: Seq<u8> },
    /// Send a packet that begins a handshake over UDP, and say if that failed.
    Call { to: SocketAddr, bytes: Seq<u8> },
    /// Send the last packet of a handshake over UDP, and say whether that failed.
    Finish { to: SocketAddr, bytes: Seq<u8> },
    /// Hand an IP packet to the TUN device.
    Tun(Seq<u8>),
}

/// A session with a peer, and where the peer is.
#[verifier::ext_equal]
pub ghost struct Link {
    pub session: NoiseSession,
    pub underlay: TransportAddr,
}

/// A node.
#[verifier::ext_equal]
pub ghost struct NodeState {
    /// Our id.
    pub id: PeerId,
    /// Our overlay address.
    pub overlay: OverlayAddr,
    /// Our overlay IPv6 address.
    pub overlay_ipv6: Ipv6Addr,
    /// Our host name.
    pub hostname: Seq<char>,
    /// The network secret.
    pub network: Seq<u8>,
    /// The secret that our keys come from.
    pub device: Seq<u8>,
    /// Our Noise static secret.
    pub secret: Seq<u8>,
    /// What proves our id in handshakes.
    pub claim: Seq<u8>,
    /// Our public address, once known.
    pub public: Option<SocketAddr>,
    /// Whether we relay for others.
    pub can_relay: bool,
    /// Sessions by peer.
    pub sessions: Rows<PeerId, Link>,
    /// The peer behind an address.
    pub by_addr: Map<TransportAddr, PeerId>,
    /// Peers that relay, and where they are.
    pub relays: Rows<PeerId, SocketAddr>,
    /// The relay toward a peer without a session, and the hops to the peer.
    pub paths: Rows<PeerId, (PeerId, u8)>,
    /// Routes.
    pub routes: Routes,
    /// Known peers.
    pub peers: Peers,
    /// Handshakes begun by us: message A, and when it was written.
    pub calling: Map<SocketAddr, (Seq<u8>, u64)>,
    /// Handshakes that we answered: messages A and B, and when B was written.
    pub answering: Map<SocketAddr, (Seq<u8>, Seq<u8>, u64)>,
    /// Handshakes begun by us whose last message is being sent: the peer, and the
    /// session with it.
    pub closing: Map<SocketAddr, (PeerId, NoiseSession)>,
    /// Sessions that reach a peer through relays, for what we send. We began them.
    pub outward: Map<PeerId, NoiseSession>,
    /// Sessions that reach us through relays, for what a peer sends. It began them.
    pub inward: Map<PeerId, NoiseSession>,
    /// Handshakes through relays begun by us: message A, and when it was written.
    pub knocking: Map<PeerId, (Seq<u8>, u64)>,
    /// Handshakes through relays that we answered: messages A and B.
    pub opening: Map<PeerId, (Seq<u8>, Seq<u8>)>,
    /// Packets for a peer behind a relay that wait for a session, oldest first.
    pub waiting: Map<PeerId, Seq<Seq<u8>>>,
    /// The point in time of what happens, from which on peers are in their states.
    pub clock: Instant,
    /// What the world has yet to do, oldest first.
    pub out: Seq<Effect>,
}

/// An entry of a directory: a peer, its address, and hops from whoever tells.
pub type Entry = (PeerId, SocketAddr, u8);

/// Being another peer.
pub open spec fn is_not(id: PeerId) -> spec_fn(PeerId) -> bool {
    |x: PeerId| x != id
}

/// Being the entry of another peer.
pub open spec fn not_for(id: PeerId) -> spec_fn(Entry) -> bool {
    |e: Entry| e.0 != id
}

/// Ids without one of them.
pub open spec fn ids_without(ids: Seq<PeerId>, id: PeerId) -> Seq<PeerId> {
    ids.filter(is_not(id))
}

/// Entries without those of one peer.
pub open spec fn entries_without(entries: Seq<Entry>, id: PeerId) -> Seq<Entry> {
    entries.filter(not_for(id))
}

/// Whether a directory has an entry for a peer.
pub open spec fn lists(entries: Seq<Entry>, id: PeerId) -> bool {
    exists|i: int| 0 <= i < entries.len() && (#[trigger] entries[i]).0 == id
}

/// Whether what is said of a handshake message fits: nothing if it proves an id, else
/// why not, at the given step.
pub open spec fn refused_at(
    refused: Option<Error>,
    network: Seq<u8>,
    transcript: Seq<Seq<u8>>,
    msg: Seq<u8>,
    step: Seq<char>,
) -> bool {
    match refused {
        None => proved_id(network, transcript, msg) is Some,
        Some(e) => is_refusal(network, transcript, msg, step, e),
    }
}

/// The error where a handshake through relays is with another device than asked for.
pub open spec fn other_id_error(e: Error) -> bool {
    e matches Error::NoiseHandshake(m) && m@ == "another peer answered"@
}

/// Whether what is said of a relayed handshake message fits: nothing if it proves the
/// id of the peer that it says it is from, else why not.
pub open spec fn refused_from(
    refused: Option<Error>,
    peer: PeerId,
    network: Seq<u8>,
    transcript: Seq<Seq<u8>>,
    msg: Seq<u8>,
    step: Seq<char>,
) -> bool {
    match proved_id(network, transcript, msg) {
        Some(id) => if id == peer {
            refused is None
        } else {
            refused matches Some(e) && other_id_error(e)
        },
        None => refused matches Some(e) && is_refusal(network, transcript, msg, step, e),
    }
}

/// Whether relayed bytes are a message of a handshake.
pub open spec fn is_knock(payload: Seq<u8>) -> bool {
    ||| crate::text::begins_with(payload, HANDSHAKE_INITIATOR_PREFIX@)
    ||| crate::text::begins_with(payload, HANDSHAKE_RESPONDER_PREFIX@)
    ||| crate::text::begins_with(payload, HANDSHAKE_FINAL_PREFIX@)
}

/// One hop more.
pub open spec fn one_more(hops: u8) -> u8 {
    if hops < 255 {
        (hops + 1) as u8
    } else {
        255
    }
}

impl NodeState {
    // -----------------------------------------------------------------------
    // Sending
    // -----------------------------------------------------------------------
    /// An effect added.
    pub open spec fn emitted(self, e: Effect) -> NodeState {
        NodeState { out: self.out.push(e), ..self }
    }

    /// Whether a message can be encrypted for a peer: there is a session, the
    /// message fits, and the counter is not used up.
    pub open spec fn can_send(self, peer: PeerId, m: Msg) -> bool {
        self.sessions.has(peer) && SecureTransport::can_encrypt(
            self.sessions.map[peer].session,
            crate::message::message_bytes(m),
        )
    }

    /// A message encrypted for a peer and sent to an address; nothing if it
    /// cannot be encrypted.
    pub open spec fn sent_to(self, peer: PeerId, to: TransportAddr, m: Msg) -> NodeState {
        if self.can_send(peer, m) {
            let link = self.sessions.map[peer];
            let s = link.session;
            NodeState {
                sessions: Rows {
                    map: self.sessions.map.insert(
                        peer,
                        Link { session: NoiseSession { sent: s.sent + 1, ..s }, ..link },
                    ),
                    order: self.sessions.order,
                },
                out: self.out.push(
                    Effect::Send {
                        to,
                        bytes: noise_seal(s.sending_key, s.sent, crate::message::message_bytes(m)),
                    },
                ),
                ..self
            }
        } else {
            self
        }
    }

    /// A message encrypted for a peer and sent to where it is.
    pub open spec fn sent(self, peer: PeerId, m: Msg) -> NodeState {
        self.sent_to(peer, self.sessions.map[peer].underlay, m)
    }

    /// A message for several peers, in turn.
    pub open spec fn told(self, peers: Seq<PeerId>, m: Msg) -> NodeState
        decreases peers.len(),
    {
        if peers.len() == 0 {
            self
        } else {
            self.told(peers.drop_last(), m).sent(peers.last(), m)
        }
    }

    /// A directory for several peers, in turn: each gets the entries of the
    /// others, and nothing if there are none.
    pub open spec fn told_entries(self, peers: Seq<PeerId>, entries: Seq<Entry>) -> NodeState
        decreases peers.len(),
    {
        if peers.len() == 0 {
            self
        } else {
            let before = self.told_entries(peers.drop_last(), entries);
            let own = entries_without(entries, peers.last());
            if own.len() == 0 {
                before
            } else {
                before.sent(peers.last(), Msg::PeerDirectory { entries: own })
            }
        }
    }

    // -----------------------------------------------------------------------
    // Directories
    // -----------------------------------------------------------------------
    /// Entries for the peers among `ids` that are reached over UDP, one hop away.
    pub open spec fn direct_entries(self, ids: Seq<PeerId>) -> Seq<Entry>
        decreases ids.len(),
    {
        if ids.len() == 0 {
            Seq::empty()
        } else {
            let before = self.direct_entries(ids.drop_last());
            match self.sessions.map[ids.last()].underlay {
                TransportAddr::Udp(a) => before.push((ids.last(), a, 1u8)),
                _ => before,
            }
        }
    }

    /// Entries extended by the peers among `ids` that are reached through relays,
    /// are not listed yet and have a known public address; `skip` is left out.
    pub open spec fn with_indirect(
        self,
        entries: Seq<Entry>,
        ids: Seq<PeerId>,
        skip: PeerId,
    ) -> Seq<Entry>
        decreases ids.len(),
    {
        if ids.len() == 0 {
            entries
        } else {
            let before = self.with_indirect(entries, ids.drop_last(), skip);
            let id = ids.last();
            if id != skip && !lists(before, id) && self.peers.known.contains_key(id) {
                match self.peers.known[id].public_addr {
                    Some(a) => before.push((id, a, self.paths.map[id].1)),
                    None => before,
                }
            } else {
                before
            }
        }
    }

    // -----------------------------------------------------------------------
    // Sessions
    // -----------------------------------------------------------------------
    /// What a new peer is told of us.
    pub open spec fn introduction(self) -> Msg {
        Msg::SessionInit {
            overlay: self.overlay,
            overlay_ipv6: Some(self.overlay_ipv6.bytes()),
            hostname: self.hostname,
            public_addr: self.public,
        }
    }

    /// A session entered: a path through a relay is no longer needed, and the
    /// peer is found by id, by address and by its overlay address.
    pub open spec fn entered(
        self,
        peer: PeerId,
        session: NoiseSession,
        underlay: TransportAddr,
    ) -> NodeState {
        NodeState {
            paths: self.paths.without(peer),
            sessions: self.sessions.with(peer, Link { session, underlay }),
            by_addr: self.by_addr.insert(underlay, peer),
            routes: self.routes.with(crate::derive::overlay_of(peer).addr, peer),
            ..self
        }
    }

    /// A new peer told who we are, and that we relay if we do.
    pub open spec fn greeted(self, peer: PeerId, to: TransportAddr) -> NodeState {
        let told = self.sent_to(peer, to, self.introduction());
        match self.public {
            Some(a) => if self.can_relay {
                told.sent_to(
                    peer,
                    to,
                    Msg::RelayAnnounce { relay_peer_id: self.id, public_addr: a },
                )
            } else {
                told
            },
            None => told,
        }
    }

    /// A peer noted as connected.
    pub open spec fn noted(self, peer: PeerId, at: SocketAddr) -> NodeState {
        NodeState {
            peers: self.peers.discovered(peer, at, self.clock).brought_up(peer, self.clock),
            ..self
        }
    }

    /// Packets for a peer with a session sent, in turn.
    pub open spec fn sent_all(self, peer: PeerId, packets: Seq<Seq<u8>>) -> NodeState
        decreases packets.len(),
    {
        if packets.len() == 0 {
            self
        } else {
            self.sent_all(peer, packets.drop_last()).sent(peer, Msg::Data(packets.last()))
        }
    }

    /// What waited for a session with a peer sent over the session.
    pub open spec fn flushed(self, peer: PeerId) -> NodeState {
        NodeState { waiting: self.waiting.remove(peer), ..self }.sent_all(peer, self.held(peer))
    }

    /// The end of a handshake that the other side began.
    pub open spec fn joined_by(
        self,
        peer: PeerId,
        session: NoiseSession,
        from: TransportAddr,
    ) -> NodeState {
        self.entered(peer, session, from).greeted(peer, from).noted(peer, from.addr()).flushed(peer)
    }

    /// A new peer told, by a relay, of the other peers that are reached over UDP.
    pub open spec fn shown_around(self, peer: PeerId, to: TransportAddr) -> NodeState {
        let entries = self.direct_entries(ids_without(self.sessions.order, peer));
        if self.can_relay && self.public is Some && entries.len() > 0 {
            self.sent_to(peer, to, Msg::PeerDirectory { entries })
        } else {
            self
        }
    }

    /// The end of a handshake that we began.
    pub open spec fn joined(self, peer: PeerId, session: NoiseSession, at: SocketAddr) -> NodeState {
        let to = TransportAddr::Udp(at);
        self.entered(peer, session, to).greeted(peer, to).shown_around(peer, to).noted(
            peer,
            at,
        ).flushed(peer)
    }

    // -----------------------------------------------------------------------
    // Handshakes
    // -----------------------------------------------------------------------
    /// Answered handshakes that are waited for no longer, taken out.
    pub open spec fn pruned(self, now_ns: u64) -> NodeState {
        NodeState {
            answering: self.answering.restrict(
                Set::new(
                    |a: SocketAddr| now_ns - self.answering[a].2 < HANDSHAKE_TIMEOUT_NANOS,
                ),
            ),
            ..self
        }
    }

    /// Whether bytes are a message A of ours: any member of the network accepts
    /// them as the first message of a handshake.
    pub open spec fn is_message_a(self, a: Seq<u8>) -> bool {
        a.len() == 32 && noise_payload(self.network, Seq::empty(), a) == Some(Seq::<u8>::empty())
    }

    /// A handshake begun with message A.
    pub open spec fn called(self, to: SocketAddr, a: Seq<u8>, now_ns: u64) -> NodeState {
        NodeState { calling: self.calling.insert(to, (a, now_ns)), ..self }.emitted(
            Effect::Call { to, bytes: HANDSHAKE_INITIATOR_PREFIX@ + a },
        )
    }

    /// Whether a message A can be answered.
    pub open spec fn accepts_a(self, a: Seq<u8>) -> bool {
        a.len() <= 65535 && noise_payload(self.network, Seq::empty(), a) is Some
    }

    /// Whether bytes are our message B in answer to a message A: whoever wrote A
    /// in this network accepts them, and they carry our static key and our claim.
    pub open spec fn is_message_b(self, a: Seq<u8>, b: Seq<u8>) -> bool {
        &&& b.len() == 192
        &&& noise_payload(self.network, seq![a], b) == Some(self.claim)
        &&& noise_static_key(seq![a], b) == crate::device::x25519_public(self.secret)
    }

    /// A handshake answered with message B.
    pub open spec fn answered(
        self,
        from: TransportAddr,
        a: Seq<u8>,
        b: Seq<u8>,
        now_ns: u64,
    ) -> NodeState {
        NodeState { answering: self.answering.insert(from.addr(), (a, b, now_ns)), ..self }.emitted(
            Effect::Send { to: from, bytes: HANDSHAKE_RESPONDER_PREFIX@ + b },
        )
    }

    /// Whether bytes are our message C after messages A and B: whoever wrote B in
    /// this network accepts them, and they carry our static key and our claim.
    pub open spec fn is_message_c(self, a: Seq<u8>, b: Seq<u8>, c: Seq<u8>) -> bool {
        &&& c.len() == 160
        &&& noise_payload(self.network, seq![a, b], c) == Some(self.claim)
        &&& noise_static_key(seq![a, b], c) == crate::device::x25519_public(self.secret)
    }

    /// A message B received for a handshake that we began, and message C written
    /// in answer.
    pub open spec fn completed(self, at: SocketAddr, b: Seq<u8>, c: Seq<u8>) -> NodeState {
        let a = self.calling[at].0;
        let peer = proved_id(self.network, seq![a], b)->Some_0;
        NodeState {
            calling: self.calling.remove(at),
            closing: self.closing.insert(
                at,
                (peer, crate::noise::fresh_session(true, seq![a, b, c])),
            ),
            ..self
        }.emitted(Effect::Finish { to: at, bytes: c })
    }

    /// The same node at a point in time.
    pub open spec fn as_of(self, t: Instant) -> NodeState {
        NodeState { clock: t, ..self }
    }

    /// What follows when message C was sent, or could not be: in the first case
    /// the session begins, unless it is with ourselves.
    pub open spec fn finished(self, at: SocketAddr, sent: bool, t: Instant) -> NodeState {
        if self.closing.contains_key(at) {
            let (peer, session) = self.closing[at];
            let left = NodeState { closing: self.closing.remove(at), ..self.as_of(t) };
            if sent && peer != self.id {
                left.joined(peer, session, at)
            } else {
                left
            }
        } else {
            self.as_of(t)
        }
    }

    /// Whether a message B is accepted for a handshake that we began.
    pub open spec fn accepts_b(self, at: SocketAddr, b: Seq<u8>) -> bool {
        proved_id(self.network, seq![self.calling[at].0], b) is Some
    }

    /// A message B received for a handshake that we began: if it is accepted, the
    /// handshake is completed with some message C of ours; else it is given up, and
    /// `refused` says why.
    pub open spec fn completes(
        self,
        at: SocketAddr,
        b: Seq<u8>,
        after: NodeState,
        refused: Option<Error>,
    ) -> bool {
        &&& refused_at(refused, self.network, seq![self.calling[at].0], b, "msg B read: "@)
        &&& if self.accepts_b(at, b) {
            exists|c: Seq<u8>| #[trigger]
                self.is_message_c(self.calling[at].0, b, c) && after == self.completed(at, b, c)
        } else {
            after == (NodeState { calling: self.calling.remove(at), ..self })
        }
    }

    /// Whether a message C is accepted for a handshake that we answered.
    pub open spec fn accepts_c(self, at: SocketAddr, c: Seq<u8>) -> bool {
        let (a, b, _) = self.answering[at];
        proved_id(self.network, seq![a, b], c) is Some
    }

    /// A packet received where a message C is waited for: if it is accepted, a
    /// session begins; either way nothing is waited for any longer.
    pub open spec fn concluded(self, from: TransportAddr, c: Seq<u8>) -> NodeState {
        let (a, b, _) = self.answering[from.addr()];
        let left = NodeState { answering: self.answering.remove(from.addr()), ..self };
        if self.accepts_c(from.addr(), c) {
            left.joined_by(
                proved_id(self.network, seq![a, b], c)->Some_0,
                crate::noise::fresh_session(false, seq![a, b, c]),
                from,
            )
        } else {
            left
        }
    }

    /// A handshake that we began given up.
    pub open spec fn gave_up(self, at: SocketAddr) -> NodeState {
        NodeState { calling: self.calling.remove(at), ..self }
    }

    /// What follows when no message B came in time: the relays are asked to reach
    /// the peer last known at the address, and a probe with the token goes to its
    /// public address if that is another one.
    pub open spec fn timed_out(self, at: SocketAddr, token: u64) -> NodeState {
        let left = self.gave_up(at);
        if left.by_addr.contains_key(TransportAddr::Udp(at)) {
            let target = left.by_addr[TransportAddr::Udp(at)];
            let asked = left.told(
                ids_without(left.relays.order, target),
                Msg::RelayRequest { dst_peer_id: target },
            );
            if asked.peers.known.contains_key(target) {
                match asked.peers.known[target].public_addr {
                    Some(p) => if p != at {
                        asked.emitted(
                            Effect::Send {
                                to: TransportAddr::Udp(p),
                                bytes: crate::punch::punch_packet(Msg::HolePunchProbe { token }),
                            },
                        )
                    } else {
                        asked
                    },
                    None => asked,
                }
            } else {
                asked
            }
        } else {
            left
        }
    }

    // -----------------------------------------------------------------------
    // Through relays
    // -----------------------------------------------------------------------
    /// Bytes for a peer handed to a relay.
    pub open spec fn relayed(self, relay: PeerId, peer: PeerId, payload: Seq<u8>) -> NodeState {
        self.sent(
            relay,
            Msg::RelayData { src_peer_id: self.id, dst_peer_id: peer, payload },
        )
    }

    /// A packet for a peer, encrypted for the peer and handed to a relay; nothing if
    /// it cannot be encrypted.
    pub open spec fn sent_through(self, relay: PeerId, peer: PeerId, packet: Seq<u8>) -> NodeState {
        let s = self.outward[peer];
        let plain = crate::message::message_bytes(Msg::Data(packet));
        if SecureTransport::can_encrypt(s, plain) {
            NodeState {
                outward: self.outward.insert(peer, NoiseSession { sent: s.sent + 1, ..s }),
                ..self
            }.relayed(relay, peer, noise_seal(s.sending_key, s.sent, plain))
        } else {
            self
        }
    }

    /// Packets for a peer, in turn, encrypted for the peer and handed to a relay.
    pub open spec fn sent_all_through(
        self,
        relay: PeerId,
        peer: PeerId,
        packets: Seq<Seq<u8>>,
    ) -> NodeState
        decreases packets.len(),
    {
        if packets.len() == 0 {
            self
        } else {
            self.sent_all_through(relay, peer, packets.drop_last()).sent_through(
                relay,
                peer,
                packets.last(),
            )
        }
    }

    /// Bytes from a peer that came through a relay: if they decrypt, they are counted,
    /// and a packet in them goes to the TUN device.
    pub open spec fn heard_through(self, peer: PeerId, payload: Seq<u8>) -> NodeState {
        let s = self.inward[peer];
        if self.inward.contains_key(peer) {
            match SecureTransport::opened(s, payload) {
                Some(plain) => {
                    let counted = NodeState {
                        inward: self.inward.insert(
                            peer,
                            NoiseSession { received: s.received + 1, ..s },
                        ),
                        ..self
                    };
                    match crate::message::decoded(plain) {
                        Ok(Msg::Data(packet)) => counted.emitted(Effect::Tun(packet)),
                        _ => counted,
                    }
                },
                None => self,
            }
        } else {
            self
        }
    }

    /// Whether a handshake with a peer through relays is under way.
    pub open spec fn is_knocking(self, peer: PeerId, now_ns: u64) -> bool {
        self.knocking.contains_key(peer) && now_ns - self.knocking[peer].1
            < HANDSHAKE_TIMEOUT_NANOS
    }

    /// A handshake with a peer begun through a relay with message A.
    pub open spec fn knocked(
        self,
        relay: PeerId,
        peer: PeerId,
        a: Seq<u8>,
        now_ns: u64,
    ) -> NodeState {
        NodeState { knocking: self.knocking.insert(peer, (a, now_ns)), ..self }.relayed(
            relay,
            peer,
            HANDSHAKE_INITIATOR_PREFIX@ + a,
        )
    }

    /// The packets that wait for a session with a peer.
    pub open spec fn held(self, peer: PeerId) -> Seq<Seq<u8>> {
        if self.waiting.contains_key(peer) {
            self.waiting[peer]
        } else {
            Seq::empty()
        }
    }

    /// One more packet that waits for a session with a peer; none if too many do.
    pub open spec fn kept_waiting(self, peer: PeerId, packet: Seq<u8>) -> NodeState {
        if self.held(peer).len() < MAX_WAITING_PACKETS {
            NodeState {
                waiting: self.waiting.insert(peer, self.held(peer).push(packet)),
                ..self
            }
        } else {
            self
        }
    }

    /// A handshake with a peer answered through a relay with message B.
    pub open spec fn answered_through(
        self,
        relay: PeerId,
        peer: PeerId,
        a: Seq<u8>,
        b: Seq<u8>,
    ) -> NodeState {
        NodeState { opening: self.opening.insert(peer, (a, b)), ..self }.relayed(
            relay,
            peer,
            HANDSHAKE_RESPONDER_PREFIX@ + b,
        )
    }

    /// A message A from a peer that came through a relay.
    pub open spec fn answers_through(
        self,
        relay: PeerId,
        peer: PeerId,
        a: Seq<u8>,
        after: NodeState,
        refused: Option<Error>,
    ) -> bool {
        match refused {
            None => self.accepts_a(a) && exists|b: Seq<u8>| #[trigger]
                self.is_message_b(a, b) && after == self.answered_through(relay, peer, a, b),
            Some(e) => after == self && self.is_unanswered(a, e),
        }
    }

    /// Whether an error is why a message A is not answered: it is not accepted, or no
    /// message B could be written, for want of randomness.
    pub open spec fn is_unanswered(self, a: Seq<u8>, e: Error) -> bool {
        if self.accepts_a(a) {
            crate::noise::handshake_error(e, "msg B write: "@)
        } else {
            crate::noise::handshake_error(e, "msg A read: "@)
        }
    }

    /// A handshake through relays that we began, ended with message C: what we send to
    /// the peer now goes under its session.
    pub open spec fn ended_through(
        self,
        relay: PeerId,
        peer: PeerId,
        b: Seq<u8>,
        c: Seq<u8>,
    ) -> NodeState {
        let a = self.knocking[peer].0;
        NodeState {
            knocking: self.knocking.remove(peer),
            outward: self.outward.insert(
                peer,
                crate::noise::fresh_session(true, seq![a, b, c]),
            ),
            ..self
        }.relayed(relay, peer, HANDSHAKE_FINAL_PREFIX@ + c)
    }

    /// A handshake through relays that we began, ended with message C, after which the
    /// packets that waited for a session are sent.
    pub open spec fn completed_through(
        self,
        relay: PeerId,
        peer: PeerId,
        b: Seq<u8>,
        c: Seq<u8>,
    ) -> NodeState {
        let ended = self.ended_through(relay, peer, b, c);
        NodeState { waiting: self.waiting.remove(peer), ..ended }.sent_all_through(
            relay,
            peer,
            self.held(peer),
        )
    }

    /// A message B from a peer that came through a relay, for a handshake that we
    /// began: if it proves that peer's id, the handshake is completed with some
    /// message C of ours; else it is given up, and what waits for a session waits on.
    pub open spec fn completes_through(
        self,
        relay: PeerId,
        peer: PeerId,
        b: Seq<u8>,
        after: NodeState,
        refused: Option<Error>,
    ) -> bool {
        let a = self.knocking[peer].0;
        &&& refused_from(refused, peer, self.network, seq![a], b, "msg B read: "@)
        &&& if proved_id(self.network, seq![a], b) == Some(peer) {
            exists|c: Seq<u8>| #[trigger]
                self.is_message_c(a, b, c) && after == self.completed_through(relay, peer, b, c)
        } else {
            after == (NodeState { knocking: self.knocking.remove(peer), ..self })
        }
    }

    /// A message C from a peer that came through a relay, for a handshake that we
    /// answered: if it proves that peer's id, what the peer sends is now read under its
    /// session; either way nothing is waited for any longer.
    pub open spec fn concluded_through(self, peer: PeerId, c: Seq<u8>) -> NodeState {
        let (a, b) = self.opening[peer];
        let left = NodeState { opening: self.opening.remove(peer), ..self };
        if proved_id(self.network, seq![a, b], c) == Some(peer) {
            NodeState {
                inward: self.inward.insert(
                    peer,
                    crate::noise::fresh_session(false, seq![a, b, c]),
                ),
                ..left
            }
        } else {
            left
        }
    }

    /// A message of a handshake that came from a peer through a relay.
    pub open spec fn answers_knock(
        self,
        relay: PeerId,
        peer: PeerId,
        payload: Seq<u8>,
        after: NodeState,
        refused: Option<Error>,
    ) -> bool {
        let msg = payload.skip(12);
        if crate::text::begins_with(payload, HANDSHAKE_INITIATOR_PREFIX@) {
            self.answers_through(relay, peer, msg, after, refused)
        } else if crate::text::begins_with(payload, HANDSHAKE_RESPONDER_PREFIX@) {
            if self.knocking.contains_key(peer) {
                self.completes_through(relay, peer, msg, after, refused)
            } else {
                after == self && refused is None
            }
        } else if self.opening.contains_key(peer) {
            let (a, b) = self.opening[peer];
            &&& after == self.concluded_through(peer, msg)
            &&& refused_from(refused, peer, self.network, seq![a, b], msg, "msg C read: "@)
        } else {
            after == self && refused is None
        }
    }

    // -----------------------------------------------------------------------
    // Messages
    // -----------------------------------------------------------------------
    /// Hole-punch packets: a probe is acknowledged and answered with a probe.
    pub open spec fn probed(self, from: TransportAddr, payload: Seq<u8>) -> NodeState {
        match crate::message::decoded(payload) {
            Ok(Msg::HolePunchProbe { token }) => self.emitted(
                Effect::Send {
                    to: from,
                    bytes: crate::punch::punch_packet(Msg::HolePunchAck { token }),
                },
            ).emitted(
                Effect::Send {
                    to: from,
                    bytes: crate::punch::punch_packet(Msg::HolePunchProbe { token }),
                },
            ),
            _ => self,
        }
    }

    /// What is known of a peer changed; nothing if it is not known.
    pub open spec fn with_info(self, peer: PeerId, info: PeerInfo) -> NodeState {
        if self.peers.known.contains_key(peer) {
            NodeState { peers: self.peers.with(peer, info), ..self }
        } else {
            self
        }
    }

    /// A path to a peer through a relay, with a route.
    pub open spec fn with_path(self, peer: PeerId, relay: PeerId, hops: u8) -> NodeState {
        NodeState {
            paths: self.paths.with(peer, (relay, hops)),
            routes: self.routes.with(crate::derive::overlay_of(peer).addr, peer),
            ..self
        }
    }

    /// Our round-trip time to a peer.
    pub open spec fn timed(self, peer: PeerId, sent_ms: u64, now_ms: u64) -> NodeState {
        let rtt = if now_ms >= sent_ms {
            (now_ms - sent_ms) % 0x1_0000_0000
        } else {
            0
        };
        self.with_info(
            peer,
            PeerInfo { latency_ms: Some(rtt as u32), ..self.peers.known[peer] },
        )
    }

    /// What a peer tells of itself, added to what is known of it.
    pub open spec fn told_of(
        self,
        peer: PeerId,
        overlay_ipv6: Option<Seq<u8>>,
        hostname: Seq<char>,
        public_addr: Option<SocketAddr>,
    ) -> NodeState {
        let info = self.peers.known[peer];
        self.with_info(
            peer,
            PeerInfo {
                overlay_ipv6: match overlay_ipv6 {
                    Some(b) => Some(Ipv6Addr::of_bytes(b)),
                    None => info.overlay_ipv6,
                },
                hostname: if hostname.len() > 0 {
                    hostname
                } else {
                    info.hostname
                },
                public_addr: match public_addr {
                    Some(a) => Some(a),
                    None => info.public_addr,
                },
                ..info
            },
        )
    }

    /// What a relay does when a peer at a UDP address has introduced itself: the
    /// peer gets a directory of all others, and all others are told of the peer.
    pub open spec fn introduced(self, peer: PeerId, at: SocketAddr) -> NodeState {
        let others = ids_without(self.sessions.order, peer);
        let entries = self.with_indirect(self.direct_entries(others), self.paths.order, peer);
        let first = if entries.len() > 0 {
            self.sent(peer, Msg::PeerDirectory { entries })
        } else {
            self
        };
        first.told(others, Msg::PeerDirectory { entries: seq![(peer, at, 1u8)] })
    }

    /// A peer's introduction of itself.
    pub open spec fn got_session_init(
        self,
        from: TransportAddr,
        peer: PeerId,
        overlay: OverlayAddr,
        overlay_ipv6: Option<Seq<u8>>,
        hostname: Seq<char>,
        public_addr: Option<SocketAddr>,
    ) -> NodeState {
        let routed = NodeState { routes: self.routes.with(overlay.addr, peer), ..self };
        let spread = match from {
            TransportAddr::Udp(a) => if self.can_relay {
                routed.introduced(peer, a)
            } else {
                routed
            },
            _ => routed,
        };
        spread.told_of(peer, overlay_ipv6, hostname, public_addr)
    }

    /// Whether a path with so many hops is shorter than the one known.
    pub open spec fn is_shorter(self, peer: PeerId, hops: u8) -> bool {
        !self.paths.has(peer) || hops < self.paths.map[peer].1
    }

    /// An entry of a directory that a relay sent. The peer and its address are
    /// noted; if it has no session and the way is shorter than the one known, it
    /// is taken, and the relay is asked to forward.
    pub open spec fn learned_one(self, relay: PeerId, e: Entry) -> NodeState {
        if e.0 == self.id {
            self
        } else {
            let seen = NodeState {
                peers: self.peers.discovered(e.0, e.1, self.clock),
                ..self
            };
            let known = seen.with_info(
                e.0,
                PeerInfo { public_addr: Some(e.1), ..seen.peers.known[e.0] },
            );
            if !self.sessions.has(e.0) && self.is_shorter(e.0, one_more(e.2)) {
                known.with_path(e.0, relay, one_more(e.2)).sent(
                    relay,
                    Msg::RelayRequest { dst_peer_id: e.0 },
                )
            } else {
                known
            }
        }
    }

    /// The entries of a directory, in turn.
    pub open spec fn learned(self, relay: PeerId, entries: Seq<Entry>) -> NodeState
        decreases entries.len(),
    {
        if entries.len() == 0 {
            self
        } else {
            self.learned(relay, entries.drop_last()).learned_one(relay, entries.last())
        }
    }

    /// The entries that a relay passes on, one hop farther.
    pub open spec fn passed_on(self, entries: Seq<Entry>) -> Seq<Entry>
        decreases entries.len(),
    {
        if entries.len() == 0 {
            Seq::empty()
        } else {
            let before = self.passed_on(entries.drop_last());
            let e = entries.last();
            if e.0 != self.id && e.2 < MAX_HOP_REBROADCAST {
                before.push((e.0, e.1, one_more(e.2)))
            } else {
                before
            }
        }
    }

    /// A directory from a relay.
    pub open spec fn got_directory(self, relay: PeerId, entries: Seq<Entry>) -> NodeState {
        let learned = self.learned(relay, entries);
        let onward = self.passed_on(entries);
        if self.can_relay && onward.len() > 0 {
            learned.told(
                ids_without(learned.sessions.order, relay),
                Msg::PeerDirectory { entries: onward },
            )
        } else {
            learned
        }
    }

    /// A request to forward to a peer. A relay that has a session with the peer
    /// tells both sides that it is ready; one that reaches it through another
    /// relay tells the requester and passes the request on for the way back. A
    /// node that does not relay takes it as news of a way to the peer.
    pub open spec fn got_relay_request(self, requester: PeerId, dst: PeerId) -> NodeState {
        if self.can_relay {
            if self.sessions.has(dst) {
                self.sent(
                    requester,
                    Msg::RelayReady { relay_peer_id: self.id, dst_peer_id: dst },
                ).sent(dst, Msg::RelayReady { relay_peer_id: self.id, dst_peer_id: requester })
            } else if self.paths.has(dst) {
                self.sent(
                    requester,
                    Msg::RelayReady { relay_peer_id: self.id, dst_peer_id: dst },
                ).sent(self.paths.map[dst].0, Msg::RelayRequest { dst_peer_id: requester })
            } else {
                self
            }
        } else {
            self.with_path(dst, requester, 1)
        }
    }

    /// A relay's word that it forwards to a peer. The peer may have begun anew, so
    /// what we send to it through relays waits for a new session.
    pub open spec fn got_relay_ready(self, relay: PeerId, dst: PeerId) -> NodeState {
        NodeState { outward: self.outward.remove(dst), ..self }.with_path(dst, relay, 1).noted(
            dst,
            SocketAddr::V4 { ip: Ipv4Addr { a: 0, b: 0, c: 0, d: 0 }, port: 0 },
        )
    }

    /// Whether relayed bytes are for us: they say so, or we neither relay nor have a
    /// session with whom they are for.
    pub open spec fn is_for_us(self, dst: PeerId) -> bool {
        dst == self.id || (!self.sessions.has(dst) && !self.can_relay)
    }

    /// Relayed bytes. If they are for us, they are read under the session that their
    /// sender has with us. A relay forwards them unread to the peer, or to the next
    /// relay.
    pub open spec fn got_relay_data(self, src: PeerId, dst: PeerId, payload: Seq<u8>) -> NodeState {
        let onward = Msg::RelayData { src_peer_id: src, dst_peer_id: dst, payload };
        if self.is_for_us(dst) {
            self.heard_through(src, payload)
        } else if self.can_relay {
            if self.sessions.has(dst) {
                self.sent(dst, onward)
            } else if self.paths.has(dst) {
                self.sent(self.paths.map[dst].0, onward)
            } else {
                self
            }
        } else {
            self
        }
    }

    /// A message from a peer with a session.
    pub open spec fn got(
        self,
        from: TransportAddr,
        peer: PeerId,
        m: Msg,
        now_ms: u64,
    ) -> NodeState {
        match m {
            Msg::Data(packet) => self.emitted(Effect::Tun(packet)),
            Msg::Heartbeat => self,
            Msg::Ping { sent_ms } => self.sent_to(peer, from, Msg::Pong { sent_ms }),
            Msg::Pong { sent_ms } => self.timed(peer, sent_ms, now_ms),
            Msg::SessionInit { overlay, overlay_ipv6, hostname, public_addr } =>
                self.got_session_init(from, peer, overlay, overlay_ipv6, hostname, public_addr),
            Msg::HolePunchProbe { token } => self,
            Msg::HolePunchAck { token } => self,
            Msg::RelayRequest { dst_peer_id } => self.got_relay_request(peer, dst_peer_id),
            Msg::RelayReady { relay_peer_id, dst_peer_id } => self.got_relay_ready(
                relay_peer_id,
                dst_peer_id,
            ),
            Msg::RelayData { src_peer_id, dst_peer_id, payload } => self.got_relay_data(
                src_peer_id,
                dst_peer_id,
                payload,
            ),
            Msg::RelayAnnounce { relay_peer_id, public_addr } => NodeState {
                relays: self.relays.with(relay_peer_id, public_addr),
                ..self
            },
            Msg::PeerDirectory { entries } => self.got_directory(peer, entries),
        }
    }

    /// A message from a peer with a session; `refused` says why a message of a
    /// handshake through relays was not taken.
    pub open spec fn gets(
        self,
        from: TransportAddr,
        peer: PeerId,
        m: Msg,
        now_ms: u64,
        after: NodeState,
        refused: Option<Error>,
    ) -> bool {
        match m {
            Msg::RelayData { src_peer_id, dst_peer_id, payload } => if self.is_for_us(dst_peer_id)
                && is_knock(payload) {
                self.answers_knock(peer, src_peer_id, payload, after, refused)
            } else {
                after == self.got(from, peer, m, now_ms) && refused is None
            },
            _ => after == self.got(from, peer, m, now_ms) && refused is None,
        }
    }

    /// A message counted as received.
    pub open spec fn counted(self, peer: PeerId) -> NodeState {
        let link = self.sessions.map[peer];
        let s = link.session;
        NodeState {
            sessions: Rows {
                map: self.sessions.map.insert(
                    peer,
                    Link { session: NoiseSession { received: s.received + 1, ..s }, ..link },
                ),
                order: self.sessions.order,
            },
            ..self
        }
    }

    /// A packet from an address that belongs to a peer: if there is a session and
    /// it decrypts, it is counted, and the message in it is acted upon.
    pub open spec fn hears(
        self,
        from: TransportAddr,
        data: Seq<u8>,
        now_ms: u64,
        after: NodeState,
        refused: Option<Error>,
    ) -> bool {
        let peer = self.by_addr[from];
        let opened = if self.sessions.has(peer) {
            SecureTransport::opened(self.sessions.map[peer].session, data)
        } else {
            None
        };
        match opened {
            Some(plain) => match crate::message::decoded(plain) {
                Ok(m) => self.counted(peer).gets(from, peer, m, now_ms, after, refused),
                Err(_) => after == self.counted(peer) && refused is None,
            },
            None => after == self && refused is None,
        }
    }

    /// A packet that begins a handshake. If message A is accepted, it is answered
    /// with some message B of ours; if none could be written, for want of
    /// randomness, `refused` tells of that failure and nothing changes. If message A
    /// is not accepted, `refused` tells of that, and nothing changes either.
    pub open spec fn answers(
        self,
        from: TransportAddr,
        a: Seq<u8>,
        now_ns: u64,
        after: NodeState,
        refused: Option<Error>,
    ) -> bool {
        match refused {
            None => self.accepts_a(a) && exists|b: Seq<u8>| #[trigger]
                self.is_message_b(a, b) && after == self.answered(from, a, b, now_ns),
            Some(e) => after == self && self.is_unanswered(a, e),
        }
    }

    /// A packet received. `refused` says why a handshake message was not taken;
    /// of any other packet it says nothing.
    pub open spec fn received(
        self,
        from: TransportAddr,
        data: Seq<u8>,
        now_ns: u64,
        now_ms: u64,
        t: Instant,
        after: NodeState,
        refused: Option<Error>,
    ) -> bool {
        let s = self.as_of(t).pruned(now_ns);
        if crate::text::begins_with(data, crate::constants::HOLE_PUNCH_PROBE_PREFIX@) {
            after == s.probed(from, data.skip(11)) && refused is None
        } else if crate::text::begins_with(data, HANDSHAKE_RESPONDER_PREFIX@)
            && s.calling.contains_key(from.addr()) {
            s.completes(from.addr(), data.skip(12), after, refused)
        } else if s.answering.contains_key(from.addr()) {
            let (a, b, _) = s.answering[from.addr()];
            after == s.concluded(from, data) && refused_at(
                refused,
                s.network,
                seq![a, b],
                data,
                "msg C read: "@,
            )
        } else if s.by_addr.contains_key(from) {
            s.hears(from, data, now_ms, after, refused)
        } else if crate::text::begins_with(data, HANDSHAKE_INITIATOR_PREFIX@) {
            s.answers(from, data.skip(12), now_ns, after, refused)
        } else {
            after == s && refused is None
        }
    }

    // -----------------------------------------------------------------------
    // Packets of our own
    // -----------------------------------------------------------------------
    /// Where an IP packet goes; nowhere in particular if it is no IPv4 packet.
    pub open spec fn destination(packet: Seq<u8>) -> Ipv4Addr {
        if crate::routing::is_ipv4(packet) {
            crate::routing::ip_at(packet, 16)
        } else {
            Ipv4Addr { a: 0, b: 0, c: 0, d: 0 }
        }
    }

    /// A packet for a peer that is reached neither directly nor through a relay:
    /// its route is stale and goes, and a relay is asked to reach the peer.
    pub open spec fn unreachable(self, peer: PeerId) -> NodeState {
        let unrouted = if self.routes.addrs.contains_key(peer) {
            NodeState { routes: self.routes.without(self.routes.addrs[peer]), ..self }
        } else {
            self
        };
        if self.relays.order.len() > 0 {
            unrouted.sent(self.relays.order[0], Msg::RelayRequest { dst_peer_id: peer })
        } else {
            unrouted
        }
    }

    /// An IP packet sent on its way: to ourselves, to a peer with a session, or
    /// encrypted for the peer and through a relay.
    pub open spec fn sent_packet(self, packet: Seq<u8>) -> NodeState {
        let dst = NodeState::destination(packet);
        if packet.len() == 0 {
            self
        } else if dst == self.overlay.addr {
            self.emitted(Effect::Tun(packet))
        } else if self.routes.routes.contains_key(dst) {
            let peer = self.routes.routes[dst];
            if self.sessions.has(peer) {
                self.sent(peer, Msg::Data(packet))
            } else if self.paths.has(peer) {
                if self.outward.contains_key(peer) {
                    self.sent_through(self.paths.map[peer].0, peer, packet)
                } else {
                    self
                }
            } else {
                self.unreachable(peer)
            }
        } else {
            self
        }
    }

    /// The peer that a packet is for, if it is reached through a relay and has no
    /// session for that yet.
    pub open spec fn lacks_session(self, packet: Seq<u8>) -> Option<PeerId> {
        let dst = NodeState::destination(packet);
        if packet.len() > 0 && dst != self.overlay.addr && self.routes.routes.contains_key(dst)
            && !self.sessions.has(self.routes.routes[dst]) && self.paths.has(
            self.routes.routes[dst],
        ) && !self.outward.contains_key(self.routes.routes[dst]) {
            Some(self.routes.routes[dst])
        } else {
            None
        }
    }

    /// An IP packet that the TUN device handed us. If it is for a peer behind a relay
    /// that we have no session with yet, it waits for one, and a handshake with the peer
    /// is begun through the relay, unless one is under way; `refused` tells if no message
    /// A could be written, for want of randomness.
    pub open spec fn takes_packet(
        self,
        packet: Seq<u8>,
        now_ns: u64,
        after: NodeState,
        refused: Option<Error>,
    ) -> bool {
        match self.lacks_session(packet) {
            Some(peer) => if self.is_knocking(peer, now_ns) {
                after == self.kept_waiting(peer, packet) && refused is None
            } else {
                match refused {
                    None => exists|a: Seq<u8>| #[trigger]
                        self.is_message_a(a) && after == self.kept_waiting(peer, packet).knocked(
                            self.paths.map[peer].0,
                            peer,
                            a,
                            now_ns,
                        ),
                    Some(e) => after == self.kept_waiting(peer, packet) && crate::noise::handshake_error(
                        e,
                        "msg A write: "@,
                    ),
                }
            },
            None => after == self.sent_packet(packet) && refused is None,
        }
    }

    // -----------------------------------------------------------------------
    // Recurring work
    // -----------------------------------------------------------------------
    /// How a peer is reached.
    pub open spec fn path_kind(self, peer: PeerId) -> PathKind {
        if self.paths.has(peer) {
            PathKind::Relay(self.paths.map[peer].0)
        } else {
            PathKind::Direct
        }
    }

    /// A ping for several peers, in turn, each noted with how it is reached.
    pub open spec fn pinged(self, peers: Seq<PeerId>, now_ms: u64) -> NodeState
        decreases peers.len(),
    {
        if peers.len() == 0 {
            self
        } else {
            let before = self.pinged(peers.drop_last(), now_ms);
            let id = peers.last();
            before.sent(id, Msg::Ping { sent_ms: now_ms }).with_info(
                id,
                PeerInfo { path_kind: before.path_kind(id), ..before.peers.known[id] },
            )
        }
    }

    /// The directory of all peers, told to each with a session, if at least two
    /// have one.
    pub open spec fn spread_all(self) -> NodeState {
        if self.sessions.order.len() < 2 {
            self
        } else {
            self.told_entries(
                self.sessions.order,
                self.with_indirect(
                    self.direct_entries(self.sessions.order),
                    self.paths.order,
                    self.id,
                ),
            )
        }
    }

    /// The directory of the peers reached over UDP, told by a relay with a known
    /// address to each peer with a session, if it lists at least two.
    pub open spec fn spread_direct(self) -> NodeState {
        let entries = self.direct_entries(self.sessions.order);
        if self.can_relay && self.public is Some && entries.len() >= 2 {
            self.told_entries(self.sessions.order, entries)
        } else {
            self
        }
    }

    /// Our public address. We relay if it is reached from anywhere.
    pub open spec fn at_public(self, addr: SocketAddr) -> NodeState {
        NodeState {
            public: Some(addr),
            can_relay: crate::reach::publicly_routable(addr),
            ..self
        }
    }

    /// Whether a handshake should be begun with an address: it is not our own, no
    /// peer with a session is there, and none is under way.
    pub open spec fn worth_calling(self, addr: SocketAddr) -> bool {
        &&& self.public != Some(addr)
        &&& !(self.by_addr.contains_key(TransportAddr::Udp(addr)) && self.sessions.has(
            self.by_addr[TransportAddr::Udp(addr)],
        ))
        &&& !self.calling.contains_key(addr)
    }

    /// The peer last known at an address forgotten.
    pub open spec fn forgot_addr(self, addr: SocketAddr) -> NodeState {
        NodeState { by_addr: self.by_addr.remove(TransportAddr::Udp(addr)), ..self }
    }

    /// A peer's session ended.
    pub open spec fn dropped(self, peer: PeerId) -> NodeState {
        if self.sessions.has(peer) {
            NodeState {
                sessions: self.sessions.without(peer),
                by_addr: self.by_addr.remove(self.sessions.map[peer].underlay),
                ..self
            }
        } else {
            self
        }
    }

    /// A node to which nothing has happened yet, with the given network, secret and host
    /// name. Its id is its Ed25519 public key, and its overlay addresses come from its id.
    pub open spec fn is_new(
        self,
        network: Seq<u8>,
        device: Seq<u8>,
        hostname: Seq<char>,
    ) -> bool {
        &&& self.id@ == crate::device::ed25519_public(device)
        &&& self.overlay == crate::derive::overlay_of(self.id)
        &&& self.overlay_ipv6 == crate::derive::overlay_ipv6_of(self.id)
        &&& self.hostname == hostname
        &&& self.network == network
        &&& self.device == device
        &&& self.secret == crate::device::clamped(device)
        &&& self.claim == crate::claim::claim_of(device)
        &&& self.public is None
        &&& !self.can_relay
        &&& self.sessions == Rows::<PeerId, Link>::empty()
        &&& self.by_addr == Map::<TransportAddr, PeerId>::empty()
        &&& self.relays == Rows::<PeerId, SocketAddr>::empty()
        &&& self.paths == Rows::<PeerId, (PeerId, u8)>::empty()
        &&& self.routes.routes == Map::<Ipv4Addr, PeerId>::empty()
        &&& self.routes.addrs == Map::<PeerId, Ipv4Addr>::empty()
        &&& self.peers == Peers::none()
        &&& self.calling == Map::<SocketAddr, (Seq<u8>, u64)>::empty()
        &&& self.answering == Map::<SocketAddr, (Seq<u8>, Seq<u8>, u64)>::empty()
        &&& self.closing == Map::<SocketAddr, (PeerId, NoiseSession)>::empty()
        &&& self.outward == Map::<PeerId, NoiseSession>::empty()
        &&& self.inward == Map::<PeerId, NoiseSession>::empty()
        &&& self.knocking == Map::<PeerId, (Seq<u8>, u64)>::empty()
        &&& self.opening == Map::<PeerId, (Seq<u8>, Seq<u8>)>::empty()
        &&& self.waiting == Map::<PeerId, Seq<Seq<u8>>>::empty()
        &&& self.out == Seq::<Effect>::empty()
    }

    /// What holds of every node: sessions, relays and paths list each peer once, we
    /// relay exactly if our public address is known and reached from anywhere, and our
    /// claim proves our id, which comes from the same secret as our static key.
    pub open spec fn ok(self) -> bool {
        &&& self.id@ == crate::device::ed25519_public(self.device)
        &&& self.secret == crate::device::clamped(self.device)
        &&& self.claim == crate::claim::claim_of(self.device)
        &&& crate::claim::claimed_id(self.claim, crate::device::x25519_public(self.secret)) == Some(
            self.id,
        )
        &&& self.sessions.ok()
        &&& self.relays.ok()
        &&& self.paths.ok()
        &&& self.peers.ok()
        &&& self.can_relay == (self.public matches Some(a) && crate::reach::publicly_routable(a))
    }
}

} // verus!
