//! What holds of nodes whatever happens to them, and of several nodes together.
use crate::error::Error;
use crate::message::Msg;
use crate::net::SocketAddr;
use crate::node_state::{Effect, Entry, NodeState};
use crate::noise::{noise_open, noise_seal, NoiseSession, SecureTransport};
use crate::transport::TransportAddr;
use crate::types::PeerId;
use std::time::Instant;
use vstd::prelude::*;

verus! {

// ---------------------------------------------------------------------------
// What no event takes away
// ---------------------------------------------------------------------------
/// Whether a node has only gained: it is still the same node, nothing that was to
/// be done is forgotten or changed, no direct session is lost, nor one under which a
/// peer reaches us through relays, and no known peer is forgotten.
pub open spec fn only_gained(before: NodeState, after: NodeState) -> bool {
    &&& after.id == before.id
    &&& after.overlay == before.overlay
    &&& after.overlay_ipv6 == before.overlay_ipv6
    &&& after.hostname == before.hostname
    &&& after.network == before.network
    &&& after.device == before.device
    &&& after.secret == before.secret
    &&& after.claim == before.claim
    &&& after.public == before.public
    &&& after.can_relay == before.can_relay
    &&& before.out.is_prefix_of(after.out)
    &&& forall|p: PeerId| #[trigger] before.sessions.has(p) ==> after.sessions.has(p)
    &&& forall|p: PeerId| #[trigger]
        before.peers.known.contains_key(p) ==> after.peers.known.contains_key(p)
    &&& forall|p: PeerId| #[trigger]
        before.inward.contains_key(p) ==> after.inward.contains_key(p)
}

/// Gaining twice is gaining.
pub proof fn gains_add_up(a: NodeState, b: NodeState, c: NodeState)
    requires
        only_gained(a, b),
        only_gained(b, c),
    ensures
        only_gained(a, c),
{
    assert forall|i: int| 0 <= i < a.out.len() implies a.out[i] == c.out[i] by {
        assert(b.out[i] == a.out[i]) by {
            assert(a.out =~= b.out.take(a.out.len() as int));
        }
        assert(c.out[i] == b.out[i]) by {
            assert(b.out =~= c.out.take(b.out.len() as int));
        }
    }
    assert(a.out =~= c.out.take(a.out.len() as int));
}

proof fn lemma_emitted(s: NodeState, e: Effect)
    ensures
        only_gained(s, s.emitted(e)),
{
    assert(s.out =~= s.emitted(e).out.take(s.out.len() as int));
}

proof fn lemma_sent_to(s: NodeState, peer: PeerId, to: TransportAddr, m: Msg)
    ensures
        only_gained(s, s.sent_to(peer, to, m)),
{
    assert(s.out =~= s.sent_to(peer, to, m).out.take(s.out.len() as int));
}

proof fn lemma_told(s: NodeState, peers: Seq<PeerId>, m: Msg)
    ensures
        only_gained(s, s.told(peers, m)),
    decreases peers.len(),
{
    if peers.len() > 0 {
        let t = s.told(peers.drop_last(), m);
        lemma_told(s, peers.drop_last(), m);
        lemma_sent_to(t, peers.last(), t.sessions.map[peers.last()].underlay, m);
        gains_add_up(s, t, s.told(peers, m));
    } else {
        assert(s.out =~= s.out.take(s.out.len() as int));
    }
}

proof fn lemma_told_entries(s: NodeState, peers: Seq<PeerId>, entries: Seq<Entry>)
    ensures
        only_gained(s, s.told_entries(peers, entries)),
    decreases peers.len(),
{
    assert(s.out =~= s.out.take(s.out.len() as int));
    if peers.len() > 0 {
        let t = s.told_entries(peers.drop_last(), entries);
        lemma_told_entries(s, peers.drop_last(), entries);
        let own = crate::node_state::entries_without(entries, peers.last());
        lemma_sent_to(
            t,
            peers.last(),
            t.sessions.map[peers.last()].underlay,
            Msg::PeerDirectory { entries: own },
        );
        gains_add_up(s, t, t.sent(peers.last(), Msg::PeerDirectory { entries: own }));
    }
}

proof fn lemma_same_out(s: NodeState, t: NodeState)
    requires
        t.out == s.out,
    ensures
        s.out.is_prefix_of(t.out),
{
    assert(s.out =~= t.out.take(s.out.len() as int));
}

proof fn lemma_noted(s: NodeState, peer: PeerId, at: SocketAddr)
    ensures
        only_gained(s, s.noted(peer, at)),
{
    lemma_same_out(s, s.noted(peer, at));
}

proof fn lemma_greeted(s: NodeState, peer: PeerId, to: TransportAddr)
    ensures
        only_gained(s, s.greeted(peer, to)),
{
    let t = s.sent_to(peer, to, s.introduction());
    lemma_sent_to(s, peer, to, s.introduction());
    match s.public {
        Some(a) => {
            let m = Msg::RelayAnnounce { relay_peer_id: s.id, public_addr: a };
            lemma_sent_to(t, peer, to, m);
            gains_add_up(s, t, t.sent_to(peer, to, m));
        },
        None => {},
    }
}

proof fn lemma_entered(s: NodeState, peer: PeerId, session: NoiseSession, underlay: TransportAddr)
    ensures
        only_gained(s, s.entered(peer, session, underlay)),
{
    lemma_same_out(s, s.entered(peer, session, underlay));
}

proof fn lemma_sent_all(s: NodeState, peer: PeerId, packets: Seq<Seq<u8>>)
    ensures
        only_gained(s, s.sent_all(peer, packets)),
    decreases packets.len(),
{
    lemma_same_out(s, s);
    if packets.len() > 0 {
        let t = s.sent_all(peer, packets.drop_last());
        lemma_sent_all(s, peer, packets.drop_last());
        lemma_sent_to(t, peer, t.sessions.map[peer].underlay, Msg::Data(packets.last()));
        gains_add_up(s, t, s.sent_all(peer, packets));
    }
}

proof fn lemma_flushed(s: NodeState, peer: PeerId)
    ensures
        only_gained(s, s.flushed(peer)),
{
    let emptied = NodeState { waiting: s.waiting.remove(peer), ..s };
    lemma_same_out(s, emptied);
    assert(only_gained(s, emptied));
    lemma_sent_all(emptied, peer, s.held(peer));
    gains_add_up(s, emptied, s.flushed(peer));
}

proof fn lemma_joined_by(s: NodeState, peer: PeerId, session: NoiseSession, from: TransportAddr)
    ensures
        only_gained(s, s.joined_by(peer, session, from)),
{
    let t = s.entered(peer, session, from);
    let u = t.greeted(peer, from);
    lemma_entered(s, peer, session, from);
    lemma_greeted(t, peer, from);
    let v = u.noted(peer, from.addr());
    lemma_noted(u, peer, from.addr());
    lemma_flushed(v, peer);
    gains_add_up(s, t, u);
    gains_add_up(s, u, v);
    gains_add_up(s, v, s.joined_by(peer, session, from));
}

proof fn lemma_joined(s: NodeState, peer: PeerId, session: NoiseSession, at: SocketAddr)
    ensures
        only_gained(s, s.joined(peer, session, at)),
{
    let to = TransportAddr::Udp(at);
    let t = s.entered(peer, session, to);
    let u = t.greeted(peer, to);
    let v = u.shown_around(peer, to);
    lemma_entered(s, peer, session, to);
    lemma_greeted(t, peer, to);
    lemma_same_out(u, u);
    lemma_sent_to(
        u,
        peer,
        to,
        Msg::PeerDirectory {
            entries: u.direct_entries(crate::node_state::ids_without(u.sessions.order, peer)),
        },
    );
    let w = v.noted(peer, at);
    lemma_noted(v, peer, at);
    lemma_flushed(w, peer);
    gains_add_up(s, t, u);
    gains_add_up(s, u, v);
    gains_add_up(s, v, w);
    gains_add_up(s, w, s.joined(peer, session, at));
}

proof fn lemma_learned_one(s: NodeState, relay: PeerId, e: Entry)
    ensures
        only_gained(s, s.learned_one(relay, e)),
{
    lemma_same_out(s, s);
    if e.0 != s.id {
        let seen = NodeState { peers: s.peers.discovered(e.0, e.1, s.clock), ..s };
        let known = seen.with_info(
            e.0,
            crate::peer::PeerInfo { public_addr: Some(e.1), ..seen.peers.known[e.0] },
        );
        lemma_same_out(s, known);
        assert(only_gained(s, known));
        if !s.sessions.has(e.0) && s.is_shorter(e.0, crate::node_state::one_more(e.2)) {
            let pathed = known.with_path(e.0, relay, crate::node_state::one_more(e.2));
            lemma_same_out(s, pathed);
            assert(only_gained(s, pathed));
            lemma_sent_to(
                pathed,
                relay,
                pathed.sessions.map[relay].underlay,
                Msg::RelayRequest { dst_peer_id: e.0 },
            );
            gains_add_up(s, pathed, s.learned_one(relay, e));
        }
    }
}

proof fn lemma_learned(s: NodeState, relay: PeerId, entries: Seq<Entry>)
    ensures
        only_gained(s, s.learned(relay, entries)),
    decreases entries.len(),
{
    lemma_same_out(s, s);
    if entries.len() > 0 {
        let t = s.learned(relay, entries.drop_last());
        lemma_learned(s, relay, entries.drop_last());
        lemma_learned_one(t, relay, entries.last());
        gains_add_up(s, t, s.learned(relay, entries));
    }
}

proof fn lemma_got_session_init(
    s: NodeState,
    from: TransportAddr,
    peer: PeerId,
    m: Msg,
    now_ms: u64,
)
    requires
        m is SessionInit,
    ensures
        only_gained(s, s.got(from, peer, m, now_ms)),
{
    match m {
        Msg::SessionInit { overlay, overlay_ipv6, hostname, public_addr } => {
            let routed = NodeState { routes: s.routes.with(overlay.addr, peer), ..s };
            lemma_same_out(s, routed);
            assert(only_gained(s, routed));
            let spread = match from {
                TransportAddr::Udp(a) => if s.can_relay {
                    routed.introduced(peer, a)
                } else {
                    routed
                },
                _ => routed,
            };
            lemma_same_out(routed, routed);
            assert(only_gained(routed, spread)) by {
                if let TransportAddr::Udp(a) = from {
                    if s.can_relay {
                        let others = crate::node_state::ids_without(routed.sessions.order, peer);
                        let entries = routed.with_indirect(
                            routed.direct_entries(others),
                            routed.paths.order,
                            peer,
                        );
                        let dir = Msg::PeerDirectory { entries };
                        let first = if entries.len() > 0 {
                            routed.sent(peer, dir)
                        } else {
                            routed
                        };
                        lemma_sent_to(routed, peer, routed.sessions.map[peer].underlay, dir);
                        let news = Msg::PeerDirectory { entries: seq![(peer, a, 1u8)] };
                        lemma_told(first, others, news);
                        gains_add_up(routed, first, first.told(others, news));
                    }
                }
            }
            gains_add_up(s, routed, spread);
            let last = spread.told_of(peer, overlay_ipv6, hostname, public_addr);
            lemma_same_out(spread, last);
            assert(only_gained(spread, last));
            gains_add_up(s, spread, last);
        },
        _ => {},
    }
}

proof fn lemma_got(s: NodeState, from: TransportAddr, peer: PeerId, m: Msg, now_ms: u64)
    ensures
        only_gained(s, s.got(from, peer, m, now_ms)),
{
    lemma_same_out(s, s);
    match m {
        Msg::Data(packet) => lemma_emitted(s, Effect::Tun(packet)),
        Msg::Ping { sent_ms } => lemma_sent_to(s, peer, from, Msg::Pong { sent_ms }),
        Msg::Pong { sent_ms } => lemma_same_out(s, s.timed(peer, sent_ms, now_ms)),
        Msg::SessionInit { .. } => lemma_got_session_init(s, from, peer, m, now_ms),
        Msg::RelayRequest { dst_peer_id } => {
            let ready = Msg::RelayReady { relay_peer_id: s.id, dst_peer_id };
            let back = Msg::RelayReady { relay_peer_id: s.id, dst_peer_id: peer };
            let onward = Msg::RelayRequest { dst_peer_id: peer };
            let next = s.paths.map[dst_peer_id].0;
            let t = s.sent(peer, ready);
            lemma_sent_to(s, peer, s.sessions.map[peer].underlay, ready);
            lemma_sent_to(t, dst_peer_id, t.sessions.map[dst_peer_id].underlay, back);
            lemma_sent_to(t, next, t.sessions.map[next].underlay, onward);
            gains_add_up(s, t, t.sent(dst_peer_id, back));
            gains_add_up(s, t, t.sent(next, onward));
            lemma_same_out(s, s.with_path(dst_peer_id, peer, 1));
        },
        Msg::RelayReady { relay_peer_id, dst_peer_id } => {
            lemma_same_out(s, s.got_relay_ready(relay_peer_id, dst_peer_id));
        },
        Msg::RelayData { src_peer_id, dst_peer_id, payload } => {
            let next = s.paths.map[dst_peer_id].0;
            lemma_sent_to(s, dst_peer_id, s.sessions.map[dst_peer_id].underlay, m);
            lemma_sent_to(s, next, s.sessions.map[next].underlay, m);
            if s.is_for_us(dst_peer_id) {
                lemma_heard_through(s, src_peer_id, payload);
            }
        },
        Msg::PeerDirectory { entries } => {
            let learned = s.learned(peer, entries);
            lemma_learned(s, peer, entries);
            let others = crate::node_state::ids_without(learned.sessions.order, peer);
            let onward = Msg::PeerDirectory { entries: s.passed_on(entries) };
            lemma_told(learned, others, onward);
            gains_add_up(s, learned, learned.told(others, onward));
        },
        _ => {},
    }
}

proof fn lemma_heard_through(s: NodeState, peer: PeerId, payload: Seq<u8>)
    ensures
        only_gained(s, s.heard_through(peer, payload)),
{
    lemma_same_out(s, s);
    let session = s.inward[peer];
    let counted = NodeState {
        inward: s.inward.insert(peer, NoiseSession { received: session.received + 1, ..session }),
        ..s
    };
    lemma_same_out(s, counted);
    if let Some(plain) = SecureTransport::opened(session, payload) {
        if let Ok(Msg::Data(packet)) = crate::message::decoded(plain) {
            lemma_emitted(counted, Effect::Tun(packet));
        }
    }
}

proof fn lemma_relayed(s: NodeState, relay: PeerId, peer: PeerId, payload: Seq<u8>)
    ensures
        only_gained(s, s.relayed(relay, peer, payload)),
{
    lemma_sent_to(
        s,
        relay,
        s.sessions.map[relay].underlay,
        Msg::RelayData { src_peer_id: s.id, dst_peer_id: peer, payload },
    );
}

proof fn lemma_sent_through(s: NodeState, relay: PeerId, peer: PeerId, packet: Seq<u8>)
    ensures
        only_gained(s, s.sent_through(relay, peer, packet)),
{
    lemma_same_out(s, s);
    let session = s.outward[peer];
    let plain = crate::message::message_bytes(Msg::Data(packet));
    let sealed = noise_seal(session.sending_key, session.sent, plain);
    let counted = NodeState {
        outward: s.outward.insert(peer, NoiseSession { sent: session.sent + 1, ..session }),
        ..s
    };
    lemma_same_out(s, counted);
    assert(only_gained(s, counted));
    lemma_relayed(counted, relay, peer, sealed);
    gains_add_up(s, counted, counted.relayed(relay, peer, sealed));
}

proof fn lemma_sent_all_through(
    s: NodeState,
    relay: PeerId,
    peer: PeerId,
    packets: Seq<Seq<u8>>,
)
    ensures
        only_gained(s, s.sent_all_through(relay, peer, packets)),
    decreases packets.len(),
{
    lemma_same_out(s, s);
    if packets.len() > 0 {
        let t = s.sent_all_through(relay, peer, packets.drop_last());
        lemma_sent_all_through(s, relay, peer, packets.drop_last());
        lemma_sent_through(t, relay, peer, packets.last());
        gains_add_up(s, t, s.sent_all_through(relay, peer, packets));
    }
}

proof fn lemma_answers_knock(
    s: NodeState,
    relay: PeerId,
    peer: PeerId,
    payload: Seq<u8>,
    after: NodeState,
    refused: Option<Error>,
)
    requires
        s.answers_knock(relay, peer, payload, after, refused),
    ensures
        only_gained(s, after),
{
    let msg = payload.skip(12);
    lemma_same_out(s, s);
    if crate::text::begins_with(payload, crate::node_state::HANDSHAKE_INITIATOR_PREFIX@) {
        if after != s {
            let b = choose|b: Seq<u8>| #[trigger]
                s.is_message_b(msg, b) && after == s.answered_through(relay, peer, msg, b);
            let noted = NodeState { opening: s.opening.insert(peer, (msg, b)), ..s };
            lemma_same_out(s, noted);
            assert(only_gained(s, noted));
            lemma_relayed(
                noted,
                relay,
                peer,
                crate::node_state::HANDSHAKE_RESPONDER_PREFIX@ + b,
            );
            gains_add_up(s, noted, after);
        }
    } else if crate::text::begins_with(payload, crate::node_state::HANDSHAKE_RESPONDER_PREFIX@) {
        if s.knocking.contains_key(peer) {
            let a = s.knocking[peer].0;
            let left = NodeState { knocking: s.knocking.remove(peer), ..s };
            lemma_same_out(s, left);
            if crate::claim::proved_id(s.network, seq![a], msg) == Some(peer) {
                let c = choose|c: Seq<u8>| #[trigger]
                    s.is_message_c(a, msg, c) && after == s.completed_through(relay, peer, msg, c);
                let noted = NodeState {
                    outward: s.outward.insert(
                        peer,
                        crate::noise::fresh_session(true, seq![a, msg, c]),
                    ),
                    ..left
                };
                lemma_same_out(s, noted);
                assert(only_gained(s, noted));
                lemma_relayed(
                    noted,
                    relay,
                    peer,
                    crate::node_state::HANDSHAKE_FINAL_PREFIX@ + c,
                );
                let ended = s.ended_through(relay, peer, msg, c);
                gains_add_up(s, noted, ended);
                let emptied = NodeState { waiting: s.waiting.remove(peer), ..ended };
                lemma_same_out(ended, emptied);
                assert(only_gained(ended, emptied));
                gains_add_up(s, ended, emptied);
                lemma_sent_all_through(emptied, relay, peer, s.held(peer));
                gains_add_up(s, emptied, after);
            }
        }
    } else if s.opening.contains_key(peer) {
        lemma_same_out(s, after);
    }
}

/// Whatever packet arrives, a node only gains.
pub proof fn packets_only_add(
    s: NodeState,
    from: TransportAddr,
    data: Seq<u8>,
    now_ns: u64,
    now_ms: u64,
    when: Instant,
    after: NodeState,
    refused: Option<Error>,
)
    requires
        s.received(from, data, now_ns, now_ms, when, after, refused),
    ensures
        only_gained(s, after),
{
    let t = s.as_of(when).pruned(now_ns);
    lemma_same_out(s, t);
    assert(only_gained(s, t));
    lemma_same_out(t, t);
    if crate::text::begins_with(data, crate::constants::HOLE_PUNCH_PROBE_PREFIX@) {
        if let Ok(Msg::HolePunchProbe { token }) = crate::message::decoded(data.skip(11)) {
            let ack = Effect::Send {
                to: from,
                bytes: crate::punch::punch_packet(Msg::HolePunchAck { token }),
            };
            let probe = Effect::Send {
                to: from,
                bytes: crate::punch::punch_packet(Msg::HolePunchProbe { token }),
            };
            lemma_emitted(t, ack);
            lemma_emitted(t.emitted(ack), probe);
            gains_add_up(t, t.emitted(ack), t.emitted(ack).emitted(probe));
        }
    } else if crate::text::begins_with(data, crate::node_state::HANDSHAKE_RESPONDER_PREFIX@)
        && t.calling.contains_key(from.addr()) {
        assert(after.out == t.out || exists|e: Effect| after.out == #[trigger] t.out.push(e));
        if after.out != t.out {
            let e = choose|e: Effect| after.out == #[trigger] t.out.push(e);
            lemma_emitted(t, e);
        }
    } else if t.answering.contains_key(from.addr()) {
        let (a, b, _) = t.answering[from.addr()];
        let left = NodeState { answering: t.answering.remove(from.addr()), ..t };
        lemma_same_out(t, left);
        assert(only_gained(t, left));
        lemma_same_out(left, left);
        let peer = crate::claim::proved_id(t.network, seq![a, b], data)->Some_0;
        let session = crate::noise::fresh_session(false, seq![a, b, data]);
        lemma_joined_by(left, peer, session, from);
        gains_add_up(t, left, after);
    } else if t.by_addr.contains_key(from) {
        let peer = t.by_addr[from];
        if t.sessions.has(peer) {
            if let Some(plain) = SecureTransport::opened(t.sessions.map[peer].session, data) {
                let counted = t.counted(peer);
                lemma_same_out(t, counted);
                assert(only_gained(t, counted));
                if let Ok(m) = crate::message::decoded(plain) {
                    lemma_got(counted, from, peer, m, now_ms);
                    if let Msg::RelayData { src_peer_id, dst_peer_id, payload } = m {
                        if counted.is_for_us(dst_peer_id) && crate::node_state::is_knock(payload) {
                            lemma_answers_knock(
                                counted,
                                peer,
                                src_peer_id,
                                payload,
                                after,
                                refused,
                            );
                        }
                    }
                    gains_add_up(t, counted, after);
                }
            }
        }
    } else if crate::text::begins_with(data, crate::node_state::HANDSHAKE_INITIATOR_PREFIX@) {
        if after != t {
            let a = data.skip(12);
            let b = choose|b: Seq<u8>| #[trigger]
                t.is_message_b(a, b) && after == t.answered(from, a, b, now_ns);
            lemma_emitted(
                t,
                Effect::Send {
                    to: from,
                    bytes: crate::node_state::HANDSHAKE_RESPONDER_PREFIX@ + b,
                },
            );
        }
    }
    gains_add_up(s, t, after);
}

/// Whatever packet the TUN device hands over, a node only gains.
pub proof fn own_packets_only_add(
    s: NodeState,
    packet: Seq<u8>,
    now_ns: u64,
    after: NodeState,
    refused: Option<Error>,
)
    requires
        s.takes_packet(packet, now_ns, after, refused),
    ensures
        only_gained(s, after),
{
    lemma_same_out(s, s);
    let dst = NodeState::destination(packet);
    let peer = s.routes.routes[dst];
    let relay = s.paths.map[peer].0;
    if s.lacks_session(packet) is Some {
        let kept = s.kept_waiting(peer, packet);
        lemma_same_out(s, kept);
        assert(only_gained(s, kept));
        if !s.is_knocking(peer, now_ns) && refused is None {
            let a = choose|a: Seq<u8>| #[trigger]
                s.is_message_a(a) && after == kept.knocked(relay, peer, a, now_ns);
            let noted = NodeState { knocking: kept.knocking.insert(peer, (a, now_ns)), ..kept };
            lemma_same_out(s, noted);
            assert(only_gained(s, noted));
            lemma_relayed(
                noted,
                relay,
                peer,
                crate::node_state::HANDSHAKE_INITIATOR_PREFIX@ + a,
            );
            gains_add_up(s, noted, after);
        }
    } else {
        lemma_emitted(s, Effect::Tun(packet));
        lemma_sent_to(s, peer, s.sessions.map[peer].underlay, Msg::Data(packet));
        lemma_sent_through(s, relay, peer, packet);
        let unrouted = if s.routes.addrs.contains_key(peer) {
            NodeState { routes: s.routes.without(s.routes.addrs[peer]), ..s }
        } else {
            s
        };
        lemma_same_out(s, unrouted);
        assert(only_gained(s, unrouted));
        let first = s.relays.order[0];
        let ask = Msg::RelayRequest { dst_peer_id: peer };
        lemma_sent_to(unrouted, first, unrouted.sessions.map[first].underlay, ask);
        gains_add_up(s, unrouted, unrouted.sent(first, ask));
    }
}

/// Whatever packet the TUN device hands over, the packets that wait for a session with
/// some peer stay, in their order; one for a peer behind a relay that has no session yet
/// waits behind them, as long as there is room.
pub proof fn waiting_packets_stay(
    s: NodeState,
    packet: Seq<u8>,
    now_ns: u64,
    after: NodeState,
    refused: Option<Error>,
    peer: PeerId,
)
    requires
        s.takes_packet(packet, now_ns, after, refused),
    ensures
        s.held(peer).is_prefix_of(after.held(peer)),
        s.lacks_session(packet) == Some(peer) && s.held(peer).len()
            < crate::node_state::MAX_WAITING_PACKETS ==> after.held(peer) == s.held(peer).push(
            packet,
        ),
{
    assert(s.held(peer) =~= s.held(peer).push(packet).take(s.held(peer).len() as int));
    assert(s.held(peer) =~= s.held(peer).take(s.held(peer).len() as int));
}

/// A handshake through relays that is refused leaves all packets waiting.
pub proof fn refused_answer_keeps_packets(
    s: NodeState,
    relay: PeerId,
    peer: PeerId,
    b: Seq<u8>,
    after: NodeState,
    refused: Option<Error>,
)
    requires
        s.completes_through(relay, peer, b, after, refused),
        refused is Some,
    ensures
        after.waiting == s.waiting,
{
}

/// The end of a handshake that we began only adds.
pub proof fn finished_handshakes_only_add(
    s: NodeState,
    at: SocketAddr,
    sent: bool,
    when: Instant,
)
    ensures
        only_gained(s, s.finished(at, sent, when)),
{
    lemma_same_out(s, s.as_of(when));
    if s.closing.contains_key(at) {
        let (peer, session) = s.closing[at];
        let left = NodeState { closing: s.closing.remove(at), ..s.as_of(when) };
        lemma_same_out(s, left);
        assert(only_gained(s, left));
        lemma_joined(left, peer, session, at);
        gains_add_up(s, left, left.joined(peer, session, at));
    }
}

// ---------------------------------------------------------------------------
// Handshakes between nodes
// ---------------------------------------------------------------------------
/// Two nodes of one network that exchange messages A, B and C accept each
/// other's messages, know each other by their ids, and hold the two ends of one
/// connection.
pub proof fn handshake_connects(
    caller: NodeState,
    answerer: NodeState,
    at: SocketAddr,
    from: TransportAddr,
    a: Seq<u8>,
    b: Seq<u8>,
    c: Seq<u8>,
    started: u64,
    answered: u64,
)
    requires
        caller.ok(),
        answerer.ok(),
        caller.network == answerer.network,
        caller.is_message_a(a),
        answerer.is_message_b(a, b),
        caller.is_message_c(a, b, c),
    ensures
        answerer.accepts_a(a),
        ({
            let calling = caller.called(at, a, started);
            let waiting = answerer.answered(from, a, b, answered);
            let left = NodeState { answering: waiting.answering.remove(from.addr()), ..waiting };
            let mine = crate::noise::fresh_session(true, seq![a, b, c]);
            let theirs = crate::noise::fresh_session(false, seq![a, b, c]);
            &&& calling.accepts_b(at, b)
            &&& calling.completed(at, b, c).closing[at] == (answerer.id, mine)
            &&& waiting.concluded(from, c) == left.joined_by(caller.id, theirs, from)
            &&& crate::noise::paired(mine, theirs)
        }),
{
    assert(crate::claim::proved_id(caller.network, seq![a], b) == Some(answerer.id));
    assert(crate::claim::proved_id(answerer.network, seq![a, b], c) == Some(caller.id));
    crate::noise::same_transcript_pairs(seq![a, b, c]);
}

/// Two nodes of one network that exchange messages A, B and C through relays accept
/// each other's messages; then what the one that began encrypts for the other, the
/// other can read, and what waited for a session goes out under it, oldest first.
pub proof fn relayed_handshake_connects(
    caller: NodeState,
    answerer: NodeState,
    relay: PeerId,
    back: PeerId,
    a: Seq<u8>,
    b: Seq<u8>,
    c: Seq<u8>,
    started: u64,
)
    requires
        caller.ok(),
        answerer.ok(),
        caller.network == answerer.network,
        caller.is_message_a(a),
        answerer.is_message_b(a, b),
        caller.is_message_c(a, b, c),
    ensures
        answerer.accepts_a(a),
        ({
            let calling = caller.knocked(relay, answerer.id, a, started);
            let waiting = answerer.answered_through(back, caller.id, a, b);
            let ended = calling.ended_through(relay, answerer.id, b, c);
            let mine = ended.outward;
            let theirs = waiting.concluded_through(caller.id, c).inward;
            &&& crate::claim::proved_id(calling.network, seq![calling.knocking[answerer.id].0], b)
                == Some(answerer.id)
            &&& calling.completed_through(relay, answerer.id, b, c) == (NodeState {
                waiting: caller.waiting.remove(answerer.id),
                ..ended
            }).sent_all_through(relay, answerer.id, caller.held(answerer.id))
            &&& mine.contains_key(answerer.id)
            &&& theirs.contains_key(caller.id)
            &&& crate::noise::feeds(mine[answerer.id], theirs[caller.id])
        }),
{
    assert(crate::claim::proved_id(caller.network, seq![a], b) == Some(answerer.id));
    assert(crate::claim::proved_id(answerer.network, seq![a, b], c) == Some(caller.id));
    crate::noise::same_transcript_pairs(seq![a, b, c]);
}

// ---------------------------------------------------------------------------
// Packets between nodes
// ---------------------------------------------------------------------------
/// Whether a sealed message opens to what was sealed, as every message that a
/// session encrypts does.
pub open spec fn opens(s: NoiseSession, plain: Seq<u8>) -> bool {
    let c = noise_seal(s.sending_key, s.sent, plain);
    c.len() == plain.len() + 16 && noise_open(s.sending_key, s.sent, c) == Some(plain)
}

/// Whether a packet from an address is taken for data of a peer: it carries no
/// tag, and no handshake with the address is waited for.
pub open spec fn taken_for_data(s: NodeState, from: TransportAddr, data: Seq<u8>) -> bool {
    &&& !crate::text::begins_with(data, crate::constants::HOLE_PUNCH_PROBE_PREFIX@)
    &&& !crate::text::begins_with(data, crate::node_state::HANDSHAKE_RESPONDER_PREFIX@)
    &&& !s.answering.contains_key(from.addr())
}

proof fn lemma_delivered(
    sender: NodeState,
    receiver: NodeState,
    sender_key: PeerId,
    receiver_key: PeerId,
    m: Msg,
    from: TransportAddr,
    now_ns: u64,
    now_ms: u64,
    when: Instant,
    after: NodeState,
)
    requires
        sender.can_send(receiver_key, m),
        hears(receiver, sender_key, from),
        crate::noise::feeds(
            sender.sessions.map[receiver_key].session,
            receiver.sessions.map[sender_key].session,
        ),
        opens(sender.sessions.map[receiver_key].session, crate::message::message_bytes(m)),
        crate::message::message_fits(m),
        crate::message::message_on_wire(m) == m,
        ({
            let s = sender.sessions.map[receiver_key].session;
            let c = noise_seal(s.sending_key, s.sent, crate::message::message_bytes(m));
            &&& taken_for_data(receiver, from, c)
            &&& receiver.received(from, c, now_ns, now_ms, when, after, None)
        }),
    ensures
        receiver.as_of(when).pruned(now_ns).counted(sender_key).gets(
            from,
            sender_key,
            m,
            now_ms,
            after,
            None,
        ),
{
    crate::message::message_round_trip_exact(m);
}

/// Whether a node has a session with the peer that it knows at an address.
pub open spec fn hears(s: NodeState, peer: PeerId, from: TransportAddr) -> bool {
    &&& s.by_addr.contains_key(from)
    &&& s.by_addr[from] == peer
    &&& s.sessions.has(peer)
}

/// Whether a node routes an IPv4 packet of its own to a peer.
pub open spec fn routes_to(s: NodeState, packet: Seq<u8>, peer: PeerId) -> bool {
    let dst = crate::routing::ip_at(packet, 16);
    &&& crate::routing::is_ipv4(packet)
    &&& dst != s.overlay.addr
    &&& s.routes.routes.contains_key(dst)
    &&& s.routes.routes[dst] == peer
}

/// A packet that one node sends to another over a session is handed to the other
/// node's TUN device unchanged.
pub proof fn packet_reaches_peer(
    sender: NodeState,
    receiver: NodeState,
    sender_key: PeerId,
    receiver_key: PeerId,
    packet: Seq<u8>,
    from: TransportAddr,
    now_ns: u64,
    now_ms: u64,
    when: Instant,
    after: NodeState,
)
    requires
        routes_to(sender, packet, receiver_key),
        sender.can_send(receiver_key, Msg::Data(packet)),
        hears(receiver, sender_key, from),
        crate::noise::feeds(
            sender.sessions.map[receiver_key].session,
            receiver.sessions.map[sender_key].session,
        ),
        opens(
            sender.sessions.map[receiver_key].session,
            crate::message::message_bytes(Msg::Data(packet)),
        ),
        sender.sent_packet(packet).out.last() matches Effect::Send { to, bytes }
            && taken_for_data(receiver, from, bytes) && receiver.received(
            from,
            bytes,
            now_ns,
            now_ms,
            when,
            after,
            None,
        ),
    ensures
        sender.sent_packet(packet).out.drop_last() == sender.out,
        sender.sent_packet(packet).out.last()->Send_to
            == sender.sessions.map[receiver_key].underlay,
        after.out == receiver.out.push(Effect::Tun(packet)),
{
    let m = Msg::Data(packet);
    assert(sender.sent_packet(packet) == sender.sent(receiver_key, m));
    assert(sender.sent(receiver_key, m).out.drop_last() =~= sender.out);
    lemma_delivered(
        sender,
        receiver,
        sender_key,
        receiver_key,
        m,
        from,
        now_ns,
        now_ms,
        when,
        after,
    );
}

/// What a node hands to a relay for a peer: the packet, encrypted for the peer.
pub open spec fn relayed_packet(sender: NodeState, peer: PeerId, packet: Seq<u8>) -> Msg {
    let s = sender.outward[peer];
    Msg::RelayData {
        src_peer_id: sender.id,
        dst_peer_id: peer,
        payload: noise_seal(
            s.sending_key,
            s.sent,
            crate::message::message_bytes(Msg::Data(packet)),
        ),
    }
}

/// Whether the ends of a session through relays can exchange a packet next.
pub open spec fn reaches_through(
    sender: NodeState,
    receiver: NodeState,
    receiver_key: PeerId,
    packet: Seq<u8>,
) -> bool {
    let s = sender.outward[receiver_key];
    let plain = crate::message::message_bytes(Msg::Data(packet));
    &&& sender.outward.contains_key(receiver_key)
    &&& receiver.inward.contains_key(sender.id)
    &&& crate::noise::feeds(s, receiver.inward[sender.id])
    &&& SecureTransport::can_encrypt(s, plain)
    &&& opens(s, plain)
    &&& !crate::node_state::is_knock(noise_seal(s.sending_key, s.sent, plain))
}

/// A packet for a peer without a session goes through a relay, encrypted for the
/// peer: the relay forwards the same bytes to the peer, whose TUN device gets the
/// packet unchanged. The peer takes it as its own if it is known by its own id, or
/// does not relay.
#[verifier::rlimit(60)]
pub proof fn packet_reaches_peer_through_relay(
    sender: NodeState,
    relay: NodeState,
    receiver: NodeState,
    sender_key: PeerId,
    relay_key: PeerId,
    receiver_key: PeerId,
    packet: Seq<u8>,
    from: TransportAddr,
    via: TransportAddr,
    now_ns: u64,
    now_ms: u64,
    when: Instant,
    forwarded: NodeState,
    after: NodeState,
)
    requires
        routes_to(sender, packet, receiver_key),
        sender_key != receiver_key,
        !sender.sessions.has(receiver_key),
        sender.paths.has(receiver_key),
        sender.paths.map[receiver_key].0 == relay_key,
        reaches_through(sender, receiver, receiver_key, packet),
        ({
            let m = relayed_packet(sender, receiver_key, packet);
            &&& sender.can_send(relay_key, m)
            &&& opens(sender.sessions.map[relay_key].session, crate::message::message_bytes(m))
            &&& relay.can_send(receiver_key, m)
            &&& opens(relay.sessions.map[receiver_key].session, crate::message::message_bytes(m))
        }),
        relay.can_relay,
        relay.id != receiver_key,
        hears(relay, sender_key, from),
        crate::noise::feeds(
            sender.sessions.map[relay_key].session,
            relay.sessions.map[sender_key].session,
        ),
        hears(receiver, relay_key, via),
        crate::noise::feeds(
            relay.sessions.map[receiver_key].session,
            receiver.sessions.map[relay_key].session,
        ),
        receiver.is_for_us(receiver_key),
        sender.sent_packet(packet).out.last() matches Effect::Send { to, bytes }
            && taken_for_data(relay, from, bytes) && relay.received(
            from,
            bytes,
            now_ns,
            now_ms,
            when,
            forwarded,
            None,
        ),
        forwarded.out.last() matches Effect::Send { to, bytes } && taken_for_data(
            receiver,
            via,
            bytes,
        ) && receiver.received(via, bytes, now_ns, now_ms, when, after, None),
    ensures
        forwarded.out.drop_last() == relay.out,
        forwarded.out.last() == (Effect::Send {
            to: relay.sessions.map[receiver_key].underlay,
            bytes: noise_seal(
                relay.sessions.map[receiver_key].session.sending_key,
                relay.sessions.map[receiver_key].session.sent,
                crate::message::message_bytes(relayed_packet(sender, receiver_key, packet)),
            ),
        }),
        after.out == receiver.out.push(Effect::Tun(packet)),
{
    let data = Msg::Data(packet);
    let m = relayed_packet(sender, receiver_key, packet);
    let s = sender.outward[receiver_key];
    let counting = NodeState {
        outward: sender.outward.insert(receiver_key, NoiseSession { sent: s.sent + 1, ..s }),
        ..sender
    };
    assert(sender.sent_packet(packet) == counting.sent(relay_key, m));
    lemma_delivered(
        counting,
        relay,
        sender_key,
        relay_key,
        m,
        from,
        now_ns,
        now_ms,
        when,
        forwarded,
    );
    let counted = relay.as_of(when).pruned(now_ns).counted(sender_key);
    assert(!counted.is_for_us(receiver_key));
    assert(counted.sessions.map[receiver_key] == relay.sessions.map[receiver_key]);
    assert(forwarded == counted.sent(receiver_key, m));
    assert(forwarded.out.drop_last() =~= relay.out);
    lemma_delivered(relay, receiver, relay_key, receiver_key, m, via, now_ns, now_ms, when, after);
    let heard = receiver.as_of(when).pruned(now_ns).counted(relay_key);
    assert(heard.is_for_us(receiver_key));
    crate::message::message_round_trip_exact(data);
    assert(after == heard.heard_through(sender.id, m->RelayData_payload));
}

/// A ping is answered with a pong that carries the same time.
pub proof fn ping_is_answered(s: NodeState, from: TransportAddr, peer: PeerId, sent_ms: u64, now_ms: u64)
    requires
        s.can_send(peer, Msg::Pong { sent_ms }),
    ensures
        s.got(from, peer, Msg::Ping { sent_ms }, now_ms).out == s.out.push(
            Effect::Send {
                to: from,
                bytes: noise_seal(
                    s.sessions.map[peer].session.sending_key,
                    s.sessions.map[peer].session.sent,
                    crate::message::message_bytes(Msg::Pong { sent_ms }),
                ),
            },
        ),
{
}

// ---------------------------------------------------------------------------
// Directories
// ---------------------------------------------------------------------------
proof fn lemma_learned_path(s: NodeState, relay: PeerId, entries: Seq<Entry>, peer: PeerId)
    ensures
        s.paths.has(peer) ==> s.learned(relay, entries).paths.has(peer)
            && s.learned(relay, entries).paths.map[peer].1 <= s.paths.map[peer].1,
        s.sessions.has(peer) ==> s.learned(relay, entries).sessions.has(peer)
            && s.learned(relay, entries).paths.has(peer) == s.paths.has(peer)
            && s.learned(relay, entries).paths.map[peer] == s.paths.map[peer],
    decreases entries.len(),
{
    if entries.len() > 0 {
        lemma_learned_path(s, relay, entries.drop_last(), peer);
    }
}

/// A directory never makes a known way longer, and leaves alone the ways to peers
/// that have a session.
pub proof fn directories_only_shorten(s: NodeState, relay: PeerId, entries: Seq<Entry>, peer: PeerId)
    ensures
        s.paths.has(peer) ==> s.learned(relay, entries).paths.has(peer)
            && s.learned(relay, entries).paths.map[peer].1 <= s.paths.map[peer].1,
        s.sessions.has(peer) ==> s.learned(relay, entries).paths.has(peer) == s.paths.has(peer)
            && s.learned(relay, entries).paths.map[peer] == s.paths.map[peer],
{
    lemma_learned_path(s, relay, entries, peer);
}

/// What a relay passes on never lists the relay itself, and counts at least two
/// and at most eight hops.
pub proof fn passed_on_is_bounded(s: NodeState, entries: Seq<Entry>, i: int)
    requires
        0 <= i < s.passed_on(entries).len(),
        forall|j: int| 0 <= j < entries.len() ==> (#[trigger] entries[j]).2 >= 1,
    ensures
        s.passed_on(entries)[i].0 != s.id,
        2 <= s.passed_on(entries)[i].2 <= 8,
    decreases entries.len(),
{
    let before = s.passed_on(entries.drop_last());
    if i < before.len() {
        assert forall|j: int| 0 <= j < entries.drop_last().len() implies (
        #[trigger] entries.drop_last()[j]).2 >= 1 by {
            assert(entries[j].2 >= 1);
        }
        passed_on_is_bounded(s, entries.drop_last(), i);
    } else {
        assert(entries[entries.len() - 1].2 >= 1);
    }
}

/// Nobody is told of themselves.
pub proof fn nobody_is_told_of_themselves(entries: Seq<Entry>, peer: PeerId)
    ensures
        !crate::node_state::lists(crate::node_state::entries_without(entries, peer), peer),
{
    let f = crate::node_state::not_for(peer);
    let own = crate::node_state::entries_without(entries, peer);
    assert forall|i: int| 0 <= i < own.len() implies (#[trigger] own[i]).0 != peer by {
        entries.lemma_filter_pred(f, i);
        assert(f(own[i]));
    }
}

} // verus!
