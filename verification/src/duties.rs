//! What a node owes to its peers, event by event: which packets go out, to whom, and
//! what is known afterwards.
use crate::error::Error;
use crate::message::Msg;
use crate::net::{Ipv4Addr, SocketAddr};
use crate::node_state::{Effect, Entry, Link, NodeState};
use crate::noise::{noise_open, noise_seal, NoiseSession};
use crate::peer::PathKind;
use crate::state::PeerState;
use crate::table::Rows;
use crate::transport::TransportAddr;
use crate::types::{OverlayAddr, PeerId};
use std::time::Instant;
use vstd::prelude::*;

verus! {

// ---------------------------------------------------------------------------
// Words
// ---------------------------------------------------------------------------
/// Whether a node has a session with a peer in which a message fits.
pub open spec fn can_tell(s: NodeState, peer: PeerId, m: Msg) -> bool {
    &&& s.sessions.map.contains_key(peer)
    &&& s.sessions.map[peer].session.sent < 0xffff_ffff_ffff_ffff
    &&& crate::message::message_bytes(m).len() + 16 <= 65535
}

/// A message for a peer, encrypted next in the session with it, on its way to where the
/// peer is.
pub open spec fn note_to(s: NodeState, peer: PeerId, m: Msg) -> Effect {
    let link = s.sessions.map[peer];
    Effect::Send {
        to: link.underlay,
        bytes: noise_seal(
            link.session.sending_key,
            link.session.sent,
            crate::message::message_bytes(m),
        ),
    }
}

/// Whether a peer gets a message: it is among what has come to be sent.
pub open spec fn tells(before: NodeState, after: NodeState, peer: PeerId, m: Msg) -> bool {
    exists|i: int|
        before.out.len() <= i < after.out.len() && #[trigger] after.out[i] == note_to(
            before,
            peer,
            m,
        )
}

/// Whether two tables hold the same sessions with the same peers in the same places;
/// only messages may have been counted.
pub open spec fn same_links(before: Rows<PeerId, Link>, after: Rows<PeerId, Link>) -> bool {
    &&& after.order == before.order
    &&& after.map.dom() == before.map.dom()
    &&& forall|p: PeerId| #[trigger]
        after.map.contains_key(p) ==> {
            let a = before.map[p];
            let b = after.map[p];
            &&& b.underlay == a.underlay
            &&& b.session.xx == a.session.xx
            &&& b.session.sending_key == a.session.sending_key
            &&& b.session.receiving_key == a.session.receiving_key
            &&& b.session.sent >= a.session.sent
            &&& b.session.received >= a.session.received
        }
}

/// Whether a node is who it was: the same keys in the same network, at the same place.
pub open spec fn same_self(before: NodeState, after: NodeState) -> bool {
    &&& after.id == before.id
    &&& after.overlay == before.overlay
    &&& after.overlay_ipv6 == before.overlay_ipv6
    &&& after.hostname == before.hostname
    &&& after.network == before.network
    &&& after.device == before.device
    &&& after.secret == before.secret
    &&& after.claim == before.claim
    &&& after.public == before.public
    &&& after.can_relay == before.can_relay
}

/// Whether a node goes on with the same handshakes, relayed sessions and waiting packets.
pub open spec fn same_talks(before: NodeState, after: NodeState) -> bool {
    &&& after.calling == before.calling
    &&& after.closing == before.closing
    &&& after.outward == before.outward
    &&& after.inward == before.inward
    &&& after.knocking == before.knocking
    &&& after.opening == before.opening
    &&& after.waiting == before.waiting
}

/// Whether a node finds its peers as before: by address, by route and through relays.
pub open spec fn same_ways(before: NodeState, after: NodeState) -> bool {
    &&& after.by_addr == before.by_addr
    &&& after.relays == before.relays
    &&& after.paths == before.paths
    &&& after.routes == before.routes
}

/// Whether nothing came of an event but packets, and messages counted.
pub open spec fn only_sent(before: NodeState, after: NodeState) -> bool {
    &&& same_self(before, after)
    &&& same_talks(before, after)
    &&& same_ways(before, after)
    &&& same_links(before.sessions, after.sessions)
    &&& after.peers == before.peers
}

/// Whether a packet brings a message of a peer: it comes from where the peer is, opens in
/// the session with it, and no handshake with that place is waited for.
pub open spec fn brings(
    s: NodeState,
    from: TransportAddr,
    peer: PeerId,
    m: Msg,
    data: Seq<u8>,
    now_ns: u64,
) -> bool {
    let session = s.sessions.map[peer].session;
    &&& s.by_addr.contains_key(from)
    &&& s.by_addr[from] == peer
    &&& s.sessions.map.contains_key(peer)
    &&& data.len() <= 65535
    &&& session.received < 0xffff_ffff_ffff_ffff
    &&& noise_open(session.receiving_key, session.received, data) == Some(
        crate::message::message_bytes(m),
    )
    &&& crate::message::message_fits(m)
    &&& crate::message::message_on_wire(m) == m
    &&& !crate::text::begins_with(data, crate::constants::HOLE_PUNCH_PROBE_PREFIX@)
    &&& !(crate::text::begins_with(data, crate::node_state::HANDSHAKE_RESPONDER_PREFIX@)
        && s.calling.contains_key(from.addr()))
    &&& s.answering.contains_key(from.addr()) ==> now_ns - s.answering[from.addr()].2
        >= 2_000_000_000
}

/// A node that has counted a message of a peer, before it acts upon it.
spec fn on_hearing(s: NodeState, peer: PeerId, now_ns: u64, t: Instant) -> NodeState {
    s.as_of(t).pruned(now_ns).counted(peer)
}

proof fn lemma_brings(
    s: NodeState,
    from: TransportAddr,
    peer: PeerId,
    m: Msg,
    data: Seq<u8>,
    now_ns: u64,
    now_ms: u64,
    t: Instant,
    after: NodeState,
    refused: Option<Error>,
)
    requires
        brings(s, from, peer, m, data, now_ns),
        s.received(from, data, now_ns, now_ms, t, after, refused),
    ensures
        on_hearing(s, peer, now_ns, t).gets(from, peer, m, now_ms, after, refused),
        only_sent(s, on_hearing(s, peer, now_ns, t)),
        on_hearing(s, peer, now_ns, t).out == s.out,
        on_hearing(s, peer, now_ns, t).clock == t,
        forall|p: PeerId, x: Msg| #[trigger]
            note_to(on_hearing(s, peer, now_ns, t), p, x) == note_to(s, p, x),
        forall|p: PeerId, x: Msg| #[trigger]
            can_tell(on_hearing(s, peer, now_ns, t), p, x) == can_tell(s, p, x),
{
    crate::message::message_round_trip_exact(m);
    let c = on_hearing(s, peer, now_ns, t);
    assert(c.sessions.map.dom() =~= s.sessions.map.dom());
}

proof fn lemma_sent(s: NodeState, peer: PeerId, m: Msg)
    ensures
        only_sent(s, s.sent(peer, m)),
        s.sent(peer, m).clock == s.clock,
        s.sent(peer, m).answering == s.answering,
        can_tell(s, peer, m) ==> s.sent(peer, m).out == s.out.push(note_to(s, peer, m)),
        !can_tell(s, peer, m) ==> s.sent(peer, m) == s,
        forall|p: PeerId, x: Msg|
            p != peer ==> #[trigger] note_to(s.sent(peer, m), p, x) == note_to(s, p, x),
        forall|p: PeerId, x: Msg|
            p != peer ==> #[trigger] can_tell(s.sent(peer, m), p, x) == can_tell(s, p, x),
{
    assert(s.sent(peer, m).sessions.map.dom() =~= s.sessions.map.dom());
}

// ---------------------------------------------------------------------------
// Plain messages
// ---------------------------------------------------------------------------
/// A packet that a peer sends goes to the TUN device, unchanged and alone; nothing else
/// comes of it.
pub proof fn data_is_handed_over(
    s: NodeState,
    from: TransportAddr,
    peer: PeerId,
    packet: Seq<u8>,
    data: Seq<u8>,
    now_ns: u64,
    now_ms: u64,
    t: Instant,
    after: NodeState,
    refused: Option<Error>,
)
    requires
        brings(s, from, peer, Msg::Data(packet), data, now_ns),
        s.received(from, data, now_ns, now_ms, t, after, refused),
    ensures
        refused is None,
        only_sent(s, after),
        after.out == s.out.push(Effect::Tun(packet)),
{
    lemma_brings(s, from, peer, Msg::Data(packet), data, now_ns, now_ms, t, after, refused);
}

/// A heartbeat is counted as received, and nothing else comes of it; nor of a hole-punch
/// message inside a session.
pub proof fn heartbeats_are_only_counted(
    s: NodeState,
    from: TransportAddr,
    peer: PeerId,
    m: Msg,
    data: Seq<u8>,
    now_ns: u64,
    now_ms: u64,
    t: Instant,
    after: NodeState,
    refused: Option<Error>,
)
    requires
        m is Heartbeat || m is HolePunchProbe || m is HolePunchAck,
        brings(s, from, peer, m, data, now_ns),
        s.received(from, data, now_ns, now_ms, t, after, refused),
    ensures
        refused is None,
        only_sent(s, after),
        after.out == s.out,
        after.sessions.map[peer].session.received == s.sessions.map[peer].session.received + 1,
        after.sessions.map[peer].session.sent == s.sessions.map[peer].session.sent,
{
    lemma_brings(s, from, peer, m, data, now_ns, now_ms, t, after, refused);
}

/// A ping is answered to where it came from with a pong of the same time, and nothing
/// else comes of it.
pub proof fn pings_are_answered(
    s: NodeState,
    from: TransportAddr,
    peer: PeerId,
    sent_ms: u64,
    data: Seq<u8>,
    now_ns: u64,
    now_ms: u64,
    t: Instant,
    after: NodeState,
    refused: Option<Error>,
)
    requires
        brings(s, from, peer, Msg::Ping { sent_ms }, data, now_ns),
        can_tell(s, peer, Msg::Pong { sent_ms }),
        s.received(from, data, now_ns, now_ms, t, after, refused),
    ensures
        refused is None,
        only_sent(s, after),
        after.out == s.out.push(
            Effect::Send {
                to: from,
                bytes: noise_seal(
                    s.sessions.map[peer].session.sending_key,
                    s.sessions.map[peer].session.sent,
                    crate::message::message_bytes(Msg::Pong { sent_ms }),
                ),
            },
        ),
{
    lemma_brings(s, from, peer, Msg::Ping { sent_ms }, data, now_ns, now_ms, t, after, refused);
    let c = on_hearing(s, peer, now_ns, t);
    assert(can_tell(c, peer, Msg::Pong { sent_ms }));
    assert(after.sessions.map.dom() =~= s.sessions.map.dom());
}

/// A pong tells how long the peer took to answer: the latency known of it and the time in
/// the pong add up to now. Nothing else is changed, of this peer or of others.
pub proof fn pongs_tell_the_latency(
    s: NodeState,
    from: TransportAddr,
    peer: PeerId,
    sent_ms: u64,
    data: Seq<u8>,
    now_ns: u64,
    now_ms: u64,
    t: Instant,
    after: NodeState,
    refused: Option<Error>,
    other: PeerId,
)
    requires
        brings(s, from, peer, Msg::Pong { sent_ms }, data, now_ns),
        s.received(from, data, now_ns, now_ms, t, after, refused),
    ensures
        refused is None,
        after.out == s.out,
        same_self(s, after) && same_talks(s, after) && same_ways(s, after),
        same_links(s.sessions, after.sessions),
        after.peers.order == s.peers.order && after.peers.since == s.peers.since,
        after.peers.events == s.peers.events,
        after.peers.known.dom() == s.peers.known.dom(),
        other != peer ==> after.peers.known[other] == s.peers.known[other],
        s.peers.known.contains_key(peer) ==> {
            let was = s.peers.known[peer];
            let is = after.peers.known[peer];
            &&& is.latency_ms is Some
            &&& sent_ms <= now_ms && now_ms - sent_ms < 0x1_0000_0000 ==> is.latency_ms->Some_0
                + sent_ms == now_ms
            &&& sent_ms > now_ms ==> is.latency_ms == Some(0u32)
            &&& is == (crate::peer::PeerInfo { latency_ms: is.latency_ms, ..was })
        },
{
    lemma_brings(s, from, peer, Msg::Pong { sent_ms }, data, now_ns, now_ms, t, after, refused);
    assert(after.peers.known.dom() =~= s.peers.known.dom());
}

/// A relay that announces itself is known as a relay at its address, and nothing else
/// comes of it.
pub proof fn relays_are_remembered(
    s: NodeState,
    from: TransportAddr,
    peer: PeerId,
    relay: PeerId,
    at: SocketAddr,
    data: Seq<u8>,
    now_ns: u64,
    now_ms: u64,
    t: Instant,
    after: NodeState,
    refused: Option<Error>,
)
    requires
        brings(
            s,
            from,
            peer,
            Msg::RelayAnnounce { relay_peer_id: relay, public_addr: at },
            data,
            now_ns,
        ),
        s.received(from, data, now_ns, now_ms, t, after, refused),
    ensures
        refused is None,
        after.out == s.out,
        after.relays.map == s.relays.map.insert(relay, at),
        s.relays.ok() ==> after.relays.ok(),
        s.relays.order.is_prefix_of(after.relays.order),
        same_self(s, after) && same_talks(s, after),
        same_links(s.sessions, after.sessions),
        after.by_addr == s.by_addr && after.paths == s.paths && after.routes == s.routes,
        after.peers == s.peers,
{
    let m = Msg::RelayAnnounce { relay_peer_id: relay, public_addr: at };
    lemma_brings(s, from, peer, m, data, now_ns, now_ms, t, after, refused);
    lemma_row_added(s.relays, relay, at);
}

proof fn lemma_row_added<V>(r: Rows<PeerId, V>, k: PeerId, v: V)
    ensures
        r.ok() ==> r.with(k, v).ok(),
        r.order.is_prefix_of(r.with(k, v).order),
        r.with(k, v).map == r.map.insert(k, v),
{
    let w = r.with(k, v);
    assert(r.order =~= w.order.take(r.order.len() as int));
    if r.ok() {
        assert forall|x: PeerId| w.order.contains(x) <==> #[trigger] w.map.contains_key(x) by {
            if r.map.contains_key(x) {
                assert(r.order.contains(x));
                let i = r.order.index_of(x);
                assert(w.order[i] == x);
            }
            if x == k && !r.map.contains_key(k) {
                assert(w.order[r.order.len() as int] == k);
            }
            if w.order.contains(x) && x != k {
                let i = w.order.index_of(x);
                assert(r.order[i] == x);
                assert(r.order.contains(x));
            }
        }
        if !r.map.contains_key(k) {
            assert(!r.order.contains(k));
        }
    }
}

// ---------------------------------------------------------------------------
// Relayed bytes
// ---------------------------------------------------------------------------
/// A relay forwards relayed bytes for a peer that it has a session with to that peer:
/// the same message, once, and nothing else.
pub proof fn relayed_bytes_go_to_the_peer(
    s: NodeState,
    from: TransportAddr,
    peer: PeerId,
    src: PeerId,
    dst: PeerId,
    payload: Seq<u8>,
    data: Seq<u8>,
    now_ns: u64,
    now_ms: u64,
    t: Instant,
    after: NodeState,
    refused: Option<Error>,
)
    requires
        ({
            let m = Msg::RelayData { src_peer_id: src, dst_peer_id: dst, payload };
            &&& brings(s, from, peer, m, data, now_ns)
            &&& can_tell(s, dst, m)
        }),
        s.can_relay,
        dst != s.id,
        s.received(from, data, now_ns, now_ms, t, after, refused),
    ensures
        refused is None,
        only_sent(s, after),
        after.out == s.out.push(
            note_to(s, dst, Msg::RelayData { src_peer_id: src, dst_peer_id: dst, payload }),
        ),
{
    let m = Msg::RelayData { src_peer_id: src, dst_peer_id: dst, payload };
    lemma_brings(s, from, peer, m, data, now_ns, now_ms, t, after, refused);
    let c = on_hearing(s, peer, now_ns, t);
    assert(can_tell(c, dst, m));
    assert(note_to(c, dst, m) == note_to(s, dst, m));
    lemma_sent(c, dst, m);
}

/// A relay forwards relayed bytes for a peer that it reaches through another relay to
/// that relay: the same message, once, and nothing else.
pub proof fn relayed_bytes_go_to_the_next_relay(
    s: NodeState,
    from: TransportAddr,
    peer: PeerId,
    src: PeerId,
    dst: PeerId,
    payload: Seq<u8>,
    next: PeerId,
    hops: u8,
    data: Seq<u8>,
    now_ns: u64,
    now_ms: u64,
    t: Instant,
    after: NodeState,
    refused: Option<Error>,
)
    requires
        ({
            let m = Msg::RelayData { src_peer_id: src, dst_peer_id: dst, payload };
            &&& brings(s, from, peer, m, data, now_ns)
            &&& can_tell(s, next, m)
        }),
        s.can_relay,
        dst != s.id,
        !s.sessions.map.contains_key(dst),
        s.paths.map.contains_key(dst),
        s.paths.map[dst] == (next, hops),
        s.received(from, data, now_ns, now_ms, t, after, refused),
    ensures
        refused is None,
        only_sent(s, after),
        after.out == s.out.push(
            note_to(s, next, Msg::RelayData { src_peer_id: src, dst_peer_id: dst, payload }),
        ),
{
    let m = Msg::RelayData { src_peer_id: src, dst_peer_id: dst, payload };
    lemma_brings(s, from, peer, m, data, now_ns, now_ms, t, after, refused);
    let c = on_hearing(s, peer, now_ns, t);
    assert(can_tell(c, next, m));
    assert(note_to(c, next, m) == note_to(s, next, m));
    lemma_sent(c, next, m);
}

/// Relayed bytes for a peer that a relay has no way to are dropped, and so are those
/// that a node gets for a peer of its own when it does not relay.
pub proof fn relayed_bytes_without_a_way_are_dropped(
    s: NodeState,
    from: TransportAddr,
    peer: PeerId,
    src: PeerId,
    dst: PeerId,
    payload: Seq<u8>,
    data: Seq<u8>,
    now_ns: u64,
    now_ms: u64,
    t: Instant,
    after: NodeState,
    refused: Option<Error>,
)
    requires
        brings(
            s,
            from,
            peer,
            Msg::RelayData { src_peer_id: src, dst_peer_id: dst, payload },
            data,
            now_ns,
        ),
        dst != s.id,
        if s.can_relay {
            !s.sessions.map.contains_key(dst) && !s.paths.map.contains_key(dst)
        } else {
            s.sessions.map.contains_key(dst)
        },
        s.received(from, data, now_ns, now_ms, t, after, refused),
    ensures
        refused is None,
        only_sent(s, after),
        after.out == s.out,
{
    let m = Msg::RelayData { src_peer_id: src, dst_peer_id: dst, payload };
    lemma_brings(s, from, peer, m, data, now_ns, now_ms, t, after, refused);
}

/// Relayed bytes that are for us, by our id or because we do not relay and do not know
/// for whom else they are, go to the TUN device if they hold a packet that their sender
/// encrypted for us; the packet is unchanged, and nothing else comes of it but that it
/// is counted. Bytes that do not open in the sender's session with us, or come from a
/// sender without one, are dropped.
pub proof fn relayed_bytes_for_us_are_opened(
    s: NodeState,
    from: TransportAddr,
    peer: PeerId,
    src: PeerId,
    dst: PeerId,
    payload: Seq<u8>,
    packet: Seq<u8>,
    data: Seq<u8>,
    now_ns: u64,
    now_ms: u64,
    t: Instant,
    after: NodeState,
    refused: Option<Error>,
)
    requires
        brings(
            s,
            from,
            peer,
            Msg::RelayData { src_peer_id: src, dst_peer_id: dst, payload },
            data,
            now_ns,
        ),
        dst == s.id || (!s.can_relay && !s.sessions.map.contains_key(dst)),
        !crate::node_state::is_knock(payload),
        packet.len() <= u64::MAX,
        s.received(from, data, now_ns, now_ms, t, after, refused),
    ensures
        refused is None,
        same_self(s, after) && same_ways(s, after) && same_links(s.sessions, after.sessions),
        after.peers == s.peers && after.waiting == s.waiting && after.calling == s.calling,
        after.outward == s.outward && after.knocking == s.knocking && after.opening == s.opening,
        !s.inward.contains_key(src) ==> after.out == s.out && after.inward == s.inward,
        s.inward.contains_key(src) ==> {
            let i = s.inward[src];
            &&& payload.len() <= 65535 && i.received < 0xffff_ffff_ffff_ffff && noise_open(
                i.receiving_key,
                i.received,
                payload,
            ) == Some(crate::message::message_bytes(Msg::Data(packet))) ==> {
                &&& after.out == s.out.push(Effect::Tun(packet))
                &&& after.inward == s.inward.insert(
                    src,
                    NoiseSession { received: i.received + 1, ..i },
                )
            }
            &&& noise_open(i.receiving_key, i.received, payload) is None ==> after.out == s.out
                && after.inward == s.inward
        },
{
    let m = Msg::RelayData { src_peer_id: src, dst_peer_id: dst, payload };
    lemma_brings(s, from, peer, m, data, now_ns, now_ms, t, after, refused);
    crate::message::message_round_trip_exact(Msg::Data(packet));
}

// ---------------------------------------------------------------------------
// Requests to relay
// ---------------------------------------------------------------------------
/// A relay that is asked to forward to a peer that it has a session with tells both
/// sides that it does: the one that asked, of the peer, and the peer, of the one that
/// asked. Nobody else is told, and nothing else comes of it.
pub proof fn relay_requests_are_granted(
    s: NodeState,
    from: TransportAddr,
    peer: PeerId,
    dst: PeerId,
    data: Seq<u8>,
    now_ns: u64,
    now_ms: u64,
    t: Instant,
    after: NodeState,
    refused: Option<Error>,
)
    requires
        brings(s, from, peer, Msg::RelayRequest { dst_peer_id: dst }, data, now_ns),
        s.can_relay,
        s.sessions.map.contains_key(dst),
        dst != peer,
        can_tell(s, peer, Msg::RelayReady { relay_peer_id: s.id, dst_peer_id: dst }),
        can_tell(s, dst, Msg::RelayReady { relay_peer_id: s.id, dst_peer_id: peer }),
        s.received(from, data, now_ns, now_ms, t, after, refused),
    ensures
        refused is None,
        only_sent(s, after),
        after.out == s.out.push(
            note_to(s, peer, Msg::RelayReady { relay_peer_id: s.id, dst_peer_id: dst }),
        ).push(note_to(s, dst, Msg::RelayReady { relay_peer_id: s.id, dst_peer_id: peer })),
{
    let m = Msg::RelayRequest { dst_peer_id: dst };
    lemma_brings(s, from, peer, m, data, now_ns, now_ms, t, after, refused);
    let c = on_hearing(s, peer, now_ns, t);
    let ready = Msg::RelayReady { relay_peer_id: s.id, dst_peer_id: dst };
    let back = Msg::RelayReady { relay_peer_id: s.id, dst_peer_id: peer };
    assert(can_tell(c, peer, ready) && can_tell(c, dst, back));
    assert(note_to(c, peer, ready) == note_to(s, peer, ready));
    assert(note_to(c, dst, back) == note_to(s, dst, back));
    lemma_sent(c, peer, ready);
    let d = c.sent(peer, ready);
    assert(can_tell(d, dst, back));
    assert(note_to(d, dst, back) == note_to(c, dst, back));
    lemma_sent(d, dst, back);
}

/// A relay that is asked to forward to a peer that it reaches through another relay tells
/// the one that asked that it does, and asks the other relay for the way back. Nobody
/// else is told, and nothing else comes of it.
pub proof fn relay_requests_are_passed_on(
    s: NodeState,
    from: TransportAddr,
    peer: PeerId,
    dst: PeerId,
    next: PeerId,
    hops: u8,
    data: Seq<u8>,
    now_ns: u64,
    now_ms: u64,
    t: Instant,
    after: NodeState,
    refused: Option<Error>,
)
    requires
        brings(s, from, peer, Msg::RelayRequest { dst_peer_id: dst }, data, now_ns),
        s.can_relay,
        !s.sessions.map.contains_key(dst),
        s.paths.map.contains_key(dst),
        s.paths.map[dst] == (next, hops),
        next != peer,
        can_tell(s, peer, Msg::RelayReady { relay_peer_id: s.id, dst_peer_id: dst }),
        can_tell(s, next, Msg::RelayRequest { dst_peer_id: peer }),
        s.received(from, data, now_ns, now_ms, t, after, refused),
    ensures
        refused is None,
        only_sent(s, after),
        after.out == s.out.push(
            note_to(s, peer, Msg::RelayReady { relay_peer_id: s.id, dst_peer_id: dst }),
        ).push(note_to(s, next, Msg::RelayRequest { dst_peer_id: peer })),
{
    let m = Msg::RelayRequest { dst_peer_id: dst };
    lemma_brings(s, from, peer, m, data, now_ns, now_ms, t, after, refused);
    let c = on_hearing(s, peer, now_ns, t);
    let ready = Msg::RelayReady { relay_peer_id: s.id, dst_peer_id: dst };
    let back = Msg::RelayRequest { dst_peer_id: peer };
    assert(can_tell(c, peer, ready) && can_tell(c, next, back));
    assert(note_to(c, peer, ready) == note_to(s, peer, ready));
    assert(note_to(c, next, back) == note_to(s, next, back));
    lemma_sent(c, peer, ready);
    let d = c.sent(peer, ready);
    assert(can_tell(d, next, back));
    assert(note_to(d, next, back) == note_to(c, next, back));
    lemma_sent(d, next, back);
}

/// A relay that is asked to forward to a peer that it has no way to does nothing.
pub proof fn relay_requests_without_a_way_are_dropped(
    s: NodeState,
    from: TransportAddr,
    peer: PeerId,
    dst: PeerId,
    data: Seq<u8>,
    now_ns: u64,
    now_ms: u64,
    t: Instant,
    after: NodeState,
    refused: Option<Error>,
)
    requires
        brings(s, from, peer, Msg::RelayRequest { dst_peer_id: dst }, data, now_ns),
        s.can_relay,
        !s.sessions.map.contains_key(dst),
        !s.paths.map.contains_key(dst),
        s.received(from, data, now_ns, now_ms, t, after, refused),
    ensures
        refused is None,
        only_sent(s, after),
        after.out == s.out,
{
    let m = Msg::RelayRequest { dst_peer_id: dst };
    lemma_brings(s, from, peer, m, data, now_ns, now_ms, t, after, refused);
}

/// A node that does not relay learns from a request that whoever passed it on is a way
/// to the peer: the peer is reached through it in one hop, at its overlay address. Ways
/// to others stay, and nothing is sent.
pub proof fn a_request_shows_the_way_back(
    s: NodeState,
    from: TransportAddr,
    peer: PeerId,
    dst: PeerId,
    data: Seq<u8>,
    now_ns: u64,
    now_ms: u64,
    t: Instant,
    after: NodeState,
    refused: Option<Error>,
)
    requires
        brings(s, from, peer, Msg::RelayRequest { dst_peer_id: dst }, data, now_ns),
        !s.can_relay,
        s.received(from, data, now_ns, now_ms, t, after, refused),
    ensures
        refused is None,
        after.out == s.out,
        after.paths.map == s.paths.map.insert(dst, (peer, 1u8)),
        s.paths.ok() ==> after.paths.ok(),
        after.routes.routes == s.routes.routes.insert(crate::derive::overlay_of(dst).addr, dst),
        after.routes.addrs == s.routes.addrs.insert(dst, crate::derive::overlay_of(dst).addr),
        after.by_addr == s.by_addr && after.relays == s.relays && after.peers == s.peers,
        same_self(s, after) && same_talks(s, after) && same_links(s.sessions, after.sessions),
{
    let m = Msg::RelayRequest { dst_peer_id: dst };
    lemma_brings(s, from, peer, m, data, now_ns, now_ms, t, after, refused);
    lemma_row_added(s.paths, dst, (peer, 1u8));
}

/// Once a relay says that it forwards to a peer, the peer is reached through that relay
/// in one hop, at its overlay address, and counts as connected from now on if it was not
/// known. Ways to others stay, nothing is sent, and the next packet for the peer begins a
/// new session with it.
pub proof fn a_ready_relay_is_the_way(
    s: NodeState,
    from: TransportAddr,
    peer: PeerId,
    relay: PeerId,
    dst: PeerId,
    data: Seq<u8>,
    now_ns: u64,
    now_ms: u64,
    t: Instant,
    after: NodeState,
    refused: Option<Error>,
    other: PeerId,
)
    requires
        brings(
            s,
            from,
            peer,
            Msg::RelayReady { relay_peer_id: relay, dst_peer_id: dst },
            data,
            now_ns,
        ),
        s.received(from, data, now_ns, now_ms, t, after, refused),
    ensures
        refused is None,
        after.out == s.out,
        after.paths.map == s.paths.map.insert(dst, (relay, 1u8)),
        after.routes.routes == s.routes.routes.insert(crate::derive::overlay_of(dst).addr, dst),
        after.routes.addrs == s.routes.addrs.insert(dst, crate::derive::overlay_of(dst).addr),
        after.by_addr == s.by_addr && after.relays == s.relays,
        same_self(s, after) && same_links(s.sessions, after.sessions),
        !after.outward.contains_key(dst),
        other != dst && s.outward.contains_key(other) ==> after.outward.contains_key(other)
            && after.outward[other] == s.outward[other],
        after.inward == s.inward && after.waiting == s.waiting && after.knocking == s.knocking,
        after.peers.known.contains_key(dst),
        !s.peers.known.contains_key(dst) ==> after.peers.known[dst].state == PeerState::Connected
            && after.peers.since[dst] == t,
        other != dst ==> after.peers.known.contains_key(other) == s.peers.known.contains_key(other)
            && after.peers.known[other] == s.peers.known[other],
{
    let m = Msg::RelayReady { relay_peer_id: relay, dst_peer_id: dst };
    lemma_brings(s, from, peer, m, data, now_ns, now_ms, t, after, refused);
    lemma_row_added(s.paths, dst, (relay, 1u8));
}

// ---------------------------------------------------------------------------
// Several peers
// ---------------------------------------------------------------------------
/// Whether a packet carries a message to one of several peers.
pub open spec fn is_note(s: NodeState, peers: Seq<PeerId>, m: Msg, e: Effect) -> bool {
    exists|p: PeerId|
        peers.contains(p) && can_tell(s, p, m) && #[trigger] note_to(s, p, m) == e
}

/// Whether every peer of a list that can be told a message is told it, once, and nobody
/// else is told anything.
pub open spec fn tells_all(before: NodeState, after: NodeState, peers: Seq<PeerId>, m: Msg) -> bool {
    &&& before.out.is_prefix_of(after.out)
    &&& after.out.len() <= before.out.len() + peers.len()
    &&& forall|p: PeerId|
        peers.contains(p) && #[trigger] can_tell(before, p, m) ==> tells(before, after, p, m)
    &&& forall|i: int|
        before.out.len() <= i < after.out.len() ==> is_note(
            before,
            peers,
            m,
            #[trigger] after.out[i],
        )
}

proof fn lemma_told(s: NodeState, peers: Seq<PeerId>, m: Msg)
    requires
        peers.no_duplicates(),
    ensures
        only_sent(s, s.told(peers, m)),
        s.told(peers, m).clock == s.clock,
        s.told(peers, m).answering == s.answering,
        tells_all(s, s.told(peers, m), peers, m),
        forall|p: PeerId, x: Msg|
            !peers.contains(p) ==> #[trigger] note_to(s.told(peers, m), p, x) == note_to(s, p, x),
        forall|p: PeerId, x: Msg|
            !peers.contains(p) ==> #[trigger] can_tell(s.told(peers, m), p, x) == can_tell(s, p, x),
    decreases peers.len(),
{
    let after = s.told(peers, m);
    if peers.len() == 0 {
        assert(s.out =~= after.out.take(s.out.len() as int));
    } else {
        let front = peers.drop_last();
        let last = peers.last();
        let mid = s.told(front, m);
        lemma_told(s, front, m);
        lemma_sent(mid, last, m);
        assert(!front.contains(last)) by {
            if front.contains(last) {
                let i = front.index_of(last);
                assert(peers[i] == peers[peers.len() - 1]);
            }
        }
        assert(note_to(mid, last, m) == note_to(s, last, m));
        assert(can_tell(mid, last, m) == can_tell(s, last, m));
        assert forall|p: PeerId| peers.contains(p) implies front.contains(p) || p == last by {
            let i = peers.index_of(p);
            if i < front.len() {
                assert(front[i] == p);
            }
        }
        assert forall|p: PeerId| front.contains(p) implies peers.contains(p) by {
            let i = front.index_of(p);
            assert(peers[i] == p);
        }
        assert(peers.contains(last)) by {
            assert(peers[peers.len() - 1] == last);
        }
        assert(s.out =~= mid.out.take(s.out.len() as int));
        assert(s.out =~= after.out.take(s.out.len() as int));
        assert forall|p: PeerId| peers.contains(p) && #[trigger] can_tell(s, p, m) implies tells(
            s,
            after,
            p,
            m,
        ) by {
            if p == last {
                assert(after.out[mid.out.len() as int] == note_to(s, p, m));
            } else {
                assert(tells(s, mid, p, m));
                let i = choose|i: int|
                    s.out.len() <= i < mid.out.len() && #[trigger] mid.out[i] == note_to(s, p, m);
                assert(after.out[i] == mid.out[i]);
            }
        }
        assert forall|i: int| s.out.len() <= i < after.out.len() implies is_note(
            s,
            peers,
            m,
            #[trigger] after.out[i],
        ) by {
            if i < mid.out.len() {
                assert(mid.out[i] == after.out[i]);
                assert(is_note(s, front, m, mid.out[i]));
                let p = choose|p: PeerId|
                    front.contains(p) && can_tell(s, p, m) && #[trigger] note_to(s, p, m)
                        == mid.out[i];
                assert(peers.contains(p));
                assert(note_to(s, p, m) == after.out[i]);
            } else {
                assert(note_to(s, last, m) == after.out[i]);
            }
        }
    }
}

/// What a heartbeat or a health check sends: every peer with a session gets the message,
/// once, and nobody else gets anything.
pub proof fn heartbeats_reach_every_peer(s: NodeState, p: PeerId)
    requires
        s.ok(),
    ensures
        ({
            let after = s.told(s.sessions.order, Msg::Heartbeat);
            &&& only_sent(s, after)
            &&& can_tell(s, p, Msg::Heartbeat) ==> tells(s, after, p, Msg::Heartbeat)
            &&& tells_all(s, after, s.sessions.order, Msg::Heartbeat)
        }),
{
    lemma_told(s, s.sessions.order, Msg::Heartbeat);
}

/// Ids without one of them: the others, in their order.
proof fn lemma_ids_without(ids: Seq<PeerId>, id: PeerId)
    ensures
        forall|p: PeerId|
            crate::node_state::ids_without(ids, id).contains(p) <==> ids.contains(p) && p != id,
        ids.no_duplicates() ==> crate::node_state::ids_without(ids, id).no_duplicates(),
{
    let f = crate::node_state::is_not(id);
    let r = crate::node_state::ids_without(ids, id);
    assert forall|p: PeerId| r.contains(p) <==> ids.contains(p) && p != id by {
        if r.contains(p) {
            ids.lemma_filter_contains_rev(f, p);
            let i = r.index_of(p);
            ids.lemma_filter_pred(f, i);
        }
        if ids.contains(p) && p != id {
            let i = ids.index_of(p);
            assert(f(ids[i]));
            ids.lemma_filter_contains(f, i);
        }
    }
    if ids.no_duplicates() {
        lemma_filter_distinct(ids, f);
    }
}

proof fn lemma_filter_distinct(ids: Seq<PeerId>, f: spec_fn(PeerId) -> bool)
    requires
        ids.no_duplicates(),
    ensures
        ids.filter(f).no_duplicates(),
    decreases ids.len(),
{
    reveal(Seq::filter);
    if ids.len() > 0 {
        let front = ids.drop_last();
        lemma_filter_distinct(front, f);
        let r = front.filter(f);
        if r.contains(ids.last()) {
            front.lemma_filter_contains_rev(f, ids.last());
            let i = front.index_of(ids.last());
            assert(ids[i] == ids[ids.len() - 1]);
        }
    }
}

// ---------------------------------------------------------------------------
// Directories
// ---------------------------------------------------------------------------
/// Whether a node has a session over UDP with a peer at an address.
pub open spec fn is_neighbour(s: NodeState, p: PeerId, at: SocketAddr) -> bool {
    s.sessions.map.contains_key(p) && s.sessions.map[p].underlay == TransportAddr::Udp(at)
}

/// Whether a node reaches a peer through a relay, in so many hops, and knows its public
/// address.
pub open spec fn is_farther(s: NodeState, p: PeerId, at: SocketAddr, hops: u8) -> bool {
    &&& s.paths.map.contains_key(p)
    &&& s.paths.map[p].1 == hops
    &&& s.peers.known.contains_key(p)
    &&& s.peers.known[p].public_addr == Some(at)
}

/// Whether a directory lists exactly the neighbours of a node but one, each at its
/// address and one hop away.
pub open spec fn lists_neighbours(s: NodeState, entries: Seq<Entry>, but: PeerId) -> bool {
    &&& forall|p: PeerId, at: SocketAddr|
        p != but && #[trigger] is_neighbour(s, p, at) ==> entries.contains((p, at, 1u8))
    &&& forall|i: int|
        0 <= i < entries.len() ==> {
            let e = #[trigger] entries[i];
            e.0 != but && e.2 == 1 && is_neighbour(s, e.0, e.1)
        }
    &&& forall|i: int, j: int|
        0 <= i < j < entries.len() ==> (#[trigger] entries[i]).0 != (#[trigger] entries[j]).0
}

/// Whether a directory lists all peers of a node but one: the neighbours at their
/// addresses and one hop away, and each peer that is reached through a relay and whose
/// public address is known, as far away as it is.
pub open spec fn lists_everyone(s: NodeState, entries: Seq<Entry>, but: PeerId) -> bool {
    &&& forall|p: PeerId, at: SocketAddr|
        p != but && #[trigger] is_neighbour(s, p, at) ==> entries.contains((p, at, 1u8))
    &&& forall|p: PeerId, at: SocketAddr, hops: u8|
        p != but && #[trigger] is_farther(s, p, at, hops) ==> crate::node_state::lists(entries, p)
    &&& forall|i: int|
        0 <= i < entries.len() ==> {
            let e = #[trigger] entries[i];
            &&& e.0 != but
            &&& (e.2 == 1 && is_neighbour(s, e.0, e.1)) || is_farther(s, e.0, e.1, e.2)
        }
    &&& forall|i: int, j: int|
        0 <= i < j < entries.len() ==> (#[trigger] entries[i]).0 != (#[trigger] entries[j]).0
}

proof fn lemma_direct(s: NodeState, ids: Seq<PeerId>)
    requires
        ids.no_duplicates(),
        forall|i: int| 0 <= i < ids.len() ==> s.sessions.map.contains_key(#[trigger] ids[i]),
    ensures
        forall|p: PeerId, at: SocketAddr|
            ids.contains(p) && #[trigger] is_neighbour(s, p, at) ==> s.direct_entries(ids).contains(
                (p, at, 1u8),
            ),
        forall|i: int|
            0 <= i < s.direct_entries(ids).len() ==> {
                let e = #[trigger] s.direct_entries(ids)[i];
                ids.contains(e.0) && e.2 == 1 && is_neighbour(s, e.0, e.1)
            },
        forall|i: int, j: int|
            0 <= i < j < s.direct_entries(ids).len() ==> (#[trigger] s.direct_entries(ids)[i]).0
                != (#[trigger] s.direct_entries(ids)[j]).0,
    decreases ids.len(),
{
    if ids.len() > 0 {
        let front = ids.drop_last();
        let last = ids.last();
        let before = s.direct_entries(front);
        let all = s.direct_entries(ids);
        assert forall|i: int| 0 <= i < front.len() implies s.sessions.map.contains_key(
            #[trigger] front[i],
        ) by {
            assert(ids[i] == front[i]);
        }
        lemma_direct(s, front);
        assert(ids[ids.len() - 1] == last);
        assert(!front.contains(last)) by {
            if front.contains(last) {
                let i = front.index_of(last);
                assert(ids[i] == ids[ids.len() - 1]);
            }
        }
        assert forall|p: PeerId| ids.contains(p) <==> front.contains(p) || p == last by {
            if ids.contains(p) {
                let i = ids.index_of(p);
                if i < front.len() {
                    assert(front[i] == p);
                }
            }
            if front.contains(p) {
                let i = front.index_of(p);
                assert(ids[i] == p);
            }
        }
        assert forall|p: PeerId, at: SocketAddr| ids.contains(p) && #[trigger] is_neighbour(
            s,
            p,
            at,
        ) implies all.contains((p, at, 1u8)) by {
            if p == last {
                assert(all[before.len() as int] == (p, at, 1u8));
            } else {
                let i = before.index_of((p, at, 1u8));
                assert(all[i] == (p, at, 1u8));
            }
        }
        assert forall|i: int| 0 <= i < all.len() implies ({
            let e = #[trigger] all[i];
            ids.contains(e.0) && e.2 == 1 && is_neighbour(s, e.0, e.1)
        }) by {
            if i < before.len() {
                assert(all[i] == before[i]);
            }
        }
        assert forall|i: int, j: int| 0 <= i < j < all.len() implies (#[trigger] all[i]).0 != (
        #[trigger] all[j]).0 by {
            assert(all[i] == before[i]);
            assert(front.contains(before[i].0));
            if j < before.len() {
                assert(all[j] == before[j]);
            }
        }
    }
}

proof fn lemma_indirect(s: NodeState, entries: Seq<Entry>, ids: Seq<PeerId>, skip: PeerId)
    requires
        forall|i: int| 0 <= i < ids.len() ==> s.paths.map.contains_key(#[trigger] ids[i]),
        forall|i: int, j: int|
            0 <= i < j < entries.len() ==> (#[trigger] entries[i]).0 != (#[trigger] entries[j]).0,
    ensures
        ({
            let all = s.with_indirect(entries, ids, skip);
            &&& forall|e: Entry| entries.contains(e) ==> #[trigger] all.contains(e)
            &&& forall|p: PeerId, at: SocketAddr, hops: u8|
                ids.contains(p) && p != skip && #[trigger] is_farther(s, p, at, hops)
                    ==> crate::node_state::lists(all, p)
            &&& forall|i: int|
                0 <= i < all.len() ==> {
                    let e = #[trigger] all[i];
                    entries.contains(e) || (e.0 != skip && is_farther(s, e.0, e.1, e.2))
                }
            &&& forall|i: int, j: int|
                0 <= i < j < all.len() ==> (#[trigger] all[i]).0 != (#[trigger] all[j]).0
        }),
    decreases ids.len(),
{
    let all = s.with_indirect(entries, ids, skip);
    if ids.len() > 0 {
        let front = ids.drop_last();
        let last = ids.last();
        let before = s.with_indirect(entries, front, skip);
        assert forall|i: int| 0 <= i < front.len() implies s.paths.map.contains_key(
            #[trigger] front[i],
        ) by {
            assert(ids[i] == front[i]);
        }
        lemma_indirect(s, entries, front, skip);
        assert(ids[ids.len() - 1] == last);
        assert forall|e: Entry| entries.contains(e) implies #[trigger] all.contains(e) by {
            assert(before.contains(e));
            let i = before.index_of(e);
            assert(all[i] == e);
        }
        assert forall|p: PeerId, at: SocketAddr, hops: u8|
            ids.contains(p) && p != skip && #[trigger] is_farther(
                s,
                p,
                at,
                hops,
            ) implies crate::node_state::lists(all, p) by {
            if p == last {
                if crate::node_state::lists(before, p) {
                    let i = choose|i: int| 0 <= i < before.len() && (#[trigger] before[i]).0 == p;
                    assert(all[i].0 == p);
                } else {
                    assert(all[before.len() as int].0 == p);
                }
            } else {
                let i = ids.index_of(p);
                assert(front[i] == p);
                assert(front.contains(p));
                let i = choose|i: int| 0 <= i < before.len() && (#[trigger] before[i]).0 == p;
                assert(all[i].0 == p);
            }
        }
        assert forall|i: int| 0 <= i < all.len() implies ({
            let e = #[trigger] all[i];
            entries.contains(e) || (e.0 != skip && is_farther(s, e.0, e.1, e.2))
        }) by {
            if i < before.len() {
                assert(all[i] == before[i]);
            }
        }
        assert forall|i: int, j: int| 0 <= i < j < all.len() implies (#[trigger] all[i]).0 != (
        #[trigger] all[j]).0 by {
            assert(all[i] == before[i]);
            if j < before.len() {
                assert(all[j] == before[j]);
            } else {
                assert(!crate::node_state::lists(before, last));
            }
        }
    }
}

proof fn lemma_order_known(s: NodeState)
    requires
        s.ok(),
    ensures
        forall|i: int|
            0 <= i < s.sessions.order.len() ==> s.sessions.map.contains_key(
                #[trigger] s.sessions.order[i],
            ),
        forall|i: int|
            0 <= i < s.paths.order.len() ==> s.paths.map.contains_key(#[trigger] s.paths.order[i]),
        forall|p: PeerId|
            s.sessions.map.contains_key(p) ==> #[trigger] s.sessions.order.contains(p),
        forall|p: PeerId| s.paths.map.contains_key(p) ==> #[trigger] s.paths.order.contains(p),
{
    assert forall|i: int| 0 <= i < s.sessions.order.len() implies s.sessions.map.contains_key(
        #[trigger] s.sessions.order[i],
    ) by {
        assert(s.sessions.order.contains(s.sessions.order[i]));
    }
    assert forall|i: int| 0 <= i < s.paths.order.len() implies s.paths.map.contains_key(
        #[trigger] s.paths.order[i],
    ) by {
        assert(s.paths.order.contains(s.paths.order[i]));
    }
}

/// The neighbours, as a node lists them.
proof fn lemma_neighbours(s: NodeState, but: PeerId)
    requires
        s.ok(),
    ensures
        lists_neighbours(
            s,
            s.direct_entries(crate::node_state::ids_without(s.sessions.order, but)),
            but,
        ),
        lists_everyone(
            s,
            s.with_indirect(
                s.direct_entries(crate::node_state::ids_without(s.sessions.order, but)),
                s.paths.order,
                but,
            ),
            but,
        ),
{
    let ids = crate::node_state::ids_without(s.sessions.order, but);
    lemma_order_known(s);
    lemma_ids_without(s.sessions.order, but);
    assert forall|i: int| 0 <= i < ids.len() implies s.sessions.map.contains_key(
        #[trigger] ids[i],
    ) by {
        assert(ids.contains(ids[i]));
    }
    lemma_direct(s, ids);
    let direct = s.direct_entries(ids);
    lemma_indirect(s, direct, s.paths.order, but);
    let all = s.with_indirect(direct, s.paths.order, but);
    assert forall|p: PeerId, at: SocketAddr| p != but && #[trigger] is_neighbour(
        s,
        p,
        at,
    ) implies all.contains((p, at, 1u8)) by {
        assert(ids.contains(p));
        assert(direct.contains((p, at, 1u8)));
    }
    assert forall|p: PeerId, at: SocketAddr, hops: u8| p != but && #[trigger] is_farther(
        s,
        p,
        at,
        hops,
    ) implies crate::node_state::lists(all, p) by {
        assert(s.paths.order.contains(p));
    }
    assert forall|i: int| 0 <= i < all.len() implies ({
        let e = #[trigger] all[i];
        &&& e.0 != but
        &&& (e.2 == 1 && is_neighbour(s, e.0, e.1)) || is_farther(s, e.0, e.1, e.2)
    }) by {
        let e = all[i];
        if direct.contains(e) {
            let j = direct.index_of(e);
            assert(direct[j] == e);
        }
    }
}

// ---------------------------------------------------------------------------
// Introductions
// ---------------------------------------------------------------------------
/// When a peer introduces itself, its overlay address leads to it, and what it tells of
/// itself is known of it: its host name if it has one, and its IPv6 and public addresses
/// if it gives them; what it leaves out stays as it was. Of other peers nothing changes,
/// and no way but the route is touched.
pub proof fn introductions_are_remembered(
    s: NodeState,
    from: TransportAddr,
    peer: PeerId,
    m: Msg,
    data: Seq<u8>,
    now_ns: u64,
    now_ms: u64,
    t: Instant,
    after: NodeState,
    refused: Option<Error>,
    other: PeerId,
)
    requires
        s.ok(),
        m is SessionInit,
        brings(s, from, peer, m, data, now_ns),
        s.received(from, data, now_ns, now_ms, t, after, refused),
    ensures
        refused is None,
        after.routes.routes == s.routes.routes.insert(m->SessionInit_overlay.addr, peer),
        after.routes.addrs == s.routes.addrs.insert(peer, m->SessionInit_overlay.addr),
        after.by_addr == s.by_addr && after.relays == s.relays && after.paths == s.paths,
        same_self(s, after) && same_talks(s, after) && same_links(s.sessions, after.sessions),
        after.peers.known.dom() == s.peers.known.dom(),
        after.peers.events == s.peers.events,
        other != peer ==> after.peers.known[other] == s.peers.known[other],
        s.peers.known.contains_key(peer) ==> {
            let was = s.peers.known[peer];
            let is = after.peers.known[peer];
            &&& is.state == was.state && is.underlay_addr == was.underlay_addr
            &&& is.overlay_addr == was.overlay_addr && is.latency_ms == was.latency_ms
            &&& is.path_kind == was.path_kind && is.id == was.id
            &&& is.hostname == (if m->SessionInit_hostname.len() > 0 {
                m->SessionInit_hostname
            } else {
                was.hostname
            })
            &&& is.public_addr == (if m->SessionInit_public_addr is Some {
                m->SessionInit_public_addr
            } else {
                was.public_addr
            })
            &&& m->SessionInit_overlay_ipv6 is None ==> is.overlay_ipv6 == was.overlay_ipv6
            &&& m->SessionInit_overlay_ipv6 is Some ==> is.overlay_ipv6 == Some(
                crate::net::Ipv6Addr::of_bytes(m->SessionInit_overlay_ipv6->Some_0),
            )
        },
        !(s.can_relay && from is Udp) ==> after.out == s.out,
{
    lemma_brings(s, from, peer, m, data, now_ns, now_ms, t, after, refused);
    let c = on_hearing(s, peer, now_ns, t);
    let overlay = m->SessionInit_overlay;
    let routed = NodeState { routes: c.routes.with(overlay.addr, peer), ..c };
    if let TransportAddr::Udp(a) = from {
        if c.can_relay {
            let others = crate::node_state::ids_without(routed.sessions.order, peer);
            let entries = routed.with_indirect(
                routed.direct_entries(others),
                routed.paths.order,
                peer,
            );
            lemma_ids_without(routed.sessions.order, peer);
            let dir = Msg::PeerDirectory { entries };
            lemma_sent(routed, peer, dir);
            let first = if entries.len() > 0 {
                routed.sent(peer, dir)
            } else {
                routed
            };
            lemma_told(first, others, Msg::PeerDirectory { entries: seq![(peer, a, 1u8)] });
        }
    }
    assert(after.peers.known.dom() =~= s.peers.known.dom());
}

/// A relay introduces whoever introduces itself from a UDP address to all others: the
/// newcomer gets a directory that lists everyone else, if there is anyone, and every
/// other peer gets a directory that lists the newcomer at its address, one hop away.
pub proof fn newcomers_are_introduced(
    s: NodeState,
    at: SocketAddr,
    peer: PeerId,
    m: Msg,
    data: Seq<u8>,
    now_ns: u64,
    now_ms: u64,
    t: Instant,
    after: NodeState,
    refused: Option<Error>,
    other: PeerId,
)
    requires
        s.ok(),
        m is SessionInit,
        brings(s, TransportAddr::Udp(at), peer, m, data, now_ns),
        s.can_relay,
        s.received(TransportAddr::Udp(at), data, now_ns, now_ms, t, after, refused),
    ensures
        s.out.is_prefix_of(after.out),
        exists|entries: Seq<Entry>|
            {
                &&& #[trigger] lists_everyone(s, entries, peer)
                &&& entries.len() > 0 && can_tell(s, peer, Msg::PeerDirectory { entries })
                    ==> tells(s, after, peer, Msg::PeerDirectory { entries })
            },
        ({
            let news = Msg::PeerDirectory { entries: seq![(peer, at, 1u8)] };
            other != peer && can_tell(s, other, news) ==> tells(s, after, other, news)
        }),
{
    let from = TransportAddr::Udp(at);
    lemma_brings(s, from, peer, m, data, now_ns, now_ms, t, after, refused);
    let c = on_hearing(s, peer, now_ns, t);
    let overlay = m->SessionInit_overlay;
    let routed = NodeState { routes: c.routes.with(overlay.addr, peer), ..c };
    let others = crate::node_state::ids_without(routed.sessions.order, peer);
    let entries = routed.with_indirect(routed.direct_entries(others), routed.paths.order, peer);
    lemma_ids_without(routed.sessions.order, peer);
    lemma_order_known(s);
    lemma_same_directory(s, routed, peer);
    lemma_neighbours(s, peer);
    let dir = Msg::PeerDirectory { entries };
    lemma_sent(routed, peer, dir);
    let first = if entries.len() > 0 {
        routed.sent(peer, dir)
    } else {
        routed
    };
    let news = Msg::PeerDirectory { entries: seq![(peer, at, 1u8)] };
    lemma_told(first, others, news);
    let last = first.told(others, news);
    assert(after.out == last.out);
    assert(s.out =~= first.out.take(s.out.len() as int));
    assert(first.out =~= last.out.take(first.out.len() as int));
    assert(s.out =~= last.out.take(s.out.len() as int));
    assert(note_to(routed, peer, dir) == note_to(c, peer, dir));
    assert(note_to(c, peer, dir) == note_to(s, peer, dir));
    assert(can_tell(routed, peer, dir) == can_tell(c, peer, dir));
    assert(can_tell(c, peer, dir) == can_tell(s, peer, dir));
    if entries.len() > 0 && can_tell(s, peer, dir) {
        assert(first.out[s.out.len() as int] == note_to(s, peer, dir));
        assert(after.out[s.out.len() as int] == note_to(s, peer, dir));
    }
    if other != peer && can_tell(s, other, news) {
        assert(note_to(first, other, news) == note_to(routed, other, news));
        assert(note_to(routed, other, news) == note_to(c, other, news));
        assert(note_to(c, other, news) == note_to(s, other, news));
        assert(can_tell(first, other, news) == can_tell(routed, other, news));
        assert(can_tell(routed, other, news) == can_tell(c, other, news));
        assert(can_tell(c, other, news) == can_tell(s, other, news));
        assert(others.contains(other));
        assert(tells(first, last, other, news));
        let i = choose|i: int|
            first.out.len() <= i < last.out.len() && #[trigger] last.out[i] == note_to(
                first,
                other,
                news,
            );
        assert(after.out[i] == note_to(s, other, news));
    }
}

proof fn lemma_direct_same(s: NodeState, r: NodeState, ids: Seq<PeerId>)
    requires
        same_links(s.sessions, r.sessions),
        forall|i: int| 0 <= i < ids.len() ==> s.sessions.map.contains_key(#[trigger] ids[i]),
    ensures
        r.direct_entries(ids) == s.direct_entries(ids),
    decreases ids.len(),
{
    if ids.len() > 0 {
        let front = ids.drop_last();
        assert forall|i: int| 0 <= i < front.len() implies s.sessions.map.contains_key(
            #[trigger] front[i],
        ) by {
            assert(ids[i] == front[i]);
        }
        lemma_direct_same(s, r, front);
        assert(s.sessions.map.contains_key(ids[ids.len() - 1]));
        assert(r.sessions.map.contains_key(ids.last()));
    }
}

proof fn lemma_indirect_same(
    s: NodeState,
    r: NodeState,
    entries: Seq<Entry>,
    ids: Seq<PeerId>,
    skip: PeerId,
)
    requires
        r.peers == s.peers,
        r.paths == s.paths,
    ensures
        r.with_indirect(entries, ids, skip) == s.with_indirect(entries, ids, skip),
    decreases ids.len(),
{
    if ids.len() > 0 {
        lemma_indirect_same(s, r, entries, ids.drop_last(), skip);
    }
}

proof fn lemma_same_directory(s: NodeState, r: NodeState, but: PeerId)
    requires
        s.ok(),
        same_links(s.sessions, r.sessions),
        r.peers == s.peers,
        r.paths == s.paths,
    ensures
        ({
            let ids = crate::node_state::ids_without(s.sessions.order, but);
            &&& r.direct_entries(ids) == s.direct_entries(ids)
            &&& r.with_indirect(r.direct_entries(ids), r.paths.order, but) == s.with_indirect(
                s.direct_entries(ids),
                s.paths.order,
                but,
            )
        }),
{
    let ids = crate::node_state::ids_without(s.sessions.order, but);
    lemma_order_known(s);
    lemma_ids_without(s.sessions.order, but);
    assert forall|i: int| 0 <= i < ids.len() implies s.sessions.map.contains_key(
        #[trigger] ids[i],
    ) by {
        assert(ids.contains(ids[i]));
    }
    lemma_direct_same(s, r, ids);
    lemma_indirect_same(s, r, s.direct_entries(ids), s.paths.order, but);
}

// ---------------------------------------------------------------------------
// Recurring work
// ---------------------------------------------------------------------------
proof fn lemma_pinged(s: NodeState, peers: Seq<PeerId>, now_ms: u64)
    ensures
        ({
            let after = s.pinged(peers, now_ms);
            &&& after == (NodeState {
                peers: after.peers,
                ..s.told(peers, Msg::Ping { sent_ms: now_ms })
            })
            &&& after.peers.order == s.peers.order
            &&& after.peers.since == s.peers.since
            &&& after.peers.events == s.peers.events
            &&& after.peers.known.dom() == s.peers.known.dom()
            &&& forall|p: PeerId| #[trigger]
                s.peers.known.contains_key(p) ==> after.peers.known[p] == (if peers.contains(p) {
                    crate::peer::PeerInfo {
                        path_kind: if s.paths.map.contains_key(p) {
                            PathKind::Relay(s.paths.map[p].0)
                        } else {
                            PathKind::Direct
                        },
                        ..s.peers.known[p]
                    }
                } else {
                    s.peers.known[p]
                })
        }),
    decreases peers.len(),
{
    let after = s.pinged(peers, now_ms);
    let ping = Msg::Ping { sent_ms: now_ms };
    if peers.len() > 0 {
        let front = peers.drop_last();
        let last = peers.last();
        let before = s.pinged(front, now_ms);
        let told = s.told(front, ping);
        lemma_pinged(s, front, now_ms);
        lemma_told_keeps(s, front, ping);
        assert(before.sent(last, ping) == (NodeState { peers: before.peers, ..told.sent(last, ping) }));
        assert(before.paths == s.paths);
        assert forall|p: PeerId| #[trigger] peers.contains(p) <==> front.contains(p) || p
            == last by {
            if peers.contains(p) {
                let i = peers.index_of(p);
                if i < front.len() {
                    assert(front[i] == p);
                }
            }
            if front.contains(p) {
                let i = front.index_of(p);
                assert(peers[i] == p);
            }
            if p == last {
                assert(peers[peers.len() - 1] == p);
            }
        }
        assert(after.peers.known.dom() =~= s.peers.known.dom());
        assert(after =~= (NodeState { peers: after.peers, ..s.told(peers, ping) }));
    }
}

proof fn lemma_told_keeps(s: NodeState, peers: Seq<PeerId>, m: Msg)
    ensures
        only_sent(s, s.told(peers, m)),
    decreases peers.len(),
{
    if peers.len() > 0 {
        lemma_told_keeps(s, peers.drop_last(), m);
        lemma_sent(s.told(peers.drop_last(), m), peers.last(), m);
    }
}

/// A health check pings every peer with a session, once, with the present time, and
/// nobody else. It notes of each whether it is reached through a relay, and through
/// which; nothing else changes.
pub proof fn health_checks_ping_every_peer(s: NodeState, now_ms: u64, p: PeerId)
    requires
        s.ok(),
    ensures
        ({
            let after = s.pinged(s.sessions.order, now_ms);
            let ping = Msg::Ping { sent_ms: now_ms };
            &&& tells_all(s, after, s.sessions.order, ping)
            &&& can_tell(s, p, ping) ==> tells(s, after, p, ping)
            &&& same_self(s, after) && same_talks(s, after) && same_ways(s, after)
            &&& same_links(s.sessions, after.sessions)
            &&& after.peers.order == s.peers.order && after.peers.since == s.peers.since
            &&& after.peers.events == s.peers.events
            &&& after.peers.known.dom() == s.peers.known.dom()
            &&& s.peers.known.contains_key(p) && s.sessions.map.contains_key(p)
                && s.paths.map.contains_key(p) ==> after.peers.known[p].path_kind
                == PathKind::Relay(s.paths.map[p].0)
            &&& s.peers.known.contains_key(p) && s.sessions.map.contains_key(p)
                && !s.paths.map.contains_key(p) ==> after.peers.known[p].path_kind
                == PathKind::Direct
            &&& s.peers.known.contains_key(p) && !s.sessions.map.contains_key(p)
                ==> after.peers.known[p] == s.peers.known[p]
            &&& s.peers.known.contains_key(p) ==> after.peers.known[p]
                == (crate::peer::PeerInfo {
                path_kind: after.peers.known[p].path_kind,
                ..s.peers.known[p]
            })
        }),
{
    let ping = Msg::Ping { sent_ms: now_ms };
    lemma_order_known(s);
    lemma_told(s, s.sessions.order, ping);
    lemma_pinged(s, s.sessions.order, now_ms);
    let told = s.told(s.sessions.order, ping);
    let after = s.pinged(s.sessions.order, now_ms);
    assert(after.out == told.out);
    assert forall|q: PeerId|
        s.sessions.order.contains(q) && #[trigger] can_tell(s, q, ping) implies tells(
        s,
        after,
        q,
        ping,
    ) by {
        assert(tells(s, told, q, ping));
        let i = choose|i: int|
            s.out.len() <= i < told.out.len() && #[trigger] told.out[i] == note_to(s, q, ping);
        assert(after.out[i] == note_to(s, q, ping));
    }
}

proof fn lemma_entries_without(entries: Seq<Entry>, p: PeerId)
    ensures
        forall|e: Entry|
            #![trigger crate::node_state::entries_without(entries, p).contains(e)]
            #![trigger entries.contains(e)]
            crate::node_state::entries_without(entries, p).contains(e) <==> entries.contains(e)
                && e.0 != p,
        (forall|i: int, j: int|
            0 <= i < j < entries.len() ==> (#[trigger] entries[i]).0 != (#[trigger] entries[j]).0)
            ==> (forall|i: int, j: int|
            0 <= i < j < crate::node_state::entries_without(entries, p).len() ==> (
            #[trigger] crate::node_state::entries_without(entries, p)[i]).0 != (
            #[trigger] crate::node_state::entries_without(entries, p)[j]).0),
    decreases entries.len(),
{
    reveal(Seq::filter);
    let own = crate::node_state::entries_without(entries, p);
    if entries.len() > 0 {
        let front = entries.drop_last();
        let last = entries.last();
        let before = crate::node_state::entries_without(front, p);
        lemma_entries_without(front, p);
        assert forall|e: Entry|
            #![trigger own.contains(e)]
            #![trigger entries.contains(e)]
            own.contains(e) <==> entries.contains(e) && e.0 != p by {
            if own.contains(e) {
                let i = own.index_of(e);
                if i < before.len() {
                    assert(before[i] == e);
                    assert(before.contains(e));
                    let k = front.index_of(e);
                    assert(entries[k] == e);
                } else {
                    assert(entries[entries.len() - 1] == e);
                }
            }
            if entries.contains(e) && e.0 != p {
                let i = entries.index_of(e);
                if i < front.len() {
                    assert(front[i] == e);
                    assert(before.contains(e));
                    let k = before.index_of(e);
                    assert(own[k] == e);
                } else {
                    assert(own[before.len() as int] == e);
                }
            }
        }
        if forall|i: int, j: int|
            0 <= i < j < entries.len() ==> (#[trigger] entries[i]).0 != (#[trigger] entries[j]).0 {
            assert forall|i: int, j: int| 0 <= i < j < front.len() implies (#[trigger] front[i]).0
                != (#[trigger] front[j]).0 by {
                assert(entries[i] == front[i] && entries[j] == front[j]);
            }
            assert forall|i: int, j: int| 0 <= i < j < own.len() implies (#[trigger] own[i]).0 != (
            #[trigger] own[j]).0 by {
                assert(own[i] == before[i]);
                if j < before.len() {
                    assert(own[j] == before[j]);
                } else {
                    assert(before.contains(before[i]));
                    let k = front.index_of(before[i]);
                    assert(entries[k].0 != entries[entries.len() - 1].0);
                }
            }
        }
    }
}

/// The directory for a peer: the entries of the others.
pub open spec fn own_directory(entries: Seq<Entry>, p: PeerId) -> Msg {
    Msg::PeerDirectory { entries: crate::node_state::entries_without(entries, p) }
}

proof fn lemma_told_entries(s: NodeState, peers: Seq<PeerId>, entries: Seq<Entry>)
    requires
        peers.no_duplicates(),
    ensures
        ({
            let after = s.told_entries(peers, entries);
            &&& only_sent(s, after)
            &&& s.out.is_prefix_of(after.out)
            &&& forall|p: PeerId|
                peers.contains(p) && crate::node_state::entries_without(entries, p).len() > 0
                    && #[trigger] can_tell(s, p, own_directory(entries, p)) ==> tells(
                    s,
                    after,
                    p,
                    own_directory(entries, p),
                )
            &&& forall|p: PeerId, x: Msg|
                !peers.contains(p) ==> #[trigger] note_to(after, p, x) == note_to(s, p, x)
            &&& forall|p: PeerId, x: Msg|
                !peers.contains(p) ==> #[trigger] can_tell(after, p, x) == can_tell(s, p, x)
        }),
    decreases peers.len(),
{
    let after = s.told_entries(peers, entries);
    if peers.len() == 0 {
        assert(s.out =~= after.out.take(s.out.len() as int));
    } else {
        let front = peers.drop_last();
        let last = peers.last();
        let mid = s.told_entries(front, entries);
        let m = own_directory(entries, last);
        lemma_told_entries(s, front, entries);
        lemma_sent(mid, last, m);
        assert(!front.contains(last)) by {
            if front.contains(last) {
                let i = front.index_of(last);
                assert(peers[i] == peers[peers.len() - 1]);
            }
        }
        assert(note_to(mid, last, m) == note_to(s, last, m));
        assert(can_tell(mid, last, m) == can_tell(s, last, m));
        assert forall|p: PeerId| front.contains(p) implies peers.contains(p) by {
            let i = front.index_of(p);
            assert(peers[i] == p);
        }
        assert(peers[peers.len() - 1] == last);
        assert(s.out =~= mid.out.take(s.out.len() as int));
        assert(s.out =~= after.out.take(s.out.len() as int));
        assert forall|p: PeerId|
            peers.contains(p) && crate::node_state::entries_without(entries, p).len() > 0
                && #[trigger] can_tell(s, p, own_directory(entries, p)) implies tells(
            s,
            after,
            p,
            own_directory(entries, p),
        ) by {
            if p == last {
                assert(after.out[mid.out.len() as int] == note_to(s, p, m));
            } else {
                let k = peers.index_of(p);
                assert(front[k] == p);
                assert(front.contains(p));
                let n = own_directory(entries, p);
                assert(tells(s, mid, p, n));
                let i = choose|i: int|
                    s.out.len() <= i < mid.out.len() && #[trigger] mid.out[i] == note_to(s, p, n);
                assert(after.out[i] == mid.out[i]);
            }
        }
    }
}

/// Told of its neighbours by a relay: if a relay with a known address has at least two
/// neighbours, each peer with a session gets a directory that lists exactly the
/// neighbours other than itself, each at its address and one hop away. A node that does
/// not relay sends none, and nothing but packets comes of it.
pub proof fn neighbours_are_spread(s: NodeState, a: PeerId, b: PeerId, p: PeerId)
    requires
        s.ok(),
    ensures
        only_sent(s, s.spread_direct()),
        !s.can_relay ==> s.spread_direct() == s,
        s.can_relay && a != b && (exists|x: SocketAddr| #[trigger] is_neighbour(s, a, x)) && (
        exists|y: SocketAddr| #[trigger] is_neighbour(s, b, y)) && s.sessions.map.contains_key(p)
            ==> exists|entries: Seq<Entry>|
            {
                &&& #[trigger] lists_neighbours(s, entries, p)
                &&& entries.len() > 0
                &&& can_tell(s, p, Msg::PeerDirectory { entries }) ==> tells(
                    s,
                    s.spread_direct(),
                    p,
                    Msg::PeerDirectory { entries },
                )
            },
{
    let all = s.sessions.order;
    let entries = s.direct_entries(all);
    lemma_order_known(s);
    lemma_direct(s, all);
    lemma_told_entries(s, all, entries);
    lemma_entries_without(entries, p);
    let own = crate::node_state::entries_without(entries, p);
    assert(lists_neighbours(s, own, p)) by {
        assert forall|q: PeerId, at: SocketAddr| q != p && #[trigger] is_neighbour(
            s,
            q,
            at,
        ) implies own.contains((q, at, 1u8)) by {
            assert(all.contains(q));
            assert(entries.contains((q, at, 1u8)));
        }
        assert forall|i: int| 0 <= i < own.len() implies ({
            let e = #[trigger] own[i];
            e.0 != p && e.2 == 1 && is_neighbour(s, e.0, e.1)
        }) by {
            assert(own.contains(own[i]));
            let k = entries.index_of(own[i]);
            assert(entries[k] == own[i]);
        }
    }
    if s.can_relay && a != b && (exists|x: SocketAddr| #[trigger] is_neighbour(s, a, x)) && (exists|
        y: SocketAddr,
    | #[trigger]
        is_neighbour(s, b, y)) && s.sessions.map.contains_key(p) {
        let x = choose|x: SocketAddr| #[trigger] is_neighbour(s, a, x);
        let y = choose|y: SocketAddr| #[trigger] is_neighbour(s, b, y);
        assert(all.contains(a) && all.contains(b) && all.contains(p));
        assert(entries.contains((a, x, 1u8)) && entries.contains((b, y, 1u8)));
        let i = entries.index_of((a, x, 1u8));
        let j = entries.index_of((b, y, 1u8));
        assert(entries[i] == (a, x, 1u8) && entries[j] == (b, y, 1u8));
        assert(i != j);
        assert(entries.len() >= 2);
        if a != p {
            assert(own.contains((a, x, 1u8)));
        } else {
            assert(own.contains((b, y, 1u8)));
        }
        assert(own.len() > 0);
        assert(own_directory(entries, p) == (Msg::PeerDirectory { entries: own }));
    }
}

/// If at least two peers have a session, each is told of all others: the neighbours at
/// their addresses and one hop away, and those that are reached through relays and whose
/// public address is known, as far away as they are. Nobody is told of themselves, nor of
/// us.
pub proof fn everyone_is_spread(s: NodeState, p: PeerId, q: PeerId)
    requires
        s.ok(),
    ensures
        only_sent(s, s.spread_all()),
        s.sessions.order.len() < 2 ==> s.spread_all() == s,
        p != q && s.sessions.map.contains_key(p) && s.sessions.map.contains_key(q) ==> exists|
            entries: Seq<Entry>,
        |
            {
                &&& #[trigger] lists_all_others(s, entries, p)
                &&& entries.len() > 0 && can_tell(s, p, Msg::PeerDirectory { entries }) ==> tells(
                    s,
                    s.spread_all(),
                    p,
                    Msg::PeerDirectory { entries },
                )
            },
{
    let all = s.sessions.order;
    let direct = s.direct_entries(all);
    let entries = s.with_indirect(direct, s.paths.order, s.id);
    lemma_order_known(s);
    lemma_direct(s, all);
    lemma_indirect(s, direct, s.paths.order, s.id);
    lemma_told_entries(s, all, entries);
    lemma_entries_without(entries, p);
    let own = crate::node_state::entries_without(entries, p);
    if p != q && s.sessions.map.contains_key(p) && s.sessions.map.contains_key(q) {
        assert(all.contains(p) && all.contains(q));
        let i = all.index_of(p);
        let j = all.index_of(q);
        assert(all[i] == p && all[j] == q);
        assert(all.len() >= 2);
        assert(lists_all_others(s, own, p)) by {
            assert forall|x: PeerId, at: SocketAddr| x != p && #[trigger] is_neighbour(
                s,
                x,
                at,
            ) implies own.contains((x, at, 1u8)) by {
                assert(all.contains(x));
                assert(direct.contains((x, at, 1u8)));
                assert(entries.contains((x, at, 1u8)));
            }
            assert forall|x: PeerId, at: SocketAddr, hops: u8|
                x != p && x != s.id && #[trigger] is_farther(
                    s,
                    x,
                    at,
                    hops,
                ) implies crate::node_state::lists(own, x) by {
                assert(s.paths.order.contains(x));
                assert(crate::node_state::lists(entries, x));
                let k = choose|k: int| 0 <= k < entries.len() && (#[trigger] entries[k]).0 == x;
                assert(entries.contains(entries[k]));
                assert(own.contains(entries[k]));
                let n = own.index_of(entries[k]);
                assert(own[n].0 == x);
            }
            assert forall|i: int| 0 <= i < own.len() implies ({
                let e = #[trigger] own[i];
                &&& e.0 != p
                &&& (e.2 == 1 && is_neighbour(s, e.0, e.1)) || (e.0 != s.id && is_farther(
                    s,
                    e.0,
                    e.1,
                    e.2,
                ))
            }) by {
                assert(own.contains(own[i]));
                let k = entries.index_of(own[i]);
                assert(entries[k] == own[i]);
                if direct.contains(own[i]) {
                    let n = direct.index_of(own[i]);
                    assert(direct[n] == own[i]);
                }
            }
        }
        assert(own_directory(entries, p) == (Msg::PeerDirectory { entries: own }));
    }
}

/// Whether a directory lists all peers of a node but one, and not the node itself unless
/// it is its own neighbour.
pub open spec fn lists_all_others(s: NodeState, entries: Seq<Entry>, but: PeerId) -> bool {
    &&& forall|p: PeerId, at: SocketAddr|
        p != but && #[trigger] is_neighbour(s, p, at) ==> entries.contains((p, at, 1u8))
    &&& forall|p: PeerId, at: SocketAddr, hops: u8|
        p != but && p != s.id && #[trigger] is_farther(s, p, at, hops) ==> crate::node_state::lists(
            entries,
            p,
        )
    &&& forall|i: int|
        0 <= i < entries.len() ==> {
            let e = #[trigger] entries[i];
            &&& e.0 != but
            &&& (e.2 == 1 && is_neighbour(s, e.0, e.1)) || (e.0 != s.id && is_farther(
                s,
                e.0,
                e.1,
                e.2,
            ))
        }
    &&& forall|i: int, j: int|
        0 <= i < j < entries.len() ==> (#[trigger] entries[i]).0 != (#[trigger] entries[j]).0
}

// ---------------------------------------------------------------------------
// Whom to call
// ---------------------------------------------------------------------------
/// A handshake is begun exactly with addresses that are not our own, where no peer with
/// a session is, and with which no handshake is under way. Wherever it is not, nothing is
/// changed; wherever it is, whoever was last known there is forgotten, and nobody else.
pub proof fn connected_peers_are_not_called(s: NodeState, addr: SocketAddr, other: TransportAddr)
    ensures
        s.public == Some(addr) ==> !s.worth_calling(addr),
        s.calling.contains_key(addr) ==> !s.worth_calling(addr),
        s.by_addr.contains_key(TransportAddr::Udp(addr)) && s.sessions.map.contains_key(
            s.by_addr[TransportAddr::Udp(addr)],
        ) ==> !s.worth_calling(addr),
        s.public != Some(addr) && !s.calling.contains_key(addr) && !s.by_addr.contains_key(
            TransportAddr::Udp(addr),
        ) ==> s.worth_calling(addr),
        s.public != Some(addr) && !s.calling.contains_key(addr) && s.by_addr.contains_key(
            TransportAddr::Udp(addr),
        ) && !s.sessions.map.contains_key(s.by_addr[TransportAddr::Udp(addr)]) ==> s.worth_calling(
            addr,
        ),
        !s.forgot_addr(addr).by_addr.contains_key(TransportAddr::Udp(addr)),
        other != TransportAddr::Udp(addr) ==> s.forgot_addr(addr).by_addr.contains_key(other)
            == s.by_addr.contains_key(other) && s.forgot_addr(addr).by_addr[other]
            == s.by_addr[other],
        s.forgot_addr(addr) == (NodeState { by_addr: s.forgot_addr(addr).by_addr, ..s }),
{
}

/// A node that learns its public address keeps it, and relays exactly if that address can
/// be reached from anywhere; nothing else changes.
pub proof fn a_public_address_is_kept(s: NodeState, addr: SocketAddr)
    ensures
        s.at_public(addr).public == Some(addr),
        s.at_public(addr).can_relay <==> crate::reach::publicly_routable(addr),
        s.at_public(addr) == (NodeState {
            public: Some(addr),
            can_relay: s.at_public(addr).can_relay,
            ..s
        }),
{
}

/// A session that is dropped is gone, and so is the address at which its peer was found;
/// the sessions with others stay, and nothing else changes.
pub proof fn dropped_sessions_are_gone(s: NodeState, peer: PeerId, other: PeerId)
    requires
        s.ok(),
    ensures
        ({
            let after = s.dropped(peer);
            &&& !after.sessions.map.contains_key(peer)
            &&& s.sessions.map.contains_key(peer) ==> !after.by_addr.contains_key(
                s.sessions.map[peer].underlay,
            )
            &&& other != peer && s.sessions.map.contains_key(other)
                ==> after.sessions.map.contains_key(other) && after.sessions.map[other]
                == s.sessions.map[other]
            &&& after == (NodeState { sessions: after.sessions, by_addr: after.by_addr, ..s })
        }),
{
}

// ---------------------------------------------------------------------------
// Packets of our own
// ---------------------------------------------------------------------------
/// Whether an IPv4 packet of ours is routed to a peer.
pub open spec fn is_routed(s: NodeState, packet: Seq<u8>, peer: PeerId) -> bool {
    let dst = Ipv4Addr { a: packet[16], b: packet[17], c: packet[18], d: packet[19] };
    &&& packet.len() >= 20
    &&& packet[0] / 16 == 4
    &&& dst != s.overlay.addr
    &&& s.routes.routes.contains_key(dst)
    &&& s.routes.routes[dst] == peer
}

/// A packet to our own overlay address comes back to the TUN device; an empty one, and one
/// to an address without a route, goes nowhere. Nothing else comes of them.
pub proof fn packets_to_us_come_back(
    s: NodeState,
    packet: Seq<u8>,
    now_ns: u64,
    after: NodeState,
    refused: Option<Error>,
)
    requires
        s.takes_packet(packet, now_ns, after, refused),
    ensures
        packet.len() == 0 ==> after == s && refused is None,
        packet.len() >= 20 && packet[0] / 16 == 4 ==> {
            let dst = Ipv4Addr { a: packet[16], b: packet[17], c: packet[18], d: packet[19] };
            &&& dst == s.overlay.addr ==> refused is None && after == (NodeState {
                out: s.out.push(Effect::Tun(packet)),
                ..s
            })
            &&& dst != s.overlay.addr && !s.routes.routes.contains_key(dst) ==> refused is None
                && after == s
        },
{
}

/// A packet that is routed to a peer with a session goes to that peer, encrypted for it,
/// and nowhere else; nothing else comes of it.
pub proof fn packets_go_to_their_peer(
    s: NodeState,
    packet: Seq<u8>,
    peer: PeerId,
    now_ns: u64,
    after: NodeState,
    refused: Option<Error>,
)
    requires
        is_routed(s, packet, peer),
        can_tell(s, peer, Msg::Data(packet)),
        s.takes_packet(packet, now_ns, after, refused),
    ensures
        refused is None,
        only_sent(s, after),
        after.out == s.out.push(note_to(s, peer, Msg::Data(packet))),
{
    lemma_sent(s, peer, Msg::Data(packet));
}

/// What a relay carries of a packet for a peer: the packet, encrypted under a session that
/// only we and the peer share.
pub open spec fn carried(s: NodeState, peer: PeerId, packet: Seq<u8>) -> Msg {
    let o = s.outward[peer];
    Msg::RelayData {
        src_peer_id: s.id,
        dst_peer_id: peer,
        payload: noise_seal(
            o.sending_key,
            o.sent,
            crate::message::message_bytes(Msg::Data(packet)),
        ),
    }
}

/// A packet that is routed to a peer behind a relay, with a session through it, goes to
/// the relay, encrypted for the peer, and nowhere else; nothing else comes of it but that
/// it is counted.
pub proof fn packets_go_through_the_relay(
    s: NodeState,
    packet: Seq<u8>,
    peer: PeerId,
    relay: PeerId,
    hops: u8,
    now_ns: u64,
    after: NodeState,
    refused: Option<Error>,
)
    requires
        is_routed(s, packet, peer),
        !s.sessions.map.contains_key(peer),
        s.paths.map.contains_key(peer),
        s.paths.map[peer] == (relay, hops),
        s.outward.contains_key(peer),
        s.outward[peer].sent < 0xffff_ffff_ffff_ffff,
        crate::message::message_bytes(Msg::Data(packet)).len() + 16 <= 65535,
        can_tell(s, relay, carried(s, peer, packet)),
        s.takes_packet(packet, now_ns, after, refused),
    ensures
        refused is None,
        after.out == s.out.push(note_to(s, relay, carried(s, peer, packet))),
        after.outward == s.outward.insert(
            peer,
            NoiseSession { sent: s.outward[peer].sent + 1, ..s.outward[peer] },
        ),
        same_self(s, after) && same_ways(s, after) && same_links(s.sessions, after.sessions),
        after.peers == s.peers && after.inward == s.inward && after.waiting == s.waiting,
{
    let o = s.outward[peer];
    let counted = NodeState {
        outward: s.outward.insert(peer, NoiseSession { sent: o.sent + 1, ..o }),
        ..s
    };
    let m = carried(s, peer, packet);
    assert(can_tell(counted, relay, m));
    assert(note_to(counted, relay, m) == note_to(s, relay, m));
    lemma_sent(counted, relay, m);
}

/// A packet that is routed to a peer behind a relay without a session through it makes us
/// begin one, unless we just did: a handshake message goes to the relay, for the peer, and
/// the packet waits.
pub proof fn a_packet_begins_a_relayed_session(
    s: NodeState,
    packet: Seq<u8>,
    peer: PeerId,
    relay: PeerId,
    hops: u8,
    now_ns: u64,
    after: NodeState,
    refused: Option<Error>,
)
    requires
        is_routed(s, packet, peer),
        !s.sessions.map.contains_key(peer),
        s.paths.map.contains_key(peer),
        s.paths.map[peer] == (relay, hops),
        !s.outward.contains_key(peer),
        s.takes_packet(packet, now_ns, after, refused),
    ensures
        s.held(peer).len() < 1024 ==> after.waiting.contains_key(peer) && after.waiting[peer]
            == s.held(peer).push(packet),
        s.knocking.contains_key(peer) && now_ns - s.knocking[peer].1 < 2_000_000_000
            ==> refused is None && after.out == s.out && after.knocking == s.knocking,
        !(s.knocking.contains_key(peer) && now_ns - s.knocking[peer].1 < 2_000_000_000)
            && refused is None ==> exists|a: Seq<u8>|
            {
                let m = Msg::RelayData {
                    src_peer_id: s.id,
                    dst_peer_id: peer,
                    payload: crate::node_state::HANDSHAKE_INITIATOR_PREFIX@ + a,
                };
                &&& #[trigger] s.is_message_a(a)
                &&& after.knocking == s.knocking.insert(peer, (a, now_ns))
                &&& can_tell(s, relay, m) ==> after.out == s.out.push(note_to(s, relay, m))
            },
        refused is Some ==> after.out == s.out && after.knocking == s.knocking,
        same_self(s, after) && same_ways(s, after) && same_links(s.sessions, after.sessions),
        after.outward == s.outward && after.inward == s.inward && after.peers == s.peers,
{
    let kept = s.kept_waiting(peer, packet);
    if !s.is_knocking(peer, now_ns) && refused is None {
        let a = choose|a: Seq<u8>| #[trigger]
            s.is_message_a(a) && after == kept.knocked(relay, peer, a, now_ns);
        let m = Msg::RelayData {
            src_peer_id: s.id,
            dst_peer_id: peer,
            payload: crate::node_state::HANDSHAKE_INITIATOR_PREFIX@ + a,
        };
        let noted = NodeState { knocking: kept.knocking.insert(peer, (a, now_ns)), ..kept };
        lemma_sent(noted, relay, m);
        assert(can_tell(noted, relay, m) == can_tell(s, relay, m));
        assert(note_to(noted, relay, m) == note_to(s, relay, m));
        assert(s.is_message_a(a));
    }
}

/// A packet that is routed to a peer without a session or a way makes us give up the route,
/// and ask the first relay that we know to forward to the peer.
pub proof fn an_unreachable_peer_is_asked_for(
    s: NodeState,
    packet: Seq<u8>,
    peer: PeerId,
    now_ns: u64,
    after: NodeState,
    refused: Option<Error>,
)
    requires
        is_routed(s, packet, peer),
        !s.sessions.map.contains_key(peer),
        !s.paths.map.contains_key(peer),
        s.takes_packet(packet, now_ns, after, refused),
    ensures
        refused is None,
        s.routes.addrs.contains_key(peer) ==> !after.routes.routes.contains_key(
            s.routes.addrs[peer],
        ),
        s.relays.order.len() == 0 ==> after.out == s.out,
        s.relays.order.len() > 0 && can_tell(
            s,
            s.relays.order[0],
            Msg::RelayRequest { dst_peer_id: peer },
        ) ==> after.out == s.out.push(
            note_to(s, s.relays.order[0], Msg::RelayRequest { dst_peer_id: peer }),
        ),
        same_self(s, after) && same_talks(s, after) && same_links(s.sessions, after.sessions),
        after.by_addr == s.by_addr && after.relays == s.relays && after.paths == s.paths,
        after.peers == s.peers,
{
    let unrouted = if s.routes.addrs.contains_key(peer) {
        NodeState { routes: s.routes.without(s.routes.addrs[peer]), ..s }
    } else {
        s
    };
    let ask = Msg::RelayRequest { dst_peer_id: peer };
    let relay = s.relays.order[0];
    lemma_sent(unrouted, relay, ask);
    assert(can_tell(unrouted, relay, ask) == can_tell(s, relay, ask));
    assert(note_to(unrouted, relay, ask) == note_to(s, relay, ask));
}

/// The bytes of a packet that goes out.
pub open spec fn bytes_of(e: Effect) -> Seq<u8> {
    match e {
        Effect::Send { to, bytes } => bytes,
        Effect::Call { to, bytes } => bytes,
        Effect::Finish { to, bytes } => bytes,
        Effect::Tun(bytes) => bytes,
    }
}

/// A packet travels over two relays: it goes from the sender to the first relay, from
/// there to the second, from there to the receiver, and comes out of the receiver's TUN
/// device unchanged. Nothing else is sent on the way, and neither relay can do more than
/// forward it: it is encrypted for the receiver.
pub proof fn packet_reaches_peer_through_two_relays(
    sender: NodeState,
    one: NodeState,
    two: NodeState,
    receiver: NodeState,
    packet: Seq<u8>,
    hops: (u8, u8),
    places: (TransportAddr, TransportAddr, TransportAddr),
    known: (PeerId, PeerId, PeerId),
    now_ns: u64,
    now_ms: u64,
    t: Instant,
    sent: NodeState,
    first: NodeState,
    second: NodeState,
    last: NodeState,
    refused: (Option<Error>, Option<Error>, Option<Error>, Option<Error>),
)
    requires
        is_routed(sender, packet, receiver.id),
        !sender.sessions.map.contains_key(receiver.id),
        sender.paths.map.contains_key(receiver.id),
        sender.paths.map[receiver.id] == (one.id, hops.0),
        sender.outward.contains_key(receiver.id),
        sender.outward[receiver.id].sent < 0xffff_ffff_ffff_ffff,
        crate::message::message_bytes(Msg::Data(packet)).len() + 16 <= 65535,
        one.can_relay && one.id != receiver.id,
        !one.sessions.map.contains_key(receiver.id),
        one.paths.map.contains_key(receiver.id),
        one.paths.map[receiver.id] == (two.id, hops.1),
        two.can_relay && two.id != receiver.id,
        receiver.inward.contains_key(sender.id),
        ({
            let m = carried(sender, receiver.id, packet);
            let i = receiver.inward[sender.id];
            &&& can_tell(sender, one.id, m)
            &&& can_tell(one, two.id, m)
            &&& can_tell(two, receiver.id, m)
            &&& brings(one, places.0, known.0, m, bytes_of(note_to(sender, one.id, m)), now_ns)
            &&& brings(two, places.1, known.1, m, bytes_of(note_to(one, two.id, m)), now_ns)
            &&& brings(
                receiver,
                places.2,
                known.2,
                m,
                bytes_of(note_to(two, receiver.id, m)),
                now_ns,
            )
            &&& !crate::node_state::is_knock(m->RelayData_payload)
            &&& m->RelayData_payload.len() <= 65535 && i.received < 0xffff_ffff_ffff_ffff
            &&& noise_open(i.receiving_key, i.received, m->RelayData_payload) == Some(
                crate::message::message_bytes(Msg::Data(packet)),
            )
        }),
        sender.takes_packet(packet, now_ns, sent, refused.0),
        one.received(places.0, bytes_of(sent.out.last()), now_ns, now_ms, t, first, refused.1),
        two.received(places.1, bytes_of(first.out.last()), now_ns, now_ms, t, second, refused.2),
        receiver.received(places.2, bytes_of(second.out.last()), now_ns, now_ms, t, last, refused.3),
    ensures
        sent.out == sender.out.push(
            note_to(sender, one.id, carried(sender, receiver.id, packet)),
        ),
        first.out == one.out.push(note_to(one, two.id, carried(sender, receiver.id, packet))),
        second.out == two.out.push(
            note_to(two, receiver.id, carried(sender, receiver.id, packet)),
        ),
        last.out == receiver.out.push(Effect::Tun(packet)),
{
    let m = carried(sender, receiver.id, packet);
    let payload = m->RelayData_payload;
    packets_go_through_the_relay(
        sender,
        packet,
        receiver.id,
        one.id,
        hops.0,
        now_ns,
        sent,
        refused.0,
    );
    relayed_bytes_go_to_the_next_relay(
        one,
        places.0,
        known.0,
        sender.id,
        receiver.id,
        payload,
        two.id,
        hops.1,
        bytes_of(sent.out.last()),
        now_ns,
        now_ms,
        t,
        first,
        refused.1,
    );
    relayed_bytes_go_to_the_peer(
        two,
        places.1,
        known.1,
        sender.id,
        receiver.id,
        payload,
        bytes_of(first.out.last()),
        now_ns,
        now_ms,
        t,
        second,
        refused.2,
    );
    relayed_bytes_for_us_are_opened(
        receiver,
        places.2,
        known.2,
        sender.id,
        receiver.id,
        payload,
        packet,
        bytes_of(second.out.last()),
        now_ns,
        now_ms,
        t,
        last,
        refused.3,
    );
}

// ---------------------------------------------------------------------------
// Sessions
// ---------------------------------------------------------------------------
/// Whether a message goes to a peer, at whatever count.
pub open spec fn goes_to(before: NodeState, after: NodeState, link: Link, m: Msg) -> bool {
    exists|i: int, n: nat|
        before.out.len() <= i < after.out.len() && #[trigger] after.out[i] == (Effect::Send {
            to: link.underlay,
            bytes: #[trigger] noise_seal(
                link.session.sending_key,
                n,
                crate::message::message_bytes(m),
            ),
        })
}

proof fn lemma_goes_on(a: NodeState, b: NodeState, c: NodeState, link: Link, m: Msg)
    requires
        b.out.is_prefix_of(c.out),
        a.out.is_prefix_of(b.out),
    ensures
        a.out.is_prefix_of(c.out),
        goes_to(a, b, link, m) ==> goes_to(a, c, link, m),
        goes_to(b, c, link, m) ==> goes_to(a, c, link, m),
{
    assert(a.out =~= b.out.take(a.out.len() as int));
    assert(b.out =~= c.out.take(b.out.len() as int));
    assert(a.out =~= c.out.take(a.out.len() as int));
    if goes_to(a, b, link, m) {
        let (i, n) = choose|i: int, n: nat|
            a.out.len() <= i < b.out.len() && #[trigger] b.out[i] == (Effect::Send {
                to: link.underlay,
                bytes: #[trigger] noise_seal(
                    link.session.sending_key,
                    n,
                    crate::message::message_bytes(m),
                ),
            });
        assert(c.out[i] == b.out[i]);
    }
}

proof fn lemma_sent_exact(s: NodeState, peer: PeerId, m: Msg)
    ensures
        s.out.is_prefix_of(s.sent(peer, m).out),
        forall|q: PeerId|
            q != peer && #[trigger] s.sessions.map.contains_key(q) ==> s.sent(
                peer,
                m,
            ).sessions.map[q] == s.sessions.map[q],
        s.sent(peer, m).sessions.map[peer].session.sent <= s.sessions.map[peer].session.sent + 1,
        s.sent(peer, m).sessions.map[peer].session.received
            == s.sessions.map[peer].session.received,
        can_tell(s, peer, m) ==> goes_to(s, s.sent(peer, m), s.sessions.map[peer], m),
{
    lemma_sent(s, peer, m);
    let after = s.sent(peer, m);
    assert(s.out =~= after.out.take(s.out.len() as int));
    if can_tell(s, peer, m) {
        assert(after.out[s.out.len() as int] == note_to(s, peer, m));
        let n = s.sessions.map[peer].session.sent;
        assert(after.out[s.out.len() as int] == (Effect::Send {
            to: s.sessions.map[peer].underlay,
            bytes: noise_seal(
                s.sessions.map[peer].session.sending_key,
                n,
                crate::message::message_bytes(m),
            ),
        }));
    }
}

proof fn lemma_sent_all(s: NodeState, peer: PeerId, packets: Seq<Seq<u8>>)
    requires
        s.sessions.map.contains_key(peer),
    ensures
        ({
            let after = s.sent_all(peer, packets);
            &&& only_sent(s, after)
            &&& after.answering == s.answering
            &&& s.out.is_prefix_of(after.out)
            &&& forall|q: PeerId|
                q != peer && #[trigger] s.sessions.map.contains_key(q) ==> after.sessions.map[q]
                    == s.sessions.map[q]
            &&& after.sessions.map[peer].session.sent <= s.sessions.map[peer].session.sent
                + packets.len()
            &&& after.sessions.map[peer].session.received
                == s.sessions.map[peer].session.received
            &&& s.sessions.map[peer].session.sent + packets.len() <= 0xffff_ffff_ffff_ffff ==> (
            forall|k: int|
                0 <= k < packets.len() && crate::message::message_bytes(
                    Msg::Data(#[trigger] packets[k]),
                ).len() + 16 <= 65535 ==> goes_to(
                    s,
                    after,
                    s.sessions.map[peer],
                    Msg::Data(packets[k]),
                ))
        }),
    decreases packets.len(),
{
    let after = s.sent_all(peer, packets);
    if packets.len() == 0 {
        assert(s.out =~= after.out.take(s.out.len() as int));
    } else {
        let front = packets.drop_last();
        let mid = s.sent_all(peer, front);
        let m = Msg::Data(packets.last());
        lemma_sent_all(s, peer, front);
        lemma_sent(mid, peer, m);
        lemma_sent_exact(mid, peer, m);
        assert(mid.sessions.map.contains_key(peer));
        lemma_goes_on(s, mid, after, s.sessions.map[peer], m);
        assert forall|q: PeerId| q != peer && #[trigger] s.sessions.map.contains_key(
            q,
        ) implies after.sessions.map[q] == s.sessions.map[q] by {
            assert(mid.sessions.map.contains_key(q));
        }
        if s.sessions.map[peer].session.sent + packets.len() <= 0xffff_ffff_ffff_ffff {
            assert forall|k: int|
                0 <= k < packets.len() && crate::message::message_bytes(
                    Msg::Data(#[trigger] packets[k]),
                ).len() + 16 <= 65535 implies goes_to(
                s,
                after,
                s.sessions.map[peer],
                Msg::Data(packets[k]),
            ) by {
                if k < front.len() {
                    assert(front[k] == packets[k]);
                    assert(goes_to(s, mid, s.sessions.map[peer], Msg::Data(front[k])));
                    lemma_goes_on(s, mid, after, s.sessions.map[peer], Msg::Data(packets[k]));
                } else {
                    assert(can_tell(mid, peer, m));
                    assert(goes_to(mid, after, mid.sessions.map[peer], m));
                    let (i, n) = choose|i: int, n: nat|
                        mid.out.len() <= i < after.out.len() && #[trigger] after.out[i]
                            == (Effect::Send {
                            to: mid.sessions.map[peer].underlay,
                            bytes: #[trigger] noise_seal(
                                mid.sessions.map[peer].session.sending_key,
                                n,
                                crate::message::message_bytes(m),
                            ),
                        });
                    assert(after.out[i] == (Effect::Send {
                        to: s.sessions.map[peer].underlay,
                        bytes: noise_seal(
                            s.sessions.map[peer].session.sending_key,
                            n,
                            crate::message::message_bytes(m),
                        ),
                    }));
                    assert(s.out.len() <= mid.out.len());
                }
            }
        }
    }
}

/// What a node tells a new peer of itself.
pub open spec fn own_introduction(s: NodeState) -> Msg {
    Msg::SessionInit {
        overlay: s.overlay,
        overlay_ipv6: Some(s.overlay_ipv6.bytes()),
        hostname: s.hostname,
        public_addr: s.public,
    }
}

/// Whether a session with a peer has begun: the peer is found by its id, at its place and
/// at its overlay address, no relay is needed for it any longer, it counts as connected
/// from a point in time on if it was not known, and it is told who we are; if we relay, it
/// is told that too. Nothing waits for it any longer: what did has gone to it, if all of it
/// can be encrypted. Sessions with others, and what is known of them, are as before.
pub open spec fn session_began(
    before: NodeState,
    after: NodeState,
    peer: PeerId,
    session: NoiseSession,
    to: TransportAddr,
    t: Instant,
) -> bool {
    let link = Link { session, underlay: to };
    let room = 0xffff_ffff_ffff_ffff - 3 - before.held(peer).len();
    &&& same_self(before, after)
    &&& after.sessions.map.contains_key(peer)
    &&& after.sessions.map[peer].underlay == to
    &&& after.sessions.map[peer].session.sending_key == session.sending_key
    &&& after.sessions.map[peer].session.receiving_key == session.receiving_key
    &&& after.sessions.map[peer].session.received == session.received
    &&& after.sessions.map[peer].session.sent >= session.sent
    &&& forall|q: PeerId|
        q != peer ==> #[trigger] after.sessions.map.contains_key(q)
            == before.sessions.map.contains_key(q)
    &&& forall|q: PeerId|
        q != peer && #[trigger] before.sessions.map.contains_key(q) ==> after.sessions.map[q]
            == before.sessions.map[q]
    &&& after.by_addr == before.by_addr.insert(to, peer)
    &&& !after.paths.map.contains_key(peer)
    &&& forall|q: PeerId|
        q != peer && #[trigger] before.paths.map.contains_key(q) ==> after.paths.map.contains_key(q)
            && after.paths.map[q] == before.paths.map[q]
    &&& after.relays == before.relays
    &&& after.routes.routes == before.routes.routes.insert(
        crate::derive::overlay_of(peer).addr,
        peer,
    )
    &&& after.routes.addrs == before.routes.addrs.insert(
        peer,
        crate::derive::overlay_of(peer).addr,
    )
    &&& after.peers.known.contains_key(peer)
    &&& after.peers.known[peer].underlay_addr == Some(to.addr())
    &&& !before.peers.known.contains_key(peer) ==> {
        &&& after.peers.known[peer].state == PeerState::Connected
        &&& after.peers.since[peer] == t
    }
    &&& before.peers.known.contains_key(peer) && before.peers.known[peer].state
        == PeerState::Connected ==> {
        &&& after.peers.known[peer].state == PeerState::Connected
        &&& after.peers.since == before.peers.since
        &&& after.peers.events == before.peers.events
    }
    &&& before.peers.known.contains_key(peer) && before.peers.known[peer].state
        == PeerState::Discovering ==> {
        &&& after.peers.known[peer].state == PeerState::Connected
        &&& after.peers.since[peer] == t
    }
    &&& forall|q: PeerId|
        q != peer && #[trigger] before.peers.known.contains_key(q)
            ==> after.peers.known.contains_key(q) && after.peers.known[q] == before.peers.known[q]
    &&& before.out.is_prefix_of(after.out)
    &&& session.sent <= room && crate::message::message_bytes(own_introduction(before)).len() + 16
        <= 65535 ==> goes_to(before, after, link, own_introduction(before))
    &&& session.sent <= room && before.can_relay && before.public is Some
        && crate::message::message_bytes(
        Msg::RelayAnnounce { relay_peer_id: before.id, public_addr: before.public->Some_0 },
    ).len() + 16 <= 65535 ==> goes_to(
        before,
        after,
        link,
        Msg::RelayAnnounce { relay_peer_id: before.id, public_addr: before.public->Some_0 },
    )
    &&& after.waiting == before.waiting.remove(peer)
    &&& forall|k: int|
        0 <= k < before.held(peer).len() && session.sent <= room && crate::message::message_bytes(
            Msg::Data(#[trigger] before.held(peer)[k]),
        ).len() + 16 <= 65535 ==> goes_to(
            before,
            after,
            link,
            Msg::Data(before.held(peer)[k]),
        )
}

proof fn lemma_goes_along(a: NodeState, b: NodeState, x: Link, y: Link, m: Msg)
    requires
        goes_to(a, b, x, m),
        x.underlay == y.underlay,
        x.session.sending_key == y.session.sending_key,
    ensures
        goes_to(a, b, y, m),
{
    let (i, n) = choose|i: int, n: nat|
        a.out.len() <= i < b.out.len() && #[trigger] b.out[i] == (Effect::Send {
            to: x.underlay,
            bytes: #[trigger] noise_seal(
                x.session.sending_key,
                n,
                crate::message::message_bytes(m),
            ),
        });
    assert(b.out[i] == (Effect::Send {
        to: y.underlay,
        bytes: noise_seal(y.session.sending_key, n, crate::message::message_bytes(m)),
    }));
}

/// One message for the peer of a new session.
proof fn lemma_step(
    start: NodeState,
    s: NodeState,
    peer: PeerId,
    link: Link,
    m: Msg,
)
    requires
        start.out.is_prefix_of(s.out),
        s.sessions.map.contains_key(peer),
        s.sessions.map[peer].underlay == link.underlay,
        s.sessions.map[peer].session.sending_key == link.session.sending_key,
    ensures
        ({
            let after = s.sent_to(peer, link.underlay, m);
            &&& only_sent(s, after)
            &&& after.answering == s.answering
            &&& start.out.is_prefix_of(after.out)
            &&& s.out.is_prefix_of(after.out)
            &&& after.clock == s.clock
            &&& forall|q: PeerId|
                q != peer && #[trigger] s.sessions.map.contains_key(q) ==> after.sessions.map[q]
                    == s.sessions.map[q]
            &&& after.sessions.map[peer].session.sent <= s.sessions.map[peer].session.sent + 1
            &&& after.sessions.map[peer].session.received == s.sessions.map[peer].session.received
            &&& can_tell(s, peer, m) ==> goes_to(start, after, link, m)
        }),
{
    let after = s.sent_to(peer, link.underlay, m);
    assert(after == s.sent(peer, m));
    lemma_sent(s, peer, m);
    lemma_sent_exact(s, peer, m);
    lemma_goes_on(start, s, after, link, m);
    if can_tell(s, peer, m) {
        lemma_goes_along(s, after, s.sessions.map[peer], link, m);
    }
}

proof fn lemma_began(
    s: NodeState,
    peer: PeerId,
    session: NoiseSession,
    to: TransportAddr,
    shown: bool,
    after: NodeState,
)
    requires
        after == (if shown {
            s.entered(peer, session, to).greeted(peer, to).shown_around(peer, to).noted(
                peer,
                to.addr(),
            ).flushed(peer)
        } else {
            s.entered(peer, session, to).greeted(peer, to).noted(peer, to.addr()).flushed(peer)
        }),
    ensures
        session_began(s, after, peer, session, to, s.clock),
        after.calling == s.calling && after.closing == s.closing && after.answering == s.answering,
        after.outward == s.outward && after.inward == s.inward,
        after.knocking == s.knocking && after.opening == s.opening,
{
    let link = Link { session, underlay: to };
    let e = s.entered(peer, session, to);
    assert(s.out =~= e.out.take(s.out.len() as int));
    let hello = own_introduction(s);
    assert(hello == e.introduction());
    lemma_step(s, e, peer, link, hello);
    let f = e.sent_to(peer, to, hello);
    let g = e.greeted(peer, to);
    let announce = Msg::RelayAnnounce { relay_peer_id: s.id, public_addr: s.public->Some_0 };
    lemma_step(s, f, peer, link, announce);
    lemma_goes_on(s, f, g, link, hello);
    assert(g.sessions.map[peer].session.sent <= session.sent + 2);
    let entries = g.direct_entries(crate::node_state::ids_without(g.sessions.order, peer));
    lemma_step(s, g, peer, link, Msg::PeerDirectory { entries });
    assert(g.out =~= g.out.take(g.out.len() as int));
    let h = if shown {
        g.shown_around(peer, to)
    } else {
        g
    };
    lemma_goes_on(s, g, h, link, hello);
    lemma_goes_on(s, g, h, link, announce);
    let n = h.noted(peer, to.addr());
    let held = s.held(peer);
    assert(n.held(peer) == held);
    let emptied = NodeState { waiting: n.waiting.remove(peer), ..n };
    lemma_sent_all(emptied, peer, held);
    assert(after == emptied.sent_all(peer, held));
    assert(emptied.out == h.out);
    lemma_goes_on(s, h, after, link, hello);
    lemma_goes_on(s, h, after, link, announce);
    assert forall|k: int|
        0 <= k < held.len() && session.sent <= 0xffff_ffff_ffff_ffff - 3 - held.len()
            && crate::message::message_bytes(Msg::Data(#[trigger] held[k])).len() + 16
            <= 65535 implies goes_to(s, after, link, Msg::Data(held[k])) by {
        assert(goes_to(emptied, after, emptied.sessions.map[peer], Msg::Data(held[k])));
        lemma_goes_along(emptied, after, emptied.sessions.map[peer], link, Msg::Data(held[k]));
        lemma_goes_on(s, emptied, after, link, Msg::Data(held[k]));
    }
    assert forall|q: PeerId| q != peer && #[trigger] s.sessions.map.contains_key(
        q,
    ) implies after.sessions.map[q] == s.sessions.map[q] by {
        assert(e.sessions.map.contains_key(q));
        assert(f.sessions.map.contains_key(q));
        assert(g.sessions.map.contains_key(q));
        assert(h.sessions.map.contains_key(q));
        assert(emptied.sessions.map.contains_key(q));
    }
    assert forall|q: PeerId| q != peer implies #[trigger] after.sessions.map.contains_key(q)
        == s.sessions.map.contains_key(q) by {
        assert(e.sessions.map.contains_key(q) == s.sessions.map.contains_key(q));
        assert(f.sessions.map.dom() == e.sessions.map.dom());
    }
    assert(after.sessions.map.contains_key(peer));
}

/// When the last message of a handshake that we began was sent, the session with the peer
/// begins, unless the peer is ourselves; when it could not be sent, none does. Either way
/// the handshake is over.
pub proof fn finished_handshakes_begin_sessions(
    s: NodeState,
    at: SocketAddr,
    sent: bool,
    t: Instant,
)
    ensures
        ({
            let after = s.finished(at, sent, t);
            &&& !s.closing.contains_key(at) ==> after == (NodeState { clock: t, ..s })
            &&& s.closing.contains_key(at) ==> {
                let (peer, session) = s.closing[at];
                &&& after.closing == s.closing.remove(at)
                &&& sent && peer != s.id ==> session_began(
                    s,
                    after,
                    peer,
                    session,
                    TransportAddr::Udp(at),
                    t,
                )
                &&& !sent || peer == s.id ==> after == (NodeState {
                    closing: s.closing.remove(at),
                    clock: t,
                    ..s
                })
            }
        }),
{
    if s.closing.contains_key(at) {
        let (peer, session) = s.closing[at];
        let left = NodeState { closing: s.closing.remove(at), ..s.as_of(t) };
        if sent && peer != s.id {
            let after = s.finished(at, sent, t);
            lemma_began(left, peer, session, TransportAddr::Udp(at), true, after);
            assert(left.held(peer) == s.held(peer));
            lemma_began_from(s, left, after, peer, session, TransportAddr::Udp(at), t);
        }
    }
}

proof fn lemma_began_from(
    s: NodeState,
    left: NodeState,
    after: NodeState,
    peer: PeerId,
    session: NoiseSession,
    to: TransportAddr,
    t: Instant,
)
    requires
        session_began(left, after, peer, session, to, t),
        left == (NodeState {
            closing: left.closing,
            answering: left.answering,
            clock: left.clock,
            ..s
        }),
    ensures
        session_began(s, after, peer, session, to, t),
{
    let link = Link { session, underlay: to };
    assert(left.held(peer) == s.held(peer));
    assert(own_introduction(left) == own_introduction(s));
    assert(left.out == s.out && left.sessions == s.sessions && left.peers == s.peers);
    assert(left.paths == s.paths && left.routes == s.routes && left.waiting == s.waiting);
    assert(forall|m: Msg| #[trigger] goes_to(left, after, link, m) == goes_to(s, after, link, m));
}

/// A device that a handshake message C proves, in answer to our message B and in time, is
/// a peer with a session from then on; anything else that comes in its place ends the
/// handshake.
pub proof fn a_proved_device_gets_a_session(
    s: NodeState,
    from: TransportAddr,
    data: Seq<u8>,
    now_ns: u64,
    now_ms: u64,
    t: Instant,
    after: NodeState,
    refused: Option<Error>,
)
    requires
        s.answering.contains_key(from.addr()),
        now_ns - s.answering[from.addr()].2 < 2_000_000_000,
        !crate::text::begins_with(data, crate::constants::HOLE_PUNCH_PROBE_PREFIX@),
        !(crate::text::begins_with(data, crate::node_state::HANDSHAKE_RESPONDER_PREFIX@)
            && s.calling.contains_key(from.addr())),
        s.received(from, data, now_ns, now_ms, t, after, refused),
    ensures
        !after.answering.contains_key(from.addr()),
        ({
            let (a, b, _) = s.answering[from.addr()];
            match crate::claim::proved_id(s.network, seq![a, b], data) {
                Some(peer) => refused is None && session_began(
                    s,
                    after,
                    peer,
                    crate::noise::fresh_session(false, seq![a, b, data]),
                    from,
                    t,
                ),
                None => {
                    &&& refused is Some
                    &&& after == (NodeState { answering: after.answering, clock: t, ..s })
                },
            }
        }),
{
    let p = s.as_of(t).pruned(now_ns);
    assert(p.answering.contains_key(from.addr()));
    let (a, b, _) = s.answering[from.addr()];
    let left = NodeState { answering: p.answering.remove(from.addr()), ..p };
    if let Some(peer) = crate::claim::proved_id(s.network, seq![a, b], data) {
        let session = crate::noise::fresh_session(false, seq![a, b, data]);
        lemma_began(left, peer, session, from, false, after);
        lemma_began_from(s, left, after, peer, session, from, t);
    }
}

/// A message A that a device of our network may have written is answered with a message B
/// that such a device accepts and that proves our id, to where it came from; only want of
/// randomness can prevent that. One that no device of our network can have written is
/// refused, and nothing comes of it.
pub proof fn callers_are_answered(
    s: NodeState,
    from: TransportAddr,
    a: Seq<u8>,
    now_ns: u64,
    now_ms: u64,
    t: Instant,
    after: NodeState,
    refused: Option<Error>,
)
    requires
        s.ok(),
        !s.answering.contains_key(from.addr()),
        !s.by_addr.contains_key(from),
        s.received(
            from,
            crate::node_state::HANDSHAKE_INITIATOR_PREFIX@ + a,
            now_ns,
            now_ms,
            t,
            after,
            refused,
        ),
    ensures
        a.len() > 65535 || crate::noise::noise_payload(s.network, Seq::empty(), a) is None
            ==> refused is Some && after == (NodeState {
            answering: after.answering,
            clock: t,
            ..s
        }) && !after.answering.contains_key(from.addr()),
        refused is Some ==> after.out == s.out && !after.answering.contains_key(from.addr()),
        refused is None ==> exists|b: Seq<u8>|
            {
                &&& after.out == s.out.push(
                    Effect::Send {
                        to: from,
                        bytes: #[trigger] (crate::node_state::HANDSHAKE_RESPONDER_PREFIX@ + b),
                    },
                )
                &&& after.answering.contains_key(from.addr())
                &&& after.answering[from.addr()] == (a, b, now_ns)
                &&& crate::claim::proved_id(s.network, seq![a], b) == Some(s.id)
            },
{
    let data = crate::node_state::HANDSHAKE_INITIATOR_PREFIX@ + a;
    let p = s.as_of(t).pruned(now_ns);
    lemma_tags(a);
    assert(data.skip(12) =~= a);
    assert(!p.answering.contains_key(from.addr()));
    if refused is None {
        let b = choose|b: Seq<u8>| #[trigger]
            p.is_message_b(a, b) && after == p.answered(from, a, b, now_ns);
        let tagged = crate::node_state::HANDSHAKE_RESPONDER_PREFIX@ + b;
        assert(after.out == s.out.push(Effect::Send { to: from, bytes: tagged }));
    }
}

proof fn lemma_tags(a: Seq<u8>)
    ensures
        ({
            let data = crate::node_state::HANDSHAKE_INITIATOR_PREFIX@ + a;
            &&& crate::text::begins_with(data, crate::node_state::HANDSHAKE_INITIATOR_PREFIX@)
            &&& !crate::text::begins_with(data, crate::node_state::HANDSHAKE_RESPONDER_PREFIX@)
            &&& !crate::text::begins_with(data, crate::constants::HOLE_PUNCH_PROBE_PREFIX@)
        }),
        ({
            let data = crate::node_state::HANDSHAKE_RESPONDER_PREFIX@ + a;
            &&& crate::text::begins_with(data, crate::node_state::HANDSHAKE_RESPONDER_PREFIX@)
            &&& !crate::text::begins_with(data, crate::constants::HOLE_PUNCH_PROBE_PREFIX@)
        }),
{
    let i = crate::node_state::HANDSHAKE_INITIATOR_PREFIX@;
    let r = crate::node_state::HANDSHAKE_RESPONDER_PREFIX@;
    let h = crate::constants::HOLE_PUNCH_PROBE_PREFIX@;
    assert((i + a).take(12) =~= i);
    assert((r + a).take(12) =~= r);
    assert((i + a)[11] == 97u8 && r[11] == 98u8);
    assert((i + a)[9] == 115u8 && (r + a)[9] == 115u8 && h[9] == 112u8);
    if crate::text::begins_with(i + a, r) {
        assert((i + a).take(12)[11] == r[11]);
    }
    if crate::text::begins_with(i + a, h) {
        assert((i + a).take(h.len() as int)[9] == h[9]);
    }
    if crate::text::begins_with(r + a, h) {
        assert((r + a).take(h.len() as int)[9] == h[9]);
    }
}

/// Whether a handshake with a peer at an address is completed with message C: it is to be
/// sent, it proves our id, and the session of the three messages waits for that.
pub open spec fn is_completed(
    before: NodeState,
    after: NodeState,
    at: SocketAddr,
    peer: PeerId,
    a: Seq<u8>,
    b: Seq<u8>,
    c: Seq<u8>,
) -> bool {
    &&& after.out == before.out.push(Effect::Finish { to: at, bytes: c })
    &&& after.closing == before.closing.insert(
        at,
        (peer, crate::noise::fresh_session(true, seq![a, b, c])),
    )
    &&& crate::claim::proved_id(before.network, seq![a, b], c) == Some(before.id)
}

/// A message B that comes in answer to our message A and proves a device is answered with
/// a message C that proves our id; the session waits for that to be sent. Any other is
/// refused and ends the handshake.
pub proof fn answers_are_completed(
    s: NodeState,
    from: TransportAddr,
    b: Seq<u8>,
    now_ns: u64,
    now_ms: u64,
    t: Instant,
    after: NodeState,
    refused: Option<Error>,
)
    requires
        s.ok(),
        s.calling.contains_key(from.addr()),
        s.received(
            from,
            crate::node_state::HANDSHAKE_RESPONDER_PREFIX@ + b,
            now_ns,
            now_ms,
            t,
            after,
            refused,
        ),
    ensures
        after.calling == s.calling.remove(from.addr()),
        same_self(s, after) && same_ways(s, after),
        after.sessions == s.sessions && after.peers == s.peers && after.waiting == s.waiting,
        ({
            let a = s.calling[from.addr()].0;
            match crate::claim::proved_id(s.network, seq![a], b) {
                Some(peer) => refused is None && exists|c: Seq<u8>| #[trigger]
                    is_completed(s, after, from.addr(), peer, a, b, c),
                None => refused is Some && after.out == s.out && after.closing == s.closing,
            }
        }),
{
    let data = crate::node_state::HANDSHAKE_RESPONDER_PREFIX@ + b;
    let p = s.as_of(t).pruned(now_ns);
    let a = s.calling[from.addr()].0;
    lemma_tags(b);
    assert(data.skip(12) =~= b);
    if crate::claim::proved_id(s.network, seq![a], b) is Some {
        let c = choose|c: Seq<u8>| #[trigger]
            p.is_message_c(a, b, c) && after == p.completed(from.addr(), b, c);
        let session = crate::noise::fresh_session(true, seq![a, b, c]);
        let peer = crate::claim::proved_id(s.network, seq![a], b)->Some_0;
        assert(after.closing == s.closing.insert(from.addr(), (peer, session)));
        assert(is_completed(s, after, from.addr(), peer, a, b, c));
    }
}

/// What comes from an address that belongs to nobody, with which no handshake is under way,
/// and carries no tag, is dropped.
pub proof fn strangers_are_not_heard(
    s: NodeState,
    from: TransportAddr,
    data: Seq<u8>,
    now_ns: u64,
    now_ms: u64,
    t: Instant,
    after: NodeState,
    refused: Option<Error>,
)
    requires
        !s.by_addr.contains_key(from) || !s.sessions.map.contains_key(s.by_addr[from]),
        s.answering.contains_key(from.addr()) ==> now_ns - s.answering[from.addr()].2
            >= 2_000_000_000,
        !crate::text::begins_with(data, crate::constants::HOLE_PUNCH_PROBE_PREFIX@),
        !crate::text::begins_with(data, crate::node_state::HANDSHAKE_RESPONDER_PREFIX@),
        !crate::text::begins_with(data, crate::node_state::HANDSHAKE_INITIATOR_PREFIX@),
        s.received(from, data, now_ns, now_ms, t, after, refused),
    ensures
        refused is None,
        after == (NodeState { answering: after.answering, clock: t, ..s }),
        forall|x: SocketAddr| #[trigger]
            after.answering.contains_key(x) <==> s.answering.contains_key(x) && now_ns
                - s.answering[x].2 < 2_000_000_000,
{
}

/// A hole-punch probe is acknowledged and answered with a probe, both with its token and to
/// where it came from; nothing else comes of it.
pub proof fn probes_are_answered(
    s: NodeState,
    from: TransportAddr,
    token: u64,
    now_ns: u64,
    now_ms: u64,
    t: Instant,
    after: NodeState,
    refused: Option<Error>,
)
    requires
        s.received(
            from,
            crate::constants::HOLE_PUNCH_PROBE_PREFIX@ + crate::message::message_bytes(
                Msg::HolePunchProbe { token },
            ),
            now_ns,
            now_ms,
            t,
            after,
            refused,
        ),
    ensures
        refused is None,
        after == (NodeState { answering: after.answering, clock: t, out: after.out, ..s }),
        after.out == s.out.push(
            Effect::Send {
                to: from,
                bytes: crate::constants::HOLE_PUNCH_PROBE_PREFIX@ + crate::message::message_bytes(
                    Msg::HolePunchAck { token },
                ),
            },
        ).push(
            Effect::Send {
                to: from,
                bytes: crate::constants::HOLE_PUNCH_PROBE_PREFIX@ + crate::message::message_bytes(
                    Msg::HolePunchProbe { token },
                ),
            },
        ),
{
    let h = crate::constants::HOLE_PUNCH_PROBE_PREFIX@;
    let m = crate::message::message_bytes(Msg::HolePunchProbe { token });
    assert((h + m).take(h.len() as int) =~= h);
    assert((h + m).skip(11) =~= m);
    crate::message::message_round_trip_exact(Msg::HolePunchProbe { token });
}

/// A handshake that was not answered in time is given up. If it was with a peer that was
/// last known at the address, every other relay that we know is asked to forward to the
/// peer, and a probe goes to the peer's public address, if that is known and another one.
pub proof fn unanswered_calls_are_given_up(s: NodeState, at: SocketAddr, token: u64, relay: PeerId)
    requires
        s.ok(),
    ensures
        ({
            let after = s.timed_out(at, token);
            let place = TransportAddr::Udp(at);
            &&& after.calling == s.calling.remove(at)
            &&& s.out.is_prefix_of(after.out)
            &&& same_self(s, after) && same_ways(s, after)
            &&& same_links(s.sessions, after.sessions)
            &&& after.peers == s.peers && after.waiting == s.waiting
            &&& !s.by_addr.contains_key(place) ==> after.out == s.out
            &&& s.by_addr.contains_key(place) ==> {
                let target = s.by_addr[place];
                let ask = Msg::RelayRequest { dst_peer_id: target };
                &&& s.relays.map.contains_key(relay) && relay != target && can_tell(s, relay, ask)
                    ==> tells(s, after, relay, ask)
                &&& s.peers.known.contains_key(target) && s.peers.known[target].public_addr is Some
                    && s.peers.known[target].public_addr != Some(at) ==> after.out.len() > 0
                    && after.out.last() == (Effect::Send {
                    to: TransportAddr::Udp(s.peers.known[target].public_addr->Some_0),
                    bytes: crate::constants::HOLE_PUNCH_PROBE_PREFIX@
                        + crate::message::message_bytes(Msg::HolePunchProbe { token }),
                })
            }
        }),
{
    let after = s.timed_out(at, token);
    let left = s.gave_up(at);
    let place = TransportAddr::Udp(at);
    assert(s.out =~= left.out.take(s.out.len() as int));
    if s.by_addr.contains_key(place) {
        let target = s.by_addr[place];
        let ask = Msg::RelayRequest { dst_peer_id: target };
        let ids = crate::node_state::ids_without(left.relays.order, target);
        lemma_ids_without(left.relays.order, target);
        lemma_told(left, ids, ask);
        let told = left.told(ids, ask);
        assert(s.out =~= told.out.take(s.out.len() as int));
        assert(s.out =~= after.out.take(s.out.len() as int));
        if s.relays.map.contains_key(relay) && relay != target && can_tell(s, relay, ask) {
            assert(s.relays.order.contains(relay));
            assert(ids.contains(relay));
            assert(can_tell(left, relay, ask));
            assert(note_to(left, relay, ask) == note_to(s, relay, ask));
            assert(tells(left, told, relay, ask));
            let i = choose|i: int|
                left.out.len() <= i < told.out.len() && #[trigger] told.out[i] == note_to(
                    left,
                    relay,
                    ask,
                );
            assert(after.out[i] == note_to(s, relay, ask));
        }
    }
}

/// A relay shows a peer that it called around: once the handshake is finished, the peer
/// gets a directory that lists exactly our other neighbours, each at its address and one
/// hop away, if there are any.
pub proof fn called_peers_are_shown_around(
    s: NodeState,
    at: SocketAddr,
    peer: PeerId,
    session: NoiseSession,
    t: Instant,
)
    requires
        s.ok(),
        s.closing.contains_key(at),
        s.closing[at] == (peer, session),
        peer != s.id,
        s.can_relay,
        session.sent + 3 <= 0xffff_ffff_ffff_ffff,
    ensures
        exists|entries: Seq<Entry>|
            {
                &&& #[trigger] lists_neighbours(s, entries, peer)
                &&& entries.len() > 0 && crate::message::message_bytes(
                    Msg::PeerDirectory { entries },
                ).len() + 16 <= 65535 ==> goes_to(
                    s,
                    s.finished(at, true, t),
                    Link { session, underlay: TransportAddr::Udp(at) },
                    Msg::PeerDirectory { entries },
                )
            },
{
    let to = TransportAddr::Udp(at);
    let link = Link { session, underlay: to };
    let left = NodeState { closing: s.closing.remove(at), ..s.as_of(t) };
    let after = s.finished(at, true, t);
    let e = left.entered(peer, session, to);
    lemma_row_added(s.sessions, peer, Link { session, underlay: to });
    assert(s.out =~= e.out.take(s.out.len() as int));
    let hello = e.introduction();
    lemma_step(s, e, peer, link, hello);
    let f = e.sent_to(peer, to, hello);
    let announce = Msg::RelayAnnounce { relay_peer_id: s.id, public_addr: s.public->Some_0 };
    lemma_step(s, f, peer, link, announce);
    let g = e.greeted(peer, to);
    let ids = crate::node_state::ids_without(g.sessions.order, peer);
    let entries = g.direct_entries(ids);
    let dir = Msg::PeerDirectory { entries };
    lemma_step(s, g, peer, link, dir);
    lemma_ids_without(g.sessions.order, peer);
    assert(g.sessions.order == e.sessions.order);
    assert(g.sessions.map.dom() == e.sessions.map.dom());
    assert forall|i: int| 0 <= i < ids.len() implies g.sessions.map.contains_key(
        #[trigger] ids[i],
    ) by {
        assert(ids.contains(ids[i]));
        assert(e.sessions.order.contains(ids[i]));
        assert(e.sessions.map.contains_key(ids[i]));
    }
    lemma_direct(g, ids);
    assert forall|q: PeerId, x: SocketAddr| q != peer implies #[trigger] is_neighbour(s, q, x)
        == is_neighbour(g, q, x) by {
        assert(e.sessions.map.contains_key(q) == s.sessions.map.contains_key(q));
        if s.sessions.map.contains_key(q) {
            assert(e.sessions.map[q] == s.sessions.map[q]);
            assert(f.sessions.map.contains_key(q));
            assert(g.sessions.map.contains_key(q));
        }
    }
    assert(lists_neighbours(s, entries, peer)) by {
        assert forall|q: PeerId, x: SocketAddr| q != peer && #[trigger] is_neighbour(
            s,
            q,
            x,
        ) implies entries.contains((q, x, 1u8)) by {
            assert(is_neighbour(g, q, x));
            assert(e.sessions.map.contains_key(q));
            assert(e.sessions.order.contains(q));
            assert(ids.contains(q));
        }
        assert forall|i: int| 0 <= i < entries.len() implies ({
            let d = #[trigger] entries[i];
            d.0 != peer && d.2 == 1 && is_neighbour(s, d.0, d.1)
        }) by {
            let d = entries[i];
            assert(ids.contains(d.0));
            assert(is_neighbour(g, d.0, d.1));
            assert(is_neighbour(s, d.0, d.1) == is_neighbour(g, d.0, d.1));
        }
    }
    if entries.len() > 0 && crate::message::message_bytes(dir).len() + 16 <= 65535 {
        let h = g.shown_around(peer, to);
        let n = h.noted(peer, at);
        let emptied = NodeState { waiting: n.waiting.remove(peer), ..n };
        lemma_sent_all(emptied, peer, n.held(peer));
        assert(goes_to(s, h, link, dir));
        lemma_goes_on(s, h, after, link, dir);
    }
}

// ---------------------------------------------------------------------------
// What directories teach
// ---------------------------------------------------------------------------
/// One hop more than a number of hops, as far as they are counted.
pub open spec fn farther(hops: u8) -> int {
    if hops == 255 {
        255
    } else {
        hops + 1
    }
}

/// Whether an entry of a directory is the last one for its peer.
pub open spec fn is_last(entries: Seq<Entry>, i: int) -> bool {
    forall|j: int| i < j < entries.len() ==> (#[trigger] entries[j]).0 != entries[i].0
}

/// Whether a way to a peer is the one through a relay that some entry of a directory gives.
pub open spec fn is_given(entries: Seq<Entry>, relay: PeerId, p: PeerId, way: (PeerId, u8)) -> bool {
    way.0 == relay && exists|i: int|
        0 <= i < entries.len() && (#[trigger] entries[i]).0 == p && way.1 == farther(entries[i].2)
}

spec fn taught(s: NodeState, relay: PeerId, entries: Seq<Entry>, a: NodeState) -> bool {
    &&& same_self(s, a) && same_talks(s, a) && same_links(s.sessions, a.sessions)
    &&& a.by_addr == s.by_addr && a.relays == s.relays && a.clock == s.clock
    &&& a.answering == s.answering
    &&& s.out.is_prefix_of(a.out)
    &&& a.sessions.map[relay].session.sent <= s.sessions.map[relay].session.sent + entries.len()
    &&& forall|q: PeerId|
        q != relay && #[trigger] s.sessions.map.contains_key(q) ==> a.sessions.map[q]
            == s.sessions.map[q]
    &&& forall|p: PeerId| #[trigger]
        s.peers.known.contains_key(p) ==> a.peers.known.contains_key(p) && a.peers.known[p].state
            == s.peers.known[p].state
    &&& forall|p: PeerId|
        !crate::node_state::lists(entries, p) || p == s.id ==> {
            &&& #[trigger] a.peers.known.contains_key(p) == s.peers.known.contains_key(p)
            &&& a.peers.known[p] == s.peers.known[p]
            &&& a.paths.map.contains_key(p) == s.paths.map.contains_key(p)
            &&& a.paths.map[p] == s.paths.map[p]
        }
    &&& forall|i: int|
        0 <= i < entries.len() && (#[trigger] entries[i]).0 != s.id ==> {
            let e = entries[i];
            &&& a.peers.known.contains_key(e.0)
            &&& is_last(entries, i) ==> a.peers.known[e.0].public_addr == Some(e.1)
                && a.peers.known[e.0].underlay_addr == Some(e.1)
            &&& !s.sessions.map.contains_key(e.0) ==> {
                &&& a.paths.map.contains_key(e.0)
                &&& a.paths.map[e.0].1 <= farther(e.2)
            }
        }
    &&& forall|p: PeerId| #[trigger]
        a.paths.map.contains_key(p) ==> {
            ||| s.paths.map.contains_key(p) && a.paths.map[p] == s.paths.map[p]
            ||| !s.sessions.map.contains_key(p) && is_given(entries, relay, p, a.paths.map[p])
        }
    &&& forall|p: PeerId| #[trigger]
        s.paths.map.contains_key(p) ==> a.paths.map.contains_key(p) && a.paths.map[p].1
            <= s.paths.map[p].1
    &&& forall|p: PeerId| #[trigger]
        s.sessions.map.contains_key(p) ==> a.paths.map.contains_key(p)
            == s.paths.map.contains_key(p) && a.paths.map[p] == s.paths.map[p]
    &&& s.sessions.map.contains_key(relay) && s.sessions.map[relay].session.sent + entries.len()
        <= 0xffff_ffff_ffff_ffff ==> (forall|p: PeerId| #[trigger]
        a.paths.map.contains_key(p) && !(s.paths.map.contains_key(p) && s.paths.map[p]
            == a.paths.map[p]) && crate::message::message_bytes(
            Msg::RelayRequest { dst_peer_id: p },
        ).len() + 16 <= 65535 ==> goes_to(
            s,
            a,
            s.sessions.map[relay],
            Msg::RelayRequest { dst_peer_id: p },
        ))
}

proof fn lemma_taught(s: NodeState, relay: PeerId, entries: Seq<Entry>)
    ensures
        taught(s, relay, entries, s.learned(relay, entries)),
    decreases entries.len(),
{
    let a = s.learned(relay, entries);
    if entries.len() == 0 {
        assert(s.out =~= a.out.take(s.out.len() as int));
        assert(a.sessions.map.dom() =~= s.sessions.map.dom());
    } else {
        let front = entries.drop_last();
        let e = entries.last();
        let b = s.learned(relay, front);
        lemma_taught(s, relay, front);
        lemma_lists_front(entries);
        lemma_taught_one(b, relay, e);
        let link = s.sessions.map[relay];
        assert(a == b.learned_one(relay, e));
        assert(taught_one(b, relay, e, a));
        assert(s.out =~= b.out.take(s.out.len() as int));
        assert(b.out =~= a.out.take(b.out.len() as int));
        assert(s.out =~= a.out.take(s.out.len() as int));
        assert forall|p: PeerId| !crate::node_state::lists(entries, p) || p == s.id implies ({
            &&& #[trigger] a.peers.known.contains_key(p) == s.peers.known.contains_key(p)
            &&& a.peers.known[p] == s.peers.known[p]
            &&& a.paths.map.contains_key(p) == s.paths.map.contains_key(p)
            &&& a.paths.map[p] == s.paths.map[p]
        }) by {
            assert(b.peers.known.contains_key(p) == s.peers.known.contains_key(p));
        }
        assert forall|i: int| 0 <= i < entries.len() && (#[trigger] entries[i]).0
            != s.id implies ({
            let x = entries[i];
            &&& a.peers.known.contains_key(x.0)
            &&& is_last(entries, i) ==> a.peers.known[x.0].public_addr == Some(x.1)
                && a.peers.known[x.0].underlay_addr == Some(x.1)
            &&& !s.sessions.map.contains_key(x.0) ==> {
                &&& a.paths.map.contains_key(x.0)
                &&& a.paths.map[x.0].1 <= farther(x.2)
            }
        }) by {
            if i < front.len() {
                assert(front[i] == entries[i]);
                if is_last(entries, i) {
                    assert(entries[entries.len() - 1].0 != entries[i].0);
                    assert forall|j: int| i < j < front.len() implies (#[trigger] front[j]).0
                        != front[i].0 by {
                        assert(entries[j] == front[j]);
                    }
                    assert(is_last(front, i));
                }
            }
        }
        assert forall|p: PeerId| #[trigger] a.paths.map.contains_key(p) implies ({
            ||| s.paths.map.contains_key(p) && a.paths.map[p] == s.paths.map[p]
            ||| !s.sessions.map.contains_key(p) && is_given(entries, relay, p, a.paths.map[p])
        }) by {
            if p == e.0 && !(b.paths.map.contains_key(p) && a.paths.map[p] == b.paths.map[p]) {
                assert(entries[entries.len() - 1].0 == p);
            } else {
                assert(b.paths.map.contains_key(p));
                if is_given(front, relay, p, b.paths.map[p]) {
                    let i = choose|i: int|
                        0 <= i < front.len() && (#[trigger] front[i]).0 == p && b.paths.map[p].1
                            == farther(front[i].2);
                    assert(entries[i] == front[i]);
                }
            }
        }
        if s.sessions.map.contains_key(relay) && link.session.sent + entries.len()
            <= 0xffff_ffff_ffff_ffff {
            assert forall|p: PeerId| #[trigger]
                a.paths.map.contains_key(p) && !(s.paths.map.contains_key(p) && s.paths.map[p]
                    == a.paths.map[p]) && crate::message::message_bytes(
                    Msg::RelayRequest { dst_peer_id: p },
                ).len() + 16 <= 65535 implies goes_to(
                s,
                a,
                link,
                Msg::RelayRequest { dst_peer_id: p },
            ) by {
                let m = Msg::RelayRequest { dst_peer_id: p };
                lemma_goes_on(s, b, a, link, m);
                if b.paths.map.contains_key(p) && b.paths.map[p] == a.paths.map[p] {
                    assert(goes_to(s, b, link, m));
                } else {
                    assert(p == e.0);
                    assert(b.sessions.map.contains_key(relay));
                    assert(goes_to(b, a, b.sessions.map[relay], m));
                    lemma_goes_along(b, a, b.sessions.map[relay], link, m);
                }
            }
        }
    }
}

proof fn lemma_lists_front(entries: Seq<Entry>)
    requires
        entries.len() > 0,
    ensures
        forall|p: PeerId|
            crate::node_state::lists(entries, p) == (crate::node_state::lists(
                entries.drop_last(),
                p,
            ) || p == entries.last().0),
{
    let front = entries.drop_last();
    assert forall|p: PeerId|
        crate::node_state::lists(entries, p) == (crate::node_state::lists(front, p) || p
            == entries.last().0) by {
        if crate::node_state::lists(entries, p) {
            let i = choose|i: int| 0 <= i < entries.len() && (#[trigger] entries[i]).0 == p;
            if i < front.len() {
                assert(front[i].0 == p);
            }
        }
        if crate::node_state::lists(front, p) {
            let i = choose|i: int| 0 <= i < front.len() && (#[trigger] front[i]).0 == p;
            assert(entries[i].0 == p);
        }
        if p == entries.last().0 {
            assert(entries[entries.len() - 1].0 == p);
        }
    }
}

spec fn taught_one(s: NodeState, relay: PeerId, e: Entry, a: NodeState) -> bool {
    let m = Msg::RelayRequest { dst_peer_id: e.0 };
    &&& same_self(s, a) && same_talks(s, a) && same_links(s.sessions, a.sessions)
    &&& a.by_addr == s.by_addr && a.relays == s.relays && a.clock == s.clock
    &&& a.answering == s.answering
    &&& s.out.is_prefix_of(a.out)
    &&& a.sessions.map[relay].session.sent <= s.sessions.map[relay].session.sent + 1
    &&& forall|q: PeerId|
        q != relay && #[trigger] s.sessions.map.contains_key(q) ==> a.sessions.map[q]
            == s.sessions.map[q]
    &&& forall|p: PeerId| #[trigger]
        s.peers.known.contains_key(p) ==> a.peers.known.contains_key(p) && a.peers.known[p].state
            == s.peers.known[p].state
    &&& forall|p: PeerId|
        p != e.0 || p == s.id ==> {
            &&& #[trigger] a.peers.known.contains_key(p) == s.peers.known.contains_key(p)
            &&& a.peers.known[p] == s.peers.known[p]
            &&& a.paths.map.contains_key(p) == s.paths.map.contains_key(p)
            &&& a.paths.map[p] == s.paths.map[p]
        }
    &&& e.0 != s.id ==> {
        &&& a.peers.known.contains_key(e.0)
        &&& a.peers.known[e.0].public_addr == Some(e.1)
        &&& a.peers.known[e.0].underlay_addr == Some(e.1)
        &&& s.sessions.map.contains_key(e.0) ==> a.paths == s.paths
        &&& !s.sessions.map.contains_key(e.0) ==> {
            &&& a.paths.map.contains_key(e.0)
            &&& a.paths.map[e.0].1 <= farther(e.2)
            &&& {
                ||| s.paths.map.contains_key(e.0) && a.paths.map[e.0] == s.paths.map[e.0]
                ||| {
                    &&& a.paths.map[e.0].0 == relay
                    &&& a.paths.map[e.0].1 == farther(e.2)
                    &&& s.paths.map.contains_key(e.0) ==> a.paths.map[e.0].1 < s.paths.map[e.0].1
                    &&& a.routes.routes == s.routes.routes.insert(
                        crate::derive::overlay_of(e.0).addr,
                        e.0,
                    )
                    &&& can_tell(s, relay, m) ==> a.out == s.out.push(note_to(s, relay, m))
                        && goes_to(s, a, s.sessions.map[relay], m)
                }
            }
        }
    }
}

proof fn lemma_taught_one(s: NodeState, relay: PeerId, e: Entry)
    ensures
        taught_one(s, relay, e, s.learned_one(relay, e)),
{
    let a = s.learned_one(relay, e);
    let m = Msg::RelayRequest { dst_peer_id: e.0 };
    assert(s.out =~= s.out.take(s.out.len() as int));
    if e.0 != s.id {
        let seen = NodeState { peers: s.peers.discovered(e.0, e.1, s.clock), ..s };
        let known = seen.with_info(
            e.0,
            crate::peer::PeerInfo { public_addr: Some(e.1), ..seen.peers.known[e.0] },
        );
        let pathed = known.with_path(e.0, relay, crate::node_state::one_more(e.2));
        lemma_sent(pathed, relay, m);
        lemma_sent_exact(pathed, relay, m);
        assert(can_tell(pathed, relay, m) == can_tell(s, relay, m));
        assert(note_to(pathed, relay, m) == note_to(s, relay, m));
        if can_tell(s, relay, m) && a == pathed.sent(relay, m) {
            assert(goes_to(pathed, a, pathed.sessions.map[relay], m));
            assert(goes_to(s, a, s.sessions.map[relay], m) == goes_to(
                pathed,
                a,
                pathed.sessions.map[relay],
                m,
            ));
        }
    }
}

/// A directory teaches a node every peer that it lists but the node itself: the address of
/// each is known, and each without a session is reached, through whoever sent the directory
/// or on a shorter way that was known before, in at most one hop more than the directory
/// says. Ways are only ever replaced by shorter ones, and for every way that is taken the
/// sender is asked to forward. Peers with a session, and peers that are not listed, are
/// reached as before.
pub proof fn directories_teach_ways(
    s: NodeState,
    from: TransportAddr,
    peer: PeerId,
    entries: Seq<Entry>,
    data: Seq<u8>,
    now_ns: u64,
    now_ms: u64,
    t: Instant,
    after: NodeState,
    refused: Option<Error>,
    i: int,
    p: PeerId,
)
    requires
        s.ok(),
        brings(s, from, peer, Msg::PeerDirectory { entries }, data, now_ns),
        s.received(from, data, now_ns, now_ms, t, after, refused),
    ensures
        refused is None,
        same_self(s, after) && same_talks(s, after) && same_links(s.sessions, after.sessions),
        after.by_addr == s.by_addr && after.relays == s.relays,
        0 <= i < entries.len() && entries[i].0 != s.id ==> {
            let e = entries[i];
            &&& after.peers.known.contains_key(e.0)
            &&& is_last(entries, i) ==> after.peers.known[e.0].public_addr == Some(e.1)
                && after.peers.known[e.0].underlay_addr == Some(e.1)
            &&& !s.sessions.map.contains_key(e.0) ==> after.paths.map.contains_key(e.0)
                && after.paths.map[e.0].1 <= farther(e.2)
        },
        !crate::node_state::lists(entries, p) || p == s.id ==> {
            &&& after.peers.known.contains_key(p) == s.peers.known.contains_key(p)
            &&& after.peers.known[p] == s.peers.known[p]
            &&& after.paths.map.contains_key(p) == s.paths.map.contains_key(p)
            &&& after.paths.map[p] == s.paths.map[p]
        },
        s.paths.map.contains_key(p) ==> after.paths.map.contains_key(p) && after.paths.map[p].1
            <= s.paths.map[p].1,
        s.sessions.map.contains_key(p) ==> after.paths.map.contains_key(p)
            == s.paths.map.contains_key(p) && after.paths.map[p] == s.paths.map[p],
        after.paths.map.contains_key(p) && !(s.paths.map.contains_key(p) && after.paths.map[p]
            == s.paths.map[p]) ==> {
            &&& is_given(entries, peer, p, after.paths.map[p])
            &&& s.sessions.map[peer].session.sent + entries.len() <= 0xffff_ffff_ffff_ffff
                && crate::message::message_bytes(Msg::RelayRequest { dst_peer_id: p }).len() + 16
                <= 65535 ==> goes_to(
                s,
                after,
                s.sessions.map[peer],
                Msg::RelayRequest { dst_peer_id: p },
            )
        },
{
    let m = Msg::PeerDirectory { entries };
    lemma_brings(s, from, peer, m, data, now_ns, now_ms, t, after, refused);
    let c = on_hearing(s, peer, now_ns, t);
    let learned = c.learned(peer, entries);
    lemma_taught(c, peer, entries);
    let others = crate::node_state::ids_without(learned.sessions.order, peer);
    lemma_ids_without(learned.sessions.order, peer);
    let onward = Msg::PeerDirectory { entries: c.passed_on(entries) };
    lemma_told(learned, others, onward);
    assert(learned.out =~= learned.out.take(learned.out.len() as int));
    let ask = Msg::RelayRequest { dst_peer_id: p };
    assert(c.out =~= learned.out.take(c.out.len() as int));
    lemma_goes_on(c, learned, after, c.sessions.map[peer], ask);
    if goes_to(c, after, c.sessions.map[peer], ask) {
        lemma_goes_along(c, after, c.sessions.map[peer], s.sessions.map[peer], ask);
        assert(goes_to(s, after, s.sessions.map[peer], ask) == goes_to(
            c,
            after,
            s.sessions.map[peer],
            ask,
        ));
    }
}

/// A directory of one peer that is new to us and without a session gives the way to it:
/// through whoever sent the directory, one hop farther than it says, at the overlay address
/// of the peer.
pub proof fn a_new_peer_is_routed(
    s: NodeState,
    from: TransportAddr,
    peer: PeerId,
    e: Entry,
    data: Seq<u8>,
    now_ns: u64,
    now_ms: u64,
    t: Instant,
    after: NodeState,
    refused: Option<Error>,
)
    requires
        s.ok(),
        brings(s, from, peer, Msg::PeerDirectory { entries: seq![e] }, data, now_ns),
        e.0 != s.id,
        !s.sessions.map.contains_key(e.0),
        !s.paths.map.contains_key(e.0),
        s.received(from, data, now_ns, now_ms, t, after, refused),
    ensures
        after.paths.map.contains_key(e.0),
        after.paths.map[e.0].0 == peer,
        after.paths.map[e.0].1 == farther(e.2),
        after.routes.routes == s.routes.routes.insert(crate::derive::overlay_of(e.0).addr, e.0),
        !s.can_relay && can_tell(s, peer, Msg::RelayRequest { dst_peer_id: e.0 }) ==> after.out
            == s.out.push(note_to(s, peer, Msg::RelayRequest { dst_peer_id: e.0 })),
{
    let entries = seq![e];
    let m = Msg::PeerDirectory { entries };
    lemma_brings(s, from, peer, m, data, now_ns, now_ms, t, after, refused);
    let c = on_hearing(s, peer, now_ns, t);
    assert(entries.drop_last() =~= Seq::empty());
    assert(c.learned(peer, Seq::empty()) == c);
    let learned = c.learned(peer, entries);
    assert(learned == c.learned_one(peer, e));
    lemma_taught_one(c, peer, e);
    let others = crate::node_state::ids_without(learned.sessions.order, peer);
    lemma_ids_without(learned.sessions.order, peer);
    lemma_told(learned, others, Msg::PeerDirectory { entries: c.passed_on(entries) });
    let ask = Msg::RelayRequest { dst_peer_id: e.0 };
    assert(can_tell(c, peer, ask) == can_tell(s, peer, ask));
    assert(note_to(c, peer, ask) == note_to(s, peer, ask));
}

/// Whether a directory lists exactly what a relay passes on of another: every peer but the
/// relay itself that is less than eight hops away, at the same address and one hop farther.
pub open spec fn is_passed_on(us: PeerId, entries: Seq<Entry>, onward: Seq<Entry>) -> bool {
    &&& forall|i: int|
        0 <= i < entries.len() && (#[trigger] entries[i]).0 != us && entries[i].2 < 8
            ==> onward.contains((entries[i].0, entries[i].1, (entries[i].2 + 1) as u8))
    &&& forall|j: int|
        0 <= j < onward.len() ==> is_one_farther(us, entries, #[trigger] onward[j])
}

/// Whether an entry is one of a directory, one hop farther.
pub open spec fn is_one_farther(us: PeerId, entries: Seq<Entry>, e: Entry) -> bool {
    exists|i: int|
        0 <= i < entries.len() && (#[trigger] entries[i]).0 != us && entries[i].2 < 8 && e == (
            entries[i].0,
            entries[i].1,
            (entries[i].2 + 1) as u8,
        )
}

proof fn lemma_passed_on(s: NodeState, entries: Seq<Entry>)
    ensures
        is_passed_on(s.id, entries, s.passed_on(entries)),
    decreases entries.len(),
{
    let onward = s.passed_on(entries);
    if entries.len() > 0 {
        let front = entries.drop_last();
        let before = s.passed_on(front);
        lemma_passed_on(s, front);
        assert forall|i: int|
            0 <= i < entries.len() && (#[trigger] entries[i]).0 != s.id && entries[i].2
                < 8 implies onward.contains(
            (entries[i].0, entries[i].1, (entries[i].2 + 1) as u8),
        ) by {
            let x = (entries[i].0, entries[i].1, (entries[i].2 + 1) as u8);
            if i < front.len() {
                assert(front[i] == entries[i]);
                assert(before.contains(x));
                let k = before.index_of(x);
                assert(onward[k] == x);
            } else {
                assert(onward[before.len() as int] == x);
            }
        }
        assert forall|j: int| 0 <= j < onward.len() implies is_one_farther(
            s.id,
            entries,
            #[trigger] onward[j],
        ) by {
            if j < before.len() {
                assert(before[j] == onward[j]);
                let i = choose|i: int|
                    0 <= i < front.len() && (#[trigger] front[i]).0 != s.id && front[i].2 < 8
                        && before[j] == (front[i].0, front[i].1, (front[i].2 + 1) as u8);
                assert(entries[i] == front[i]);
            } else {
                assert(entries[entries.len() - 1] == entries.last());
            }
        }
    }
}

/// A relay passes a directory on to every other peer: each gets what the directory lists,
/// one hop farther, without the relay itself and without what is too far away; if nothing
/// is left, nobody gets anything of it. A node that does not relay passes nothing on.
pub proof fn directories_are_passed_on(
    s: NodeState,
    from: TransportAddr,
    peer: PeerId,
    entries: Seq<Entry>,
    data: Seq<u8>,
    now_ns: u64,
    now_ms: u64,
    t: Instant,
    after: NodeState,
    refused: Option<Error>,
    other: PeerId,
)
    requires
        s.ok(),
        brings(s, from, peer, Msg::PeerDirectory { entries }, data, now_ns),
        s.received(from, data, now_ns, now_ms, t, after, refused),
    ensures
        s.can_relay ==> exists|onward: Seq<Entry>|
            {
                &&& #[trigger] is_passed_on(s.id, entries, onward)
                &&& onward.len() > 0 && other != peer && can_tell(
                    s,
                    other,
                    Msg::PeerDirectory { entries: onward },
                ) ==> tells(s, after, other, Msg::PeerDirectory { entries: onward })
            },
        !s.can_relay && other != peer && s.sessions.map.contains_key(other)
            ==> after.sessions.map[other] == s.sessions.map[other],
{
    let m = Msg::PeerDirectory { entries };
    lemma_brings(s, from, peer, m, data, now_ns, now_ms, t, after, refused);
    let c = on_hearing(s, peer, now_ns, t);
    let learned = c.learned(peer, entries);
    lemma_taught(c, peer, entries);
    lemma_passed_on(c, entries);
    let onward = c.passed_on(entries);
    let news = Msg::PeerDirectory { entries: onward };
    let others = crate::node_state::ids_without(learned.sessions.order, peer);
    lemma_ids_without(learned.sessions.order, peer);
    lemma_told(learned, others, news);
    if !s.can_relay && other != peer && s.sessions.map.contains_key(other) {
        assert(c.sessions.map.contains_key(other));
        assert(learned.sessions.map[other] == c.sessions.map[other]);
    }
    if s.can_relay && onward.len() > 0 && other != peer && can_tell(s, other, news) {
        lemma_order_known(s);
        assert(s.sessions.order.contains(other));
        assert(c.sessions.order == s.sessions.order);
        assert(learned.sessions.order == c.sessions.order);
        assert(others.contains(other));
        assert(can_tell(c, other, news) == can_tell(s, other, news));
        assert(note_to(c, other, news) == note_to(s, other, news));
        assert(c.sessions.map.contains_key(other));
        assert(learned.sessions.map.contains_key(other));
        assert(learned.sessions.map[other] == c.sessions.map[other]);
        assert(can_tell(learned, other, news));
        assert(note_to(learned, other, news) == note_to(c, other, news));
        assert(tells(learned, after, other, news));
        let i = choose|i: int|
            learned.out.len() <= i < after.out.len() && #[trigger] after.out[i] == note_to(
                learned,
                other,
                news,
            );
        assert(after.out[i] == note_to(s, other, news));
        assert(c.out =~= learned.out.take(c.out.len() as int));
    }
}

// ---------------------------------------------------------------------------
// Handshakes through relays
// ---------------------------------------------------------------------------
/// Whether relayed bytes are for a node.
pub open spec fn is_ours(s: NodeState, dst: PeerId) -> bool {
    dst == s.id || (!s.can_relay && !s.sessions.map.contains_key(dst))
}

/// What a node has a relay carry to a peer.
pub open spec fn through(s: NodeState, peer: PeerId, payload: Seq<u8>) -> Msg {
    Msg::RelayData { src_peer_id: s.id, dst_peer_id: peer, payload }
}

/// Whether a relayed handshake is answered with message B: it goes back through the relay,
/// it proves our id, and the two messages are remembered.
pub open spec fn is_opened(
    before: NodeState,
    after: NodeState,
    relay: PeerId,
    src: PeerId,
    a: Seq<u8>,
    b: Seq<u8>,
) -> bool {
    let m = through(before, src, crate::node_state::HANDSHAKE_RESPONDER_PREFIX@ + b);
    &&& after.opening == before.opening.insert(src, (a, b))
    &&& can_tell(before, relay, m) ==> after.out == before.out.push(note_to(before, relay, m))
    &&& crate::claim::proved_id(before.network, seq![a], b) == Some(before.id)
}

/// A message A that comes through a relay is answered through that relay with a message B
/// that proves our id, if a device of our network may have written it; only want of
/// randomness can prevent that. Any other is refused, and nothing comes of it.
pub proof fn relayed_callers_are_answered(
    s: NodeState,
    from: TransportAddr,
    relay: PeerId,
    src: PeerId,
    dst: PeerId,
    a: Seq<u8>,
    data: Seq<u8>,
    now_ns: u64,
    now_ms: u64,
    t: Instant,
    after: NodeState,
    refused: Option<Error>,
)
    requires
        s.ok(),
        is_ours(s, dst),
        brings(
            s,
            from,
            relay,
            Msg::RelayData {
                src_peer_id: src,
                dst_peer_id: dst,
                payload: crate::node_state::HANDSHAKE_INITIATOR_PREFIX@ + a,
            },
            data,
            now_ns,
        ),
        s.received(from, data, now_ns, now_ms, t, after, refused),
    ensures
        same_self(s, after) && same_ways(s, after) && same_links(s.sessions, after.sessions),
        after.peers == s.peers && after.inward == s.inward && after.outward == s.outward,
        after.waiting == s.waiting && after.knocking == s.knocking,
        a.len() > 65535 || crate::noise::noise_payload(s.network, Seq::empty(), a) is None
            ==> refused is Some,
        refused is Some ==> after.out == s.out && after.opening == s.opening,
        refused is None ==> exists|b: Seq<u8>| #[trigger] is_opened(s, after, relay, src, a, b),
{
    let payload = crate::node_state::HANDSHAKE_INITIATOR_PREFIX@ + a;
    let m = Msg::RelayData { src_peer_id: src, dst_peer_id: dst, payload };
    lemma_brings(s, from, relay, m, data, now_ns, now_ms, t, after, refused);
    let c = on_hearing(s, relay, now_ns, t);
    lemma_tags(a);
    assert(payload.skip(12) =~= a);
    if refused is None {
        let b = choose|b: Seq<u8>| #[trigger]
            c.is_message_b(a, b) && after == c.answered_through(relay, src, a, b);
        let noted = NodeState { opening: c.opening.insert(src, (a, b)), ..c };
        let back = through(s, src, crate::node_state::HANDSHAKE_RESPONDER_PREFIX@ + b);
        lemma_sent(noted, relay, back);
        assert(can_tell(noted, relay, back) == can_tell(c, relay, back));
        assert(can_tell(c, relay, back) == can_tell(s, relay, back));
        assert(note_to(noted, relay, back) == note_to(c, relay, back));
        assert(note_to(c, relay, back) == note_to(s, relay, back));
        assert(is_opened(s, after, relay, src, a, b));
    }
}

/// Whether a relayed handshake is ended with message C: what we send to the peer from then
/// on goes under the session of the three messages.
pub open spec fn is_ended(
    before: NodeState,
    after: NodeState,
    src: PeerId,
    a: Seq<u8>,
    b: Seq<u8>,
    c: Seq<u8>,
) -> bool {
    let session = crate::noise::fresh_session(true, seq![a, b, c]);
    &&& after.outward.contains_key(src)
    &&& after.outward[src].sending_key == session.sending_key
    &&& after.outward[src].receiving_key == session.receiving_key
    &&& crate::claim::proved_id(before.network, seq![a, b], c) == Some(before.id)
}

proof fn lemma_sent_through(s: NodeState, relay: PeerId, peer: PeerId, packet: Seq<u8>)
    requires
        s.outward.contains_key(peer),
    ensures
        ({
            let after = s.sent_through(relay, peer, packet);
            &&& same_self(s, after) && same_ways(s, after)
            &&& same_links(s.sessions, after.sessions)
            &&& after.peers == s.peers && after.inward == s.inward && after.waiting == s.waiting
            &&& after.knocking == s.knocking && after.opening == s.opening
            &&& after.outward.contains_key(peer)
            &&& after.outward[peer].sending_key == s.outward[peer].sending_key
            &&& after.outward[peer].receiving_key == s.outward[peer].receiving_key
            &&& s.out.is_prefix_of(after.out)
            &&& forall|q: PeerId|
                q != peer && #[trigger] s.outward.contains_key(q) ==> after.outward.contains_key(q)
                    && after.outward[q] == s.outward[q]
        }),
{
    let o = s.outward[peer];
    let plain = crate::message::message_bytes(Msg::Data(packet));
    let counted = NodeState {
        outward: s.outward.insert(peer, NoiseSession { sent: o.sent + 1, ..o }),
        ..s
    };
    let m = through(s, peer, noise_seal(o.sending_key, o.sent, plain));
    lemma_sent(counted, relay, m);
    lemma_sent_exact(counted, relay, m);
    assert(s.out =~= s.out.take(s.out.len() as int));
}

proof fn lemma_sent_all_through(s: NodeState, relay: PeerId, peer: PeerId, packets: Seq<Seq<u8>>)
    requires
        s.outward.contains_key(peer),
    ensures
        ({
            let after = s.sent_all_through(relay, peer, packets);
            &&& same_self(s, after) && same_ways(s, after)
            &&& same_links(s.sessions, after.sessions)
            &&& after.peers == s.peers && after.inward == s.inward && after.waiting == s.waiting
            &&& after.knocking == s.knocking && after.opening == s.opening
            &&& after.outward.contains_key(peer)
            &&& after.outward[peer].sending_key == s.outward[peer].sending_key
            &&& after.outward[peer].receiving_key == s.outward[peer].receiving_key
            &&& s.out.is_prefix_of(after.out)
        }),
    decreases packets.len(),
{
    let after = s.sent_all_through(relay, peer, packets);
    if packets.len() == 0 {
        assert(s.out =~= after.out.take(s.out.len() as int));
        assert(after.sessions.map.dom() =~= s.sessions.map.dom());
    } else {
        let mid = s.sent_all_through(relay, peer, packets.drop_last());
        lemma_sent_all_through(s, relay, peer, packets.drop_last());
        lemma_sent_through(mid, relay, peer, packets.last());
        assert(s.out =~= mid.out.take(s.out.len() as int));
        assert(mid.out =~= after.out.take(mid.out.len() as int));
        assert(s.out =~= after.out.take(s.out.len() as int));
    }
}

/// A message B that comes through a relay in answer to ours begins a session for what we
/// send, if it proves the very peer that we asked for: message C, which proves our id, goes
/// back through the relay first, and nothing waits any longer. If it does not prove that
/// peer, it is refused, no session begins, and what waits waits on.
pub proof fn relayed_answers_begin_sessions(
    s: NodeState,
    from: TransportAddr,
    relay: PeerId,
    src: PeerId,
    dst: PeerId,
    b: Seq<u8>,
    data: Seq<u8>,
    now_ns: u64,
    now_ms: u64,
    t: Instant,
    after: NodeState,
    refused: Option<Error>,
)
    requires
        s.ok(),
        is_ours(s, dst),
        s.knocking.contains_key(src),
        brings(
            s,
            from,
            relay,
            Msg::RelayData {
                src_peer_id: src,
                dst_peer_id: dst,
                payload: crate::node_state::HANDSHAKE_RESPONDER_PREFIX@ + b,
            },
            data,
            now_ns,
        ),
        s.received(from, data, now_ns, now_ms, t, after, refused),
    ensures
        after.knocking == s.knocking.remove(src),
        same_self(s, after) && same_ways(s, after) && same_links(s.sessions, after.sessions),
        after.peers == s.peers && after.inward == s.inward && after.opening == s.opening,
        ({
            let a = s.knocking[src].0;
            if crate::claim::proved_id(s.network, seq![a], b) == Some(src) {
                &&& refused is None
                &&& after.waiting == s.waiting.remove(src)
                &&& exists|c: Seq<u8>|
                    {
                        let m = through(
                            s,
                            src,
                            crate::node_state::HANDSHAKE_FINAL_PREFIX@ + c,
                        );
                        &&& #[trigger] is_ended(s, after, src, a, b, c)
                        &&& can_tell(s, relay, m) ==> after.out.len() > s.out.len()
                            && after.out[s.out.len() as int] == note_to(s, relay, m)
                    }
            } else {
                &&& refused is Some
                &&& after.out == s.out
                &&& after.outward == s.outward
                &&& after.waiting == s.waiting
            }
        }),
{
    let payload = crate::node_state::HANDSHAKE_RESPONDER_PREFIX@ + b;
    let m = Msg::RelayData { src_peer_id: src, dst_peer_id: dst, payload };
    lemma_brings(s, from, relay, m, data, now_ns, now_ms, t, after, refused);
    let h = on_hearing(s, relay, now_ns, t);
    let a = s.knocking[src].0;
    lemma_tags(b);
    lemma_b_is_not_a(b);
    assert(payload.skip(12) =~= b);
    if crate::claim::proved_id(s.network, seq![a], b) == Some(src) {
        let c = choose|c: Seq<u8>| #[trigger]
            h.is_message_c(a, b, c) && after == h.completed_through(relay, src, b, c);
        let noted = NodeState {
            knocking: h.knocking.remove(src),
            outward: h.outward.insert(src, crate::noise::fresh_session(true, seq![a, b, c])),
            ..h
        };
        let last = through(s, src, crate::node_state::HANDSHAKE_FINAL_PREFIX@ + c);
        lemma_sent(noted, relay, last);
        let ended = h.ended_through(relay, src, b, c);
        assert(ended == noted.sent(relay, last));
        let emptied = NodeState { waiting: h.waiting.remove(src), ..ended };
        lemma_sent_all_through(emptied, relay, src, h.held(src));
        assert(can_tell(noted, relay, last) == can_tell(h, relay, last));
        assert(can_tell(h, relay, last) == can_tell(s, relay, last));
        assert(note_to(noted, relay, last) == note_to(h, relay, last));
        assert(note_to(h, relay, last) == note_to(s, relay, last));
        assert(emptied.out =~= after.out.take(emptied.out.len() as int));
        if can_tell(s, relay, last) {
            assert(emptied.out[s.out.len() as int] == note_to(s, relay, last));
            assert(after.out[s.out.len() as int] == emptied.out[s.out.len() as int]);
        }
        assert(is_ended(s, after, src, a, b, c));
    }
}

proof fn lemma_b_is_not_a(b: Seq<u8>)
    ensures
        !crate::text::begins_with(
            crate::node_state::HANDSHAKE_RESPONDER_PREFIX@ + b,
            crate::node_state::HANDSHAKE_INITIATOR_PREFIX@,
        ),
        ({
            let data = crate::node_state::HANDSHAKE_FINAL_PREFIX@ + b;
            &&& crate::text::begins_with(data, crate::node_state::HANDSHAKE_FINAL_PREFIX@)
            &&& !crate::text::begins_with(data, crate::node_state::HANDSHAKE_INITIATOR_PREFIX@)
            &&& !crate::text::begins_with(data, crate::node_state::HANDSHAKE_RESPONDER_PREFIX@)
        }),
{
    let i = crate::node_state::HANDSHAKE_INITIATOR_PREFIX@;
    let r = crate::node_state::HANDSHAKE_RESPONDER_PREFIX@;
    let f = crate::node_state::HANDSHAKE_FINAL_PREFIX@;
    assert((f + b).take(12) =~= f);
    assert(i[11] == 97u8 && r[11] == 98u8 && f[11] == 99u8);
    if crate::text::begins_with(r + b, i) {
        assert((r + b).take(12)[11] == i[11]);
    }
    if crate::text::begins_with(f + b, i) {
        assert((f + b).take(12)[11] == i[11]);
    }
    if crate::text::begins_with(f + b, r) {
        assert((f + b).take(12)[11] == r[11]);
    }
}

/// A message C that comes through a relay after our message B begins a session for what
/// the peer sends, if it proves the very peer that it says it comes from; else it is
/// refused and none begins. Either way the handshake is over, and nothing is sent.
pub proof fn relayed_ends_begin_sessions(
    s: NodeState,
    from: TransportAddr,
    relay: PeerId,
    src: PeerId,
    dst: PeerId,
    c: Seq<u8>,
    data: Seq<u8>,
    now_ns: u64,
    now_ms: u64,
    t: Instant,
    after: NodeState,
    refused: Option<Error>,
)
    requires
        is_ours(s, dst),
        s.opening.contains_key(src),
        brings(
            s,
            from,
            relay,
            Msg::RelayData {
                src_peer_id: src,
                dst_peer_id: dst,
                payload: crate::node_state::HANDSHAKE_FINAL_PREFIX@ + c,
            },
            data,
            now_ns,
        ),
        s.received(from, data, now_ns, now_ms, t, after, refused),
    ensures
        after.opening == s.opening.remove(src),
        after.out == s.out,
        same_self(s, after) && same_ways(s, after) && same_links(s.sessions, after.sessions),
        after.peers == s.peers && after.outward == s.outward && after.waiting == s.waiting,
        after.knocking == s.knocking,
        ({
            let (a, b) = s.opening[src];
            if crate::claim::proved_id(s.network, seq![a, b], c) == Some(src) {
                refused is None && after.inward == s.inward.insert(
                    src,
                    crate::noise::fresh_session(false, seq![a, b, c]),
                )
            } else {
                refused is Some && after.inward == s.inward
            }
        }),
{
    let payload = crate::node_state::HANDSHAKE_FINAL_PREFIX@ + c;
    let m = Msg::RelayData { src_peer_id: src, dst_peer_id: dst, payload };
    lemma_brings(s, from, relay, m, data, now_ns, now_ms, t, after, refused);
    lemma_b_is_not_a(c);
    assert(payload.skip(12) =~= c);
}


// ---------------------------------------------------------------------------
// What waits, and what is waited for
// ---------------------------------------------------------------------------
/// What packets that are sent in turn come to.
proof fn lemma_sent_in_turn(s: NodeState, peer: PeerId, packets: Seq<Seq<u8>>)
    requires
        s.sessions.map.contains_key(peer),
        s.sessions.map[peer].session.sent + packets.len() <= 0xffff_ffff_ffff_ffff,
        forall|k: int|
            0 <= k < packets.len() ==> crate::message::message_bytes(
                Msg::Data(#[trigger] packets[k]),
            ).len() + 16 <= 65535,
    ensures
        ({
            let (link, after) = (s.sessions.map[peer], s.sent_all(peer, packets));
            &&& after.out.len() == s.out.len() + packets.len()
            &&& after.out.take(s.out.len() as int) == s.out
            &&& forall|k: int|
                0 <= k < packets.len() ==> after.out[s.out.len() + k] == (Effect::Send {
                    to: link.underlay,
                    bytes: noise_seal(
                        link.session.sending_key,
                        link.session.sent + k as nat,
                        crate::message::message_bytes(Msg::Data(#[trigger] packets[k])),
                    ),
                })
            &&& after.sessions.map.contains_key(peer)
            &&& after.sessions.map[peer].underlay == link.underlay
            &&& after.sessions.map[peer].session.sending_key == link.session.sending_key
            &&& after.sessions.map[peer].session.sent == link.session.sent + packets.len()
        }),
    decreases packets.len(),
{
    if packets.len() == 0 {
        assert(s.out.take(s.out.len() as int) =~= s.out);
    } else {
        let front = packets.drop_last();
        assert forall|k: int| 0 <= k < front.len() implies crate::message::message_bytes(
            Msg::Data(#[trigger] front[k]),
        ).len() + 16 <= 65535 by {
            assert(front[k] == packets[k]);
        }
        lemma_sent_in_turn(s, peer, front);
        let (link, before) = (s.sessions.map[peer], s.sent_all(peer, front));
        let after = s.sent_all(peer, packets);
        let last = packets.len() - 1;
        assert(packets.last() == packets[last]);
        assert(before.can_send(peer, Msg::Data(packets[last])));
        assert(after.out == before.out.push(
            Effect::Send {
                to: link.underlay,
                bytes: noise_seal(
                    link.session.sending_key,
                    link.session.sent + front.len(),
                    crate::message::message_bytes(Msg::Data(packets[last])),
                ),
            },
        ));
        assert(after.out.take(s.out.len() as int) =~= before.out.take(s.out.len() as int));
        assert forall|k: int| 0 <= k < packets.len() implies after.out[s.out.len() + k] == (
        Effect::Send {
            to: link.underlay,
            bytes: noise_seal(
                link.session.sending_key,
                link.session.sent + k as nat,
                crate::message::message_bytes(Msg::Data(#[trigger] packets[k])),
            ),
        }) by {
            if k < last {
                assert(front[k] == packets[k]);
            }
        }
    }
}

/// Whether packets are the last that has gone out, one after the other, at counts that
/// follow each other up to the session's own.
pub open spec fn went_out_last(after: NodeState, peer: PeerId, packets: Seq<Seq<u8>>) -> bool {
    let link = after.sessions.map[peer];
    &&& packets.len() <= after.out.len()
    &&& packets.len() <= link.session.sent
    &&& forall|k: int|
        0 <= k < packets.len() ==> after.out[after.out.len() - packets.len() + k] == (Effect::Send {
            to: link.underlay,
            bytes: noise_seal(
                link.session.sending_key,
                (link.session.sent - packets.len() + k) as nat,
                crate::message::message_bytes(Msg::Data(#[trigger] packets[k])),
            ),
        })
}

/// The packets that waited for a session go out in the order in which they came, last of
/// all that is sent when the session begins, whichever side began it.
pub proof fn waiting_packets_keep_their_order(
    s: NodeState,
    peer: PeerId,
    session: NoiseSession,
    at: SocketAddr,
    from: TransportAddr,
)
    requires
        session.sent + s.held(peer).len() + 3 <= 0xffff_ffff_ffff_ffff,
        forall|k: int|
            0 <= k < s.held(peer).len() ==> crate::message::message_bytes(
                Msg::Data(#[trigger] s.held(peer)[k]),
            ).len() + 16 <= 65535,
    ensures
        went_out_last(s.joined(peer, session, at), peer, s.held(peer)),
        went_out_last(s.joined_by(peer, session, from), peer, s.held(peer)),
{
    let held = s.held(peer);
    let to = TransportAddr::Udp(at);
    let h = s.entered(peer, session, to).greeted(peer, to).shown_around(peer, to).noted(peer, at);
    let emptied = NodeState { waiting: h.waiting.remove(peer), ..h };
    assert(h.waiting == s.waiting);
    assert(h.held(peer) == held);
    assert(h.sessions.map.contains_key(peer));
    assert(h.sessions.map[peer].session.sent <= session.sent + 3);
    lemma_sent_in_turn(emptied, peer, held);
    let g = s.entered(peer, session, from).greeted(peer, from).noted(peer, from.addr());
    let left = NodeState { waiting: g.waiting.remove(peer), ..g };
    assert(g.waiting == s.waiting);
    assert(g.held(peer) == held);
    assert(g.sessions.map.contains_key(peer));
    assert(g.sessions.map[peer].session.sent <= session.sent + 3);
    lemma_sent_in_turn(left, peer, held);
}

/// Packets that cannot go out yet are kept in order, up to 1024 for each peer; what comes
/// after that is lost, and what waits for others stays.
pub proof fn packets_wait_in_order(s: NodeState, peer: PeerId, packet: Seq<u8>, other: PeerId)
    requires
        other != peer,
    ensures
        ({
            let after = s.kept_waiting(peer, packet);
            &&& s.held(peer).len() < 1024 ==> after.held(peer) == s.held(peer).push(packet)
            &&& s.held(peer).len() >= 1024 ==> after == s
            &&& after.held(other) == s.held(other)
            &&& after == (NodeState { waiting: after.waiting, ..s })
        }),
{
}

/// A handshake that we answered is forgotten two seconds later, and not before; a call
/// that failed is forgotten alone.
pub proof fn late_handshakes_are_forgotten(
    s: NodeState,
    now_ns: u64,
    a: SocketAddr,
    b: SocketAddr,
)
    requires
        a != b,
    ensures
        s.pruned(now_ns).answering.contains_key(a) <==> (s.answering.contains_key(a) && now_ns
            - s.answering[a].2 < 2_000_000_000),
        s.pruned(now_ns).answering.contains_key(a) ==> s.pruned(now_ns).answering[a]
            == s.answering[a],
        s.pruned(now_ns) == (NodeState { answering: s.pruned(now_ns).answering, ..s }),
        !s.gave_up(a).calling.contains_key(a),
        s.gave_up(a).calling.contains_key(b) == s.calling.contains_key(b),
        s.gave_up(a).calling[b] == s.calling[b],
        s.gave_up(a) == (NodeState { calling: s.gave_up(a).calling, ..s }),
{
}

/// A call is remembered with its first message and its time, and goes out as the mark of
/// a caller and that message; nothing else changes.
pub proof fn calls_go_out_and_are_remembered(s: NodeState, to: SocketAddr, a: Seq<u8>, now_ns: u64)
    ensures
        ({
            let after = s.called(to, a, now_ns);
            &&& after.calling == s.calling.insert(to, (a, now_ns))
            &&& after.out == s.out.push(
                Effect::Call { to, bytes: crate::node_state::HANDSHAKE_INITIATOR_PREFIX@ + a },
            )
            &&& after == (NodeState { calling: after.calling, out: after.out, ..s })
        }),
{
}
} // verus!
