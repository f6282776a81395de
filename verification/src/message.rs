//! Messages between peers and their wire form.
use crate::codec::{
    decode_addr, decode_blob, decode_ipv4, decode_n, decode_peer, decode_tag, decode_text,
    decode_u32, decode_u64, decode_u8, encode_addr, encode_blob, encode_ipv4, encode_varint,
    DecodeError,
};
use crate::net::SocketAddr;
use crate::text::{array_16, push_bytes};
use crate::types::{OverlayAddr, PeerId};
use vstd::prelude::*;

verus! {

/// A message between two peers.
#[allow(inconsistent_fields)]
#[derive(Clone, Debug, PartialEq, Eq)]
pub enum Message {
    /// An IP packet.
    Data(Vec<u8>),
    /// Keeps a session alive.
    Heartbeat,
    /// Asks for a [`Message::Pong`] with the same time.
    Ping { sent_ms: u64 },
    /// Answers a [`Message::Ping`].
    Pong { sent_ms: u64 },
    /// Sent first after a handshake: what the peer should know of the sender.
    /// The sender's id is known from the handshake and not repeated.
    SessionInit {
        overlay: OverlayAddr,
        overlay_ipv6: Option<[u8; 16]>,
        hostname: String,
        public_addr: Option<SocketAddr>,
    },
    /// Opens a NAT mapping; sent in the clear.
    HolePunchProbe { token: u64 },
    /// Answers a [`Message::HolePunchProbe`].
    HolePunchAck { token: u64 },
    /// Asks a relay to forward to a peer.
    RelayRequest { dst_peer_id: PeerId },
    /// Says that a relay forwards to a peer.
    RelayReady { relay_peer_id: PeerId, dst_peer_id: PeerId },
    /// Bytes for a relay to forward unread, encrypted by the sender for the peer.
    RelayData { src_peer_id: PeerId, dst_peer_id: PeerId, payload: Vec<u8> },
    /// Says that a peer relays, and where it is reached.
    RelayAnnounce { relay_peer_id: PeerId, public_addr: SocketAddr },
    /// Peers that the sender knows: id, address, and hops from the sender.
    PeerDirectory { entries: Vec<(PeerId, SocketAddr, u8)> },
}

/// What a [`Message`] says.
#[allow(inconsistent_fields)]
#[verifier::ext_equal]
pub ghost enum Msg {
    Data(Seq<u8>),
    Heartbeat,
    Ping { sent_ms: u64 },
    Pong { sent_ms: u64 },
    SessionInit {
        overlay: OverlayAddr,
        overlay_ipv6: Option<Seq<u8>>,
        hostname: Seq<char>,
        public_addr: Option<SocketAddr>,
    },
    HolePunchProbe { token: u64 },
    HolePunchAck { token: u64 },
    RelayRequest { dst_peer_id: PeerId },
    RelayReady { relay_peer_id: PeerId, dst_peer_id: PeerId },
    RelayData { src_peer_id: PeerId, dst_peer_id: PeerId, payload: Seq<u8> },
    RelayAnnounce { relay_peer_id: PeerId, public_addr: SocketAddr },
    PeerDirectory { entries: Seq<(PeerId, SocketAddr, u8)> },
}

impl View for Message {
    type V = Msg;

    open spec fn view(&self) -> Msg {
        match self {
            Message::Data(p) => Msg::Data(p@),
            Message::Heartbeat => Msg::Heartbeat,
            Message::Ping { sent_ms } => Msg::Ping { sent_ms: *sent_ms },
            Message::Pong { sent_ms } => Msg::Pong { sent_ms: *sent_ms },
            Message::SessionInit { overlay, overlay_ipv6, hostname, public_addr } =>
                Msg::SessionInit {
                overlay: *overlay,
                overlay_ipv6: match overlay_ipv6 {
                    Some(b) => Some(b@),
                    None => None,
                },
                hostname: hostname@,
                public_addr: *public_addr,
            },
            Message::HolePunchProbe { token } => Msg::HolePunchProbe { token: *token },
            Message::HolePunchAck { token } => Msg::HolePunchAck { token: *token },
            Message::RelayRequest { dst_peer_id } => Msg::RelayRequest { dst_peer_id: *dst_peer_id },
            Message::RelayReady { relay_peer_id, dst_peer_id } => Msg::RelayReady {
                relay_peer_id: *relay_peer_id,
                dst_peer_id: *dst_peer_id,
            },
            Message::RelayData { src_peer_id, dst_peer_id, payload } => Msg::RelayData {
                src_peer_id: *src_peer_id,
                dst_peer_id: *dst_peer_id,
                payload: payload@,
            },
            Message::RelayAnnounce { relay_peer_id, public_addr } => Msg::RelayAnnounce {
                relay_peer_id: *relay_peer_id,
                public_addr: *public_addr,
            },
            Message::PeerDirectory { entries } => Msg::PeerDirectory { entries: entries@ },
        }
    }
}

/// A message that came from an address.
#[derive(Clone, Debug, PartialEq, Eq)]
pub struct InboundMessage {
    pub message: Message,
    pub from: SocketAddr,
}

/// A message for an address.
#[derive(Clone, Debug, PartialEq, Eq)]
pub struct OutboundMessage {
    pub message: Message,
    pub to: SocketAddr,
}

// ---------------------------------------------------------------------------
// Wire form
// ---------------------------------------------------------------------------
/// An optional socket address: a tag, and the address if there is one.
pub open spec fn opt_addr_bytes(a: Option<SocketAddr>) -> Seq<u8> {
    match a {
        Some(a) => seq![1u8] + crate::codec::addr_bytes(a),
        None => seq![0u8],
    }
}

/// Optional octets: a tag, and the octets if there are any.
pub open spec fn opt_octets_bytes(b: Option<Seq<u8>>) -> Seq<u8> {
    match b {
        Some(b) => seq![1u8] + b,
        None => seq![0u8],
    }
}

/// An entry of a directory.
pub open spec fn entry_bytes(e: (PeerId, SocketAddr, u8)) -> Seq<u8> {
    e.0@ + crate::codec::addr_bytes(e.1) + seq![e.2]
}

/// Entries one after the other.
pub open spec fn entries_bytes(entries: Seq<(PeerId, SocketAddr, u8)>) -> Seq<u8>
    decreases entries.len(),
{
    if entries.len() == 0 {
        Seq::empty()
    } else {
        entry_bytes(entries[0]) + entries_bytes(entries.skip(1))
    }
}

/// The number of a message's variant.
pub open spec fn variant_of(m: Msg) -> nat {
    match m {
        Msg::Data(_) => 0,
        Msg::Heartbeat => 1,
        Msg::Ping { .. } => 2,
        Msg::Pong { .. } => 3,
        Msg::SessionInit { .. } => 4,
        Msg::HolePunchProbe { .. } => 5,
        Msg::HolePunchAck { .. } => 6,
        Msg::RelayRequest { .. } => 7,
        Msg::RelayReady { .. } => 8,
        Msg::RelayData { .. } => 9,
        Msg::RelayAnnounce { .. } => 10,
        Msg::PeerDirectory { .. } => 11,
    }
}

/// What follows the variant.
pub open spec fn body_bytes(m: Msg) -> Seq<u8> {
    match m {
        Msg::Data(p) => crate::codec::blob_bytes(p),
        Msg::Heartbeat => Seq::empty(),
        Msg::Ping { sent_ms } => crate::codec::varint_bytes(sent_ms as nat),
        Msg::Pong { sent_ms } => crate::codec::varint_bytes(sent_ms as nat),
        Msg::SessionInit { overlay, overlay_ipv6, hostname, public_addr } => overlay.addr.bytes()
            + opt_octets_bytes(overlay_ipv6) + crate::codec::blob_bytes(
            vstd::utf8::encode_utf8(hostname),
        ) + opt_addr_bytes(public_addr),
        Msg::HolePunchProbe { token } => crate::codec::varint_bytes(token as nat),
        Msg::HolePunchAck { token } => crate::codec::varint_bytes(token as nat),
        Msg::RelayRequest { dst_peer_id } => dst_peer_id@,
        Msg::RelayReady { relay_peer_id, dst_peer_id } => relay_peer_id@ + dst_peer_id@,
        Msg::RelayData { src_peer_id, dst_peer_id, payload } => src_peer_id@ + dst_peer_id@
            + crate::codec::blob_bytes(payload),
        Msg::RelayAnnounce { relay_peer_id, public_addr } => relay_peer_id@
            + crate::codec::addr_bytes(public_addr),
        Msg::PeerDirectory { entries } => crate::codec::varint_bytes(entries.len())
            + entries_bytes(entries),
    }
}

/// The wire form of a message: its variant and its fields in order.
pub open spec fn message_bytes(m: Msg) -> Seq<u8> {
    crate::codec::varint_bytes(variant_of(m)) + body_bytes(m)
}

/// Takes an optional socket address.
pub open spec fn take_opt_addr(s: Seq<u8>) -> Result<
    (Option<SocketAddr>, Seq<u8>),
    DecodeError,
> {
    match crate::codec::take_tag(s) {
        Ok((some, rest)) => if some {
            match crate::codec::take_addr(rest) {
                Ok((a, rest)) => Ok((Some(a), rest)),
                Err(e) => Err(e),
            }
        } else {
            Ok((None, rest))
        },
        Err(e) => Err(e),
    }
}

/// Takes sixteen optional octets.
pub open spec fn take_opt_octets(s: Seq<u8>) -> Result<(Option<Seq<u8>>, Seq<u8>), DecodeError> {
    match crate::codec::take_tag(s) {
        Ok((some, rest)) => if some {
            match crate::codec::take_n(rest, 16) {
                Ok((b, rest)) => Ok((Some(b), rest)),
                Err(e) => Err(e),
            }
        } else {
            Ok((None, rest))
        },
        Err(e) => Err(e),
    }
}

/// The peer id with the given bytes.
pub open spec fn peer_of(b: Seq<u8>) -> PeerId {
    choose|id: PeerId| id@ == b
}

/// A peer id is the only one with its bytes.
pub proof fn lemma_peer_of(id: PeerId)
    ensures
        peer_of(id@) == id,
{
    crate::types::peer_id_by_bytes(peer_of(id@), id);
}

/// Takes an entry of a directory.
pub open spec fn take_entry(s: Seq<u8>) -> Result<((PeerId, SocketAddr, u8), Seq<u8>), DecodeError> {
    match crate::codec::take_peer(s) {
        Ok((id, rest)) => match crate::codec::take_addr(rest) {
            Ok((a, rest)) => match crate::codec::take_u8(rest) {
                Ok((hops, rest)) => Ok(((peer_of(id), a, hops), rest)),
                Err(e) => Err(e),
            },
            Err(e) => Err(e),
        },
        Err(e) => Err(e),
    }
}

/// Takes `n` entries of a directory.
pub open spec fn take_entries(s: Seq<u8>, n: nat) -> Result<
    (Seq<(PeerId, SocketAddr, u8)>, Seq<u8>),
    DecodeError,
>
    decreases n,
{
    if n == 0 {
        Ok((Seq::empty(), s))
    } else {
        match take_entry(s) {
            Ok((e, rest)) => match take_entries(rest, (n - 1) as nat) {
                Ok((more, rest)) => Ok((seq![e] + more, rest)),
                Err(e) => Err(e),
            },
            Err(e) => Err(e),
        }
    }
}

/// Takes the fields of a [`Message::SessionInit`].
pub open spec fn take_session_init(s: Seq<u8>) -> Result<(Msg, Seq<u8>), DecodeError> {
    match crate::codec::take_ipv4(s) {
        Ok((ip, rest)) => match take_opt_octets(rest) {
            Ok((v6, rest)) => match crate::codec::take_text(rest) {
                Ok((hostname, rest)) => match take_opt_addr(rest) {
                    Ok((public_addr, rest)) => Ok(
                        (
                            Msg::SessionInit {
                                overlay: OverlayAddr { addr: ip },
                                overlay_ipv6: v6,
                                hostname,
                                public_addr,
                            },
                            rest,
                        ),
                    ),
                    Err(e) => Err(e),
                },
                Err(e) => Err(e),
            },
            Err(e) => Err(e),
        },
        Err(e) => Err(e),
    }
}

/// Takes two peer ids.
pub open spec fn take_two_peers(s: Seq<u8>) -> Result<((PeerId, PeerId), Seq<u8>), DecodeError> {
    match crate::codec::take_peer(s) {
        Ok((x, rest)) => match crate::codec::take_peer(rest) {
            Ok((y, rest)) => Ok(((peer_of(x), peer_of(y)), rest)),
            Err(e) => Err(e),
        },
        Err(e) => Err(e),
    }
}

/// Takes a message.
pub open spec fn take_message(s: Seq<u8>) -> Result<(Msg, Seq<u8>), DecodeError> {
    match crate::codec::take_u32(s) {
        Ok((variant, rest)) => take_body(variant, rest),
        Err(e) => Err(e),
    }
}

/// Takes the fields of a message of the given variant.
pub open spec fn take_body(variant: nat, s: Seq<u8>) -> Result<(Msg, Seq<u8>), DecodeError> {
    if variant == 0 {
        match crate::codec::take_blob(s) {
            Ok((p, rest)) => Ok((Msg::Data(p), rest)),
            Err(e) => Err(e),
        }
    } else if variant == 1 {
        Ok((Msg::Heartbeat, s))
    } else if variant == 2 {
        match crate::codec::take_u64(s) {
            Ok((v, rest)) => Ok((Msg::Ping { sent_ms: v as u64 }, rest)),
            Err(e) => Err(e),
        }
    } else if variant == 3 {
        match crate::codec::take_u64(s) {
            Ok((v, rest)) => Ok((Msg::Pong { sent_ms: v as u64 }, rest)),
            Err(e) => Err(e),
        }
    } else if variant == 4 {
        take_session_init(s)
    } else if variant == 5 {
        match crate::codec::take_u64(s) {
            Ok((v, rest)) => Ok((Msg::HolePunchProbe { token: v as u64 }, rest)),
            Err(e) => Err(e),
        }
    } else if variant == 6 {
        match crate::codec::take_u64(s) {
            Ok((v, rest)) => Ok((Msg::HolePunchAck { token: v as u64 }, rest)),
            Err(e) => Err(e),
        }
    } else if variant == 7 {
        match crate::codec::take_peer(s) {
            Ok((id, rest)) => Ok((Msg::RelayRequest { dst_peer_id: peer_of(id) }, rest)),
            Err(e) => Err(e),
        }
    } else if variant == 8 {
        match take_two_peers(s) {
            Ok((p, rest)) => Ok(
                (Msg::RelayReady { relay_peer_id: p.0, dst_peer_id: p.1 }, rest),
            ),
            Err(e) => Err(e),
        }
    } else if variant == 9 {
        match take_two_peers(s) {
            Ok((p, rest)) => match crate::codec::take_blob(rest) {
                Ok((payload, rest)) => Ok(
                    (Msg::RelayData { src_peer_id: p.0, dst_peer_id: p.1, payload }, rest),
                ),
                Err(e) => Err(e),
            },
            Err(e) => Err(e),
        }
    } else if variant == 10 {
        match crate::codec::take_peer(s) {
            Ok((id, rest)) => match crate::codec::take_addr(rest) {
                Ok((a, rest)) => Ok(
                    (Msg::RelayAnnounce { relay_peer_id: peer_of(id), public_addr: a }, rest),
                ),
                Err(e) => Err(e),
            },
            Err(e) => Err(e),
        }
    } else if variant == 11 {
        match crate::codec::take_u64(s) {
            Ok((n, rest)) => match take_entries(rest, n) {
                Ok((entries, rest)) => Ok((Msg::PeerDirectory { entries }, rest)),
                Err(e) => Err(e),
            },
            Err(e) => Err(e),
        }
    } else {
        Err(DecodeError::BadVariant)
    }
}

/// What some bytes decode to: the message at their front. Bytes after it do not
/// matter.
pub open spec fn decoded(s: Seq<u8>) -> Result<Msg, DecodeError> {
    match take_message(s) {
        Ok((m, _)) => Ok(m),
        Err(e) => Err(e),
    }
}

// ---------------------------------------------------------------------------
// Round trip
// ---------------------------------------------------------------------------
/// What of an entry is put on the wire.
pub open spec fn entry_on_wire(e: (PeerId, SocketAddr, u8)) -> (PeerId, SocketAddr, u8) {
    (e.0, crate::codec::on_wire(e.1), e.2)
}

/// What of a message is put on the wire: all but the flow labels and scopes of
/// IPv6 socket addresses.
pub open spec fn message_on_wire(m: Msg) -> Msg {
    match m {
        Msg::SessionInit { overlay, overlay_ipv6, hostname, public_addr } => Msg::SessionInit {
            overlay,
            overlay_ipv6,
            hostname,
            public_addr: match public_addr {
                Some(a) => Some(crate::codec::on_wire(a)),
                None => None,
            },
        },
        Msg::RelayAnnounce { relay_peer_id, public_addr } => Msg::RelayAnnounce {
            relay_peer_id,
            public_addr: crate::codec::on_wire(public_addr),
        },
        Msg::PeerDirectory { entries } => Msg::PeerDirectory {
            entries: entries.map_values(|e: (PeerId, SocketAddr, u8)| entry_on_wire(e)),
        },
        _ => m,
    }
}

/// The bounds that every [`Message`] keeps: lengths fit a machine word, and
/// optional octets are sixteen.
pub open spec fn message_fits(m: Msg) -> bool {
    match m {
        Msg::Data(p) => p.len() <= u64::MAX,
        Msg::SessionInit { overlay_ipv6, hostname, .. } => {
            &&& (overlay_ipv6 matches Some(b) ==> b.len() == 16)
            &&& vstd::utf8::encode_utf8(hostname).len() <= u64::MAX
        },
        Msg::RelayData { payload, .. } => payload.len() <= u64::MAX,
        Msg::PeerDirectory { entries } => entries.len() <= u64::MAX,
        _ => true,
    }
}

proof fn lemma_entry_round_trip(e: (PeerId, SocketAddr, u8), tail: Seq<u8>)
    ensures
        take_entry(entry_bytes(e) + tail) == Ok::<
            ((PeerId, SocketAddr, u8), Seq<u8>),
            DecodeError,
        >((entry_on_wire(e), tail)),
{
    let t2 = seq![e.2] + tail;
    let t1 = crate::codec::addr_bytes(e.1) + t2;
    assert(entry_bytes(e) + tail =~= e.0@ + t1);
    crate::codec::plain_round_trip(e.0@, t1);
    crate::codec::addr_round_trip(e.1, t2);
    crate::codec::u8_round_trip(e.2, tail);
    lemma_peer_of(e.0);
}

proof fn lemma_entries_round_trip(entries: Seq<(PeerId, SocketAddr, u8)>, rest: Seq<u8>)
    ensures
        take_entries(entries_bytes(entries) + rest, entries.len()) == Ok::<
            (Seq<(PeerId, SocketAddr, u8)>, Seq<u8>),
            DecodeError,
        >((entries.map_values(|e: (PeerId, SocketAddr, u8)| entry_on_wire(e)), rest)),
    decreases entries.len(),
{
    let f = |e: (PeerId, SocketAddr, u8)| entry_on_wire(e);
    if entries.len() == 0 {
        assert(entries_bytes(entries) + rest =~= rest);
        assert(entries.map_values(f) =~= Seq::empty());
    } else {
        let e = entries[0];
        let tail = entries_bytes(entries.skip(1)) + rest;
        assert(entries_bytes(entries) + rest =~= entry_bytes(e) + tail);
        lemma_entry_round_trip(e, tail);
        lemma_entries_round_trip(entries.skip(1), rest);
        assert(seq![entry_on_wire(e)] + entries.skip(1).map_values(f) =~= entries.map_values(f));
    }
}

proof fn lemma_session_init_round_trip(
    overlay: OverlayAddr,
    overlay_ipv6: Option<Seq<u8>>,
    hostname: Seq<char>,
    public_addr: Option<SocketAddr>,
    rest: Seq<u8>,
)
    requires
        overlay_ipv6 matches Some(b) ==> b.len() == 16,
        vstd::utf8::encode_utf8(hostname).len() <= u64::MAX,
    ensures
        ({
            let m = Msg::SessionInit { overlay, overlay_ipv6, hostname, public_addr };
            take_session_init(body_bytes(m) + rest) == Ok::<(Msg, Seq<u8>), DecodeError>(
                (message_on_wire(m), rest),
            )
        }),
{
    let m = Msg::SessionInit { overlay, overlay_ipv6, hostname, public_addr };
    let t3 = opt_addr_bytes(public_addr) + rest;
    let t2 = crate::codec::blob_bytes(vstd::utf8::encode_utf8(hostname)) + t3;
    let t1 = opt_octets_bytes(overlay_ipv6) + t2;
    assert(body_bytes(m) + rest =~= overlay.addr.bytes() + t1);
    crate::codec::ipv4_round_trip(overlay.addr, t1);
    match overlay_ipv6 {
        Some(b) => {
            assert(t1 =~= seq![1u8] + (b + t2));
            crate::codec::u8_round_trip(1, b + t2);
            crate::codec::plain_round_trip(b, t2);
        },
        None => {
            crate::codec::u8_round_trip(0, t2);
        },
    }
    crate::codec::text_round_trip(hostname, t3);
    match public_addr {
        Some(a) => {
            assert(t3 =~= seq![1u8] + (crate::codec::addr_bytes(a) + rest));
            crate::codec::u8_round_trip(1, crate::codec::addr_bytes(a) + rest);
            crate::codec::addr_round_trip(a, rest);
        },
        None => {
            crate::codec::u8_round_trip(0, rest);
        },
    }
}

proof fn lemma_body_round_trip(m: Msg, rest: Seq<u8>)
    requires
        message_fits(m),
    ensures
        take_body(variant_of(m), body_bytes(m) + rest) == Ok::<(Msg, Seq<u8>), DecodeError>(
            (message_on_wire(m), rest),
        ),
{
    match m {
        Msg::Data(p) => {
            crate::codec::blob_round_trip(p, rest);
        },
        Msg::Heartbeat => {
            assert(body_bytes(m) + rest =~= rest);
        },
        Msg::Ping { sent_ms } => {
            crate::codec::u64_round_trip(sent_ms, rest);
        },
        Msg::Pong { sent_ms } => {
            crate::codec::u64_round_trip(sent_ms, rest);
        },
        Msg::SessionInit { overlay, overlay_ipv6, hostname, public_addr } => {
            lemma_session_init_round_trip(overlay, overlay_ipv6, hostname, public_addr, rest);
        },
        Msg::HolePunchProbe { token } => {
            crate::codec::u64_round_trip(token, rest);
        },
        Msg::HolePunchAck { token } => {
            crate::codec::u64_round_trip(token, rest);
        },
        Msg::RelayRequest { dst_peer_id } => {
            crate::codec::plain_round_trip(dst_peer_id@, rest);
            lemma_peer_of(dst_peer_id);
        },
        Msg::RelayReady { relay_peer_id, dst_peer_id } => {
            assert(body_bytes(m) + rest =~= relay_peer_id@ + (dst_peer_id@ + rest));
            crate::codec::plain_round_trip(relay_peer_id@, dst_peer_id@ + rest);
            crate::codec::plain_round_trip(dst_peer_id@, rest);
            lemma_peer_of(relay_peer_id);
            lemma_peer_of(dst_peer_id);
        },
        Msg::RelayData { src_peer_id, dst_peer_id, payload } => {
            let tail = crate::codec::blob_bytes(payload) + rest;
            assert(body_bytes(m) + rest =~= src_peer_id@ + (dst_peer_id@ + tail));
            crate::codec::plain_round_trip(src_peer_id@, dst_peer_id@ + tail);
            crate::codec::plain_round_trip(dst_peer_id@, tail);
            crate::codec::blob_round_trip(payload, rest);
            lemma_peer_of(src_peer_id);
            lemma_peer_of(dst_peer_id);
        },
        Msg::RelayAnnounce { relay_peer_id, public_addr } => {
            let tail = crate::codec::addr_bytes(public_addr) + rest;
            assert(body_bytes(m) + rest =~= relay_peer_id@ + tail);
            crate::codec::plain_round_trip(relay_peer_id@, tail);
            crate::codec::addr_round_trip(public_addr, rest);
            lemma_peer_of(relay_peer_id);
        },
        Msg::PeerDirectory { entries } => {
            let tail = entries_bytes(entries) + rest;
            assert(body_bytes(m) + rest =~= crate::codec::varint_bytes(entries.len()) + tail);
            crate::codec::u64_round_trip(entries.len() as u64, tail);
            lemma_entries_round_trip(entries, rest);
        },
    }
}

/// A message is read back from its wire form as far as it is on the wire,
/// whatever follows it.
pub proof fn message_round_trip(m: Msg, rest: Seq<u8>)
    requires
        message_fits(m),
    ensures
        take_message(message_bytes(m) + rest) == Ok::<(Msg, Seq<u8>), DecodeError>(
            (message_on_wire(m), rest),
        ),
        decoded(message_bytes(m) + rest) == Ok::<Msg, DecodeError>(message_on_wire(m)),
{
    let tail = body_bytes(m) + rest;
    assert(message_bytes(m) + rest =~= crate::codec::varint_bytes(variant_of(m)) + tail);
    crate::codec::u32_round_trip(variant_of(m) as u32, tail);
    lemma_body_round_trip(m, rest);
}

/// A message whose socket addresses carry no flow label and no scope is read
/// back unchanged.
pub proof fn message_round_trip_exact(m: Msg)
    requires
        message_fits(m),
        message_on_wire(m) == m,
    ensures
        decoded(message_bytes(m)) == Ok::<Msg, DecodeError>(m),
{
    message_round_trip(m, Seq::empty());
    assert(message_bytes(m) + Seq::<u8>::empty() =~= message_bytes(m));
}

/// Two messages with the same wire form say the same, as far as it is on the
/// wire.
pub proof fn message_bytes_injective(m1: Msg, m2: Msg)
    requires
        message_fits(m1),
        message_fits(m2),
        message_bytes(m1) == message_bytes(m2),
    ensures
        message_on_wire(m1) == message_on_wire(m2),
{
    message_round_trip(m1, Seq::empty());
    message_round_trip(m2, Seq::empty());
}

// ---------------------------------------------------------------------------
// Encoding and decoding
// ---------------------------------------------------------------------------
fn encode_entries(buf: &mut Vec<u8>, entries: &Vec<(PeerId, SocketAddr, u8)>)
    ensures
        final(buf)@ == old(buf)@ + entries_bytes(entries@),
{
    let ghost before = buf@;
    let mut i: usize = 0;
    assert(entries@.skip(0) =~= entries@);
    while i < entries.len()
        invariant
            i <= entries.len(),
            buf@ + entries_bytes(entries@.skip(i as int)) == before + entries_bytes(entries@),
        decreases entries.len() - i,
    {
        let ghost was = buf@;
        let ghost left = entries@.skip(i as int);
        push_bytes(buf, entries[i].0.as_bytes());
        encode_addr(buf, &entries[i].1);
        buf.push(entries[i].2);
        proof {
            assert(left[0] == entries@[i as int]);
            assert(left.skip(1) =~= entries@.skip(i + 1));
            assert(buf@ =~= was + entry_bytes(entries@[i as int]));
            assert(buf@ + entries_bytes(entries@.skip(i + 1)) =~= was + entries_bytes(left));
        }
        i = i + 1;
    }
    assert(entries@.skip(i as int) =~= Seq::empty());
    assert(buf@ =~= before + entries_bytes(entries@));
}

fn encode_message(buf: &mut Vec<u8>, msg: &Message)
    ensures
        final(buf)@ == old(buf)@ + message_bytes(msg@),
{
    let ghost before = buf@;
    match msg {
        Message::Data(p) => {
            encode_varint(buf, 0);
            encode_blob(buf, p.as_slice());
        },
        Message::Heartbeat => {
            encode_varint(buf, 1);
        },
        Message::Ping { sent_ms } => {
            encode_varint(buf, 2);
            encode_varint(buf, *sent_ms);
        },
        Message::Pong { sent_ms } => {
            encode_varint(buf, 3);
            encode_varint(buf, *sent_ms);
        },
        Message::SessionInit { overlay, overlay_ipv6, hostname, public_addr } => {
            encode_varint(buf, 4);
            encode_ipv4(buf, &overlay.addr);
            match overlay_ipv6 {
                Some(b) => {
                    buf.push(1);
                    push_bytes(buf, b.as_slice());
                },
                None => {
                    buf.push(0);
                },
            }
            encode_blob(buf, hostname.as_str().as_bytes());
            match public_addr {
                Some(a) => {
                    buf.push(1);
                    encode_addr(buf, a);
                },
                None => {
                    buf.push(0);
                },
            }
        },
        Message::HolePunchProbe { token } => {
            encode_varint(buf, 5);
            encode_varint(buf, *token);
        },
        Message::HolePunchAck { token } => {
            encode_varint(buf, 6);
            encode_varint(buf, *token);
        },
        Message::RelayRequest { dst_peer_id } => {
            encode_varint(buf, 7);
            push_bytes(buf, dst_peer_id.as_bytes());
        },
        Message::RelayReady { relay_peer_id, dst_peer_id } => {
            encode_varint(buf, 8);
            push_bytes(buf, relay_peer_id.as_bytes());
            push_bytes(buf, dst_peer_id.as_bytes());
        },
        Message::RelayData { src_peer_id, dst_peer_id, payload } => {
            encode_varint(buf, 9);
            push_bytes(buf, src_peer_id.as_bytes());
            push_bytes(buf, dst_peer_id.as_bytes());
            encode_blob(buf, payload.as_slice());
        },
        Message::RelayAnnounce { relay_peer_id, public_addr } => {
            encode_varint(buf, 10);
            push_bytes(buf, relay_peer_id.as_bytes());
            encode_addr(buf, public_addr);
        },
        Message::PeerDirectory { entries } => {
            encode_varint(buf, 11);
            encode_varint(buf, entries.len() as u64);
            encode_entries(buf, entries);
        },
    }
    assert(buf@ =~= before + message_bytes(msg@));
}

/// Gives the wire form of a message.
pub fn serialize_message(msg: &Message) -> (buf: Vec<u8>)
    ensures
        buf@ == message_bytes(msg@),
{
    let mut buf: Vec<u8> = Vec::new();
    encode_message(&mut buf, msg);
    assert(buf@ =~= message_bytes(msg@));
    buf
}

/// Replaces the contents of `buf` by the wire form of a message.
pub fn serialize_message_into(msg: &Message, buf: &mut Vec<u8>)
    ensures
        final(buf)@ == message_bytes(msg@),
{
    buf.clear();
    encode_message(buf, msg);
    assert(buf@ =~= message_bytes(msg@));
}

fn decode_entries(data: &[u8], pos: usize, n: u64) -> (r: Result<
    (Vec<(PeerId, SocketAddr, u8)>, usize),
    DecodeError,
>)
    requires
        pos <= data@.len(),
    ensures
        match r {
            Ok((entries, p)) => pos <= p <= data@.len() && take_entries(
                data@.skip(pos as int),
                n as nat,
            ) == Ok::<(Seq<(PeerId, SocketAddr, u8)>, Seq<u8>), DecodeError>(
                (entries@, data@.skip(p as int)),
            ),
            Err(e) => take_entries(data@.skip(pos as int), n as nat) == Err::<
                (Seq<(PeerId, SocketAddr, u8)>, Seq<u8>),
                DecodeError,
            >(e),
        },
{
    let mut out: Vec<(PeerId, SocketAddr, u8)> = Vec::new();
    let mut p: usize = pos;
    let mut i: u64 = 0;
    let ghost whole = take_entries(data@.skip(pos as int), n as nat);
    while i < n
        invariant
            i <= n,
            pos <= p <= data@.len(),
            whole == take_entries(data@.skip(pos as int), n as nat),
            whole == (match take_entries(data@.skip(p as int), (n - i) as nat) {
                Ok((more, rest)) => Ok::<(Seq<(PeerId, SocketAddr, u8)>, Seq<u8>), DecodeError>(
                    (out@ + more, rest),
                ),
                Err(e) => Err(e),
            }),
        decreases n - i,
    {
        let ghost s = data@.skip(p as int);
        let ghost was = out@;
        let (id, p1) = match decode_peer(data, p) {
            Ok(x) => x,
            Err(e) => return Err(e),
        };
        let (a, p2) = match decode_addr(data, p1) {
            Ok(x) => x,
            Err(e) => return Err(e),
        };
        let (hops, p3) = match decode_u8(data, p2) {
            Ok(x) => x,
            Err(e) => return Err(e),
        };
        proof {
            lemma_peer_of(id);
        }
        out.push((id, a, hops));
        p = p3;
        proof {
            assert(take_entry(s) == Ok::<((PeerId, SocketAddr, u8), Seq<u8>), DecodeError>(
                ((id, a, hops), data@.skip(p as int)),
            ));
            match take_entries(data@.skip(p as int), (n - (i + 1)) as nat) {
                Ok((more, rest)) => {
                    assert(was + (seq![(id, a, hops)] + more) =~= out@ + more);
                },
                Err(e) => {},
            }
        }
        i = i + 1;
    }
    assert(out@ + Seq::<(PeerId, SocketAddr, u8)>::empty() =~= out@);
    Ok((out, p))
}

fn decode_session_init(data: &[u8], pos: usize) -> (r: Result<(Message, usize), DecodeError>)
    requires
        pos <= data@.len(),
    ensures
        match r {
            Ok((m, p)) => p <= data@.len() && take_session_init(data@.skip(pos as int)) == Ok::<
                (Msg, Seq<u8>),
                DecodeError,
            >((m@, data@.skip(p as int))),
            Err(e) => take_session_init(data@.skip(pos as int)) == Err::<
                (Msg, Seq<u8>),
                DecodeError,
            >(e),
        },
{
    let (ip, p) = match decode_ipv4(data, pos) {
        Ok(x) => x,
        Err(e) => return Err(e),
    };
    let (some, p) = match decode_tag(data, p) {
        Ok(x) => x,
        Err(e) => return Err(e),
    };
    let mut overlay_ipv6: Option<[u8; 16]> = None;
    let mut p: usize = p;
    if some {
        match decode_n(data, p, 16) {
            Ok((b, q)) => {
                let octets: [u8; 16] = array_16(b, 0);
                assert(octets@ =~= b@);
                overlay_ipv6 = Some(octets);
                p = q;
            },
            Err(e) => return Err(e),
        }
    }
    let (hostname, p) = match decode_text(data, p) {
        Ok(x) => x,
        Err(e) => return Err(e),
    };
    let (some, p) = match decode_tag(data, p) {
        Ok(x) => x,
        Err(e) => return Err(e),
    };
    let mut public_addr: Option<SocketAddr> = None;
    let mut p: usize = p;
    if some {
        match decode_addr(data, p) {
            Ok((a, q)) => {
                public_addr = Some(a);
                p = q;
            },
            Err(e) => return Err(e),
        }
    }
    Ok(
        (
            Message::SessionInit {
                overlay: OverlayAddr { addr: ip },
                overlay_ipv6,
                hostname,
                public_addr,
            },
            p,
        ),
    )
}

fn decode_two_peers(data: &[u8], pos: usize) -> (r: Result<(PeerId, PeerId, usize), DecodeError>)
    requires
        pos <= data@.len(),
    ensures
        match r {
            Ok((x, y, p)) => pos < p <= data@.len() && take_two_peers(data@.skip(pos as int))
                == Ok::<((PeerId, PeerId), Seq<u8>), DecodeError>(
                ((x, y), data@.skip(p as int)),
            ),
            Err(e) => take_two_peers(data@.skip(pos as int)) == Err::<
                ((PeerId, PeerId), Seq<u8>),
                DecodeError,
            >(e),
        },
{
    match decode_peer(data, pos) {
        Ok((x, p)) => match decode_peer(data, p) {
            Ok((y, p)) => {
                proof {
                    lemma_peer_of(x);
                    lemma_peer_of(y);
                }
                Ok((x, y, p))
            },
            Err(e) => Err(e),
        },
        Err(e) => Err(e),
    }
}

fn decode_body(variant: u32, data: &[u8], pos: usize) -> (r: Result<
    (Message, usize),
    DecodeError,
>)
    requires
        pos <= data@.len(),
    ensures
        match r {
            Ok((m, p)) => p <= data@.len() && take_body(variant as nat, data@.skip(pos as int))
                == Ok::<(Msg, Seq<u8>), DecodeError>((m@, data@.skip(p as int))),
            Err(e) => take_body(variant as nat, data@.skip(pos as int)) == Err::<
                (Msg, Seq<u8>),
                DecodeError,
            >(e),
        },
{
    if variant == 0 {
        match decode_blob(data, pos) {
            Ok((b, p)) => Ok((Message::Data(b), p)),
            Err(e) => Err(e),
        }
    } else if variant == 1 {
        Ok((Message::Heartbeat, pos))
    } else if variant == 2 {
        match decode_u64(data, pos) {
            Ok((v, p)) => Ok((Message::Ping { sent_ms: v }, p)),
            Err(e) => Err(e),
        }
    } else if variant == 3 {
        match decode_u64(data, pos) {
            Ok((v, p)) => Ok((Message::Pong { sent_ms: v }, p)),
            Err(e) => Err(e),
        }
    } else if variant == 4 {
        decode_session_init(data, pos)
    } else if variant == 5 {
        match decode_u64(data, pos) {
            Ok((v, p)) => Ok((Message::HolePunchProbe { token: v }, p)),
            Err(e) => Err(e),
        }
    } else if variant == 6 {
        match decode_u64(data, pos) {
            Ok((v, p)) => Ok((Message::HolePunchAck { token: v }, p)),
            Err(e) => Err(e),
        }
    } else if variant == 7 {
        match decode_peer(data, pos) {
            Ok((id, p)) => {
                proof {
                    lemma_peer_of(id);
                }
                Ok((Message::RelayRequest { dst_peer_id: id }, p))
            },
            Err(e) => Err(e),
        }
    } else if variant == 8 {
        match decode_two_peers(data, pos) {
            Ok((x, y, p)) => Ok((Message::RelayReady { relay_peer_id: x, dst_peer_id: y }, p)),
            Err(e) => Err(e),
        }
    } else if variant == 9 {
        match decode_two_peers(data, pos) {
            Ok((x, y, p)) => match decode_blob(data, p) {
                Ok((payload, p)) => Ok(
                    (Message::RelayData { src_peer_id: x, dst_peer_id: y, payload }, p),
                ),
                Err(e) => Err(e),
            },
            Err(e) => Err(e),
        }
    } else if variant == 10 {
        match decode_peer(data, pos) {
            Ok((id, p)) => match decode_addr(data, p) {
                Ok((a, p)) => {
                    proof {
                        lemma_peer_of(id);
                    }
                    Ok((Message::RelayAnnounce { relay_peer_id: id, public_addr: a }, p))
                },
                Err(e) => Err(e),
            },
            Err(e) => Err(e),
        }
    } else if variant == 11 {
        match decode_u64(data, pos) {
            Ok((n, p)) => match decode_entries(data, p, n) {
                Ok((entries, p)) => Ok((Message::PeerDirectory { entries }, p)),
                Err(e) => Err(e),
            },
            Err(e) => Err(e),
        }
    } else {
        Err(DecodeError::BadVariant)
    }
}

/// Reads the message at the front of some bytes; bytes after it are ignored.
pub fn deserialize_message(data: &[u8]) -> (r: Result<Message, DecodeError>)
    ensures
        match r {
            Ok(m) => decoded(data@) == Ok::<Msg, DecodeError>(m@),
            Err(e) => decoded(data@) == Err::<Msg, DecodeError>(e),
        },
{
    assert(data@.skip(0) =~= data@);
    match decode_u32(data, 0) {
        Ok((variant, p)) => match decode_body(variant, data, p) {
            Ok((m, _)) => Ok(m),
            Err(e) => Err(e),
        },
        Err(e) => Err(e),
    }
}


/// The first byte of a message names its kind, by its place among the twelve kinds.
pub proof fn the_first_byte_names_the_kind(m: Msg)
    ensures
        message_bytes(m).len() > 0,
        message_bytes(m)[0] == (match m {
            Msg::Data(_) => 0u8,
            Msg::Heartbeat => 1,
            Msg::Ping { .. } => 2,
            Msg::Pong { .. } => 3,
            Msg::SessionInit { .. } => 4,
            Msg::HolePunchProbe { .. } => 5,
            Msg::HolePunchAck { .. } => 6,
            Msg::RelayRequest { .. } => 7,
            Msg::RelayReady { .. } => 8,
            Msg::RelayData { .. } => 9,
            Msg::RelayAnnounce { .. } => 10,
            Msg::PeerDirectory { .. } => 11,
        }),
{
    assert(crate::codec::varint_bytes(variant_of(m)) =~= seq![variant_of(m) as u8]);
}

/// The fields of a message stand behind its kind in the order of their names: of what is
/// relayed the source, the destination and the bytes behind their number; of a relay's
/// answer the relay and then the destination; of an introduction the four octets of the
/// overlay address first.
pub proof fn fields_stand_in_order(m: Msg)
    ensures
        m matches Msg::RelayData { src_peer_id, dst_peer_id, payload } ==> message_bytes(m)
            == seq![9u8] + src_peer_id@ + dst_peer_id@ + crate::codec::varint_bytes(payload.len())
            + payload,
        m matches Msg::RelayReady { relay_peer_id, dst_peer_id } ==> message_bytes(m) == seq![8u8]
            + relay_peer_id@ + dst_peer_id@,
        m matches Msg::RelayRequest { dst_peer_id } ==> message_bytes(m) == seq![7u8]
            + dst_peer_id@,
        m matches Msg::Data(p) ==> message_bytes(m) == seq![0u8] + crate::codec::varint_bytes(
            p.len(),
        ) + p,
        m matches Msg::Heartbeat ==> message_bytes(m) == seq![1u8],
        m matches Msg::SessionInit { overlay, .. } ==> seq![
            4u8,
            overlay.addr.a,
            overlay.addr.b,
            overlay.addr.c,
            overlay.addr.d,
        ].is_prefix_of(message_bytes(m)),
{
    assert(crate::codec::varint_bytes(variant_of(m)) =~= seq![variant_of(m) as u8]);
    match m {
        Msg::RelayData { src_peer_id, dst_peer_id, payload } => {
            assert(message_bytes(m) =~= seq![9u8] + src_peer_id@ + dst_peer_id@
                + crate::codec::varint_bytes(payload.len()) + payload);
        },
        Msg::RelayReady { relay_peer_id, dst_peer_id } => {
            assert(message_bytes(m) =~= seq![8u8] + relay_peer_id@ + dst_peer_id@);
        },
        Msg::Data(p) => {
            assert(message_bytes(m) =~= seq![0u8] + crate::codec::varint_bytes(p.len()) + p);
        },
        Msg::Heartbeat => {
            assert(message_bytes(m) =~= seq![1u8]);
        },
        Msg::SessionInit { overlay, .. } => {
            let head = seq![
                4u8,
                overlay.addr.a,
                overlay.addr.b,
                overlay.addr.c,
                overlay.addr.d,
            ];
            assert(head =~= message_bytes(m).subrange(0, 5));
        },
        _ => {},
    }
}
} // verus!
