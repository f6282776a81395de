//! Encrypted and framed messages over one UDP socket. What is read from and
//! written to the socket goes in and out of the functions here.
use crate::claim::{self, is_refusal, make_claim, proved_id};
use crate::device::DeviceKeys;
use crate::error::Error;
use crate::frame::{decode_frame, encode_frame};
use crate::message::{
    deserialize_message, serialize_message, InboundMessage, Message, Msg, OutboundMessage,
};
use crate::net::SocketAddr;
use crate::noise::{
    noise_payload, noise_seal, noise_static_key, InitiatorHandshake, NoiseSession,
    ResponderHandshake, SecureTransport,
};
use crate::session::Session;
use crate::table::Table;
use crate::text::push_text;
use crate::types::{NetworkSecret, PeerId};
use std::time::Instant;
use vstd::prelude::*;

verus! {

/// How many messages may wait for a reader.
pub const INBOUND_BUF: usize = 256;

/// How many messages may wait to be sent.
pub const OUTBOUND_BUF: usize = 256;

/// Largest datagram that is received: a packet of the overlay's size, the header
/// of a frame, and room for encryption and a message.
pub const MAX_DATAGRAM: usize = 1364;

/// A session with the peer at an address, and when it was last used.
#[verifier::ext_equal]
pub ghost struct Conversation {
    pub session: NoiseSession,
    pub seen: Instant,
}

/// The sessions of a channel, and whom they are with.
#[verifier::ext_equal]
pub ghost struct ChannelState {
    /// The network secret.
    pub network: Seq<u8>,
    /// The secret that our keys come from.
    pub device: Seq<u8>,
    /// Our Noise static secret.
    pub secret: Seq<u8>,
    /// What proves our id in handshakes.
    pub claim: Seq<u8>,
    /// Sessions by address.
    pub sessions: Map<SocketAddr, Conversation>,
}

impl ChannelState {
    /// A session entered.
    pub open spec fn with(self, addr: SocketAddr, c: Conversation) -> ChannelState {
        ChannelState { sessions: self.sessions.insert(addr, c), ..self }
    }
}

struct PeerTransport {
    transport: SecureTransport,
    session: Session,
}

spec fn conversations(m: Map<SocketAddr, PeerTransport>) -> Map<SocketAddr, Conversation> {
    m.map_values(
        |p: PeerTransport| Conversation { session: p.transport.session(), seen: p.session.seen() },
    )
}

/// Sessions with the peers at several addresses.
pub struct MessageChannel {
    network_secret: NetworkSecret,
    device_keys: DeviceKeys,
    claim: Vec<u8>,
    transports: Table<SocketAddr, PeerTransport>,
}

/// What came of a datagram.
pub enum Received {
    /// A message from a peer with a session.
    Message(InboundMessage),
    /// Message A from an address without a session, and the message B to send.
    /// The answer to that goes to [`MessageChannel::finish_responder`].
    Handshake { responder: ResponderHandshake, message_b: Vec<u8> },
}

/// A handshake that we began and that only lacks the sending of its last message.
pub struct Finishing {
    /// The other side.
    pub peer_id: PeerId,
    /// Message C.
    pub message_c: Vec<u8>,
    /// The session.
    pub transport: SecureTransport,
}

impl View for MessageChannel {
    type V = ChannelState;

    closed spec fn view(&self) -> ChannelState {
        ChannelState {
            network: self.network_secret@,
            device: self.device_keys.seed(),
            secret: self.device_keys.noise_secret(),
            claim: self.claim@,
            sessions: conversations(self.transports@),
        }
    }
}

impl MessageChannel {
    /// The table is in order, each session is one of this library's with the usual
    /// limits, and our claim is our own.
    pub closed spec fn wf(&self) -> bool {
        &&& self.transports.wf()
        &&& self.claim@ == crate::claim::claim_of(self.device_keys.seed())
        &&& self.claim@.len() == 96
        &&& forall|a: SocketAddr| #[trigger]
            self.transports@.contains_key(a) ==> {
                &&& self.transports@[a].transport.wf()
                &&& self.transports@[a].session.interval() == 15_000_000_000
                &&& self.transports@[a].session.limit() == 60_000_000_000
            }
    }

    /// A channel without sessions.
    pub fn new(network_secret: NetworkSecret, device_keys: DeviceKeys) -> (r: MessageChannel)
        ensures
            r.wf(),
            r@.network == network_secret@,
            r@.device == device_keys.seed(),
            r@.secret == device_keys.noise_secret(),
            r@.claim == crate::claim::claim_of(device_keys.seed()),
            crate::claim::claimed_id(
                r@.claim,
                crate::device::x25519_public(r@.secret),
            ) matches Some(id) && id@ == crate::device::ed25519_public(device_keys.seed()),
            r@.sessions == Map::<SocketAddr, Conversation>::empty(),
    {
        let claim: Vec<u8> = make_claim(&device_keys);
        let r: MessageChannel = MessageChannel {
            network_secret,
            device_keys,
            claim,
            transports: Table::new(),
        };
        assert(r@.sessions =~= Map::empty());
        r
    }

    /// Begins a handshake: the handshake, and message A to send. It fails only if
    /// no randomness is to be had.
    pub fn initate_handshake(&self) -> (r: Result<(InitiatorHandshake, Vec<u8>), Error>)
        requires
            self.wf(),
        ensures
            match r {
                Ok((h, a)) => {
                    &&& h.wf()
                    &&& h@.prologue == self@.network
                    &&& h@.secret == self@.secret
                    &&& h@.transcript == seq![a@]
                    &&& a@.len() == 32
                    &&& noise_payload(self@.network, Seq::empty(), a@) == Some(Seq::<u8>::empty())
                },
                Err(e) => crate::noise::handshake_error(e, "msg A write: "@),
            },
    {
        let none: [u8; 0] = [];
        assert(none@ =~= Seq::empty());
        let mut h: InitiatorHandshake = match InitiatorHandshake::new(
            &self.network_secret,
            &self.device_keys,
        ) {
            Ok(h) => h,
            Err(e) => return Err(e),
        };
        assert(h@.transcript =~= Seq::empty());
        match h.write_message_a(none.as_slice()) {
            Ok(a) => {
                assert(h@.transcript =~= seq![a@]);
                Ok((h, a))
            },
            Err(e) => Err(e),
        }
    }

    /// Answers message B of a handshake with `addr` that came from `from`. Message C
    /// carries our claim, and the peer is the one that message B proves.
    pub fn read_message_b(
        &self,
        initiator: InitiatorHandshake,
        addr: &SocketAddr,
        from: &SocketAddr,
        data: &[u8],
    ) -> (r: Result<Finishing, Error>)
        requires
            self.wf(),
            initiator.wf(),
            initiator@.transcript.len() == 1,
        ensures
            match r {
                Ok(f) => {
                    let t = initiator@.transcript.push(data@);
                    let c = f.message_c@;
                    &&& *addr == *from
                    &&& proved_id(initiator@.prologue, initiator@.transcript, data@) == Some(
                        f.peer_id,
                    )
                    &&& noise_payload(initiator@.prologue, t, c) == Some(self@.claim)
                    &&& noise_static_key(t, c) == crate::device::x25519_public(initiator@.secret)
                    &&& f.transport.wf()
                    &&& f.transport.remote() == noise_static_key(initiator@.transcript, data@)
                    &&& f.transport.session() == crate::noise::fresh_session(true, t.push(c))
                },
                Err(e) => if *addr != *from {
                    e matches Error::NoiseTransport(m) && m@ == "msg B from unexpected address"@
                } else {
                    is_refusal(
                        initiator@.prologue,
                        initiator@.transcript,
                        data@,
                        "msg B read: "@,
                        e,
                    )
                },
            },
    {
        if *from != *addr {
            return Err(Error::NoiseTransport("msg B from unexpected address".to_owned()));
        }
        match claim::finish_initiator(initiator, data, self.claim.as_slice()) {
            Ok((peer_id, done)) => Ok(
                Finishing { peer_id, message_c: done.msg_bytes, transport: done.transport },
            ),
            Err(e) => Err(e),
        }
    }

    /// Enters a session with the peer at an address.
    pub fn establish(&mut self, addr: SocketAddr, transport: SecureTransport, now: Instant)
        requires
            old(self).wf(),
            transport.wf(),
        ensures
            final(self).wf(),
            final(self)@ == old(self)@.with(
                addr,
                Conversation { session: transport.session(), seen: now },
            ),
    {
        let ghost before = self.transports@;
        self.transports.insert(addr, PeerTransport { transport, session: Session::new_at(now) });
        assert(conversations(self.transports@) =~= conversations(before).insert(
            addr,
            Conversation { session: transport.session(), seen: now },
        ));
    }

    /// Acts upon a datagram: takes the message out of one from a peer with a
    /// session, or answers one that begins a handshake.
    pub fn handle_inbound_datagram(
        &mut self,
        data: &[u8],
        from: SocketAddr,
        now: Instant,
    ) -> (r: Result<Received, Error>)
        requires
            old(self).wf(),
        ensures
            final(self).wf(),
            if old(self)@.sessions.contains_key(from) {
                let s = old(self)@.sessions[from].session;
                let opened = match crate::frame::unframed(data@) {
                    Some(framed) => SecureTransport::opened(s, framed),
                    None => None,
                };
                &&& final(self)@ == (match opened {
                    Some(_) => old(self)@.with(
                        from,
                        Conversation {
                            session: NoiseSession { received: s.received + 1, ..s },
                            seen: now,
                        },
                    ),
                    None => old(self)@,
                })
                &&& match r {
                    Ok(Received::Message(m)) => {
                        &&& opened matches Some(plain)
                        &&& crate::message::decoded(plain) == Ok::<Msg, crate::codec::DecodeError>(
                            m.message@,
                        )
                        &&& m.from == from
                    },
                    Ok(Received::Handshake { .. }) => false,
                    Err(e) => match opened {
                        Some(plain) => {
                            &&& crate::message::decoded(plain) matches Err(cause)
                            &&& e matches Error::NoiseTransport(m)
                            &&& m@ == "deserialize: "@ + cause.text()
                        },
                        None => if crate::frame::unframed(data@) is Some {
                            crate::noise::transport_error(e, "decrypt: "@)
                        } else {
                            crate::frame::frame_error(data@, e)
                        },
                    },
                }
            } else {
                &&& final(self)@ == old(self)@
                &&& match r {
                    Ok(Received::Message(_)) => false,
                    Ok(Received::Handshake { responder, message_b }) => {
                        &&& data@.len() <= 65535
                        &&& noise_payload(old(self)@.network, Seq::empty(), data@) is Some
                        &&& responder.wf()
                        &&& responder@.prologue == old(self)@.network
                        &&& responder@.secret == old(self)@.secret
                        &&& responder@.transcript == seq![data@, message_b@]
                        &&& noise_payload(old(self)@.network, seq![data@], message_b@) == Some(
                            old(self)@.claim,
                        )
                        &&& noise_static_key(seq![data@], message_b@)
                            == crate::device::x25519_public(old(self)@.secret)
                    },
                    Err(e) => if data@.len() <= 65535 && noise_payload(
                        old(self)@.network,
                        Seq::empty(),
                        data@,
                    ) is Some {
                        crate::noise::handshake_error(e, "msg B write: "@)
                    } else {
                        crate::noise::handshake_error(e, "msg A read: "@)
                    },
                }
            },
    {
        let ghost before = self.transports@;
        if let Some(p) = self.transports.get_mut(&from) {
            let framed: &[u8] = match decode_frame(data) {
                Ok(f) => f,
                Err(e) => {
                    assert(conversations(self.transports@) =~= conversations(before));
                    return Err(e);
                },
            };
            let decrypted: Vec<u8> = match p.transport.decrypt(framed) {
                Ok(d) => d,
                Err(e) => {
                    assert(conversations(self.transports@) =~= conversations(before));
                    return Err(e);
                },
            };
            p.session.record_activity_at(now);
            proof {
                let c = Conversation {
                    session: self.transports@[from].transport.session(),
                    seen: now,
                };
                assert(conversations(self.transports@) =~= conversations(before).insert(from, c));
            }
            return match deserialize_message(decrypted.as_slice()) {
                Ok(message) => Ok(Received::Message(InboundMessage { message, from })),
                Err(cause) => {
                    let mut m: String = "deserialize: ".to_owned();
                    push_text(&mut m, cause.to_text().as_str());
                    Err(Error::NoiseTransport(m))
                },
            };
        }
        let mut responder: ResponderHandshake = match ResponderHandshake::new(
            &self.network_secret,
            &self.device_keys,
        ) {
            Ok(h) => h,
            Err(e) => return Err(e),
        };
        assert(responder@.transcript =~= Seq::empty());
        match responder.read_message_a(data) {
            Ok(_) => {},
            Err(e) => return Err(e),
        }
        assert(responder@.transcript =~= seq![data@]);
        match responder.write_message_b(self.claim.as_slice()) {
            Ok(message_b) => {
                assert(responder@.transcript =~= seq![data@, message_b@]);
                Ok(Received::Handshake { responder, message_b })
            },
            Err(e) => Err(e),
        }
    }

    /// Ends a handshake with `from` that we answered, with message C that came
    /// from `sender`. The peer is the one that message C proves.
    pub fn finish_responder(
        &mut self,
        responder: ResponderHandshake,
        from: SocketAddr,
        sender: &SocketAddr,
        data: &[u8],
        now: Instant,
    ) -> (r: Result<PeerId, Error>)
        requires
            old(self).wf(),
            responder.wf(),
            responder@.transcript.len() == 2,
        ensures
            final(self).wf(),
            match r {
                Ok(id) => {
                    &&& *sender == from
                    &&& proved_id(responder@.prologue, responder@.transcript, data@) == Some(id)
                    &&& final(self)@ == old(self)@.with(
                        from,
                        Conversation {
                            session: crate::noise::fresh_session(
                                false,
                                responder@.transcript.push(data@),
                            ),
                            seen: now,
                        },
                    )
                },
                Err(e) => {
                    &&& final(self)@ == old(self)@
                    &&& if *sender != from {
                        e matches Error::NoiseTransport(m) && m@ == "msg C from unexpected address"@
                    } else {
                        is_refusal(
                            responder@.prologue,
                            responder@.transcript,
                            data@,
                            "msg C read: "@,
                            e,
                        )
                    }
                },
            },
    {
        if *sender != from {
            return Err(Error::NoiseTransport("msg C from unexpected address".to_owned()));
        }
        match claim::finish_responder(responder, data) {
            Ok((id, transport)) => {
                self.establish(from, transport, now);
                Ok(id)
            },
            Err(e) => Err(e),
        }
    }

    /// Encrypts and frames a message for the peer at an address. That it was used
    /// is noted with [`MessageChannel::sent`], once the frame is sent.
    pub fn send_message(&mut self, msg: &OutboundMessage) -> (r: Result<Vec<u8>, Error>)
        requires
            old(self).wf(),
        ensures
            final(self).wf(),
            match r {
                Ok(framed) => {
                    let c = old(self)@.sessions[msg.to];
                    let s = c.session;
                    let plain = crate::message::message_bytes(msg.message@);
                    let sealed = noise_seal(s.sending_key, s.sent, plain);
                    &&& old(self)@.sessions.contains_key(msg.to)
                    &&& SecureTransport::can_encrypt(s, plain)
                    &&& framed@ == crate::frame::frame_bytes(sealed)
                    &&& sealed.len() == plain.len() + 16
                    &&& crate::noise::noise_open(s.sending_key, s.sent, sealed) == Some(plain)
                    &&& final(self)@ == old(self)@.with(
                        msg.to,
                        Conversation { session: NoiseSession { sent: s.sent + 1, ..s }, ..c },
                    )
                },
                Err(e) => {
                    &&& final(self)@ == old(self)@
                    &&& if old(self)@.sessions.contains_key(msg.to) {
                        &&& !SecureTransport::can_encrypt(
                            old(self)@.sessions[msg.to].session,
                            crate::message::message_bytes(msg.message@),
                        )
                        &&& crate::noise::transport_error(e, "encrypt: "@)
                    } else {
                        e matches Error::NoiseTransport(m) && m@ == "no transport for "@
                            + msg.to.text()
                    }
                },
            },
    {
        let ghost before = self.transports@;
        let payload: Vec<u8> = serialize_message(&msg.message);
        let result = match self.transports.get_mut(&msg.to) {
            Some(p) => p.transport.encrypt(payload.as_slice()),
            None => {
                let mut m: String = "no transport for ".to_owned();
                msg.to.push_text(&mut m);
                return Err(Error::NoiseTransport(m));
            },
        };
        match result {
            Ok(sealed) => {
                proof {
                    let c = Conversation {
                        session: self.transports@[msg.to].transport.session(),
                        seen: before[msg.to].session.seen(),
                    };
                    assert(conversations(self.transports@) =~= conversations(before).insert(
                        msg.to,
                        c,
                    ));
                }
                Ok(encode_frame(sealed.as_slice()))
            },
            Err(e) => {
                assert(conversations(self.transports@) =~= conversations(before));
                Err(e)
            },
        }
    }

    /// Notes that a message was sent to an address.
    pub fn sent(&mut self, to: &SocketAddr, now: Instant)
        requires
            old(self).wf(),
        ensures
            final(self).wf(),
            final(self)@ == (if old(self)@.sessions.contains_key(*to) {
                old(self)@.with(*to, Conversation { seen: now, ..old(self)@.sessions[*to] })
            } else {
                old(self)@
            }),
    {
        let ghost before = self.transports@;
        if let Some(p) = self.transports.get_mut(to) {
            p.session.record_activity_at(now);
        } else {
            return;
        }
        assert(conversations(self.transports@) =~= conversations(before).insert(
            *to,
            Conversation { seen: now, ..conversations(before)[*to] },
        ));
    }

    /// Encrypts and frames a heartbeat for the peer at an address.
    pub fn send_heartbeat(&mut self, addr: SocketAddr) -> (r: Result<Vec<u8>, Error>)
        requires
            old(self).wf(),
        ensures
            final(self).wf(),
            match r {
                Ok(framed) => {
                    let c = old(self)@.sessions[addr];
                    let s = c.session;
                    let plain = crate::message::message_bytes(Msg::Heartbeat);
                    &&& old(self)@.sessions.contains_key(addr)
                    &&& SecureTransport::can_encrypt(s, plain)
                    &&& framed@ == crate::frame::frame_bytes(
                        noise_seal(s.sending_key, s.sent, plain),
                    )
                    &&& final(self)@ == old(self)@.with(
                        addr,
                        Conversation { session: NoiseSession { sent: s.sent + 1, ..s }, ..c },
                    )
                },
                Err(e) => {
                    &&& final(self)@ == old(self)@
                    &&& if old(self)@.sessions.contains_key(addr) {
                        &&& !SecureTransport::can_encrypt(
                            old(self)@.sessions[addr].session,
                            crate::message::message_bytes(Msg::Heartbeat),
                        )
                        &&& crate::noise::transport_error(e, "encrypt: "@)
                    } else {
                        e matches Error::NoiseTransport(m) && m@ == "no transport for "@
                            + addr.text()
                    }
                },
            },
    {
        self.send_message(&OutboundMessage { message: Message::Heartbeat, to: addr })
    }

    /// Whether a session has been silent for more than a minute.
    pub open spec fn is_silent(c: Conversation, now: Instant) -> bool {
        crate::clock::nanos_between(now, c.seen) > 60_000_000_000
    }

    /// Whether a session has been silent for fifteen seconds or more.
    pub open spec fn is_quiet(c: Conversation, now: Instant) -> bool {
        crate::clock::nanos_between(now, c.seen) >= 15_000_000_000
    }

    /// Ends the sessions that have been silent for too long, and says which.
    pub fn prune_expired(&mut self, now: Instant) -> (r: Vec<SocketAddr>)
        requires
            old(self).wf(),
        ensures
            final(self).wf(),
            r@.no_duplicates(),
            forall|a: SocketAddr|
                r@.contains(a) <==> (#[trigger] old(self)@.sessions.contains_key(a)
                    && MessageChannel::is_silent(old(self)@.sessions[a], now)),
            final(self)@ == (ChannelState {
                sessions: old(self)@.sessions.remove_keys(r@.to_set()),
                ..old(self)@
            }),
    {
        let ghost before = self.transports@;
        let r: Vec<SocketAddr> = self.silent_since(&now, true);
        self.transports.remove_all(&r);
        assert(conversations(self.transports@) =~= conversations(before).remove_keys(r@.to_set()));
        r
    }

    /// The addresses whose sessions need a heartbeat.
    pub fn heartbeat_needed(&self, now: Instant) -> (r: Vec<SocketAddr>)
        requires
            self.wf(),
        ensures
            r@.no_duplicates(),
            forall|a: SocketAddr|
                r@.contains(a) <==> (#[trigger] self@.sessions.contains_key(a)
                    && MessageChannel::is_quiet(self@.sessions[a], now)),
    {
        self.silent_since(&now, false)
    }

    /// The addresses of sessions that are expired, or need a heartbeat.
    fn silent_since(&self, now: &Instant, expired: bool) -> (r: Vec<SocketAddr>)
        requires
            self.wf(),
        ensures
            r@.no_duplicates(),
            forall|a: SocketAddr|
                r@.contains(a) <==> (#[trigger] self@.sessions.contains_key(a) && if expired {
                    MessageChannel::is_silent(self@.sessions[a], *now)
                } else {
                    MessageChannel::is_quiet(self@.sessions[a], *now)
                }),
    {
        let ghost list = self.transports.list();
        let ghost f = |p: PeerTransport|
            if expired {
                crate::clock::nanos_between(*now, p.session.seen()) > 60_000_000_000
            } else {
                crate::clock::nanos_between(*now, p.session.seen()) >= 15_000_000_000
            };
        let n: usize = self.transports.len();
        let mut r: Vec<SocketAddr> = Vec::new();
        let mut i: usize = 0;
        proof {
            self.transports.lemma_list();
        }
        while i < n
            invariant
                i <= n,
                n == list.len(),
                self.wf(),
                list == self.transports.list(),
                crate::table::distinct_keys(list),
                f == (|p: PeerTransport|
                    if expired {
                        crate::clock::nanos_between(*now, p.session.seen()) > 60_000_000_000
                    } else {
                        crate::clock::nanos_between(*now, p.session.seen()) >= 15_000_000_000
                    }),
                forall|j: int|
                    0 <= j < list.len() ==> self.transports@.contains_key((#[trigger] list[j]).0)
                        && self.transports@[list[j].0] == list[j].1,
                forall|j: int|
                    0 <= j < i ==> (r@.contains((#[trigger] list[j]).0) <==> f(list[j].1)),
                forall|j: int| i <= j < list.len() ==> !r@.contains((#[trigger] list[j]).0),
                r@.no_duplicates(),
                forall|a: SocketAddr| #[trigger]
                    r@.contains(a) ==> self.transports@.contains_key(a) && f(self.transports@[a]),
            decreases n - i,
        {
            let (a, p) = self.transports.entry(i);
            let due: bool = if expired {
                p.session.expired_at(now)
            } else {
                p.session.heartbeat_due_at(now)
            };
            assert(due == f(list[i as int].1));
            let ghost was = r@;
            if due {
                r.push(a);
                assert(r@.last() == a);
                assert forall|x: SocketAddr| #[trigger] r@.contains(x) == (was.contains(x) || x
                    == a) by {
                    if was.contains(x) {
                        let k = was.index_of(x);
                        assert(r@[k] == x);
                    }
                }
            }
            i = i + 1;
        }
        proof {
            assert(self.transports@ == crate::table::entries_map(list));
            assert forall|a: SocketAddr|
                r@.contains(a) <==> (#[trigger] self@.sessions.contains_key(a) && if expired {
                    MessageChannel::is_silent(self@.sessions[a], *now)
                } else {
                    MessageChannel::is_quiet(self@.sessions[a], *now)
                }) by {
                if self@.sessions.contains_key(a) {
                    assert(self.transports@.contains_key(a));
                    let j = choose|j: int| 0 <= j < list.len() && (#[trigger] list[j]).0 == a;
                    assert(list[j].0 == a);
                }
            }
        }
        r
    }
}

/// Two channels that go through a handshake know each other by their ids: where
/// messages B and C carry the claims that prove the ids of the two devices, each side
/// finds the id of the other, and the sessions are the two ends of one connection.
pub proof fn channels_know_each_other(
    caller: ChannelState,
    answerer: ChannelState,
    caller_id: PeerId,
    answerer_id: PeerId,
    a: Seq<u8>,
    b: Seq<u8>,
    c: Seq<u8>,
)
    requires
        caller.network == answerer.network,
        crate::claim::claimed_id(caller.claim, crate::device::x25519_public(caller.secret)) == Some(
            caller_id,
        ),
        crate::claim::claimed_id(answerer.claim, crate::device::x25519_public(answerer.secret))
            == Some(answerer_id),
        b.len() <= 65535,
        noise_payload(answerer.network, seq![a], b) == Some(answerer.claim),
        noise_static_key(seq![a], b) == crate::device::x25519_public(answerer.secret),
        c.len() <= 65535,
        noise_payload(caller.network, seq![a, b], c) == Some(caller.claim),
        noise_static_key(seq![a, b], c) == crate::device::x25519_public(caller.secret),
    ensures
        proved_id(caller.network, seq![a], b) == Some(answerer_id),
        proved_id(answerer.network, seq![a, b], c) == Some(caller_id),
        crate::noise::paired(
            crate::noise::fresh_session(true, seq![a, b, c]),
            crate::noise::fresh_session(false, seq![a, b, c]),
        ),
{
}

/// What one channel sends, the channel at the other end receives: if the sessions
/// of the two are paired, the frame that the first makes of a message gives the
/// message at the second.
pub proof fn message_arrives(a: NoiseSession, b: NoiseSession, m: Msg, sealed: Seq<u8>)
    requires
        crate::noise::feeds(a, b),
        crate::message::message_fits(m),
        crate::message::message_on_wire(m) == m,
        SecureTransport::can_encrypt(a, crate::message::message_bytes(m)),
        sealed.len() == crate::message::message_bytes(m).len() + 16,
        crate::noise::noise_open(a.sending_key, a.sent, sealed) == Some(
            crate::message::message_bytes(m),
        ),
    ensures
        ({
            let framed = crate::frame::unframed(crate::frame::frame_bytes(sealed));
            &&& framed == Some(sealed)
            &&& SecureTransport::opened(b, sealed) == Some(crate::message::message_bytes(m))
            &&& crate::message::decoded(crate::message::message_bytes(m)) == Ok::<
                Msg,
                crate::codec::DecodeError,
            >(m)
        }),
{
    crate::frame::frame_round_trip(sealed, Seq::empty());
    crate::message::message_round_trip_exact(m);
}


/// A conversation is dropped once more than sixty seconds have gone by without a word and
/// needs a heartbeat once fifteen have; time that runs backwards is no silence.
pub proof fn silence_is_counted_in_seconds(c: Conversation, now: Instant)
    ensures
        MessageChannel::is_silent(c, now) <==> crate::clock::clock_nanos(now)
            > crate::clock::clock_nanos(c.seen) + 60 * 1_000_000_000,
        MessageChannel::is_quiet(c, now) <==> crate::clock::clock_nanos(now)
            >= crate::clock::clock_nanos(c.seen) + 15 * 1_000_000_000,
{
}

/// A conversation that is kept is found under its address, and no other changes.
pub proof fn conversations_change_one_at_a_time(
    s: ChannelState,
    addr: SocketAddr,
    c: Conversation,
    other: SocketAddr,
)
    requires
        other != addr,
    ensures
        s.with(addr, c).sessions.contains_key(addr),
        s.with(addr, c).sessions[addr] == c,
        s.with(addr, c).sessions.contains_key(other) == s.sessions.contains_key(other),
        s.with(addr, c).sessions[other] == s.sessions[other],
        s.with(addr, c).network == s.network,
        s.with(addr, c).device == s.device,
        s.with(addr, c).secret == s.secret,
        s.with(addr, c).claim == s.claim,
{
}
} // verus!
