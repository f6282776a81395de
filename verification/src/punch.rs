//! UDP hole punching: probes, acknowledgements, and which tokens were answered.
use crate::clock::{between, now};
use crate::codec::encode_varint;
use crate::constants::HOLE_PUNCH_PROBE_PREFIX;
use crate::message::Msg;
use crate::net::SocketAddr;
use crate::table::Table;
use crate::text::push_bytes;
use std::collections::HashMap;
use std::time::Instant;
use vstd::prelude::*;

verus! {

broadcast use vstd::std_specs::hash::group_hash_axioms;

/// Nanoseconds that a token waits for an answer.
pub const TOKEN_TTL_NANOS: u128 = 30_000_000_000;

/// `rand::random` for a number. Nothing is claimed of what comes.
#[verifier::external_body]
pub(crate) fn random_u64() -> u64 {
    rand::random::<u64>()
}

/// The packet for a hole-punch message: the prefix, then the message in the
/// clear.
pub open spec fn punch_packet(m: Msg) -> Seq<u8> {
    HOLE_PUNCH_PROBE_PREFIX@ + crate::message::message_bytes(m)
}

proof fn lemma_small_varint(v: nat)
    requires
        v < 128,
    ensures
        crate::codec::varint_bytes(v) == seq![v as u8],
{
    reveal_with_fuel(crate::codec::varint_bytes, 2);
}

/// The packet for a probe.
pub fn probe_bytes(token: u64) -> (buf: Vec<u8>)
    ensures
        buf@ == punch_packet(Msg::HolePunchProbe { token }),
{
    let mut buf: Vec<u8> = Vec::new();
    push_bytes(&mut buf, HOLE_PUNCH_PROBE_PREFIX.as_slice());
    buf.push(5);
    encode_varint(&mut buf, token);
    proof {
        lemma_small_varint(5);
        assert(buf@ =~= punch_packet(Msg::HolePunchProbe { token }));
    }
    buf
}

/// The packet for an acknowledgement.
pub fn ack_bytes(token: u64) -> (buf: Vec<u8>)
    ensures
        buf@ == punch_packet(Msg::HolePunchAck { token }),
{
    let mut buf: Vec<u8> = Vec::new();
    push_bytes(&mut buf, HOLE_PUNCH_PROBE_PREFIX.as_slice());
    buf.push(6);
    encode_varint(&mut buf, token);
    proof {
        lemma_small_varint(6);
        assert(buf@ =~= punch_packet(Msg::HolePunchAck { token }));
    }
    buf
}

/// Tokens under way and tokens answered.
#[verifier::ext_equal]
pub ghost struct Punches {
    /// Where a token was sent, and when.
    pub pending: Map<u64, (SocketAddr, Instant)>,
    /// Where an answer to a token came from.
    pub confirmed: Map<u64, SocketAddr>,
}

impl Punches {
    /// The tokens under way that are not stale.
    pub open spec fn fresh(self, now: Instant) -> Punches {
        Punches {
            pending: self.pending.restrict(
                Set::new(
                    |t: u64|
                        crate::clock::nanos_between(now, self.pending[t].1) < 30_000_000_000,
                ),
            ),
            ..self
        }
    }

    /// An attempt begun: stale tokens go, and the new one is under way.
    pub open spec fn begun(self, token: u64, addr: SocketAddr, now: Instant) -> Punches {
        Punches { pending: self.fresh(now).pending.insert(token, (addr, now)), ..self }
    }

    /// An answer to a token.
    pub open spec fn answered(self, token: u64, from: SocketAddr) -> Punches {
        Punches { confirmed: self.confirmed.insert(token, from), ..self }
    }
}

/// Keeps hole-punch tokens.
pub struct PunchCoordinator {
    pending: Table<u64, (SocketAddr, Instant)>,
    confirmed: HashMap<u64, SocketAddr>,
}

impl View for PunchCoordinator {
    type V = Punches;

    closed spec fn view(&self) -> Punches {
        Punches { pending: self.pending@, confirmed: self.confirmed@ }
    }
}

impl PunchCoordinator {
    /// The table is in order.
    pub closed spec fn wf(&self) -> bool {
        self.pending.wf()
    }

    /// A coordinator without tokens.
    pub fn new() -> (r: PunchCoordinator)
        ensures
            r.wf(),
            r@ == (Punches { pending: Map::empty(), confirmed: Map::empty() }),
    {
        let r: PunchCoordinator = PunchCoordinator {
            pending: Table::new(),
            confirmed: HashMap::new(),
        };
        assert(r@.confirmed =~= Map::empty());
        r
    }

    /// Begins an attempt toward `addr` now, with a random token.
    pub fn new_token(&mut self, addr: SocketAddr) -> (token: u64)
        requires
            old(self).wf(),
        ensures
            final(self).wf(),
            exists|t: Instant| final(self)@ == #[trigger] old(self)@.begun(token, addr, t),
    {
        let t: Instant = now();
        let token: u64 = random_u64();
        self.begin(token, addr, t);
        token
    }

    /// Begins an attempt toward `addr` with a given token at a given time.
    pub fn begin(&mut self, token: u64, addr: SocketAddr, at: Instant)
        requires
            old(self).wf(),
        ensures
            final(self).wf(),
            final(self)@ == old(self)@.begun(token, addr, at),
    {
        self.evict_stale(at);
        self.pending.insert(token, (addr, at));
    }

    /// Notes an acknowledgement.
    pub fn record_ack(&mut self, token: u64, from: SocketAddr)
        requires
            old(self).wf(),
        ensures
            final(self).wf(),
            final(self)@ == old(self)@.answered(token, from),
    {
        self.confirmed.insert(token, from);
    }

    /// Notes a probe and gives the two packets to send back: an acknowledgement
    /// and a probe with the same token.
    pub fn handle_probe(&mut self, token: u64, from: SocketAddr) -> (r: (Vec<u8>, Vec<u8>))
        requires
            old(self).wf(),
        ensures
            final(self).wf(),
            final(self)@ == old(self)@.answered(token, from),
            r.0@ == punch_packet(Msg::HolePunchAck { token }),
            r.1@ == punch_packet(Msg::HolePunchProbe { token }),
    {
        self.confirmed.insert(token, from);
        (ack_bytes(token), probe_bytes(token))
    }

    /// Where an answer to a token came from, if one came.
    pub fn is_confirmed(&self, token: u64) -> (r: Option<SocketAddr>)
        ensures
            match r {
                Some(a) => self@.confirmed.contains_key(token) && self@.confirmed[token] == a,
                None => !self@.confirmed.contains_key(token),
            },
    {
        match self.confirmed.get(&token) {
            Some(a) => Some(*a),
            None => None,
        }
    }

    fn evict_stale(&mut self, now: Instant)
        requires
            old(self).wf(),
        ensures
            final(self).wf(),
            final(self)@ == old(self)@.fresh(now),
    {
        let ghost old_map = self.pending@;
        let ghost list = self.pending.list();
        let n: usize = self.pending.len();
        let mut stale: Vec<u64> = Vec::new();
        let mut i: usize = 0;
        proof {
            self.pending.lemma_list();
        }
        while i < n
            invariant
                i <= n,
                n == list.len(),
                list == self.pending.list(),
                self.pending.wf(),
                old_map == self.pending@,
                crate::table::distinct_keys(list),
                forall|j: int|
                    0 <= j < list.len() ==> old_map.contains_key((#[trigger] list[j]).0)
                        && old_map[list[j].0] == list[j].1,
                forall|j: int|
                    0 <= j < i ==> (stale@.contains((#[trigger] list[j]).0)
                        <==> crate::clock::nanos_between(now, list[j].1.1) >= 30_000_000_000),
                forall|t: u64| #[trigger]
                    stale@.contains(t) ==> old_map.contains_key(t) && crate::clock::nanos_between(
                        now,
                        old_map[t].1,
                    ) >= 30_000_000_000,
            decreases n - i,
        {
            let (token, entry) = self.pending.entry(i);
            let age: u128 = between(&now, &entry.1).as_nanos();
            let ghost before = stale@;
            if age >= TOKEN_TTL_NANOS {
                stale.push(token);
                assert(stale@.last() == token);
                assert forall|t: u64| #[trigger] stale@.contains(t) == (before.contains(t) || t
                    == token) by {
                    if before.contains(t) {
                        let k = before.index_of(t);
                        assert(stale@[k] == t);
                    }
                }
            }
            i = i + 1;
        }
        self.pending.remove_all(&stale);
        proof {
            let after = self.pending@;
            let want = old(self)@.fresh(now).pending;
            assert forall|t: u64| after.dom().contains(t) <==> want.dom().contains(t) by {
                if old_map.contains_key(t) {
                    assert(crate::table::entries_map(list).contains_key(t));
                    let j = choose|j: int| 0 <= j < list.len() && (#[trigger] list[j]).0 == t;
                    assert(list[j].0 == t);
                }
            }
            assert(after =~= want);
        }
    }
}

impl Default for PunchCoordinator {
    fn default() -> (r: PunchCoordinator)
        ensures
            r.wf(),
            r@ == (Punches { pending: Map::empty(), confirmed: Map::empty() }),
    {
        PunchCoordinator::new()
    }
}

/// A probe or acknowledgement packet decodes to its message behind the prefix.
pub proof fn punch_packet_round_trip(token: u64)
    ensures
        crate::message::decoded(punch_packet(Msg::HolePunchProbe { token }).skip(11)) == Ok::<
            Msg,
            crate::codec::DecodeError,
        >(Msg::HolePunchProbe { token }),
        crate::message::decoded(punch_packet(Msg::HolePunchAck { token }).skip(11)) == Ok::<
            Msg,
            crate::codec::DecodeError,
        >(Msg::HolePunchAck { token }),
{
    let probe = Msg::HolePunchProbe { token };
    let ack = Msg::HolePunchAck { token };
    assert(punch_packet(probe).skip(11) =~= crate::message::message_bytes(probe));
    assert(punch_packet(ack).skip(11) =~= crate::message::message_bytes(ack));
    crate::message::message_round_trip_exact(probe);
    crate::message::message_round_trip_exact(ack);
}

/// A token that was answered stays answered while new attempts begin.
pub proof fn confirmation_lasts(p: Punches, token: u64, other: u64, addr: SocketAddr, at: Instant)
    requires
        p.confirmed.contains_key(token),
    ensures
        p.begun(other, addr, at).confirmed.contains_key(token),
        p.begun(other, addr, at).confirmed[token] == p.confirmed[token],
{
}


/// Beginning a probe remembers whom it went to and when; probes that are thirty seconds
/// old by then are forgotten, younger ones stay as they were, and what was confirmed
/// stays confirmed.
pub proof fn only_young_probes_stay(
    p: Punches,
    token: u64,
    addr: SocketAddr,
    now: Instant,
    other: u64,
)
    requires
        other != token,
        p.pending.contains_key(other) ==> crate::clock::clock_nanos(p.pending[other].1)
            <= crate::clock::clock_nanos(now),
    ensures
        ({
            let after = p.begun(token, addr, now);
            &&& after.pending.contains_key(token)
            &&& after.pending[token] == (addr, now)
            &&& after.pending.contains_key(other) <==> (p.pending.contains_key(other)
                && crate::clock::clock_nanos(now) < crate::clock::clock_nanos(p.pending[other].1)
                + 30_000_000_000)
            &&& after.pending.contains_key(other) ==> after.pending[other] == p.pending[other]
            &&& after.confirmed == p.confirmed
        }),
{
}

/// An answer confirms its token with the address it came from, and no other token.
pub proof fn answers_confirm_their_token(p: Punches, token: u64, from: SocketAddr, other: u64)
    requires
        other != token,
    ensures
        p.answered(token, from).confirmed.contains_key(token),
        p.answered(token, from).confirmed[token] == from,
        p.answered(token, from).confirmed.contains_key(other) == p.confirmed.contains_key(other),
        p.answered(token, from).confirmed[other] == p.confirmed[other],
        p.answered(token, from).pending == p.pending,
{
}

/// Probes and answers begin with the eleven bytes that mark them and differ from each
/// other and from token to token.
pub proof fn punch_packets_are_told_apart(a: u64, b: u64)
    ensures
        punch_packet(Msg::HolePunchProbe { token: a }).take(11) == HOLE_PUNCH_PROBE_PREFIX@,
        punch_packet(Msg::HolePunchAck { token: a }).take(11) == HOLE_PUNCH_PROBE_PREFIX@,
        punch_packet(Msg::HolePunchProbe { token: a }) != punch_packet(
            Msg::HolePunchAck { token: b },
        ),
        punch_packet(Msg::HolePunchProbe { token: a }) == punch_packet(
            Msg::HolePunchProbe { token: b },
        ) ==> a == b,
        punch_packet(Msg::HolePunchAck { token: a }) == punch_packet(
            Msg::HolePunchAck { token: b },
        ) ==> a == b,
{
    punch_packet_round_trip(a);
    punch_packet_round_trip(b);
    assert(punch_packet(Msg::HolePunchProbe { token: a }).take(11) =~= HOLE_PUNCH_PROBE_PREFIX@);
    assert(punch_packet(Msg::HolePunchAck { token: a }).take(11) =~= HOLE_PUNCH_PROBE_PREFIX@);
}
} // verus!
