//! Overlay addresses: who has which.
use crate::constants::{OVERLAY_SUBNET_BASE, OVERLAY_SUBNET_PREFIX};
use crate::derive::derive_overlay_addr;
use crate::net::Ipv4Addr;
use crate::table::Table;
use crate::types::{OverlayAddr, PeerId};
use std::collections::HashMap;
use vstd::prelude::*;

verus! {

broadcast use vstd::std_specs::hash::group_hash_axioms;

/// An overlay address given to a peer.
#[derive(Clone, Copy, Debug)]
pub struct Allocation {
    pub peer_id: PeerId,
    pub overlay: OverlayAddr,
    /// How far the address is from the one derived from the id.
    pub slot: u8,
}

/// The address `slot` places after `base` in its block of 256, round the end.
pub open spec fn fallback_of(base: OverlayAddr, slot: u8) -> OverlayAddr {
    OverlayAddr {
        addr: Ipv4Addr { d: ((base.addr.d as int + slot as int) % 256) as u8, ..base.addr },
    }
}

/// Allocated addresses: by peer, and who has which address.
#[verifier::ext_equal]
pub ghost struct Allocations {
    pub by_peer: Map<PeerId, Allocation>,
    pub by_ip: Map<Ipv4Addr, PeerId>,
}

impl Allocations {
    /// Whether the address in a slot is taken.
    pub open spec fn taken(self, base: OverlayAddr, slot: u8) -> bool {
        self.by_ip.contains_key(fallback_of(base, slot).addr)
    }

    /// Whether all 256 addresses of the block are taken.
    pub open spec fn block_full(self, base: OverlayAddr) -> bool {
        forall|slot: u8| #[trigger] self.taken(base, slot)
    }

    /// The slot for a new peer: the first that is free, or the last if none is.
    pub open spec fn is_next_slot(self, base: OverlayAddr, slot: u8) -> bool {
        if self.block_full(base) {
            slot == 255
        } else {
            !self.taken(base, slot) && forall|s: u8| s < slot ==> #[trigger] self.taken(base, s)
        }
    }

    /// Whether the two maps say the same: each allocation is found under its peer
    /// and under its address.
    pub open spec fn agree(self) -> bool {
        &&& forall|id: PeerId| #[trigger]
            self.by_peer.contains_key(id) ==> self.by_peer[id].peer_id == id
                && self.by_ip.contains_key(self.by_peer[id].overlay.addr)
                && self.by_ip[self.by_peer[id].overlay.addr] == id
        &&& forall|ip: Ipv4Addr| #[trigger]
            self.by_ip.contains_key(ip) ==> self.by_peer.contains_key(self.by_ip[ip])
                && self.by_peer[self.by_ip[ip]].overlay.addr == ip
    }

    /// Whether no two peers have the same address.
    pub open spec fn distinct(self) -> bool {
        forall|x: PeerId, y: PeerId|
            #![trigger self.by_peer[x], self.by_peer[y]]
            self.by_peer.contains_key(x) && self.by_peer.contains_key(y)
                && self.by_peer[x].overlay == self.by_peer[y].overlay ==> x == y
    }
}

/// Allocated overlay addresses. Peers are keyed by their id, addresses by the
/// number that stands for them.
pub struct AllocationTable {
    allocations: Table<PeerId, Allocation>,
    by_ip: HashMap<u32, PeerId>,
}

impl View for AllocationTable {
    type V = Allocations;

    closed spec fn view(&self) -> Allocations {
        Allocations {
            by_peer: self.allocations@,
            by_ip: ip_map(self.by_ip@),
        }
    }
}

/// Adding an address to the numbered map adds it to the map of addresses.
pub proof fn lemma_ip_insert(m: Map<u32, PeerId>, ip: Ipv4Addr, id: PeerId)
    ensures
        ip_map(m.insert(ip.number(), id)) == ip_map(m).insert(ip, id),
{
    let a = ip_map(m.insert(ip.number(), id));
    let b = ip_map(m).insert(ip, id);
    assert forall|q: Ipv4Addr| a.dom().contains(q) <==> b.dom().contains(q) by {
        if q.number() == ip.number() {
            crate::net::ipv4_number_injective(q, ip);
        }
    }
    assert forall|q: Ipv4Addr| a.dom().contains(q) implies #[trigger] a[q] == b[q] by {
        if q.number() == ip.number() {
            crate::net::ipv4_number_injective(q, ip);
        }
    }
    assert(a =~= b);
}

/// Removing an address from the numbered map removes it from the map of
/// addresses.
pub proof fn lemma_ip_remove(m: Map<u32, PeerId>, ip: Ipv4Addr)
    ensures
        ip_map(m.remove(ip.number())) == ip_map(m).remove(ip),
{
    let a = ip_map(m.remove(ip.number()));
    let b = ip_map(m).remove(ip);
    assert forall|q: Ipv4Addr| a.dom().contains(q) <==> b.dom().contains(q) by {
        if q.number() == ip.number() {
            crate::net::ipv4_number_injective(q, ip);
        }
    }
    assert forall|q: Ipv4Addr| a.dom().contains(q) implies #[trigger] a[q] == b[q] by {
        if q.number() == ip.number() {
            crate::net::ipv4_number_injective(q, ip);
        }
    }
    assert(a =~= b);
}

/// The map of addresses that a map of their numbers stands for.
pub open spec fn ip_map(m: Map<u32, PeerId>) -> Map<Ipv4Addr, PeerId> {
    Map::new(
        |ip: Ipv4Addr| m.contains_key(ip.number()),
        |ip: Ipv4Addr| m[ip.number()],
    )
}

fn fallback_addr(base: &OverlayAddr, slot: u8) -> (r: OverlayAddr)
    ensures
        r == fallback_of(*base, slot),
{
    let d: u8 = base.addr.d.wrapping_add(slot);
    OverlayAddr::new(Ipv4Addr::new(base.addr.a, base.addr.b, base.addr.c, d))
}

impl AllocationTable {
    /// The two maps are in order.
    pub closed spec fn wf(&self) -> bool {
        self.allocations.wf()
    }

    /// An empty table.
    pub fn new() -> (r: AllocationTable)
        ensures
            r.wf(),
            r@ == (Allocations { by_peer: Map::empty(), by_ip: Map::empty() }),
    {
        let r: AllocationTable = AllocationTable {
            allocations: Table::new(),
            by_ip: HashMap::new(),
        };
        assert(r@.by_ip =~= Map::empty());
        r
    }

    /// Gives a peer an overlay address: the one it has; else the one derived from
    /// its id, or the next one in the same block of 256 that is free. If the whole
    /// block is taken, the last one is given again and taken from its former
    /// owner, under slot 0.
    pub fn allocate(&mut self, peer_id: PeerId) -> (r: OverlayAddr)
        requires
            old(self).wf(),
        ensures
            final(self).wf(),
            if old(self)@.by_peer.contains_key(peer_id) {
                r == old(self)@.by_peer[peer_id].overlay && final(self)@ == old(self)@
            } else {
                exists|slot: u8|
                    {
                        &&& #[trigger] old(self)@.is_next_slot(
                            crate::derive::overlay_of(peer_id),
                            slot,
                        )
                        &&& r == fallback_of(crate::derive::overlay_of(peer_id), slot)
                        &&& final(self)@ == allocated(old(self)@, peer_id, slot)
                    }
            },
    {
        if let Some(existing) = self.allocations.get(&peer_id) {
            return existing.overlay;
        }
        let base: OverlayAddr = derive_overlay_addr(&peer_id);
        let mut slot: u8 = 0;
        let mut addr: OverlayAddr = base;
        assert(fallback_of(base, 0) == base);
        let mut searching: bool = self.by_ip.contains_key(&addr.addr.to_number());
        while searching
            invariant
                *self == *old(self),
                base == crate::derive::overlay_of(peer_id),
                addr == fallback_of(base, slot),
                searching == self@.taken(base, slot),
                forall|s: u8| s < slot ==> #[trigger] self@.taken(base, s),
            ensures
                addr == fallback_of(base, slot),
                searching == self@.block_full(base),
                self@.is_next_slot(base, slot),
            decreases 256 - slot,
        {
            if slot == 255 {
                assert(self@.block_full(base)) by {
                    assert forall|s: u8| #[trigger] self@.taken(base, s) by {
                        if s == 255 {
                        }
                    }
                }
                break;
            }
            slot = slot + 1;
            addr = fallback_addr(&base, slot);
            searching = self.by_ip.contains_key(&addr.addr.to_number());
        }
        let allocation: Allocation = Allocation {
            peer_id,
            overlay: addr,
            slot: if searching {
                0
            } else {
                slot
            },
        };
        proof {
            lemma_ip_insert(self.by_ip@, addr.addr, peer_id);
        }
        self.by_ip.insert(addr.addr.to_number(), peer_id);
        self.allocations.insert(peer_id, allocation);
        assert(old(self)@.is_next_slot(base, slot));
        addr
    }

    /// Who has an address.
    pub fn lookup_by_ip(&self, ip: Ipv4Addr) -> (r: Option<&PeerId>)
        requires
            self.wf(),
        ensures
            match r {
                Some(id) => self@.by_ip.contains_key(ip) && *id == self@.by_ip[ip],
                None => !self@.by_ip.contains_key(ip),
            },
    {
        self.by_ip.get(&ip.to_number())
    }

    /// What a peer has.
    pub fn lookup_by_peer(&self, peer_id: &PeerId) -> (r: Option<&Allocation>)
        requires
            self.wf(),
        ensures
            match r {
                Some(a) => self@.by_peer.contains_key(*peer_id) && *a == self@.by_peer[*peer_id],
                None => !self@.by_peer.contains_key(*peer_id),
            },
    {
        self.allocations.get(peer_id)
    }

    /// Takes the address of a peer back.
    pub fn remove(&mut self, peer_id: &PeerId) -> (r: Option<Allocation>)
        requires
            old(self).wf(),
        ensures
            final(self).wf(),
            match r {
                Some(a) => old(self)@.by_peer.contains_key(*peer_id) && a == old(
                    self,
                )@.by_peer[*peer_id] && final(self)@ == (Allocations {
                    by_peer: old(self)@.by_peer.remove(*peer_id),
                    by_ip: old(self)@.by_ip.remove(a.overlay.addr),
                }),
                None => !old(self)@.by_peer.contains_key(*peer_id) && final(self)@ == old(self)@,
            },
    {
        let r: Option<Allocation> = self.allocations.remove(peer_id);
        match r {
            Some(a) => {
                proof {
                    lemma_ip_remove(self.by_ip@, a.overlay.addr);
                }
                self.by_ip.remove(&a.overlay.addr.to_number());
                Some(a)
            },
            None => {
                assert(self@.by_peer =~= old(self)@.by_peer);
                None
            },
        }
    }

    /// Number of peers with an address.
    pub fn len(&self) -> (r: usize)
        requires
            self.wf(),
        ensures
            r == self@.by_peer.dom().len(),
    {
        self.allocations.len()
    }

    /// Whether no peer has an address.
    pub fn is_empty(&self) -> (r: bool)
        requires
            self.wf(),
        ensures
            r == (self@.by_peer.dom().len() == 0),
    {
        self.allocations.len() == 0
    }

    /// The peers with an address, in the order of the table.
    pub closed spec fn order(&self) -> Seq<PeerId> {
        self.allocations.order()
    }

    /// All allocations.
    pub fn all_allocations(&self) -> (r: Vec<Allocation>)
        requires
            self.wf(),
        ensures
            r@ == self.order().map_values(|id: PeerId| self@.by_peer[id]),
            self.order().no_duplicates(),
            forall|id: PeerId|
                self.order().contains(id) <==> #[trigger] self@.by_peer.contains_key(id),
    {
        let mut r: Vec<Allocation> = Vec::new();
        let n: usize = self.allocations.len();
        let mut i: usize = 0;
        let ghost f = |id: PeerId| self@.by_peer[id];
        proof {
            self.allocations.lemma_list();
        }
        while i < n
            invariant
                i <= n,
                n == self.allocations.list().len(),
                f == (|id: PeerId| self@.by_peer[id]),
                self.wf(),
                r@ == self.order().map_values(f).take(i as int),
            decreases n - i,
        {
            let (id, a) = self.allocations.entry(i);
            r.push(*a);
            assert(self.order()[i as int] == id);
            i = i + 1;
            assert(r@ =~= self.order().map_values(f).take(i as int));
        }
        assert(r@ =~= self.order().map_values(f));
        r
    }
}

impl Default for AllocationTable {
    fn default() -> (r: AllocationTable)
        ensures
            r.wf(),
            r@ == (Allocations { by_peer: Map::empty(), by_ip: Map::empty() }),
    {
        AllocationTable::new()
    }
}

/// The overlay address of a peer, before any collision.
pub fn resolve_overlay_ip(peer_id: &PeerId) -> (r: OverlayAddr)
    ensures
        r == crate::derive::overlay_of(*peer_id),
{
    derive_overlay_addr(peer_id)
}

/// Whether an address lies in the overlay subnet.
pub open spec fn in_overlay_subnet(ip: Ipv4Addr) -> bool {
    ip.a == 10 && ip.b == 88
}

/// The mask of a prefix length: so many one bits from the top.
pub open spec fn mask_of(prefix: u8) -> u32 {
    if prefix == 0 {
        0
    } else if prefix >= 32 {
        !0u32
    } else {
        !0u32 << ((32 - prefix) as u8)
    }
}

/// Gives the mask of a prefix length.
pub fn subnet_mask_u32(prefix: u8) -> (r: u32)
    ensures
        r == mask_of(prefix),
{
    if prefix == 0 {
        return 0;
    }
    if prefix >= 32 {
        return !0u32;
    }
    !0u32 << (32 - prefix)
}

/// Masking an address with sixteen one bits leaves its first two octets.
proof fn lemma_mask_16(n: u32, base: u32)
    ensures
        (n & 0xffff_0000u32) == (base & 0xffff_0000u32) <==> n / 0x10000 == base / 0x10000,
{
    assert((n & 0xffff_0000u32) == (base & 0xffff_0000u32) <==> n / 0x10000 == base / 0x10000)
        by (bit_vector);
}

/// Tests whether an address lies in the overlay subnet.
pub fn is_in_overlay_subnet(addr: OverlayAddr) -> (r: bool)
    ensures
        r == in_overlay_subnet(addr.addr),
{
    ip_in_overlay_subnet(addr.addr)
}

/// Tests whether an IPv4 address lies in the overlay subnet.
pub fn ip_in_overlay_subnet(ip: Ipv4Addr) -> (r: bool)
    ensures
        r == in_overlay_subnet(ip),
{
    let mask: u32 = subnet_mask_u32(OVERLAY_SUBNET_PREFIX);
    let octets: [u8; 4] = OVERLAY_SUBNET_BASE;
    let base: u32 = Ipv4Addr::new(octets[0], octets[1], octets[2], octets[3]).to_number();
    let n: u32 = ip.to_number();
    proof {
        assert(!0u32 << 16u8 == 0xffff_0000u32) by (bit_vector);
        lemma_mask_16(n, base);
        reveal(Ipv4Addr::number);
        assert(n / 0x10000 == ip.a * 0x100 + ip.b);
        assert(base / 0x10000 == 10 * 0x100 + 88);
    }
    (n & mask) == (base & mask)
}

// ---------------------------------------------------------------------------
// Laws
// ---------------------------------------------------------------------------
/// The table after a new peer was given the address in a slot.
pub open spec fn allocated(t: Allocations, id: PeerId, slot: u8) -> Allocations {
    let base = crate::derive::overlay_of(id);
    let overlay = fallback_of(base, slot);
    let recorded = if t.block_full(base) {
        0
    } else {
        slot
    };
    Allocations {
        by_peer: t.by_peer.insert(id, Allocation { peer_id: id, overlay, slot: recorded }),
        by_ip: t.by_ip.insert(overlay.addr, id),
    }
}

/// Where the two maps agree, no two peers have the same address.
pub proof fn agreement_means_distinct(t: Allocations)
    requires
        t.agree(),
    ensures
        t.distinct(),
{
    assert forall|x: PeerId, y: PeerId|
        #![trigger t.by_peer[x], t.by_peer[y]]
        t.by_peer.contains_key(x) && t.by_peer.contains_key(y) && t.by_peer[x].overlay
            == t.by_peer[y].overlay implies x == y by {
        assert(t.by_ip[t.by_peer[x].overlay.addr] == x);
        assert(t.by_ip[t.by_peer[y].overlay.addr] == y);
    }
}

/// Unless the whole block is taken, a new peer gets an address that nobody had,
/// and the two maps still agree.
pub proof fn allocation_keeps_agreement(t: Allocations, id: PeerId, slot: u8)
    requires
        t.agree(),
        !t.by_peer.contains_key(id),
        t.is_next_slot(crate::derive::overlay_of(id), slot),
        !t.block_full(crate::derive::overlay_of(id)),
    ensures
        !t.by_ip.contains_key(fallback_of(crate::derive::overlay_of(id), slot).addr),
        allocated(t, id, slot).agree(),
{
    let base = crate::derive::overlay_of(id);
    let addr = fallback_of(base, slot).addr;
    assert(!t.taken(base, slot));
    let after = allocated(t, id, slot);
    assert forall|x: PeerId| #[trigger] after.by_peer.contains_key(x) implies after.by_peer[x].peer_id
        == x && after.by_ip.contains_key(after.by_peer[x].overlay.addr)
        && after.by_ip[after.by_peer[x].overlay.addr] == x by {
        if x != id {
            assert(t.by_peer.contains_key(x));
            assert(t.by_peer[x].overlay.addr != addr);
        }
    }
    assert forall|ip: Ipv4Addr| #[trigger] after.by_ip.contains_key(
        ip,
    ) implies after.by_peer.contains_key(after.by_ip[ip]) && after.by_peer[after.by_ip[ip]].overlay.addr
        == ip by {
        if ip != addr {
            assert(t.by_ip.contains_key(ip));
        }
    }
}

/// Taking the address of a peer back frees it, and the two maps still agree.
pub proof fn removal_keeps_agreement(t: Allocations, id: PeerId)
    requires
        t.agree(),
        t.by_peer.contains_key(id),
    ensures
        ({
            let after = Allocations {
                by_peer: t.by_peer.remove(id),
                by_ip: t.by_ip.remove(t.by_peer[id].overlay.addr),
            };
            after.agree() && !after.by_ip.contains_key(t.by_peer[id].overlay.addr)
        }),
{
    let addr = t.by_peer[id].overlay.addr;
    let after = Allocations { by_peer: t.by_peer.remove(id), by_ip: t.by_ip.remove(addr) };
    assert forall|x: PeerId| #[trigger] after.by_peer.contains_key(x) implies after.by_peer[x].peer_id
        == x && after.by_ip.contains_key(after.by_peer[x].overlay.addr)
        && after.by_ip[after.by_peer[x].overlay.addr] == x by {
        assert(t.by_peer.contains_key(x));
        assert(t.by_ip[t.by_peer[x].overlay.addr] == x);
    }
    assert forall|ip: Ipv4Addr| #[trigger] after.by_ip.contains_key(
        ip,
    ) implies after.by_peer.contains_key(after.by_ip[ip]) && after.by_peer[after.by_ip[ip]].overlay.addr
        == ip by {
        assert(t.by_ip.contains_key(ip));
    }
}

/// Every address that is given lies in the overlay subnet and outside the
/// reserved block.
pub proof fn allocations_in_subnet(id: PeerId, slot: u8)
    ensures
        in_overlay_subnet(fallback_of(crate::derive::overlay_of(id), slot).addr),
        fallback_of(crate::derive::overlay_of(id), slot).addr.c >= 1,
{
}


/// A peer whose own address is free gets just that address, as slot zero.
pub proof fn a_free_address_is_given_as_it_is(t: Allocations, id: PeerId, slot: u8)
    requires
        !t.by_ip.contains_key(crate::derive::overlay_of(id).addr),
        t.is_next_slot(crate::derive::overlay_of(id), slot),
    ensures
        slot == 0,
        allocated(t, id, slot).by_peer[id].overlay == crate::derive::overlay_of(id),
        allocated(t, id, slot).by_peer[id].slot == 0,
        allocated(t, id, slot).by_ip[crate::derive::overlay_of(id).addr] == id,
{
    let base = crate::derive::overlay_of(id);
    assert(fallback_of(base, 0).addr == base.addr);
    assert(!t.taken(base, 0));
    assert(!t.block_full(base));
    if slot > 0 {
        assert(t.taken(base, 0));
    }
}

/// A peer whose own address is taken gets the first free one that follows it in its
/// block of 256, going round at the end: every address passed over belongs to somebody,
/// and nobody loses theirs.
pub proof fn the_next_free_address_is_given(
    t: Allocations,
    id: PeerId,
    slot: u8,
    passed: u8,
    other: PeerId,
)
    requires
        !t.by_peer.contains_key(id),
        t.is_next_slot(crate::derive::overlay_of(id), slot),
        !t.block_full(crate::derive::overlay_of(id)),
        passed < slot,
        other != id,
    ensures
        ({
            let own = crate::derive::overlay_of(id).addr;
            let given = allocated(t, id, slot).by_peer[id].overlay.addr;
            &&& given.a == own.a && given.b == own.b && given.c == own.c
            &&& given.d == (own.d + slot) % 256
            &&& !t.by_ip.contains_key(given)
            &&& allocated(t, id, slot).by_ip[given] == id
            &&& allocated(t, id, slot).by_peer[id].peer_id == id
            &&& allocated(t, id, slot).by_peer[id].slot == slot
            &&& t.by_ip.contains_key(
                Ipv4Addr { a: own.a, b: own.b, c: own.c, d: ((own.d + passed) % 256) as u8 },
            )
            &&& allocated(t, id, slot).by_peer.contains_key(other) == t.by_peer.contains_key(other)
            &&& allocated(t, id, slot).by_peer[other] == t.by_peer[other]
        }),
{
    let base = crate::derive::overlay_of(id);
    assert(t.taken(base, passed));
    assert(!t.taken(base, slot));
}

/// The overlay network is 10.88.0.0/16: an address belongs to it if and only if it lies
/// between 10.88.0.0 and 10.88.255.255.
pub proof fn the_overlay_is_one_block(ip: Ipv4Addr)
    ensures
        in_overlay_subnet(ip) <==> 0x0A58_0000 <= ip.number() <= 0x0A58_FFFF,
{
    reveal(Ipv4Addr::number);
    let (a, b, c, d) = (ip.a, ip.b, ip.c, ip.d);
    crate::text::most_significant_byte_stands_first(a, b, c, d, 0, 0);
    assert((a == 10 && b == 88) <==> 0x0A58_0000 <= 16777216 * a + 65536 * b + 256 * c + d
        <= 0x0A58_FFFF);
}

/// A mask has a one in each of its first `prefix` bits and a zero in each other bit.
pub proof fn masks_begin_with_ones(prefix: u8, bit: u8)
    requires
        bit < 32,
    ensures
        (mask_of(prefix) >> ((31 - bit) as u8)) & 1 == (if bit < prefix {
            1u32
        } else {
            0u32
        }),
{
    let place = (31 - bit) as u8;
    assert((0u32 >> place) & 1 == 0u32) by (bit_vector);
    assert((!0u32 >> place) & 1 == 1u32) by (bit_vector)
        requires
            place < 32,
    ;
    if 0 < prefix < 32 {
        let zeros = (32 - prefix) as u8;
        assert(((!0u32 << zeros) >> place) & 1 == (if place >= zeros {
            1u32
        } else {
            0u32
        })) by (bit_vector)
            requires
                place < 32,
                zeros < 32,
        ;
    }
}
} // verus!
