//! Routing of IP packets to peers.
use crate::error::Error;
use crate::net::Ipv4Addr;
use crate::noise::{NoiseSession, SecureTransport};
use crate::overlay::ip_in_overlay_subnet;
use crate::table::Table;
use crate::text::{copy_bytes, push_dec, push_text};
use crate::types::{OverlayAddr, PeerId};
use std::collections::HashMap;
use vstd::prelude::*;

verus! {

broadcast use vstd::std_specs::hash::group_hash_axioms;

/// Length of an IPv4 header without options.
pub const IPV4_HEADER_MIN_LEN: usize = 20;

/// Where the source address is in an IPv4 header.
pub const IPV4_SRC_OFFSET: usize = 12;

/// Where the destination address is in an IPv4 header.
pub const IPV4_DST_OFFSET: usize = 16;

// ---------------------------------------------------------------------------
// Packets
// ---------------------------------------------------------------------------
/// The addresses of an IPv4 packet, and the packet.
#[derive(Debug, PartialEq, Eq)]
pub struct ParsedPacket {
    pub src_ip: Ipv4Addr,
    pub dst_ip: Ipv4Addr,
    pub payload: Vec<u8>,
}

/// Whether some bytes begin with an IPv4 header.
pub open spec fn is_ipv4(data: Seq<u8>) -> bool {
    data.len() >= 20 && data[0] / 16 == 4
}

/// The address at an offset.
pub open spec fn ip_at(data: Seq<u8>, at: int) -> Ipv4Addr {
    Ipv4Addr { a: data[at], b: data[at + 1], c: data[at + 2], d: data[at + 3] }
}

/// The error for bytes that are no IPv4 packet.
pub open spec fn packet_error(data: Seq<u8>, e: Error) -> bool {
    e matches Error::NoiseTransport(m) && m@ == (if data.len() < 20 {
        "IPv4 packet too short: "@ + crate::text::dec_text(data.len()) + " bytes"@
    } else {
        "not an IPv4 packet: version "@ + crate::text::dec_text((data[0] / 16) as nat)
    })
}

/// Reads the addresses of an IPv4 packet.
pub fn parse_ipv4_packet(data: &[u8]) -> (r: Result<ParsedPacket, Error>)
    ensures
        match r {
            Ok(p) => is_ipv4(data@) && p.src_ip == ip_at(data@, 12) && p.dst_ip == ip_at(data@, 16)
                && p.payload@ == data@,
            Err(e) => !is_ipv4(data@) && packet_error(data@, e),
        },
{
    if data.len() < IPV4_HEADER_MIN_LEN {
        let mut m: String = String::new();
        push_text(&mut m, "IPv4 packet too short: ");
        push_dec(&mut m, data.len() as u64);
        push_text(&mut m, " bytes");
        assert(m@ =~= "IPv4 packet too short: "@ + crate::text::dec_text(data@.len()) + " bytes"@);
        return Err(Error::NoiseTransport(m));
    }
    let version: u8 = data[0] / 16;
    if version != 4 {
        let mut m: String = String::new();
        push_text(&mut m, "not an IPv4 packet: version ");
        push_dec(&mut m, version as u64);
        assert(m@ =~= "not an IPv4 packet: version "@ + crate::text::dec_text(
            (data@[0] / 16) as nat,
        ));
        return Err(Error::NoiseTransport(m));
    }
    let src_ip: Ipv4Addr = Ipv4Addr::new(
        data[IPV4_SRC_OFFSET],
        data[IPV4_SRC_OFFSET + 1],
        data[IPV4_SRC_OFFSET + 2],
        data[IPV4_SRC_OFFSET + 3],
    );
    let dst_ip: Ipv4Addr = Ipv4Addr::new(
        data[IPV4_DST_OFFSET],
        data[IPV4_DST_OFFSET + 1],
        data[IPV4_DST_OFFSET + 2],
        data[IPV4_DST_OFFSET + 3],
    );
    Ok(ParsedPacket { src_ip, dst_ip, payload: copy_bytes(data) })
}

// ---------------------------------------------------------------------------
// Routes
// ---------------------------------------------------------------------------
/// Routes by address, and the address of each peer.
#[verifier::ext_equal]
pub ghost struct Routes {
    pub routes: Map<Ipv4Addr, PeerId>,
    pub addrs: Map<PeerId, Ipv4Addr>,
}

impl Routes {
    /// A route added.
    pub open spec fn with(self, ip: Ipv4Addr, id: PeerId) -> Routes {
        Routes { routes: self.routes.insert(ip, id), addrs: self.addrs.insert(id, ip) }
    }

    /// The route of an address removed, and with it the address of its peer.
    pub open spec fn without(self, ip: Ipv4Addr) -> Routes {
        if self.routes.contains_key(ip) {
            Routes {
                routes: self.routes.remove(ip),
                addrs: self.addrs.remove(self.routes[ip]),
            }
        } else {
            self
        }
    }

    /// The address of a peer removed, and with it the route of that address.
    pub open spec fn without_peer(self, id: PeerId) -> Routes {
        if self.addrs.contains_key(id) {
            Routes {
                routes: self.routes.remove(self.addrs[id]),
                addrs: self.addrs.remove(id),
            }
        } else {
            self
        }
    }
}

/// Which peer an overlay address belongs to, and the other way round.
pub struct RoutingTable {
    routes: HashMap<u32, PeerId>,
    peer_addrs: Table<PeerId, Ipv4Addr>,
}

impl View for RoutingTable {
    type V = Routes;

    closed spec fn view(&self) -> Routes {
        Routes { routes: crate::overlay::ip_map(self.routes@), addrs: self.peer_addrs@ }
    }
}

impl RoutingTable {
    /// The tables are in order.
    pub closed spec fn wf(&self) -> bool {
        self.peer_addrs.wf()
    }

    /// An empty table.
    pub fn new() -> (r: RoutingTable)
        ensures
            r.wf(),
            r@ == (Routes { routes: Map::empty(), addrs: Map::empty() }),
    {
        let r: RoutingTable = RoutingTable { routes: HashMap::new(), peer_addrs: Table::new() };
        assert(r@.routes =~= Map::empty());
        r
    }

    /// Adds a route, in place of one for the same address.
    pub fn add_route(&mut self, overlay: OverlayAddr, peer_id: PeerId)
        requires
            old(self).wf(),
        ensures
            final(self).wf(),
            final(self)@ == old(self)@.with(overlay.addr, peer_id),
    {
        proof {
            crate::overlay::lemma_ip_insert(self.routes@, overlay.addr, peer_id);
        }
        self.routes.insert(overlay.addr.to_number(), peer_id);
        self.peer_addrs.insert(peer_id, overlay.addr);
    }

    /// Removes the route of an address.
    pub fn remove_route(&mut self, overlay: &OverlayAddr) -> (r: Option<PeerId>)
        requires
            old(self).wf(),
        ensures
            final(self).wf(),
            final(self)@ == old(self)@.without(overlay.addr),
            match r {
                Some(id) => old(self)@.routes.contains_key(overlay.addr) && id == old(
                    self,
                )@.routes[overlay.addr],
                None => !old(self)@.routes.contains_key(overlay.addr),
            },
    {
        proof {
            crate::overlay::lemma_ip_remove(self.routes@, overlay.addr);
        }
        match self.routes.remove(&overlay.addr.to_number()) {
            Some(id) => {
                self.peer_addrs.remove(&id);
                Some(id)
            },
            None => {
                assert(self@.routes =~= old(self)@.routes);
                None
            },
        }
    }

    /// Removes the route of a peer.
    pub fn remove_peer(&mut self, peer_id: &PeerId) -> (r: Option<OverlayAddr>)
        requires
            old(self).wf(),
        ensures
            final(self).wf(),
            final(self)@ == old(self)@.without_peer(*peer_id),
            match r {
                Some(a) => old(self)@.addrs.contains_key(*peer_id) && a.addr == old(
                    self,
                )@.addrs[*peer_id],
                None => !old(self)@.addrs.contains_key(*peer_id),
            },
    {
        match self.peer_addrs.remove(peer_id) {
            Some(ip) => {
                proof {
                    crate::overlay::lemma_ip_remove(self.routes@, ip);
                }
                self.routes.remove(&ip.to_number());
                Some(OverlayAddr::new(ip))
            },
            None => {
                assert(self@.addrs =~= old(self)@.addrs);
                None
            },
        }
    }

    /// The peer that an address is routed to.
    pub fn lookup(&self, dst_ip: Ipv4Addr) -> (r: Option<&PeerId>)
        requires
            self.wf(),
        ensures
            match r {
                Some(id) => self@.routes.contains_key(dst_ip) && *id == self@.routes[dst_ip],
                None => !self@.routes.contains_key(dst_ip),
            },
    {
        self.routes.get(&dst_ip.to_number())
    }

    /// The address of a peer.
    pub fn lookup_peer_ip(&self, peer_id: &PeerId) -> (r: Option<Ipv4Addr>)
        requires
            self.wf(),
        ensures
            match r {
                Some(ip) => self@.addrs.contains_key(*peer_id) && ip == self@.addrs[*peer_id],
                None => !self@.addrs.contains_key(*peer_id),
            },
    {
        match self.peer_addrs.get(peer_id) {
            Some(ip) => Some(*ip),
            None => None,
        }
    }

    /// Number of routes.
    pub fn len(&self) -> (r: usize)
        requires
            self.wf(),
        ensures
            r == self@.routes.dom().len(),
    {
        proof {
            lemma_ip_map_len(self.routes@);
        }
        self.routes.len()
    }

    /// Whether there is no route.
    pub fn is_empty(&self) -> (r: bool)
        requires
            self.wf(),
        ensures
            r == (self@.routes.dom().len() == 0),
    {
        self.len() == 0
    }

    /// Whether an address lies in the overlay subnet.
    pub fn is_overlay_dst(&self, dst_ip: Ipv4Addr) -> (r: bool)
        ensures
            r == crate::overlay::in_overlay_subnet(dst_ip),
    {
        ip_in_overlay_subnet(dst_ip)
    }
}

impl Default for RoutingTable {
    fn default() -> (r: RoutingTable)
        ensures
            r.wf(),
            r@ == (Routes { routes: Map::empty(), addrs: Map::empty() }),
    {
        RoutingTable::new()
    }
}

/// There are as many addresses as numbers that stand for them.
proof fn lemma_ip_map_len(m: Map<u32, PeerId>)
    requires
        m.dom().finite(),
    ensures
        crate::overlay::ip_map(m).dom().finite(),
        crate::overlay::ip_map(m).dom().len() == m.dom().len(),
    decreases m.dom().len(),
{
    if m.dom().len() == 0 {
        assert(m.dom() =~= Set::empty());
        assert(crate::overlay::ip_map(m).dom() =~= Set::empty());
    } else {
        let n = m.dom().choose();
        let ip = Ipv4Addr::of_number(n);
        crate::net::ipv4_of_number_round_trip(n);
        lemma_ip_map_len(m.remove(n));
        crate::overlay::lemma_ip_remove(m, ip);
        assert(crate::overlay::ip_map(m.remove(n)).dom() =~= crate::overlay::ip_map(
            m,
        ).dom().remove(ip));
        assert(crate::overlay::ip_map(m).dom().contains(ip));
        assert(crate::overlay::ip_map(m).dom() =~= crate::overlay::ip_map(m.remove(n)).dom().insert(
            ip,
        ));
    }
}

// ---------------------------------------------------------------------------
// Router
// ---------------------------------------------------------------------------
/// Routes packets through one encrypted session.
pub struct Router {
    table: RoutingTable,
    transport: SecureTransport,
    our_overlay: OverlayAddr,
}

/// The peer that a packet goes to, if it goes to one: the packet is for another
/// address of the overlay, and there is a route.
pub open spec fn outbound_peer(routes: Routes, ours: OverlayAddr, packet: Seq<u8>) -> Option<
    PeerId,
> {
    let dst = ip_at(packet, 16);
    if crate::overlay::in_overlay_subnet(dst) && dst != ours.addr && routes.routes.contains_key(
        dst,
    ) {
        Some(routes.routes[dst])
    } else {
        None
    }
}

impl Router {
    /// The routes.
    pub closed spec fn routes(&self) -> Routes {
        self.table@
    }

    /// The session.
    pub closed spec fn session(&self) -> NoiseSession {
        self.transport.session()
    }

    /// Our overlay address.
    pub closed spec fn overlay(&self) -> OverlayAddr {
        self.our_overlay
    }

    /// Table and session are in order.
    pub closed spec fn wf(&self) -> bool {
        self.table.wf() && self.transport.wf()
    }

    /// A router with the given routes and session.
    pub fn new(table: RoutingTable, transport: SecureTransport, our_overlay: OverlayAddr) -> (r:
        Router)
        requires
            table.wf(),
            transport.wf(),
        ensures
            r.wf(),
            r.routes() == table@,
            r.session() == transport.session(),
            r.overlay() == our_overlay,
    {
        Router { table, transport, our_overlay }
    }

    /// The routes.
    pub fn table(&self) -> (r: &RoutingTable)
        requires
            self.wf(),
        ensures
            r.wf(),
            r@ == self.routes(),
    {
        &self.table
    }

    /// The routes, for changing them.
    pub fn table_mut(&mut self) -> (r: &mut RoutingTable)
        requires
            old(self).wf(),
        ensures
            r.wf(),
            r@ == old(self).routes(),
            final(r).wf() ==> final(self).wf(),
            final(self).routes() == final(r)@,
            final(self).session() == old(self).session(),
            final(self).overlay() == old(self).overlay(),
    {
        &mut self.table
    }

    /// Encrypts a packet for the peer that it goes to.
    pub fn route_outbound(&mut self, packet: &[u8]) -> (r: Result<
        Option<(PeerId, Vec<u8>)>,
        Error,
    >)
        requires
            old(self).wf(),
        ensures
            final(self).wf(),
            final(self).routes() == old(self).routes(),
            final(self).overlay() == old(self).overlay(),
            match r {
                Ok(Some((id, c))) => {
                    let s = old(self).session();
                    &&& is_ipv4(packet@)
                    &&& outbound_peer(old(self).routes(), old(self).overlay(), packet@) == Some(id)
                    &&& SecureTransport::can_encrypt(s, packet@)
                    &&& c@ == crate::noise::noise_seal(s.sending_key, s.sent, packet@)
                    &&& c@.len() == packet@.len() + 16
                    &&& crate::noise::noise_open(s.sending_key, s.sent, c@) == Some(packet@)
                    &&& final(self).session() == (NoiseSession { sent: s.sent + 1, ..s })
                },
                Ok(None) => {
                    &&& is_ipv4(packet@)
                    &&& outbound_peer(old(self).routes(), old(self).overlay(), packet@) is None
                    &&& final(self).session() == old(self).session()
                },
                Err(e) => {
                    &&& final(self).session() == old(self).session()
                    &&& if is_ipv4(packet@) {
                        &&& outbound_peer(old(self).routes(), old(self).overlay(), packet@) is Some
                        &&& !SecureTransport::can_encrypt(old(self).session(), packet@)
                        &&& crate::noise::transport_error(e, "encrypt: "@)
                    } else {
                        packet_error(packet@, e)
                    }
                },
            },
    {
        let parsed: ParsedPacket = match parse_ipv4_packet(packet) {
            Ok(p) => p,
            Err(e) => return Err(e),
        };
        if !self.table.is_overlay_dst(parsed.dst_ip) {
            return Ok(None);
        }
        if parsed.dst_ip == self.our_overlay.ip() {
            return Ok(None);
        }
        let peer_id: PeerId = match self.table.lookup(parsed.dst_ip) {
            Some(id) => *id,
            None => return Ok(None),
        };
        match self.transport.encrypt(packet) {
            Ok(c) => Ok(Some((peer_id, c))),
            Err(e) => Err(e),
        }
    }

    /// Decrypts a packet. What decrypts but is no IPv4 packet is an error, and
    /// counts as received.
    pub fn route_inbound(&mut self, encrypted: &[u8]) -> (r: Result<Vec<u8>, Error>)
        requires
            old(self).wf(),
        ensures
            final(self).wf(),
            final(self).routes() == old(self).routes(),
            final(self).overlay() == old(self).overlay(),
            ({
                let s = old(self).session();
                let plain = SecureTransport::opened(s, encrypted@);
                &&& final(self).session() == (if plain is Some {
                    NoiseSession { received: s.received + 1, ..s }
                } else {
                    s
                })
                &&& match r {
                    Ok(p) => plain == Some(p@) && is_ipv4(p@),
                    Err(e) => match plain {
                        Some(p) => !is_ipv4(p) && packet_error(p, e),
                        None => crate::noise::transport_error(e, "decrypt: "@),
                    },
                }
            }),
    {
        let decrypted: Vec<u8> = match self.transport.decrypt(encrypted) {
            Ok(p) => p,
            Err(e) => return Err(e),
        };
        match parse_ipv4_packet(decrypted.as_slice()) {
            Ok(_) => Ok(decrypted),
            Err(e) => Err(e),
        }
    }

    /// Our overlay address.
    pub fn our_overlay(&self) -> (r: OverlayAddr)
        ensures
            r == self.overlay(),
    {
        self.our_overlay
    }
}

// ---------------------------------------------------------------------------
// Mesh router
// ---------------------------------------------------------------------------
/// Routes packets through an encrypted session for each peer.
pub struct MeshRouter {
    table: RoutingTable,
    transports: Table<PeerId, SecureTransport>,
    our_overlay: OverlayAddr,
}

/// The sessions of a mesh router.
pub open spec fn sessions_of(t: Map<PeerId, SecureTransport>) -> Map<PeerId, NoiseSession> {
    t.map_values(|s: SecureTransport| s.session())
}

impl MeshRouter {
    /// The routes.
    pub closed spec fn routes(&self) -> Routes {
        self.table@
    }

    /// The session of each peer.
    pub closed spec fn sessions(&self) -> Map<PeerId, NoiseSession> {
        sessions_of(self.transports@)
    }

    /// Our overlay address.
    pub closed spec fn overlay(&self) -> OverlayAddr {
        self.our_overlay
    }

    /// Tables and sessions are in order.
    pub closed spec fn wf(&self) -> bool {
        &&& self.table.wf()
        &&& self.transports.wf()
        &&& forall|id: PeerId| #[trigger]
            self.transports@.contains_key(id) ==> self.transports@[id].wf()
    }

    /// A router with the given routes and no session.
    pub fn new(table: RoutingTable, our_overlay: OverlayAddr) -> (r: MeshRouter)
        requires
            table.wf(),
        ensures
            r.wf(),
            r.routes() == table@,
            r.sessions() == Map::<PeerId, NoiseSession>::empty(),
            r.overlay() == our_overlay,
    {
        let r: MeshRouter = MeshRouter { table, transports: Table::new(), our_overlay };
        assert(r.sessions() =~= Map::<PeerId, NoiseSession>::empty());
        r
    }

    /// The routes.
    pub fn table(&self) -> (r: &RoutingTable)
        requires
            self.wf(),
        ensures
            r.wf(),
            r@ == self.routes(),
    {
        &self.table
    }

    /// The routes, for changing them.
    pub fn table_mut(&mut self) -> (r: &mut RoutingTable)
        requires
            old(self).wf(),
        ensures
            r.wf(),
            r@ == old(self).routes(),
            final(r).wf() ==> final(self).wf(),
            final(self).routes() == final(r)@,
            final(self).sessions() == old(self).sessions(),
            final(self).overlay() == old(self).overlay(),
    {
        &mut self.table
    }

    /// Gives a peer a session, in place of one it had.
    pub fn add_transport(&mut self, peer_id: PeerId, transport: SecureTransport)
        requires
            old(self).wf(),
            transport.wf(),
        ensures
            final(self).wf(),
            final(self).routes() == old(self).routes(),
            final(self).overlay() == old(self).overlay(),
            final(self).sessions() == old(self).sessions().insert(peer_id, transport.session()),
    {
        self.transports.insert(peer_id, transport);
        assert(self.sessions() =~= old(self).sessions().insert(peer_id, transport.session()));
    }

    /// Takes the session of a peer away.
    pub fn remove_transport(&mut self, peer_id: &PeerId) -> (r: bool)
        requires
            old(self).wf(),
        ensures
            final(self).wf(),
            final(self).routes() == old(self).routes(),
            final(self).overlay() == old(self).overlay(),
            final(self).sessions() == old(self).sessions().remove(*peer_id),
            r == old(self).sessions().contains_key(*peer_id),
    {
        let r: bool = self.transports.remove(peer_id).is_some();
        assert(self.sessions() =~= old(self).sessions().remove(*peer_id));
        r
    }

    /// Encrypts a packet for the peer that it goes to, in that peer's session. A
    /// packet for a peer without a session goes nowhere.
    pub fn route_outbound(&mut self, packet: &[u8]) -> (r: Result<
        Option<(PeerId, Vec<u8>)>,
        Error,
    >)
        requires
            old(self).wf(),
        ensures
            final(self).wf(),
            final(self).routes() == old(self).routes(),
            final(self).overlay() == old(self).overlay(),
            match r {
                Ok(Some((id, c))) => {
                    let s = old(self).sessions()[id];
                    &&& is_ipv4(packet@)
                    &&& outbound_peer(old(self).routes(), old(self).overlay(), packet@) == Some(id)
                    &&& old(self).sessions().contains_key(id)
                    &&& SecureTransport::can_encrypt(s, packet@)
                    &&& c@ == crate::noise::noise_seal(s.sending_key, s.sent, packet@)
                    &&& c@.len() == packet@.len() + 16
                    &&& crate::noise::noise_open(s.sending_key, s.sent, c@) == Some(packet@)
                    &&& final(self).sessions() == old(self).sessions().insert(
                        id,
                        NoiseSession { sent: s.sent + 1, ..s },
                    )
                },
                Ok(None) => {
                    &&& is_ipv4(packet@)
                    &&& match outbound_peer(old(self).routes(), old(self).overlay(), packet@) {
                        Some(id) => !old(self).sessions().contains_key(id),
                        None => true,
                    }
                    &&& final(self).sessions() == old(self).sessions()
                },
                Err(e) => {
                    &&& final(self).sessions() == old(self).sessions()
                    &&& if is_ipv4(packet@) {
                        &&& outbound_peer(
                            old(self).routes(),
                            old(self).overlay(),
                            packet@,
                        ) matches Some(id) && old(self).sessions().contains_key(id)
                            && !SecureTransport::can_encrypt(old(self).sessions()[id], packet@)
                        &&& crate::noise::transport_error(e, "encrypt: "@)
                    } else {
                        packet_error(packet@, e)
                    }
                },
            },
    {
        let parsed: ParsedPacket = match parse_ipv4_packet(packet) {
            Ok(p) => p,
            Err(e) => return Err(e),
        };
        if !self.table.is_overlay_dst(parsed.dst_ip) {
            return Ok(None);
        }
        if parsed.dst_ip == self.our_overlay.ip() {
            return Ok(None);
        }
        let peer_id: PeerId = match self.table.lookup(parsed.dst_ip) {
            Some(id) => *id,
            None => return Ok(None),
        };
        let ghost before = self.transports@;
        let result = match self.transports.get_mut(&peer_id) {
            Some(t) => t.encrypt(packet),
            None => return Ok(None),
        };
        proof {
            assert(sessions_of(self.transports@) =~= sessions_of(before).insert(
                peer_id,
                self.transports@[peer_id].session(),
            ));
        }
        match result {
            Ok(c) => Ok(Some((peer_id, c))),
            Err(e) => {
                assert(sessions_of(self.transports@) =~= sessions_of(before));
                Err(e)
            },
        }
    }

    /// Decrypts a packet from a peer in that peer's session. What decrypts but is
    /// no IPv4 packet is an error, and counts as received; so is a packet from a
    /// peer without a session.
    pub fn route_inbound(&mut self, peer_id: &PeerId, encrypted: &[u8]) -> (r: Result<
        Vec<u8>,
        Error,
    >)
        requires
            old(self).wf(),
        ensures
            final(self).wf(),
            final(self).routes() == old(self).routes(),
            final(self).overlay() == old(self).overlay(),
            if old(self).sessions().contains_key(*peer_id) {
                let s = old(self).sessions()[*peer_id];
                let plain = SecureTransport::opened(s, encrypted@);
                &&& final(self).sessions() == (if plain is Some {
                    old(self).sessions().insert(
                        *peer_id,
                        NoiseSession { received: s.received + 1, ..s },
                    )
                } else {
                    old(self).sessions()
                })
                &&& match r {
                    Ok(p) => plain == Some(p@) && is_ipv4(p@),
                    Err(e) => match plain {
                        Some(p) => !is_ipv4(p) && packet_error(p, e),
                        None => crate::noise::transport_error(e, "decrypt: "@),
                    },
                }
            } else {
                &&& final(self).sessions() == old(self).sessions()
                &&& r matches Err(Error::NoiseTransport(m))
                &&& m@ == "no transport for "@ + crate::text::short_hex_text(peer_id@)
            },
    {
        let ghost before = self.transports@;
        let result = match self.transports.get_mut(peer_id) {
            Some(t) => t.decrypt(encrypted),
            None => {
                let mut m: String = String::new();
                push_text(&mut m, "no transport for ");
                push_text(&mut m, peer_id.short().as_str());
                assert(m@ =~= "no transport for "@ + crate::text::short_hex_text(peer_id@));
                return Err(Error::NoiseTransport(m));
            },
        };
        proof {
            assert(sessions_of(self.transports@) =~= sessions_of(before).insert(
                *peer_id,
                self.transports@[*peer_id].session(),
            ));
        }
        let decrypted: Vec<u8> = match result {
            Ok(p) => p,
            Err(e) => {
                assert(sessions_of(self.transports@) =~= sessions_of(before));
                return Err(e);
            },
        };
        match parse_ipv4_packet(decrypted.as_slice()) {
            Ok(_) => Ok(decrypted),
            Err(e) => Err(e),
        }
    }
}

// ---------------------------------------------------------------------------
// Laws
// ---------------------------------------------------------------------------
/// A route that was just added is found both ways.
pub proof fn added_route_is_found(r: Routes, ip: Ipv4Addr, id: PeerId)
    ensures
        r.with(ip, id).routes.contains_key(ip),
        r.with(ip, id).routes[ip] == id,
        r.with(ip, id).addrs.contains_key(id),
        r.with(ip, id).addrs[id] == ip,
{
}

/// A route that was removed is not found, and other routes are as before.
pub proof fn removed_route_is_gone(r: Routes, ip: Ipv4Addr, other: Ipv4Addr)
    requires
        other != ip,
    ensures
        !r.without(ip).routes.contains_key(ip),
        r.without(ip).routes.contains_key(other) == r.routes.contains_key(other),
        r.routes.contains_key(other) ==> r.without(ip).routes[other] == r.routes[other],
{
}

/// Adding a route for a new address and a new peer and removing it again changes
/// nothing.
pub proof fn remove_undoes_add(r: Routes, ip: Ipv4Addr, id: PeerId)
    requires
        !r.routes.contains_key(ip),
        !r.addrs.contains_key(id),
    ensures
        r.with(ip, id).without(ip) == r,
        r.with(ip, id).without_peer(id) == r,
{
    assert(r.with(ip, id).without(ip) =~= r);
    assert(r.with(ip, id).without_peer(id) =~= r);
}

/// What one router sends into a session, the router at the other end delivers
/// unchanged: a sealed IPv4 packet opens to the packet at a session that the
/// sender's session feeds.
pub proof fn packet_arrives(a: NoiseSession, b: NoiseSession, packet: Seq<u8>, c: Seq<u8>)
    requires
        crate::noise::feeds(a, b),
        is_ipv4(packet),
        SecureTransport::can_encrypt(a, packet),
        c.len() == packet.len() + 16,
        crate::noise::noise_open(a.sending_key, a.sent, c) == Some(packet),
    ensures
        SecureTransport::opened(b, c) == Some(packet),
{
}


/// A route leads its address to its peer and no other address anywhere new; taking a peer
/// or its address out leaves every other route.
pub proof fn routes_change_one_at_a_time(r: Routes, ip: Ipv4Addr, id: PeerId, other: Ipv4Addr)
    requires
        other != ip,
    ensures
        r.with(ip, id).routes.contains_key(other) == r.routes.contains_key(other),
        r.routes.contains_key(other) ==> r.with(ip, id).routes[other] == r.routes[other],
        r.routes.contains_key(ip) ==> !r.without(ip).addrs.contains_key(r.routes[ip]),
        !r.routes.contains_key(ip) ==> r.without(ip) == r,
        !r.addrs.contains_key(id) ==> r.without_peer(id) == r,
        r.addrs.contains_key(id) ==> {
            &&& !r.without_peer(id).addrs.contains_key(id)
            &&& !r.without_peer(id).routes.contains_key(r.addrs[id])
            &&& r.addrs[id] != other ==> r.without_peer(id).routes.contains_key(other)
                == r.routes.contains_key(other)
            &&& r.addrs[id] != other && r.routes.contains_key(other) ==> r.without_peer(
                id,
            ).routes[other] == r.routes[other]
        },
{
}

/// A packet goes to the peer at the address that its bytes sixteen to nineteen name, if
/// that address lies in 10.88.0.0/16, is not our own and has a route; other packets go
/// to nobody.
pub proof fn packets_follow_their_address(routes: Routes, ours: OverlayAddr, packet: Seq<u8>)
    requires
        packet.len() >= 20,
    ensures
        ({
            let dst = Ipv4Addr { a: packet[16], b: packet[17], c: packet[18], d: packet[19] };
            match outbound_peer(routes, ours, packet) {
                Some(id) => packet[16] == 10 && packet[17] == 88 && dst != ours.addr
                    && routes.routes.contains_key(dst) && routes.routes[dst] == id,
                None => packet[16] != 10 || packet[17] != 88 || dst == ours.addr
                    || !routes.routes.contains_key(dst),
            }
        }),
{
}

/// A packet is one of version 4 if it has room for the header and its first four bits
/// say so; its sender stands in the bytes twelve to fifteen.
pub proof fn headers_are_read_in_place(data: Seq<u8>)
    requires
        data.len() >= 20,
    ensures
        is_ipv4(data) <==> 0x40 <= data[0] <= 0x4F,
        ip_at(data, 12).bytes() == data.subrange(12, 16),
        ip_at(data, 16).bytes() == data.subrange(16, 20),
        !is_ipv4(data.take(19)),
{
    assert(ip_at(data, 12).bytes() =~= data.subrange(12, 16));
    assert(ip_at(data, 16).bytes() =~= data.subrange(16, 20));
}
} // verus!
