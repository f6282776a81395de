//! What a device is in its network, and what it starts with.
use crate::codec::DecodeError;
use crate::config::{FileWrite, StateDir};
use crate::derive::{derive_infohash, derive_network_secret};
use crate::device::DeviceKeys;
use crate::error::Error;
use crate::manager::PeerManager;
use crate::net::{Ipv6Addr, SocketAddr};
use crate::node::Node;
use crate::overlay::AllocationTable;
use crate::routing::RoutingTable;
use crate::text::{array_20, push_dec, push_text};
use crate::transport::TransportKind;
use crate::types::{InfoHash, NetworkSecret, OverlayAddr, PeerId, Seed};
use vstd::prelude::*;

verus! {

/// Seconds between announcements on the distributed hash table, and between looks
/// for the public address.
pub const DHT_ANNOUNCE_INTERVAL_SECS: u64 = 300;

/// Seconds between broadcasts of the peer directory.
pub const PEER_DIRECTORY_BROADCAST_INTERVAL_SECS: u64 = 30;

/// Seconds between pings.
pub const HEALTHCHECK_INTERVAL_SECS: u64 = 5;

/// Milliseconds between looks whether the public address is known.
pub const ADDRESS_WAIT_MILLIS: u64 = 500;

/// How often to look whether the public address is known.
pub const ADDRESS_WAIT_ROUNDS: u8 = 10;

/// What the engine is told.
pub struct SeedNetConfig {
    pub seed: Seed,
    pub port: u16,
    pub state_dir: StateDir,
    /// The transports to enable.
    pub transports: Vec<TransportKind>,
    /// Trackers to announce to and to ask for peers.
    pub tracker_urls: Vec<String>,
    /// Addresses of peers to connect to at once.
    pub direct_peers: Vec<SocketAddr>,
}

impl SeedNetConfig {
    /// A configuration with all transports, the given trackers and no direct peers.
    pub fn new(seed: Seed, port: u16, state_dir: StateDir, trackers: Vec<String>) -> (r:
        SeedNetConfig)
        ensures
            r.seed@ == seed@,
            r.port == port,
            r.state_dir@ == state_dir@,
            r.transports@ == seq![TransportKind::Udp, TransportKind::Tcp, TransportKind::Ws],
            r.tracker_urls@ == trackers@,
            r.direct_peers@.len() == 0,
    {
        let mut transports: Vec<TransportKind> = Vec::new();
        transports.push(TransportKind::Udp);
        transports.push(TransportKind::Tcp);
        transports.push(TransportKind::Ws);
        assert(transports@ =~= seq![TransportKind::Udp, TransportKind::Tcp, TransportKind::Ws]);
        SeedNetConfig {
            seed,
            port,
            state_dir,
            transports,
            tracker_urls: trackers,
            direct_peers: Vec::new(),
        }
    }
}

/// A device in its network.
pub struct SeedNetEngine {
    config: SeedNetConfig,
    infohash: InfoHash,
    node: Node,
    allocation_table: AllocationTable,
}

impl SeedNetEngine {
    /// The network is that of the seed, the infohash is that of the network, and
    /// the tables are in order.
    pub closed spec fn wf(&self) -> bool {
        &&& self.node.wf()
        &&& self.allocation_table.wf()
        &&& self.node@.network == crate::derive::network_secret_of(self.config.seed@)
        &&& self.infohash@ == crate::derive::infohash_of(self.node@.network)
        &&& self.node@.overlay == crate::derive::overlay_of(self.node@.id)
        &&& self.node@.overlay_ipv6 == crate::derive::overlay_ipv6_of(self.node@.id)
    }

    /// The bytes of the seed.
    pub closed spec fn seed(&self) -> Seq<u8> {
        self.config.seed@
    }

    /// The state of the node.
    pub closed spec fn state(&self) -> crate::node_state::NodeState {
        self.node@
    }

    /// The allocated overlay addresses.
    pub closed spec fn allocations(&self) -> crate::overlay::Allocations {
        self.allocation_table@
    }

    /// The preferred port.
    pub closed spec fn preferred_port(&self) -> u16 {
        self.config.port
    }

    /// The path of the state directory.
    pub closed spec fn dir(&self) -> Seq<char> {
        self.config.state_dir@
    }

    /// The transports to enable.
    pub closed spec fn transports(&self) -> Seq<TransportKind> {
        self.config.transports@
    }

    /// The trackers.
    pub closed spec fn trackers(&self) -> Seq<String> {
        self.config.tracker_urls@
    }

    /// The peers to connect to at once.
    pub closed spec fn direct_peers(&self) -> Seq<SocketAddr> {
        self.config.direct_peers@
    }

    /// Whether two engines were told the same.
    pub open spec fn told_as(&self, other: &SeedNetEngine) -> bool {
        &&& self.seed() == other.seed()
        &&& self.preferred_port() == other.preferred_port()
        &&& self.dir() == other.dir()
        &&& self.transports() == other.transports()
        &&& self.trackers() == other.trackers()
        &&& self.direct_peers() == other.direct_peers()
    }

    /// Whether the keys of the device are those in the contents of an identity file.
    pub open spec fn comes_from(&self, contents: Seq<u8>) -> bool {
        crate::device::identity_decoded(contents) == Ok::<(u32, Seq<u8>), DecodeError>(
            (1u32, self.state().device),
        )
    }

    /// What holds of every engine: the id and the static key come from the secret of
    /// the device, the network comes from the seed, and the overlay addresses come from
    /// the id.
    pub proof fn place_follows_identity(&self)
        requires
            self.wf(),
        ensures
            self.state().id@ == crate::device::ed25519_public(self.state().device),
            self.state().secret == crate::device::clamped(self.state().device),
            self.state().network == crate::derive::network_secret_of(self.seed()),
            self.state().overlay == crate::derive::overlay_of(self.state().id),
            self.state().overlay_ipv6 == crate::derive::overlay_ipv6_of(self.state().id),
    {
        self.node.lemma_ok();
    }

    /// An engine. The identity comes from the contents of the identity file; if
    /// there is none, it is a random one, and there is a write to do, of contents that
    /// it comes from.
    pub fn new(config: SeedNetConfig, identity: Option<&[u8]>, hostname: String) -> (r: Result<
        (SeedNetEngine, Option<FileWrite>),
        Error,
    >)
        ensures
            r matches Ok(made) ==> {
                let engine = made.0;
                &&& engine.wf()
                &&& engine.seed() == config.seed@
                &&& engine.preferred_port() == config.port
                &&& engine.dir() == config.state_dir@
                &&& engine.transports() == config.transports@
                &&& engine.trackers() == config.tracker_urls@
                &&& engine.direct_peers() == config.direct_peers@
                &&& engine.state().is_new(
                    crate::derive::network_secret_of(config.seed@),
                    engine.state().device,
                    hostname@,
                )
                &&& engine.allocations() == (crate::overlay::Allocations {
                    by_peer: Map::empty(),
                    by_ip: Map::empty(),
                })
            },
            match identity {
                None => {
                    &&& r matches Ok((engine, Some(w)))
                    &&& engine.state().device.len() == 32
                    &&& engine.comes_from(w.bytes@)
                    &&& crate::config::writes(
                        w,
                        config.state_dir@,
                        crate::config::IDENTITY_FILENAME@,
                        crate::device::identity_bytes(1, engine.state().device),
                        0o600,
                    )
                },
                Some(b) => match crate::device::identity_decoded(b@) {
                    Ok((version, seed)) => if version == 1 {
                        &&& r matches Ok((engine, None))
                        &&& engine.state().device == seed
                        &&& engine.comes_from(b@)
                    } else {
                        r matches Err(e) && e == Error::UnsupportedIdentityVersion(version)
                    },
                    Err(cause) => r matches Err(Error::IdentityCorrupt(m)) && m@
                        == "serialization error: "@ + cause.text(),
                },
            },
    {
        let network: NetworkSecret = derive_network_secret(&config.seed);
        let infohash: InfoHash = derive_infohash(&network);
        let (keys, write): (DeviceKeys, Option<FileWrite>) =
            match config.state_dir.load_or_create_identity(identity) {
            Ok(found) => found,
            Err(e) => return Err(e),
        };
        let ghost seed = keys.seed();
        let node: Node = Node::new(network, keys, hostname);
        let engine: SeedNetEngine = SeedNetEngine {
            config,
            infohash,
            node,
            allocation_table: AllocationTable::new(),
        };
        proof {
            engine.place_follows_identity();
            if identity is None {
                crate::config::stored_identity_is_found(seed);
            }
        }
        Ok((engine, write))
    }

    /// Enters this device into the allocation table, as the first thing that a
    /// running engine does. Gives the overlay address that the device has, which is
    /// the one derived from its id whatever the table says. In a table without
    /// entries that is the one entered.
    pub fn start(&mut self) -> (r: OverlayAddr)
        requires
            old(self).wf(),
        ensures
            final(self).wf(),
            r == old(self).state().overlay,
            final(self).state() == old(self).state(),
            if old(self).allocations().by_peer.contains_key(old(self).state().id) {
                final(self).allocations() == old(self).allocations()
            } else {
                exists|slot: u8|
                    {
                        &&& #[trigger] old(self).allocations().is_next_slot(
                            old(self).state().overlay,
                            slot,
                        )
                        &&& final(self).allocations() == crate::overlay::allocated(
                            old(self).allocations(),
                            old(self).state().id,
                            slot,
                        )
                    }
            },
            old(self).allocations() == (crate::overlay::Allocations {
                by_peer: Map::empty(),
                by_ip: Map::empty(),
            }) ==> {
                &&& final(self).allocations().by_peer.contains_key(old(self).state().id)
                &&& final(self).allocations().by_peer[old(self).state().id].overlay == r
            },
            final(self).told_as(old(self)),
    {
        let id: PeerId = self.node.id();
        let ghost base = crate::derive::overlay_of(id);
        proof {
            assert(self.allocation_table@.by_ip == Map::<
                crate::net::Ipv4Addr,
                PeerId,
            >::empty()
                ==> !self.allocation_table@.taken(base, 0));
            assert(crate::overlay::fallback_of(base, 0) == base);
        }
        self.allocation_table.allocate(id);
        self.node.overlay()
    }

    /// The secret of the network.
    pub fn network_secret(&self) -> (r: &NetworkSecret)
        requires
            self.wf(),
        ensures
            r@ == crate::derive::network_secret_of(self.seed()),
    {
        self.node.network_secret()
    }

    /// The infohash under which the network is found.
    pub fn infohash(&self) -> (r: &InfoHash)
        requires
            self.wf(),
        ensures
            r@ == crate::derive::infohash_of(crate::derive::network_secret_of(self.seed())),
    {
        &self.infohash
    }

    /// The id of this device.
    pub fn our_peer_id(&self) -> (r: PeerId)
        requires
            self.wf(),
        ensures
            r == self.state().id,
    {
        self.node.id()
    }

    /// The overlay address of this device.
    pub fn our_overlay(&self) -> (r: OverlayAddr)
        requires
            self.wf(),
        ensures
            r == crate::derive::overlay_of(self.state().id),
    {
        self.node.overlay()
    }

    /// The IPv6 overlay address of this device.
    pub fn our_overlay_ipv6(&self) -> (r: Ipv6Addr)
        requires
            self.wf(),
        ensures
            r == crate::derive::overlay_ipv6_of(self.state().id),
    {
        self.node.overlay_ipv6()
    }

    /// The keys of this device.
    pub fn device_keys(&self) -> (r: &DeviceKeys)
        requires
            self.wf(),
        ensures
            r.seed() == self.state().device,
            r.noise_secret() == self.state().secret,
    {
        self.node.device_keys()
    }

    /// Known peers.
    pub fn peer_manager(&self) -> (r: &PeerManager)
        requires
            self.wf(),
        ensures
            r.wf(),
            r@ == self.state().peers,
    {
        self.node.peers()
    }

    /// The allocated overlay addresses.
    pub fn allocation_table(&self) -> (r: &AllocationTable)
        requires
            self.wf(),
        ensures
            r.wf(),
            r@ == self.allocations(),
    {
        &self.allocation_table
    }

    /// The allocated overlay addresses, for changing them.
    pub fn allocation_table_mut(&mut self) -> (r: &mut AllocationTable)
        requires
            old(self).wf(),
        ensures
            r.wf(),
            r@ == old(self).allocations(),
            final(r).wf() ==> final(self).wf(),
            final(self).allocations() == final(r)@,
            final(self).state() == old(self).state(),
            final(self).told_as(old(self)),
    {
        &mut self.allocation_table
    }

    /// Routes.
    pub fn routing_table(&self) -> (r: &RoutingTable)
        requires
            self.wf(),
        ensures
            r.wf(),
            r@ == self.state().routes,
    {
        self.node.routes()
    }

    /// Routes, for changing them.
    pub fn routing_table_mut(&mut self) -> (r: &mut RoutingTable)
        requires
            old(self).wf(),
        ensures
            r.wf(),
            r@ == old(self).state().routes,
            final(r).wf() ==> final(self).wf(),
            final(self).state() == (crate::node_state::NodeState {
                routes: final(r)@,
                ..old(self).state()
            }),
            final(self).allocations() == old(self).allocations(),
            final(self).told_as(old(self)),
    {
        self.node.routes_mut()
    }

    /// The preferred port.
    pub fn port(&self) -> (r: u16)
        ensures
            r == self.preferred_port(),
    {
        self.config.port
    }

    /// The state directory.
    pub fn state_dir(&self) -> (r: &StateDir)
        ensures
            r@ == self.dir(),
    {
        &self.config.state_dir
    }

    /// The infohash, as trackers are told it.
    pub fn infohash_bytes(&self) -> (r: [u8; 20])
        requires
            self.wf(),
        ensures
            r@ == crate::derive::infohash_of(crate::derive::network_secret_of(self.seed())),
    {
        let r: [u8; 20] = array_20(self.infohash.as_bytes(), 0);
        assert(r@ =~= self.infohash@);
        r
    }

    /// The id of this device, as trackers are told it: its first twenty bytes.
    pub fn tracker_peer_id(&self) -> (r: [u8; 20])
        requires
            self.wf(),
        ensures
            r@ == self.state().id@.take(20),
    {
        let id: PeerId = self.node.id();
        let r: [u8; 20] = array_20(id.as_bytes(), 0);
        assert(r@ =~= self.state().id@.take(20));
        r
    }

    /// Gives up the configuration and the node that is to run.
    pub fn into_parts(self) -> (r: (SeedNetConfig, Node))
        requires
            self.wf(),
        ensures
            r.0.seed@ == self.seed(),
            r.0.port == self.preferred_port(),
            r.0.state_dir@ == self.dir(),
            r.0.transports@ == self.transports(),
            r.0.tracker_urls@ == self.trackers(),
            r.0.direct_peers@ == self.direct_peers(),
            r.1.wf(),
            r.1@ == self.state(),
    {
        (self.config, self.node)
    }
}

/// Whether to wait another round for the public address before the peers are told
/// of each other.
pub fn keep_waiting(rounds: u8, known: bool) -> (r: bool)
    ensures
        r == (rounds < ADDRESS_WAIT_ROUNDS && !known),
{
    rounds < ADDRESS_WAIT_ROUNDS && !known
}

// ---------------------------------------------------------------------------
// Status
// ---------------------------------------------------------------------------
/// The line above and below the status.
pub const STATUS_RULE: &'static str = "──────────────────────────────────────────────────";

/// What is told of an engine.
pub open spec fn status_text(
    infohash: Seq<u8>,
    id: Seq<u8>,
    overlay: Seq<char>,
    port: u16,
    dir: Seq<char>,
) -> Seq<char> {
    "SeedNet status\n"@ + STATUS_RULE@ + "\n  Infohash    : "@ + crate::text::hex_text(infohash)
        + "\n  PeerId      : "@ + crate::text::hex_text(id) + "\n  Overlay IP  : "@ + overlay
        + "\n  Port        : "@ + crate::text::dec_text(port as nat) + "\n  State dir   : "@ + dir
        + "\n"@ + STATUS_RULE@ + "\n"@
}

/// Tells of an engine.
pub fn print_status(engine: &SeedNetEngine) -> (s: String)
    requires
        engine.wf(),
    ensures
        s@ == status_text(
            crate::derive::infohash_of(crate::derive::network_secret_of(engine.seed())),
            engine.state().id@,
            crate::derive::overlay_of(engine.state().id).addr.text(),
            engine.preferred_port(),
            engine.dir(),
        ),
{
    let mut s: String = "SeedNet status\n".to_owned();
    push_text(&mut s, STATUS_RULE);
    push_text(&mut s, "\n  Infohash    : ");
    push_text(&mut s, engine.infohash().to_text().as_str());
    push_text(&mut s, "\n  PeerId      : ");
    push_text(&mut s, engine.our_peer_id().to_text().as_str());
    push_text(&mut s, "\n  Overlay IP  : ");
    push_text(&mut s, engine.our_overlay().to_text().as_str());
    push_text(&mut s, "\n  Port        : ");
    push_dec(&mut s, engine.port() as u64);
    push_text(&mut s, "\n  State dir   : ");
    push_text(&mut s, engine.state_dir().path());
    push_text(&mut s, "\n");
    push_text(&mut s, STATUS_RULE);
    push_text(&mut s, "\n");
    s
}

// ---------------------------------------------------------------------------
// Laws
// ---------------------------------------------------------------------------
/// Devices that were given the same seed are in the same network, whatever their
/// identities: they hold the same secret and look for each other under the same
/// infohash.
pub proof fn same_seed_same_network(a: SeedNetEngine, b: SeedNetEngine)
    requires
        a.wf(),
        b.wf(),
        a.seed() == b.seed(),
    ensures
        a.state().network == b.state().network,
        crate::derive::infohash_of(a.state().network) == crate::derive::infohash_of(
            b.state().network,
        ),
{
}

/// Devices whose keys are in the same identity file are one device: same id, and so
/// same overlay addresses, whatever their seeds. The file may be the one that the
/// first start of the device wrote.
pub proof fn same_identity_file_same_device(
    a: SeedNetEngine,
    b: SeedNetEngine,
    contents: Seq<u8>,
)
    requires
        a.wf(),
        b.wf(),
        a.comes_from(contents),
        b.comes_from(contents),
    ensures
        a.state().device == b.state().device,
        a.state().id == b.state().id,
        a.state().overlay == b.state().overlay,
        a.state().overlay_ipv6 == b.state().overlay_ipv6,
{
    a.place_follows_identity();
    b.place_follows_identity();
    crate::types::peer_id_by_bytes(a.state().id, b.state().id);
}

/// A device has the same overlay addresses in every network.
pub proof fn same_device_same_address(a: SeedNetEngine, b: SeedNetEngine)
    requires
        a.wf(),
        b.wf(),
        a.state().id@ == b.state().id@,
    ensures
        a.state().overlay == b.state().overlay,
        a.state().overlay_ipv6 == b.state().overlay_ipv6,
{
    crate::types::peer_id_by_bytes(a.state().id, b.state().id);
}


/// The status names the hash, our id, our overlay address, the port and the directory,
/// each in a line of its own.
pub proof fn the_status_names_everything(
    infohash: Seq<u8>,
    id: Seq<u8>,
    overlay: Seq<char>,
    port: u16,
    dir: Seq<char>,
)
    ensures
        ({
            let t = status_text(infohash, id, overlay, port, dir);
            let a = "SeedNet status\n"@ + STATUS_RULE@ + "\n  Infohash    : "@;
            let b = a + crate::text::hex_text(infohash) + "\n  PeerId      : "@;
            let c = b + crate::text::hex_text(id) + "\n  Overlay IP  : "@;
            let d = c + overlay + "\n  Port        : "@;
            let e = d + crate::text::dec_text(port as nat) + "\n  State dir   : "@;
            &&& t.subrange(a.len() as int, a.len() as int + 2 * infohash.len())
                == crate::text::hex_text(infohash)
            &&& t.subrange(b.len() as int, b.len() as int + 2 * id.len()) == crate::text::hex_text(
                id,
            )
            &&& t.subrange(c.len() as int, c.len() as int + overlay.len()) == overlay
            &&& t.subrange(e.len() as int, e.len() as int + dir.len()) == dir
        }),
{
    let t = status_text(infohash, id, overlay, port, dir);
    let a = "SeedNet status\n"@ + STATUS_RULE@ + "\n  Infohash    : "@;
    let b = a + crate::text::hex_text(infohash) + "\n  PeerId      : "@;
    let c = b + crate::text::hex_text(id) + "\n  Overlay IP  : "@;
    let d = c + overlay + "\n  Port        : "@;
    let e = d + crate::text::dec_text(port as nat) + "\n  State dir   : "@;
    assert(t.subrange(a.len() as int, a.len() as int + 2 * infohash.len())
        =~= crate::text::hex_text(infohash));
    assert(t.subrange(b.len() as int, b.len() as int + 2 * id.len()) =~= crate::text::hex_text(id));
    assert(t.subrange(c.len() as int, c.len() as int + overlay.len()) =~= overlay);
    assert(t.subrange(e.len() as int, e.len() as int + dir.len()) =~= dir);
}
} // verus!
