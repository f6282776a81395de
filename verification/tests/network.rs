//! Overlay addresses, routes, routers, the TUN device and the public address.
use seednet::constants::OVERLAY_MTU;
use seednet::derive::{derive_network_secret, derive_overlay_addr};
use seednet::device::{DeviceKeys, DeviceSeedBytes};
use seednet::error::{Error, IoError, IoKind};
use seednet::net::{Ipv4Addr, Ipv6Addr, SocketAddr};
use seednet::noise::{complete_handshake_pair, SecureTransport};
use seednet::overlay::{
    ip_in_overlay_subnet, is_in_overlay_subnet, resolve_overlay_ip, subnet_mask_u32,
    AllocationTable,
};
use seednet::routing::{
    parse_ipv4_packet, MeshRouter, Router, RoutingTable, IPV4_DST_OFFSET, IPV4_HEADER_MIN_LEN,
    IPV4_SRC_OFFSET,
};
use seednet::stun::{
    binding_request, first_ipv4, is_stun_packet, no_address_error, parse_stun_response, StunError,
    StunSearch, STUN_MAGIC,
};
use seednet::tun::{
    create_tun, judge_link, judge_route, link_command, route_command, subnet_mask, AsyncTunDevice,
    CommandOutcome, HostSystem, TunConfig, TunReader, TunWriter, Verdict,
};
use seednet::types::{OverlayAddr, PeerId, Seed};
use std::collections::HashSet;

fn test_peer_id(n: u8) -> PeerId {
    PeerId::from_bytes([n; 32])
}

// ---------------------------------------------------------------------------
// Overlay addresses
// ---------------------------------------------------------------------------
#[test]
fn deterministic_allocation() {
    let id = test_peer_id(42);
    let addr = resolve_overlay_ip(&id);
    assert_eq!(addr, derive_overlay_addr(&id));
}

#[test]
fn allocation_table_basic() {
    let mut table = AllocationTable::new();
    let id = test_peer_id(1);
    let addr = table.allocate(id);
    assert_eq!(table.len(), 1);
    assert_eq!(table.lookup_by_peer(&id).unwrap().overlay, addr);
    assert_eq!(table.lookup_by_ip(addr.ip()), Some(&id));
}

#[test]
fn duplicate_allocate_returns_same() {
    let mut table = AllocationTable::new();
    let id = test_peer_id(1);
    let a1 = table.allocate(id);
    let a2 = table.allocate(id);
    assert_eq!(a1, a2);
    assert_eq!(table.len(), 1);
}

#[test]
fn remove_deallocation() {
    let mut table = AllocationTable::new();
    let id = test_peer_id(1);
    let addr = table.allocate(id);
    let removed = table.remove(&id).unwrap();
    assert_eq!(removed.overlay, addr);
    assert!(table.is_empty());
    assert!(table.lookup_by_ip(addr.ip()).is_none());
}

#[test]
fn check_overlay_subnet() {
    let in_net = OverlayAddr::new(Ipv4Addr::new(10, 88, 1, 1));
    let out_net = OverlayAddr::new(Ipv4Addr::new(192, 168, 1, 1));
    assert!(is_in_overlay_subnet(in_net));
    assert!(!is_in_overlay_subnet(out_net));
    assert!(ip_in_overlay_subnet(Ipv4Addr::new(10, 88, 255, 255)));
    assert!(!ip_in_overlay_subnet(Ipv4Addr::new(10, 89, 0, 0)));
}

#[test]
fn collision_resolution_falls_back() {
    let mut table = AllocationTable::new();
    let id_a = test_peer_id(1);
    let id_b = test_peer_id(2);
    let addr_a = table.allocate(id_a);

    let mut raw_b = [0u8; 32];
    raw_b.copy_from_slice(id_b.as_bytes());
    let derived_b = derive_overlay_addr(&id_b);

    let addr_b = table.allocate(id_b);
    if derived_b == addr_a {
        assert_ne!(addr_b, addr_a, "collision should be resolved");
    }
    assert_eq!(table.len(), 2);
}

#[test]
fn many_allocations_no_panic() {
    let mut table = AllocationTable::new();
    for i in 1u8..=50 {
        let id = PeerId::from_bytes([i; 32]);
        let _addr = table.allocate(id);
    }
    assert_eq!(table.len(), 50);
}

#[test]
fn all_allocations_in_subnet() {
    let mut table = AllocationTable::new();
    for i in 1u8..=100 {
        let id = PeerId::from_bytes([i; 32]);
        let addr = table.allocate(id);
        assert!(is_in_overlay_subnet(addr), "addr {} not in overlay subnet", addr.to_text());
    }
}

#[test]
fn allocations_stay_distinct() {
    let mut table = AllocationTable::new();
    let mut seen: HashSet<OverlayAddr> = HashSet::new();
    let mut moved = 0;
    for i in 0u32..3000 {
        let mut raw = [0u8; 32];
        raw[..4].copy_from_slice(&i.to_le_bytes());
        let id = PeerId::from_bytes(raw);
        let addr = table.allocate(id);
        assert!(seen.insert(addr), "given twice");
        let kept = table.lookup_by_peer(&id).unwrap();
        assert_eq!(kept.overlay, addr);
        if kept.slot != 0 {
            moved += 1;
            assert_ne!(addr, derive_overlay_addr(&id));
        }
    }
    assert!(moved > 0, "no collision among so many");
    assert_eq!(table.all_allocations().len(), 3000);
}

#[test]
fn two_devices_get_distinct_overlay_ips_and_routes() {
    let keys_a = DeviceKeys::from_seed(DeviceSeedBytes::from_bytes([0xAA; 32]));
    let keys_b = DeviceKeys::from_seed(DeviceSeedBytes::from_bytes([0xBB; 32]));

    let id_a = keys_a.peer_id();
    let id_b = keys_b.peer_id();

    let overlay_a = derive_overlay_addr(&id_a);
    let overlay_b = derive_overlay_addr(&id_b);

    assert_ne!(overlay_a, overlay_b);
    assert!(overlay_a.ip().octets()[0] == 10 && overlay_a.ip().octets()[1] == 88);
    assert!(overlay_b.ip().octets()[0] == 10 && overlay_b.ip().octets()[1] == 88);

    let mut table = AllocationTable::new();
    let alloc_a = table.allocate(id_a);
    let alloc_b = table.allocate(id_b);

    assert_eq!(alloc_a, overlay_a);
    assert_eq!(alloc_b, overlay_b);

    let mut routing = RoutingTable::new();
    routing.add_route(overlay_a, id_a);
    routing.add_route(overlay_b, id_b);

    assert_eq!(routing.lookup(overlay_a.ip()), Some(&id_a));
    assert_eq!(routing.lookup(overlay_b.ip()), Some(&id_b));
}

#[test]
fn allocation_collision_resolution() {
    let mut table = AllocationTable::new();

    let id_a = PeerId::from_bytes([0x10; 32]);
    let overlay_a = table.allocate(id_a);

    let id_b = PeerId::from_bytes([0x20; 32]);
    let derived_b = derive_overlay_addr(&id_b);

    if derived_b == overlay_a {
        let overlay_b = table.allocate(id_b);
        assert_ne!(overlay_b, overlay_a, "collision must be resolved to a different IP");
        assert_eq!(table.len(), 2);
    } else {
        let overlay_b = table.allocate(id_b);
        assert_eq!(table.len(), 2);
        assert_ne!(overlay_a, overlay_b);
    }
}

#[test]
fn allocation_table_many_peers_lifecycle() {
    let mut table = AllocationTable::new();
    let mut ids = Vec::new();
    let mut overlays = Vec::new();

    for i in 1u8..=20 {
        let id = PeerId::from_bytes([i; 32]);
        let overlay = table.allocate(id);
        ids.push(id);
        overlays.push(overlay);
    }

    assert_eq!(table.len(), 20);

    for overlay in &overlays {
        let octets = overlay.ip().octets();
        assert_eq!(&octets[..2], &[10, 88]);
    }

    for i in 0..10 {
        let removed = table.remove(&ids[i]).unwrap();
        assert_eq!(removed.overlay, overlays[i]);
    }
    assert_eq!(table.len(), 10);

    for i in 10..20 {
        assert!(table.lookup_by_peer(&ids[i]).is_some());
    }
}

// ---------------------------------------------------------------------------
// Routing
// ---------------------------------------------------------------------------
fn make_transport_pair() -> (SecureTransport, SecureTransport) {
    let secret = derive_network_secret(&Seed::from_passphrase("routing test"));
    let keys_a = DeviceKeys::from_seed(DeviceSeedBytes::from_bytes([0x11u8; 32]));
    let keys_b = DeviceKeys::from_seed(DeviceSeedBytes::from_bytes([0x22u8; 32]));
    complete_handshake_pair(&secret, &keys_a, &secret, &keys_b).unwrap()
}

fn make_empty_packet(src: Ipv4Addr, dst: Ipv4Addr, payload_len: usize) -> Vec<u8> {
    make_ipv4_packet(src, dst, &vec![0u8; payload_len])
}

fn make_ipv4_packet(src: Ipv4Addr, dst: Ipv4Addr, payload: &[u8]) -> Vec<u8> {
    let total = IPV4_HEADER_MIN_LEN + payload.len();
    let mut pkt = vec![0u8; total];
    pkt[0] = 0x45;
    pkt[2] = ((total >> 8) & 0xFF) as u8;
    pkt[3] = (total & 0xFF) as u8;
    pkt[8] = 64;
    pkt[9] = 6;
    pkt[IPV4_SRC_OFFSET..IPV4_SRC_OFFSET + 4].copy_from_slice(&src.octets());
    pkt[IPV4_DST_OFFSET..IPV4_DST_OFFSET + 4].copy_from_slice(&dst.octets());
    pkt[IPV4_HEADER_MIN_LEN..].copy_from_slice(payload);
    pkt
}

#[test]
fn parse_valid_ipv4() {
    let src = Ipv4Addr::new(10, 88, 1, 1);
    let dst = Ipv4Addr::new(10, 88, 1, 2);
    let pkt = make_empty_packet(src, dst, 20);
    let parsed = parse_ipv4_packet(&pkt).unwrap();
    assert_eq!(parsed.src_ip, src);
    assert_eq!(parsed.dst_ip, dst);
}

#[test]
fn parse_too_short() {
    assert!(parse_ipv4_packet(&[0x45, 0, 0, 0]).is_err());
}

#[test]
fn parse_wrong_version() {
    let localhost = Ipv4Addr::new(127, 0, 0, 1);
    let mut pkt = make_empty_packet(localhost, localhost, 0);
    pkt[0] = 0x60;
    assert!(parse_ipv4_packet(&pkt).is_err());
}

#[test]
fn routing_table_lookup() {
    let mut table = RoutingTable::new();
    let id = test_peer_id(1);
    let overlay = OverlayAddr::new(Ipv4Addr::new(10, 88, 1, 1));
    table.add_route(overlay, id);
    assert_eq!(table.lookup(Ipv4Addr::new(10, 88, 1, 1)), Some(&id));
    assert_eq!(table.lookup(Ipv4Addr::new(10, 88, 1, 99)), None);
}

#[test]
fn routing_table_remove() {
    let mut table = RoutingTable::new();
    let id = test_peer_id(1);
    let overlay = OverlayAddr::new(Ipv4Addr::new(10, 88, 1, 1));
    table.add_route(overlay, id);
    let removed = table.remove_route(&overlay).unwrap();
    assert_eq!(removed, id);
    assert!(table.is_empty());
}

#[test]
fn routing_table_remove_peer() {
    let mut table = RoutingTable::new();
    let id = test_peer_id(1);
    let overlay = OverlayAddr::new(Ipv4Addr::new(10, 88, 1, 1));
    table.add_route(overlay, id);
    assert_eq!(table.lookup_peer_ip(&id), Some(overlay.ip()));
    assert_eq!(table.remove_peer(&id), Some(overlay));
    assert_eq!(table.remove_peer(&id), None);
    assert_eq!(table.lookup(overlay.ip()), None);
    assert_eq!(table.lookup_peer_ip(&id), None);
}

#[test]
fn is_overlay_dst() {
    let table = RoutingTable::new();
    assert!(table.is_overlay_dst(Ipv4Addr::new(10, 88, 1, 1)));
    assert!(table.is_overlay_dst(Ipv4Addr::new(10, 88, 0, 0)));
    assert!(!table.is_overlay_dst(Ipv4Addr::new(192, 168, 1, 1)));
}

#[test]
fn router_outbound_encrypts_and_routes() {
    let mut table = RoutingTable::new();
    let id = test_peer_id(1);
    let dst = OverlayAddr::new(Ipv4Addr::new(10, 88, 1, 2));
    let our = OverlayAddr::new(Ipv4Addr::new(10, 88, 1, 1));
    table.add_route(dst, id);

    let (t_a, _) = make_transport_pair();
    let mut router = Router::new(table, t_a, our);

    let pkt = make_empty_packet(our.ip(), dst.ip(), 20);
    let result = router.route_outbound(&pkt).unwrap();
    assert!(result.is_some());
    let (routed_peer, encrypted) = result.unwrap();
    assert_eq!(routed_peer, id);
    assert_ne!(encrypted, pkt);
}

#[test]
fn router_outbound_non_overlay_returns_none() {
    let table = RoutingTable::new();
    let our = OverlayAddr::new(Ipv4Addr::new(10, 88, 1, 1));
    let (t_a, _) = make_transport_pair();
    let mut router = Router::new(table, t_a, our);

    let pkt =
        make_empty_packet(Ipv4Addr::new(10, 88, 1, 1), Ipv4Addr::new(192, 168, 1, 1), 20);
    assert!(router.route_outbound(&pkt).unwrap().is_none());
}

#[test]
fn router_inbound_decrypts() {
    let mut table = RoutingTable::new();
    let id = test_peer_id(1);
    let dst = OverlayAddr::new(Ipv4Addr::new(10, 88, 1, 2));
    let our = OverlayAddr::new(Ipv4Addr::new(10, 88, 1, 1));
    table.add_route(dst, id);

    let (t_a, mut t_b) = make_transport_pair();
    let mut router = Router::new(table, t_a, our);

    let pkt = make_empty_packet(our.ip(), dst.ip(), 20);
    let (_, encrypted) = router.route_outbound(&pkt).unwrap().unwrap();

    let decrypted: Vec<u8> = t_b.decrypt(&encrypted).unwrap();
    assert_eq!(decrypted, pkt);

    let back = t_b.encrypt(&pkt).unwrap();
    assert_eq!(router.route_inbound(&back).unwrap(), pkt);
    assert!(router.route_inbound(&back).is_err());
}

#[test]
fn router_outbound_self_dst_returns_none() {
    let mut table = RoutingTable::new();
    let our = OverlayAddr::new(Ipv4Addr::new(10, 88, 1, 1));
    table.add_route(our, test_peer_id(99));
    let (t_a, _) = make_transport_pair();
    let mut router = Router::new(table, t_a, our);

    let pkt = make_empty_packet(our.ip(), our.ip(), 20);
    assert!(router.route_outbound(&pkt).unwrap().is_none());
}

#[test]
fn router_encrypt_decrypt_full_simulation() {
    let secret = derive_network_secret(&Seed::from_passphrase("routing integration"));
    let keys_a = DeviceKeys::from_seed(DeviceSeedBytes::from_bytes([0xAA; 32]));
    let keys_b = DeviceKeys::from_seed(DeviceSeedBytes::from_bytes([0xBB; 32]));

    let id_a = keys_a.peer_id();
    let id_b = keys_b.peer_id();
    let overlay_a = derive_overlay_addr(&id_a);
    let overlay_b = derive_overlay_addr(&id_b);

    let (t_a, mut t_b) = complete_handshake_pair(&secret, &keys_a, &secret, &keys_b).unwrap();

    let mut table = RoutingTable::new();
    table.add_route(overlay_b, id_b);

    let mut router_a = Router::new(table, t_a, overlay_a);

    let packet = make_ipv4_packet(overlay_a.ip(), overlay_b.ip(), b"TCP SYN data");

    let result = router_a.route_outbound(&packet).unwrap();
    let (routed_peer, encrypted) = result.unwrap();
    assert_eq!(routed_peer, id_b);

    let decrypted: Vec<u8> = t_b.decrypt(&encrypted).unwrap();
    assert_eq!(decrypted, packet);

    let parsed = parse_ipv4_packet(&decrypted).unwrap();
    assert_eq!(parsed.src_ip, overlay_a.ip());
    assert_eq!(parsed.dst_ip, overlay_b.ip());
}

#[test]
fn router_drops_non_overlay_packets() {
    let secret = derive_network_secret(&Seed::from_passphrase("drop test"));
    let keys_a = DeviceKeys::from_seed(DeviceSeedBytes::from_bytes([0xAA; 32]));
    let keys_b = DeviceKeys::from_seed(DeviceSeedBytes::from_bytes([0xBB; 32]));

    let id_b = keys_b.peer_id();
    let overlay_a = derive_overlay_addr(&keys_a.peer_id());

    let (t_a, _) = complete_handshake_pair(&secret, &keys_a, &secret, &keys_b).unwrap();

    let mut table = RoutingTable::new();
    table.add_route(OverlayAddr::new(Ipv4Addr::new(10, 88, 1, 2)), id_b);

    let mut router = Router::new(table, t_a, overlay_a);

    let packet = make_ipv4_packet(overlay_a.ip(), Ipv4Addr::new(8, 8, 8, 8), b"DNS query");
    let result = router.route_outbound(&packet).unwrap();
    assert!(result.is_none(), "non-overlay packets must be dropped");
}

#[test]
fn router_drops_self_addressed_packets() {
    let secret = derive_network_secret(&Seed::from_passphrase("self drop"));
    let keys_a = DeviceKeys::from_seed(DeviceSeedBytes::from_bytes([0xAA; 32]));
    let keys_b = DeviceKeys::from_seed(DeviceSeedBytes::from_bytes([0xBB; 32]));

    let overlay_a = derive_overlay_addr(&keys_a.peer_id());

    let (t_a, _) = complete_handshake_pair(&secret, &keys_a, &secret, &keys_b).unwrap();

    let table = RoutingTable::new();
    let mut router = Router::new(table, t_a, overlay_a);

    let packet = make_ipv4_packet(overlay_a.ip(), overlay_a.ip(), b"loopback");
    let result = router.route_outbound(&packet).unwrap();
    assert!(result.is_none(), "self-addressed packets must be dropped");
}

#[test]
fn route_removal_prevents_forwarding() {
    let secret = derive_network_secret(&Seed::from_passphrase("route rm"));
    let keys_a = DeviceKeys::from_seed(DeviceSeedBytes::from_bytes([0xAA; 32]));
    let keys_b = DeviceKeys::from_seed(DeviceSeedBytes::from_bytes([0xBB; 32]));

    let id_b = keys_b.peer_id();
    let overlay_a = derive_overlay_addr(&keys_a.peer_id());
    let overlay_b = derive_overlay_addr(&id_b);

    let (t_a, _) = complete_handshake_pair(&secret, &keys_a, &secret, &keys_b).unwrap();

    let mut table = RoutingTable::new();
    table.add_route(overlay_b, id_b);

    let mut router = Router::new(table, t_a, overlay_a);

    let packet = make_ipv4_packet(overlay_a.ip(), overlay_b.ip(), b"data");
    assert!(router.route_outbound(&packet).unwrap().is_some());

    let removed = router.table_mut().remove_route(&overlay_b).unwrap();
    assert_eq!(removed, id_b);
    assert!(router.table().is_empty());

    assert!(router.route_outbound(&packet).unwrap().is_none());
}

// ---------------------------------------------------------------------------
// Mesh
// ---------------------------------------------------------------------------
struct TestPeer {
    id: PeerId,
    overlay: OverlayAddr,
    keys: DeviceKeys,
}

fn make_test_peer(seed_byte: u8) -> TestPeer {
    let keys = DeviceKeys::from_seed(DeviceSeedBytes::from_bytes([seed_byte; 32]));
    let id = keys.peer_id();
    let overlay = derive_overlay_addr(&id);
    TestPeer { id, overlay, keys }
}

#[test]
fn three_peers_router_a_can_reach_b_and_c() {
    let secret = derive_network_secret(&Seed::from_passphrase("multi-peer routing"));
    let a = make_test_peer(0xAA);
    let b = make_test_peer(0xBB);
    let c = make_test_peer(0xCC);

    let (t_ab, mut t_ba) = complete_handshake_pair(&secret, &a.keys, &secret, &b.keys).unwrap();
    let (t_ac, mut t_ca) = complete_handshake_pair(&secret, &a.keys, &secret, &c.keys).unwrap();

    let mut table = RoutingTable::new();
    table.add_route(b.overlay, b.id);
    table.add_route(c.overlay, c.id);

    let mut router_a = MeshRouter::new(table, a.overlay);
    router_a.add_transport(b.id, t_ab);
    router_a.add_transport(c.id, t_ac);

    let pkt_to_b = make_ipv4_packet(a.overlay.ip(), b.overlay.ip(), b"hello B");
    let (peer_b, enc_b) = router_a.route_outbound(&pkt_to_b).unwrap().unwrap();
    assert_eq!(peer_b, b.id);
    let dec_b: Vec<u8> = t_ba.decrypt(&enc_b).unwrap();
    assert_eq!(dec_b, pkt_to_b);

    let pkt_to_c = make_ipv4_packet(a.overlay.ip(), c.overlay.ip(), b"hello C");
    let (peer_c, enc_c) = router_a.route_outbound(&pkt_to_c).unwrap().unwrap();
    assert_eq!(peer_c, c.id);
    let dec_c: Vec<u8> = t_ca.decrypt(&enc_c).unwrap();
    assert_eq!(dec_c, pkt_to_c);
}

#[test]
fn three_peers_inbound_from_multiple_peers() {
    let secret = derive_network_secret(&Seed::from_passphrase("multi-peer inbound"));
    let a = make_test_peer(0xAA);
    let b = make_test_peer(0xBB);
    let c = make_test_peer(0xCC);

    let (mut t_ab, t_ba) = complete_handshake_pair(&secret, &a.keys, &secret, &b.keys).unwrap();
    let (mut t_ac, t_ca) = complete_handshake_pair(&secret, &a.keys, &secret, &c.keys).unwrap();

    let table = RoutingTable::new();
    let mut router_a = MeshRouter::new(table, a.overlay);
    router_a.add_transport(b.id, t_ba);
    router_a.add_transport(c.id, t_ca);

    let pkt_b = make_ipv4_packet(b.overlay.ip(), a.overlay.ip(), b"from B");
    let enc_b = t_ab.encrypt(&pkt_b).unwrap();
    let dec_b = router_a.route_inbound(&b.id, &enc_b).unwrap();
    assert_eq!(dec_b, pkt_b);

    let pkt_c = make_ipv4_packet(c.overlay.ip(), a.overlay.ip(), b"from C");
    let enc_c = t_ac.encrypt(&pkt_c).unwrap();
    let dec_c = router_a.route_inbound(&c.id, &enc_c).unwrap();
    assert_eq!(dec_c, pkt_c);
}

#[test]
fn five_peers_mesh_routing() {
    let secret = derive_network_secret(&Seed::from_passphrase("mesh routing"));
    let seeds: [u8; 5] = [0x10, 0x20, 0x30, 0x40, 0x50];
    let peers: Vec<TestPeer> = seeds.iter().map(|&s| make_test_peer(s)).collect();

    let mut table = RoutingTable::new();
    let mut transports: Vec<(usize, usize, SecureTransport)> = Vec::new();

    for i in 0..5 {
        for j in 0..5 {
            if i == j {
                continue;
            }
            let (t_ij, _) =
                complete_handshake_pair(&secret, &peers[i].keys, &secret, &peers[j].keys).unwrap();
            transports.push((i, j, t_ij));
        }
        table.add_route(peers[i].overlay, peers[i].id);
    }

    let mut router_0 = MeshRouter::new(table, peers[0].overlay);
    for (i, j, t) in transports {
        if i == 0 {
            router_0.add_transport(peers[j].id, t);
        }
    }

    for j in 1..5 {
        let pkt = make_ipv4_packet(peers[0].overlay.ip(), peers[j].overlay.ip(), b"mesh pkt");
        let (routed_peer, encrypted) = router_0.route_outbound(&pkt).unwrap().unwrap();
        assert_eq!(routed_peer, peers[j].id, "peer 0 must route to peer {j}");
        assert!(!encrypted.is_empty());
    }
}

#[test]
fn remove_peer_isolates_from_mesh() {
    let secret = derive_network_secret(&Seed::from_passphrase("isolation test"));
    let a = make_test_peer(0xAA);
    let b = make_test_peer(0xBB);
    let c = make_test_peer(0xCC);

    let (t_ab, _) = complete_handshake_pair(&secret, &a.keys, &secret, &b.keys).unwrap();
    let (t_ac, _) = complete_handshake_pair(&secret, &a.keys, &secret, &c.keys).unwrap();

    let mut table = RoutingTable::new();
    table.add_route(b.overlay, b.id);
    table.add_route(c.overlay, c.id);

    let mut router_a = MeshRouter::new(table, a.overlay);
    router_a.add_transport(b.id, t_ab);
    router_a.add_transport(c.id, t_ac);

    let pkt_b = make_ipv4_packet(a.overlay.ip(), b.overlay.ip(), b"to B");
    assert!(router_a.route_outbound(&pkt_b).unwrap().is_some());

    router_a.remove_transport(&b.id);
    let removed = router_a.table_mut().remove_route(&b.overlay).unwrap();
    assert_eq!(removed, b.id);

    assert!(router_a.route_outbound(&pkt_b).unwrap().is_none());

    let pkt_c = make_ipv4_packet(a.overlay.ip(), c.overlay.ip(), b"to C");
    assert!(router_a.route_outbound(&pkt_c).unwrap().is_some());
}

#[test]
fn bidirectional_exchange_between_three_peers() {
    let secret = derive_network_secret(&Seed::from_passphrase("bidir 3-way"));
    let a = make_test_peer(0xAA);
    let b = make_test_peer(0xBB);
    let c = make_test_peer(0xCC);

    let (mut t_ab, mut t_ba) = complete_handshake_pair(&secret, &a.keys, &secret, &b.keys).unwrap();
    let (mut t_ac, mut t_ca) = complete_handshake_pair(&secret, &a.keys, &secret, &c.keys).unwrap();
    let (mut t_bc, mut t_cb) = complete_handshake_pair(&secret, &b.keys, &secret, &c.keys).unwrap();

    let pkt_ab = make_ipv4_packet(a.overlay.ip(), b.overlay.ip(), b"A->B");
    let enc_ab = t_ab.encrypt(&pkt_ab).unwrap();
    let dec_ab: Vec<u8> = t_ba.decrypt(&enc_ab).unwrap();
    assert_eq!(dec_ab, pkt_ab);

    let pkt_bc = make_ipv4_packet(b.overlay.ip(), c.overlay.ip(), b"B->C");
    let enc_bc = t_bc.encrypt(&pkt_bc).unwrap();
    let dec_bc: Vec<u8> = t_cb.decrypt(&enc_bc).unwrap();
    assert_eq!(dec_bc, pkt_bc);

    let pkt_ca = make_ipv4_packet(c.overlay.ip(), a.overlay.ip(), b"C->A");
    let enc_ca = t_ca.encrypt(&pkt_ca).unwrap();
    let dec_ca: Vec<u8> = t_ac.decrypt(&enc_ca).unwrap();
    let parsed = parse_ipv4_packet(&dec_ca).unwrap();
    assert_eq!(parsed.src_ip, c.overlay.ip());
    assert_eq!(parsed.dst_ip, a.overlay.ip());
}

#[test]
fn router_with_many_transports_selects_correct_peer() {
    let secret = derive_network_secret(&Seed::from_passphrase("many transports"));
    let target = make_test_peer(0xFF);

    let table = RoutingTable::new();
    let mut router = MeshRouter::new(table, OverlayAddr::new(Ipv4Addr::new(10, 88, 0, 1)));

    for i in 1u8..=20 {
        let peer = make_test_peer(i);
        let (t, _) = complete_handshake_pair(&secret, &peer.keys, &secret, &target.keys).unwrap();
        router.table_mut().add_route(peer.overlay, peer.id);
        router.add_transport(peer.id, t);
    }

    assert_eq!(router.table().len(), 20);

    let peer_7 = make_test_peer(7);
    let pkt =
        make_ipv4_packet(Ipv4Addr::new(10, 88, 0, 1), peer_7.overlay.ip(), b"find peer 7");
    let (routed, encrypted) = router.route_outbound(&pkt).unwrap().unwrap();
    assert_eq!(routed, peer_7.id);
    assert!(!encrypted.is_empty());
}

#[test]
fn mesh_router_without_a_session() {
    let b = make_test_peer(0xBB);
    let mut table = RoutingTable::new();
    table.add_route(b.overlay, b.id);
    let our = OverlayAddr::new(Ipv4Addr::new(10, 88, 0, 1));
    let mut router = MeshRouter::new(table, our);
    assert!(router.route_inbound(&b.id, b"x").is_err());
    assert!(!router.remove_transport(&b.id));
}

// ---------------------------------------------------------------------------
// TUN device
// ---------------------------------------------------------------------------
#[test]
fn tun_config_overlay_ip() {
    let overlay = OverlayAddr::new(Ipv4Addr::new(10, 88, 1, 42));
    let cfg = TunConfig::new(overlay);
    assert_eq!(cfg.overlay_addr(), Ipv4Addr::new(10, 88, 1, 42));
    assert_eq!(cfg.netmask, Ipv4Addr::new(255, 255, 0, 0));
    assert_eq!(cfg.mtu, OVERLAY_MTU);
    assert_eq!(cfg.network(), Ipv4Addr::new(10, 88, 0, 0));
}

#[test]
fn subnet_mask_calculation() {
    assert_eq!(subnet_mask(16), Ipv4Addr::new(255, 255, 0, 0));
    assert_eq!(subnet_mask(24), Ipv4Addr::new(255, 255, 255, 0));
    assert_eq!(subnet_mask(32), Ipv4Addr::new(255, 255, 255, 255));
    assert_eq!(subnet_mask(0), Ipv4Addr::new(0, 0, 0, 0));
    assert_eq!(subnet_mask_u32(16), 0xffff_0000);
    assert_eq!(subnet_mask_u32(0), 0);
}

#[test]
fn with_name_and_mtu() {
    let overlay = OverlayAddr::new(Ipv4Addr::new(10, 88, 1, 1));
    let cfg = TunConfig::new(overlay).with_name("seednet0".to_string()).with_mtu(9000);
    assert_eq!(cfg.name.as_deref(), Some("seednet0"));
    assert_eq!(cfg.mtu, 9000);
}

#[test]
fn with_ipv6_address() {
    let overlay = OverlayAddr::new(Ipv4Addr::new(10, 88, 1, 1));
    let mut octets = [0u8; 16];
    octets[0] = 0xfd;
    octets[15] = 1;
    let ip = Ipv6Addr::from_octets(&octets);
    assert_eq!(TunConfig::new(overlay).with_ipv6(ip).overlay_ipv6, Some(ip));
    assert_eq!(ip.to_text(), "fd00::1");
}

#[test]
fn create_tun_requires_privileges() {
    let overlay = OverlayAddr::new(Ipv4Addr::new(10, 88, 1, 1));
    let cfg = TunConfig::new(overlay);
    let result = create_tun(&cfg);
    assert!(result.is_err());
    assert!(matches!(result, Err(Error::Io(e)) if e.kind == IoKind::PermissionDenied));
}

#[test]
fn device_without_platform_support() {
    let cfg = TunConfig::new(OverlayAddr::new(Ipv4Addr::new(10, 88, 1, 1)));
    let unsupported = |e: Error| match e {
        Error::Io(e) => {
            assert_eq!(e.kind, IoKind::Unsupported);
            e.text
        }
        other => panic!("{other:?}"),
    };
    let refused = AsyncTunDevice::create(&cfg).err().unwrap();
    assert!(unsupported(refused).contains("requires Unix"));
    let mut buf = Vec::new();
    let text = "TUN device is not supported on this platform";
    assert_eq!(unsupported(TunReader.recv(&mut buf).err().unwrap()), text);
    assert_eq!(unsupported(TunWriter.send(b"x").err().unwrap()), text);
}

#[test]
fn interface_commands() {
    let ip = Ipv4Addr::new(10, 88, 1, 2);
    let mask = Ipv4Addr::new(255, 255, 0, 0);
    let mac = link_command(HostSystem::MacOs, "utun7", &ip, &mask);
    assert_eq!(mac.program, "ifconfig");
    assert_eq!(mac.args, ["utun7", "10.88.1.2", "10.88.1.2", "netmask", "255.255.0.0", "up"]);
    let linux = link_command(HostSystem::Linux, "seednet0", &ip, &mask);
    assert_eq!(linux.program, "ip");
    assert_eq!(linux.args, ["link", "set", "seednet0", "up"]);
    let route = route_command(HostSystem::MacOs, "utun7");
    assert_eq!(route.program, "route");
    assert_eq!(
        route.args,
        ["-q", "-n", "add", "-net", "10.88.0.0/16", "-interface", "utun7"]
    );
    let route = route_command(HostSystem::Linux, "seednet0");
    assert_eq!(route.program, "ip");
    assert_eq!(route.args, ["route", "add", "10.88.0.0/16", "dev", "seednet0"]);
}

#[test]
fn interface_verdicts() {
    let failure = |m: &str| CommandOutcome::Failure(m.to_string());
    let gone = || IoError { kind: IoKind::NotFound, text: "gone".to_string() };
    assert!(matches!(judge_link(HostSystem::Linux, CommandOutcome::Success), Verdict::Fine));
    assert!(matches!(
        judge_link(HostSystem::Linux, failure("no")),
        Verdict::Warning(m) if m == "ip link set up failed: no"
    ));
    assert!(matches!(
        judge_link(HostSystem::MacOs, CommandOutcome::NotRun(gone())),
        Verdict::Abort(Error::Io(e)) if e == gone()
    ));
    assert!(matches!(judge_route(HostSystem::MacOs, CommandOutcome::Success), Verdict::Fine));
    assert!(matches!(
        judge_route(HostSystem::Linux, failure("RTNETLINK answers: File exists")),
        Verdict::Fine
    ));
    assert!(matches!(
        judge_route(HostSystem::MacOs, failure("nope")),
        Verdict::Warning(m) if m == "route add failed: nope"
    ));
    assert!(matches!(
        judge_route(HostSystem::Linux, CommandOutcome::NotRun(gone())),
        Verdict::Warning(m) if m == "ip route command failed: gone"
    ));
}

// ---------------------------------------------------------------------------
// Public address
// ---------------------------------------------------------------------------
fn build_xor_mapped_response(ip: [u8; 4], port: u16) -> Vec<u8> {
    let xor_port = (port ^ (STUN_MAGIC >> 16) as u16).to_be_bytes();
    let xor_ip = (u32::from_be_bytes(ip) ^ STUN_MAGIC).to_be_bytes();
    let attr: Vec<u8> = vec![
        0x00, 0x20, 0x00, 0x08, 0x00, 0x01, xor_port[0], xor_port[1], xor_ip[0], xor_ip[1],
        xor_ip[2], xor_ip[3],
    ];
    let msg_len = (attr.len() as u16).to_be_bytes();
    let mut resp = Vec::new();
    resp.extend_from_slice(&[0x01, 0x01]);
    resp.extend_from_slice(&msg_len);
    resp.extend_from_slice(&STUN_MAGIC.to_be_bytes());
    resp.extend_from_slice(b"seednet-stun");
    resp.extend(attr);
    resp
}

#[test]
fn parse_xor_mapped_address() {
    let expected = SocketAddr::v4(Ipv4Addr::new(203, 0, 113, 42), 54321);
    let buf = build_xor_mapped_response([203, 0, 113, 42], 54321);
    let got = parse_stun_response(&buf).unwrap();
    assert_eq!(got, expected);
    assert_eq!(got.to_text(), "203.0.113.42:54321");
}

#[test]
fn loopback_stun_mock() {
    let request = binding_request();
    assert!(is_stun_packet(&request));
    let client_port = 40123u16;
    let resp = build_xor_mapped_response([127, 0, 0, 1], client_port);
    let discovered = parse_stun_response(&resp).unwrap();
    assert_eq!(discovered.port(), client_port);
}

#[test]
fn plain_mapped_address_is_read_too() {
    let mut resp = vec![0x01, 0x01, 0x00, 0x0c];
    resp.extend_from_slice(&STUN_MAGIC.to_be_bytes());
    resp.extend_from_slice(b"seednet-stun");
    resp.extend_from_slice(&[0x00, 0x01, 0x00, 0x08, 0x00, 0x01, 0x10, 0x92, 198, 51, 100, 7]);
    let got = parse_stun_response(&resp).unwrap();
    assert_eq!(got.to_text(), "198.51.100.7:4242");
}

#[test]
fn stun_request_bytes() {
    let request = binding_request();
    assert_eq!(request.len(), 20);
    assert_eq!(&request[..8], &[0x00, 0x01, 0x00, 0x00, 0x21, 0x12, 0xa4, 0x42]);
    assert_eq!(&request[8..], b"seednet-stun");
    assert!(!is_stun_packet(b"seednet-hs-a"));
    assert!(!is_stun_packet(&request[..7]));
}

#[test]
fn stun_errors() {
    assert!(parse_stun_response(&[0u8; 4]).is_err());
    let mut other = build_xor_mapped_response([1, 2, 3, 4], 5);
    other[20] = 0x7f;
    assert!(parse_stun_response(&other).is_err());
    assert_eq!(StunError::Timeout.to_text().is_empty(), false);
    assert!(no_address_error("stun.example").to_text().contains("no A record for stun.example"));
}

#[test]
fn stun_servers_are_tried_in_order() {
    let servers = ["one", "two"];
    let mut search = StunSearch::new();
    assert_eq!(search.server(&servers), Some("one"));
    search.failed(StunError::Io("refused".to_string()));
    assert_eq!(search.server(&servers), Some("two"));
    search.failed(StunError::Timeout);
    assert_eq!(search.server(&servers), None);
    assert_eq!(search.into_error(), StunError::Timeout);
    assert_eq!(StunSearch::new().into_error(), StunError::BadResponse("no servers"));
}

#[test]
fn the_first_ipv4_address_is_taken() {
    let v6 = SocketAddr::V6 { ip: Ipv6Addr::from_octets(&[0u8; 16]), port: 1, flowinfo: 0, scope_id: 0 };
    let v4 = SocketAddr::v4(Ipv4Addr::new(1, 2, 3, 4), 2);
    assert_eq!(first_ipv4(&[v6, v4]), Some(v4));
    assert_eq!(first_ipv4(&[v6]), None);
}
