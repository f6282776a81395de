//! Nodes that talk to each other, and what a running node tells about itself.
use seednet::claim::{finish_initiator, finish_responder, make_claim, read_claim};
use seednet::channel::{MessageChannel, Received};
use seednet::derive::{derive_network_secret, derive_overlay_addr};
use seednet::device::{DeviceKeys, DeviceSeedBytes};
use seednet::error::Error;
use seednet::manager::PeerEvent;
use seednet::message::{
    deserialize_message, serialize_message, InboundMessage, Message, OutboundMessage,
};
use seednet::net::{Ipv4Addr, SocketAddr};
use seednet::node::{Node, Output};
use seednet::noise::{InitiatorHandshake, ResponderHandshake, SecureTransport};
use seednet::peer::PathKind;
use seednet::punch::{ack_bytes, probe_bytes, PunchCoordinator};
use seednet::reach::is_publicly_routable;
use seednet::relay::RelayTable;
use seednet::rows::read_peers_file;
use seednet::snapshot::{
    asks_for_snapshot, build_peer_entry, build_peers_json, empty_peers_json, local_json, on_event,
};
use seednet::state::PeerState;
use seednet::transport::TransportAddr;
use seednet::types::{PeerId, Seed};
use std::time::{Duration, Instant};

fn addr(i: usize) -> SocketAddr {
    SocketAddr::v4(Ipv4Addr::new(203, 0, 113, i as u8 + 1), 4242)
}

fn keys(n: u8) -> DeviceKeys {
    DeviceKeys::from_seed(DeviceSeedBytes::from_bytes([n; 32]))
}

fn id(n: u8) -> PeerId {
    keys(n).peer_id()
}

fn node(phrase: &str, n: u8) -> Node {
    let secret = derive_network_secret(&Seed::from_passphrase(phrase));
    Node::new(secret, keys(n), format!("host-{n}"))
}

struct Net {
    nodes: Vec<Node>,
    tun: Vec<Vec<Vec<u8>>>,
    cut: Vec<(usize, usize)>,
    now_ms: u64,
}

impl Net {
    fn new(n: u8) -> Net {
        Net {
            nodes: (0..n).map(|i| node("the net", i + 1)).collect(),
            tun: (0..n).map(|_| Vec::new()).collect(),
            cut: Vec::new(),
            now_ms: 1000,
        }
    }

    fn deliver(&mut self, from: usize, to: SocketAddr, bytes: &[u8]) {
        for j in 0..self.nodes.len() {
            if addr(j) == to && !self.cut.contains(&(from, j)) && !self.cut.contains(&(j, from)) {
                let at = TransportAddr::Udp(addr(from));
                let now_ns = self.now_ms * 1_000_000;
                self.nodes[j].on_datagram(at, bytes, now_ns, self.now_ms, Instant::now());
            }
        }
    }

    fn settle(&mut self) {
        for _ in 0..1000 {
            let mut quiet = true;
            for i in 0..self.nodes.len() {
                for out in self.nodes[i].take_output() {
                    quiet = false;
                    match out {
                        Output::Send { to, bytes } => self.deliver(i, to.socket_addr(), &bytes),
                        Output::Call { to, bytes } => self.deliver(i, to, &bytes),
                        Output::Finish { to, bytes } => {
                            self.deliver(i, to, &bytes);
                            self.nodes[i].finish_handshake(to, true, Instant::now());
                        }
                        Output::Tun(packet) => self.tun[i].push(packet),
                    }
                }
            }
            if quiet {
                return;
            }
        }
        panic!("the nodes do not come to rest");
    }

    fn connect(&mut self, i: usize, j: usize) {
        assert!(self.nodes[i].start_handshake(addr(j), self.now_ms * 1_000_000).unwrap());
        self.settle();
    }
}

fn packet(src: Ipv4Addr, dst: Ipv4Addr, payload: &[u8]) -> Vec<u8> {
    let total = 20 + payload.len();
    let mut pkt = vec![0u8; total];
    pkt[0] = 0x45;
    pkt[2] = (total >> 8) as u8;
    pkt[3] = total as u8;
    pkt[12..16].copy_from_slice(&src.octets());
    pkt[16..20].copy_from_slice(&dst.octets());
    pkt[20..].copy_from_slice(payload);
    pkt
}

// ---------------------------------------------------------------------------
// Handshakes
// ---------------------------------------------------------------------------
#[test]
fn a_node_begins_with_nothing() {
    let n = node("x", 1);
    assert_eq!(n.id(), keys(1).peer_id());
    assert_eq!(n.overlay(), derive_overlay_addr(&n.id()));
    assert_eq!(n.hostname(), "host-1");
    assert_eq!(n.public_addr(), None);
    assert!(!n.can_relay());
    assert!(n.session_ids().is_empty());
    assert_eq!(n.peers().peer_count(), 0);
    assert!(n.routes().is_empty());
}

#[test]
fn two_nodes_connect() {
    let mut net = Net::new(2);
    net.connect(0, 1);
    assert_eq!(net.nodes[0].session_ids(), vec![id(2)]);
    assert_eq!(net.nodes[1].session_ids(), vec![id(1)]);
    for (i, other) in [(0, 2u8), (1, 1u8)] {
        let peer = net.nodes[i].peers().get(&id(other)).unwrap();
        assert_eq!(peer.state(), PeerState::Connected);
        assert!(peer.state_elapsed() < Duration::from_secs(20));
        assert_eq!(peer.hostname(), format!("host-{other}"));
        assert_eq!(peer.overlay_ipv6(), Some(net.nodes[other as usize - 1].overlay_ipv6()));
        assert_eq!(
            net.nodes[i].routes().lookup(net.nodes[other as usize - 1].overlay().ip()),
            Some(&id(other))
        );
    }
}

#[test]
fn packets_cross_a_session() {
    let mut net = Net::new(2);
    net.connect(0, 1);
    let (a, b) = (net.nodes[0].overlay().ip(), net.nodes[1].overlay().ip());
    let there = packet(a, b, b"hello");
    net.nodes[0].on_tun_packet(&there, 0);
    net.settle();
    assert_eq!(net.tun[1], vec![there]);
    let back = packet(b, a, b"hello yourself");
    net.nodes[1].on_tun_packet(&back, 0);
    net.settle();
    assert_eq!(net.tun[0], vec![back]);
}

#[test]
fn peers_are_connected_since_the_given_time() {
    let mut a = node("the net", 1);
    let mut b = node("the net", 2);
    let later = Instant::now() + Duration::from_secs(3600);
    assert!(a.start_handshake(addr(1), 0).unwrap());
    let call = match a.take_output().remove(0) {
        Output::Call { bytes, .. } => bytes,
        other => panic!("{other:?}"),
    };
    b.on_datagram(TransportAddr::Udp(addr(0)), &call, 0, 0, Instant::now());
    let answer = match b.take_output().remove(0) {
        Output::Send { bytes, .. } => bytes,
        other => panic!("{other:?}"),
    };
    a.on_datagram(TransportAddr::Udp(addr(1)), &answer, 0, 0, Instant::now());
    let last = match a.take_output().remove(0) {
        Output::Finish { bytes, .. } => bytes,
        other => panic!("{other:?}"),
    };
    a.finish_handshake(addr(1), true, later);
    b.on_datagram(TransportAddr::Udp(addr(0)), &last, 0, 0, later);
    assert_eq!(a.peers().get(&id(2)).unwrap().state_elapsed(), Duration::ZERO);
    assert_eq!(b.peers().get(&id(1)).unwrap().state_elapsed(), Duration::ZERO);
}

#[test]
fn own_packets_come_back() {
    let mut net = Net::new(1);
    let own = net.nodes[0].overlay().ip();
    let pkt = packet(own, own, b"loop");
    net.nodes[0].on_tun_packet(&pkt, 0);
    net.settle();
    assert_eq!(net.tun[0], vec![pkt]);
    net.nodes[0].on_tun_packet(&[], 0);
    assert!(net.nodes[0].take_output().is_empty());
}

#[test]
fn nodes_of_different_networks_do_not_connect() {
    let mut net = Net::new(2);
    net.nodes[1] = node("another net", 2);
    net.connect(0, 1);
    assert!(net.nodes[0].session_ids().is_empty());
    assert!(net.nodes[1].session_ids().is_empty());
}

#[test]
fn a_handshake_is_begun_once() {
    let mut n = node("x", 1);
    assert!(n.start_handshake(addr(1), 5).unwrap());
    assert!(!n.start_handshake(addr(1), 6).unwrap());
    assert!(!n.consider(addr(1)));
    assert!(!n.handshake_timed_out(addr(1), 6));
    assert!(n.handshake_timed_out(addr(1), 5));
    assert!(!n.handshake_timed_out(addr(1), 5));
    assert!(n.consider(addr(1)));
    assert!(n.start_handshake(addr(1), 7).unwrap());
    n.call_failed(&addr(1));
    assert!(n.start_handshake(addr(1), 8).unwrap());
}

#[test]
fn a_last_message_that_is_not_sent_still_ends_the_handshake() {
    let mut a = node("the net", 1);
    let mut b = node("the net", 2);
    assert!(a.start_handshake(addr(1), 0).unwrap());
    let call = a.take_output();
    let bytes = match &call[0] {
        Output::Call { to, bytes } => {
            assert_eq!(*to, addr(1));
            bytes.clone()
        }
        other => panic!("expected a call, got {other:?}"),
    };
    assert!(bytes.starts_with(b"seednet-hs-a"));
    b.on_datagram(TransportAddr::Udp(addr(0)), &bytes, 0, 0, Instant::now());
    let answer = match b.take_output().remove(0) {
        Output::Send { to, bytes } => {
            assert_eq!(to, TransportAddr::Udp(addr(0)));
            bytes
        }
        other => panic!("expected an answer, got {other:?}"),
    };
    assert!(answer.starts_with(b"seednet-hs-b"));
    a.on_datagram(TransportAddr::Udp(addr(1)), &answer, 0, 0, Instant::now());
    assert!(matches!(a.take_output()[0], Output::Finish { .. }));
    assert!(a.session_ids().is_empty());
    a.finish_handshake(addr(1), false, Instant::now());
    a.finish_handshake(addr(7), true, Instant::now());
    assert!(a.session_ids().len() <= 1);
}

#[test]
fn an_answer_that_is_too_late_is_forgotten() {
    let mut a = node("the net", 1);
    let mut b = node("the net", 2);
    assert!(a.start_handshake(addr(1), 0).unwrap());
    let bytes = match a.take_output().remove(0) {
        Output::Call { bytes, .. } => bytes,
        other => panic!("{other:?}"),
    };
    b.on_datagram(TransportAddr::Udp(addr(0)), &bytes, 0, 0, Instant::now());
    let answer = match b.take_output().remove(0) {
        Output::Send { bytes, .. } => bytes,
        other => panic!("{other:?}"),
    };
    a.on_datagram(TransportAddr::Udp(addr(1)), &answer, 0, 0, Instant::now());
    let last = match a.take_output().remove(0) {
        Output::Finish { bytes, .. } => bytes,
        other => panic!("{other:?}"),
    };
    b.on_datagram(TransportAddr::Udp(addr(0)), &last, 2_000_000_000, 2000, Instant::now());
    assert!(b.session_ids().is_empty());
}

#[test]
fn refused_handshake_messages_name_the_step() {
    let here = TransportAddr::Udp(addr(0));
    let there = TransportAddr::Udp(addr(1));
    let step = |refused: Option<Error>, step: &str| {
        let text = refused.expect("refused").to_text();
        assert!(text.starts_with(&format!("Noise handshake failed: {step}: ")), "{text}");
    };
    let mut a = node("the net", 1);
    let mut b = node("the net", 2);

    step(b.on_datagram(here, b"seednet-hs-a too short", 0, 0, Instant::now()), "msg A read");
    assert!(b.take_output().is_empty());

    assert!(a.start_handshake(addr(1), 0).unwrap());
    let call = match a.take_output().remove(0) {
        Output::Call { bytes, .. } => bytes,
        other => panic!("{other:?}"),
    };
    assert!(b.on_datagram(here, &call, 0, 0, Instant::now()).is_none());
    assert_eq!(b.take_output().len(), 1);
    step(b.on_datagram(here, b"no message C", 0, 0, Instant::now()), "msg C read");
    assert!(b.session_ids().is_empty());

    step(a.on_datagram(there, b"seednet-hs-b too short", 0, 0, Instant::now()), "msg B read");
    assert!(a.take_output().is_empty());
    assert!(a.on_datagram(there, b"anything else", 0, 0, Instant::now()).is_none());
}

#[test]
fn junk_changes_nothing() {
    let mut net = Net::new(2);
    net.connect(0, 1);
    for junk in [&b""[..], b"x", b"seednet-hs-a", b"seednet-hs-b", b"seednet-hp\0", &[0xff; 64]] {
        net.deliver(1, addr(0), junk);
        net.settle();
    }
    assert_eq!(net.nodes[0].session_ids(), vec![id(2)]);
    assert!(net.tun[0].is_empty());
}

// ---------------------------------------------------------------------------
// Pings
// ---------------------------------------------------------------------------
#[test]
fn pings_measure_the_latency() {
    let mut net = Net::new(2);
    net.connect(0, 1);
    net.now_ms = 5000;
    net.nodes[0].health_check(5000);
    net.now_ms = 5042;
    net.settle();
    assert_eq!(net.nodes[0].peers().get(&id(2)).unwrap().latency_ms(), Some(42));
    net.nodes[0].heartbeat();
    assert_eq!(net.nodes[0].take_output().len(), 1);
}

// ---------------------------------------------------------------------------
// Relays
// ---------------------------------------------------------------------------
#[test]
fn a_public_address_makes_a_relay() {
    let mut n = node("x", 1);
    let private = SocketAddr::v4(Ipv4Addr::new(192, 168, 1, 2), 9);
    assert_eq!(n.announce_port(4242), 4242);
    assert!(n.set_public_addr(private));
    assert!(!n.can_relay());
    let public = SocketAddr::v4(Ipv4Addr::new(8, 8, 4, 4), 77);
    assert!(n.set_public_addr(public));
    assert!(!n.set_public_addr(public));
    assert!(n.can_relay());
    assert_eq!(n.announce_port(4242), 77);
    assert!(!n.consider(public));
}

#[test]
fn reachable_addresses() {
    let v4 = |a, b, c, d| is_publicly_routable(SocketAddr::v4(Ipv4Addr::new(a, b, c, d), 1));
    assert!(v4(8, 8, 8, 8));
    assert!(!v4(10, 88, 1, 1));
    assert!(!v4(127, 0, 0, 1));
    assert!(!v4(172, 16, 0, 1));
    assert!(!v4(192, 168, 0, 1));
    assert!(!v4(169, 254, 0, 1));
    assert!(!v4(0, 0, 0, 0));
}

#[test]
fn a_relay_introduces_its_peers() {
    let mut net = Net::new(3);
    net.nodes[1].set_public_addr(SocketAddr::v4(Ipv4Addr::new(8, 8, 4, 4), 4242));
    net.cut.push((0, 2));
    net.connect(0, 1);
    net.connect(2, 1);
    net.nodes[1].spread_neighbours();
    net.settle();
    assert!(!net.nodes[0].has_session(&id(3)));
    assert_eq!(net.nodes[0].path(&id(3)), Some((net.nodes[1].id(), 1)));
    assert_eq!(net.nodes[2].path(&id(1)), Some((net.nodes[1].id(), 1)));
    let peer = net.nodes[0].peers().get(&id(3)).unwrap();
    assert_eq!(peer.state(), PeerState::Connected);
    assert_eq!(
        net.nodes[0].routes().lookup(derive_overlay_addr(&id(3)).ip()),
        Some(&id(3))
    );
    net.nodes[0].health_check(7000);
    net.settle();
}

#[test]
fn without_two_sessions_nobody_is_introduced() {
    let mut net = Net::new(2);
    net.connect(0, 1);
    net.nodes[0].spread_directory();
    net.nodes[0].spread_neighbours();
    assert!(net.nodes[0].take_output().is_empty());
}

#[test]
fn directories_reach_all_sessions() {
    let mut net = Net::new(3);
    net.cut.push((0, 2));
    net.connect(0, 1);
    net.connect(2, 1);
    net.nodes[1].spread_directory();
    let sent = net.nodes[1].take_output();
    assert_eq!(sent.len(), 2);
}

#[test]
fn relay_table_remembers_and_forgets() {
    let mut t = RelayTable::new();
    let (a, b, c) = (PeerId::from_bytes([1; 32]), PeerId::from_bytes([2; 32]), PeerId::from_bytes([3; 32]));
    assert!(!t.has_candidates());
    assert_eq!(t.any_candidate(), None);
    t.add_candidate(a, addr(1));
    t.add_candidate(b, addr(2));
    t.add_path(c, a);
    assert_eq!(t.relay_for(&c), Some(a));
    assert_eq!(t.candidates().len(), 2);
    t.remove_peer(&a);
    assert_eq!(t.relay_for(&c), None);
    assert_eq!(t.any_candidate(), Some((b, addr(2))));
    assert!(t.has_candidates());
}

#[test]
fn packets_cross_a_relay() {
    let mut net = Net::new(3);
    net.nodes[1].set_public_addr(SocketAddr::v4(Ipv4Addr::new(8, 8, 4, 4), 4242));
    net.cut.push((0, 2));
    net.connect(0, 1);
    net.connect(2, 1);
    net.nodes[1].spread_neighbours();
    net.settle();
    let (a, c) = (net.nodes[0].overlay().ip(), net.nodes[2].overlay().ip());
    let there = packet(a, c, b"hello");
    for n in 1..4 {
        assert!(net.nodes[0].on_tun_packet(&there, 0).is_none());
        net.settle();
        assert_eq!(net.tun[2].len(), n);
    }
    assert_eq!(net.tun[2][0], there);
    let back = packet(c, a, b"hello yourself");
    net.nodes[2].on_tun_packet(&back, 0);
    net.settle();
    assert_eq!(net.tun[0], vec![back]);
    assert!(net.tun[1].is_empty());
    assert!(!net.nodes[0].has_session(&id(3)));
}

/// A relay played by hand: what it has of a node that it is connected to.
struct Hand {
    node: Node,
    transport: SecureTransport,
}

impl Hand {
    fn at() -> TransportAddr {
        TransportAddr::Udp(addr(1))
    }

    fn secret() -> seednet::types::NetworkSecret {
        derive_network_secret(&Seed::from_passphrase("the net"))
    }

    fn new() -> Hand {
        let mut node = node("the net", 1);
        let mut h = InitiatorHandshake::new(&Hand::secret(), &keys(2)).unwrap();
        let a = h.write_message_a(b"").unwrap();
        let call = [b"seednet-hs-a".as_slice(), &a].concat();
        assert!(node.on_datagram(Hand::at(), &call, 0, 0, Instant::now()).is_none());
        let answer = match node.take_output().remove(0) {
            Output::Send { bytes, .. } => bytes,
            other => panic!("{other:?}"),
        };
        let (peer, done) = finish_initiator(h, &answer[12..], &make_claim(&keys(2))).unwrap();
        assert_eq!(peer, id(1));
        assert!(node.on_datagram(Hand::at(), &done.msg_bytes, 0, 0, Instant::now()).is_none());
        assert_eq!(node.session_ids(), vec![id(2)]);
        let mut hand = Hand { node, transport: done.transport };
        hand.heard();
        let ready = Message::RelayReady { relay_peer_id: id(2), dst_peer_id: id(3) };
        assert!(hand.say(&ready).is_none());
        assert!(hand.heard().is_empty());
        hand
    }

    /// What the node sent since the last look.
    fn heard(&mut self) -> Vec<Message> {
        let mut r = Vec::new();
        for out in self.node.take_output() {
            match out {
                Output::Send { to, bytes } => {
                    assert_eq!(to, Hand::at());
                    let plain = self.transport.decrypt(&bytes).unwrap();
                    r.push(deserialize_message(&plain).unwrap());
                }
                other => panic!("{other:?}"),
            }
        }
        r
    }

    fn say(&mut self, m: &Message) -> Option<Error> {
        let bytes = self.transport.encrypt(&serialize_message(m)).unwrap();
        self.node.on_datagram(Hand::at(), &bytes, 0, 0, Instant::now())
    }

    /// The payloads that the node sent for the far peer.
    fn all_carried(&mut self) -> Vec<Vec<u8>> {
        let mut r = Vec::new();
        for m in self.heard() {
            match m {
                Message::RelayData { src_peer_id, dst_peer_id, payload } => {
                    assert_eq!((src_peer_id, dst_peer_id), (id(1), id(3)));
                    r.push(payload);
                }
                other => panic!("{other:?}"),
            }
        }
        r
    }

    /// The one payload that the node sent for the far peer.
    fn carried(&mut self) -> Vec<u8> {
        let mut all = self.all_carried();
        assert_eq!(all.len(), 1);
        all.remove(0)
    }

    fn bring(&mut self, payload: Vec<u8>) -> Option<Error> {
        self.say(&Message::RelayData { src_peer_id: id(3), dst_peer_id: id(1), payload })
    }

    fn out(&mut self, payload: &[u8], now_ns: u64) -> Vec<u8> {
        let to = derive_overlay_addr(&id(3)).ip();
        let pkt = packet(self.node.overlay().ip(), to, payload);
        assert!(self.node.on_tun_packet(&pkt, now_ns).is_none());
        pkt
    }

    /// The answer of the far peer to a knock, with the given claim in it.
    fn answer(&mut self, claim: &[u8]) -> (ResponderHandshake, Option<Error>) {
        let knock = self.carried();
        assert!(knock.starts_with(b"seednet-hs-a"));
        let mut far = ResponderHandshake::new(&Hand::secret(), &keys(3)).unwrap();
        far.read_message_a(&knock[12..]).unwrap();
        let b = far.write_message_b(claim).unwrap();
        let refused = self.bring([b"seednet-hs-b".as_slice(), &b].concat());
        (far, refused)
    }

    /// Lets the far peer answer a knock. Gives its end of the session, and what came
    /// after the last message of the handshake.
    fn open(&mut self) -> (SecureTransport, Vec<Vec<u8>>) {
        let (far, refused) = self.answer(&make_claim(&keys(3)));
        assert!(refused.is_none());
        let mut all = self.all_carried();
        let last = all.remove(0);
        assert!(last.starts_with(b"seednet-hs-c"));
        let (peer, session) = finish_responder(far, &last[12..]).unwrap();
        assert_eq!(peer, id(1));
        (session, all)
    }
}

#[test]
fn a_relay_cannot_read_what_it_carries() {
    let mut hand = Hand::new();
    let first = hand.out(b"first", 0);
    let (mut session, sent) = hand.open();
    assert_eq!(sent.len(), 1);
    assert_eq!(session.decrypt(&sent[0]).unwrap(), serialize_message(&Message::Data(first)));

    let pkt = hand.out(b"for the far peer alone", 0);
    let sealed = hand.carried();
    let plain = serialize_message(&Message::Data(pkt));
    assert_eq!(sealed.len(), plain.len() + 16);
    assert!(!sealed.windows(22).any(|w| w == b"for the far peer alone"));
    assert_eq!(session.decrypt(&sealed).unwrap(), plain);
    assert!(session.decrypt(&sealed).is_err());
}

#[test]
fn packets_wait_for_a_relayed_handshake() {
    let mut hand = Hand::new();
    let mut all: Vec<Vec<u8>> = (0..1030).map(|n| hand.out(&[n as u8; 9], n)).collect();
    let (mut session, sent) = hand.open();
    assert_eq!(sent.len(), 1024);
    all.truncate(1024);
    for (sealed, pkt) in sent.iter().zip(all) {
        assert_eq!(session.decrypt(sealed).unwrap(), serialize_message(&Message::Data(pkt)));
    }
}

#[test]
fn packets_wait_on_when_a_handshake_fails() {
    let mut hand = Hand::new();
    let mut all = vec![hand.out(b"1", 0)];
    let (_, refused) = hand.answer(&make_claim(&keys(2)));
    assert!(refused.is_some());
    all.push(hand.out(b"2", 1));
    assert_eq!(hand.heard().len(), 1);
    all.push(hand.out(b"3", 2_000_000_001));
    let (mut session, sent) = hand.open();
    assert_eq!(sent.len(), 3);
    for (sealed, pkt) in sent.iter().zip(all) {
        assert_eq!(session.decrypt(sealed).unwrap(), serialize_message(&Message::Data(pkt)));
    }
}

#[test]
fn waiting_packets_take_a_direct_session() {
    let mut hand = Hand::new();
    let pkt = hand.out(b"either way", 0);
    assert_eq!(hand.heard().len(), 1);
    let at = TransportAddr::Udp(addr(2));
    let mut h = InitiatorHandshake::new(&Hand::secret(), &keys(3)).unwrap();
    let a = h.write_message_a(b"").unwrap();
    let call = [b"seednet-hs-a".as_slice(), &a].concat();
    assert!(hand.node.on_datagram(at, &call, 0, 0, Instant::now()).is_none());
    let answer = match hand.node.take_output().remove(0) {
        Output::Send { bytes, .. } => bytes,
        other => panic!("{other:?}"),
    };
    let (_, done) = finish_initiator(h, &answer[12..], &make_claim(&keys(3))).unwrap();
    assert!(hand.node.on_datagram(at, &done.msg_bytes, 0, 0, Instant::now()).is_none());
    let mut session = done.transport;
    let mut heard = Vec::new();
    for out in hand.node.take_output() {
        match out {
            Output::Send { to, bytes } => {
                assert_eq!(to, at);
                heard.push(deserialize_message(&session.decrypt(&bytes).unwrap()).unwrap());
            }
            other => panic!("{other:?}"),
        }
    }
    assert_eq!(heard.pop(), Some(Message::Data(pkt)));
    assert!(matches!(heard[..], [Message::SessionInit { .. }]));
}

#[test]
fn a_relay_that_is_ready_again_renews_the_session() {
    let mut hand = Hand::new();
    hand.out(b"1", 0);
    let (mut session, _) = hand.open();
    let ready = Message::RelayReady { relay_peer_id: id(2), dst_peer_id: id(3) };
    assert!(hand.say(&ready).is_none());
    let second = hand.out(b"2", 0);
    let (mut renewed, sent) = hand.open();
    assert_eq!(sent.len(), 1);
    assert!(session.decrypt(&sent[0]).is_err());
    assert_eq!(renewed.decrypt(&sent[0]).unwrap(), serialize_message(&Message::Data(second)));
}

#[test]
fn relayed_bytes_without_a_session_are_dropped() {
    let mut hand = Hand::new();
    let pkt = packet(derive_overlay_addr(&id(3)).ip(), hand.node.overlay().ip(), b"plain");
    assert!(hand.bring(pkt.clone()).is_none());
    assert!(hand.bring(serialize_message(&Message::Data(pkt))).is_none());
    assert!(hand.node.take_output().is_empty());
}

#[test]
fn the_far_peer_speaks_under_its_own_session() {
    let mut hand = Hand::new();
    let mut h = InitiatorHandshake::new(&Hand::secret(), &keys(3)).unwrap();
    let a = h.write_message_a(b"").unwrap();
    assert!(hand.bring([b"seednet-hs-a".as_slice(), &a].concat()).is_none());
    let b = hand.carried();
    assert!(b.starts_with(b"seednet-hs-b"));
    let (peer, done) = finish_initiator(h, &b[12..], &make_claim(&keys(3))).unwrap();
    assert_eq!(peer, id(1));
    assert!(hand.bring([b"seednet-hs-c".as_slice(), &done.msg_bytes].concat()).is_none());
    let mut session = done.transport;
    let pkt = packet(derive_overlay_addr(&id(3)).ip(), hand.node.overlay().ip(), b"hi");
    let sealed = session.encrypt(&serialize_message(&Message::Data(pkt.clone()))).unwrap();
    assert!(hand.bring(sealed.clone()).is_none());
    assert_eq!(hand.node.take_output(), vec![Output::Tun(pkt)]);
    assert!(hand.bring(sealed).is_none());
    assert!(hand.node.take_output().is_empty());
}

#[test]
fn a_knock_is_repeated_when_it_is_not_answered() {
    let mut hand = Hand::new();
    hand.out(b"1", 0);
    assert_eq!(hand.heard().len(), 1);
    hand.out(b"2", 1_999_999_999);
    assert!(hand.heard().is_empty());
    hand.out(b"3", 2_000_000_000);
    assert_eq!(hand.heard().len(), 1);
}

#[test]
fn a_relay_cannot_answer_for_the_far_peer() {
    let text = |e: Option<Error>| e.expect("refused").to_text();
    let mut hand = Hand::new();
    hand.out(b"x", 0);
    let knock = hand.carried();
    let mut own = ResponderHandshake::new(&Hand::secret(), &keys(2)).unwrap();
    own.read_message_a(&knock[12..]).unwrap();
    let b = own.write_message_b(&make_claim(&keys(2))).unwrap();
    let refused = hand.bring([b"seednet-hs-b".as_slice(), &b].concat());
    assert_eq!(text(refused), "Noise handshake failed: another peer answered");
    assert!(hand.heard().is_empty());

    let mut hand = Hand::new();
    hand.out(b"x", 0);
    let (_, refused) = hand.answer(&make_claim(&keys(2)));
    assert_eq!(text(refused), "Noise handshake failed: peer id not proved");

    let mut hand = Hand::new();
    hand.out(b"x", 0);
    let knock = hand.carried();
    assert!(!knock.is_empty());
    let refused = hand.bring(b"seednet-hs-b nothing".to_vec());
    assert!(text(refused).starts_with("Noise handshake failed: msg B read: "));
}

// ---------------------------------------------------------------------------
// Ids
// ---------------------------------------------------------------------------
#[test]
fn a_claim_proves_an_id() {
    let claim = make_claim(&keys(1));
    assert_eq!(claim.len(), 96);
    assert_eq!(&claim[..32], id(1).as_bytes());
    let static_key = keys(1).x25519_public_key();
    assert_eq!(read_claim(&claim, &static_key), Some(id(1)));
    assert_eq!(read_claim(&claim, &keys(2).x25519_public_key()), None);
    assert_eq!(read_claim(&claim[..95], &static_key), None);
    assert_eq!(read_claim(&[], &static_key), None);
    for i in [0, 31, 32, 63, 64, 94] {
        let mut other = claim.clone();
        other[i] ^= 1;
        assert_eq!(read_claim(&other, &static_key), None);
    }
}

#[test]
fn a_session_without_a_proved_id_is_refused() {
    let secret = derive_network_secret(&Seed::from_passphrase("the net"));
    let here = TransportAddr::Udp(addr(0));
    for claim in [Vec::new(), make_claim(&keys(3))] {
        let mut n = node("the net", 1);
        let mut h = InitiatorHandshake::new(&secret, &keys(2)).unwrap();
        let a = h.write_message_a(b"").unwrap();
        let call = [b"seednet-hs-a".as_slice(), &a].concat();
        assert!(n.on_datagram(here, &call, 0, 0, Instant::now()).is_none());
        let answer = match n.take_output().remove(0) {
            Output::Send { bytes, .. } => bytes,
            other => panic!("{other:?}"),
        };
        h.read_message_b(&answer[12..]).unwrap();
        let c = h.finish(&claim).unwrap().msg_bytes;
        let refused = n.on_datagram(here, &c, 0, 0, Instant::now()).expect("refused");
        assert_eq!(refused.to_text(), "Noise handshake failed: peer id not proved");
        assert!(n.session_ids().is_empty());
    }
}

// ---------------------------------------------------------------------------
// Hole punching
// ---------------------------------------------------------------------------
#[test]
fn probes_are_answered() {
    let mut n = node("x", 1);
    n.on_datagram(TransportAddr::Udp(addr(3)), &probe_bytes(7), 0, 0, Instant::now());
    let sent: Vec<Vec<u8>> = n
        .take_output()
        .into_iter()
        .map(|o| match o {
            Output::Send { to, bytes } => {
                assert_eq!(to, TransportAddr::Udp(addr(3)));
                bytes
            }
            other => panic!("{other:?}"),
        })
        .collect();
    assert_eq!(sent, vec![ack_bytes(7), probe_bytes(7)]);
    n.on_datagram(TransportAddr::Udp(addr(3)), &ack_bytes(7), 0, 0, Instant::now());
}

#[test]
fn punch_packets() {
    assert_eq!(probe_bytes(1), b"seednet-hp\0\x05\x01");
    assert_eq!(ack_bytes(300), b"seednet-hp\0\x06\xac\x02");
}

#[test]
fn punches_are_confirmed() {
    let mut p = PunchCoordinator::new();
    let token = p.new_token(addr(1));
    assert_eq!(p.is_confirmed(token), None);
    p.record_ack(token, addr(2));
    assert_eq!(p.is_confirmed(token), Some(addr(2)));
    let (ack, probe) = p.handle_probe(9, addr(3));
    assert_eq!(ack, ack_bytes(9));
    assert_eq!(probe, probe_bytes(9));
    p.begin(11, addr(4), Instant::now());
    assert_eq!(p.is_confirmed(11), None);
}

// ---------------------------------------------------------------------------
// Snapshot
// ---------------------------------------------------------------------------
#[test]
fn snapshot_lists_connected_peers() {
    let mut net = Net::new(2);
    net.connect(0, 1);
    let n = &net.nodes[0];
    let local = local_json(&n.id(), &n.overlay(), &n.overlay_ipv6(), n.hostname(), None);
    let json = build_peers_json(n, &local);
    let file = read_peers_file(&json).unwrap();
    let own = file.local.unwrap();
    assert!(own.is_local);
    assert_eq!(own.id_short, n.id().short());
    assert_eq!(own.overlay, n.overlay().to_text());
    assert_eq!(own.hostname, "host-1");
    let peers = file.peers.unwrap();
    assert_eq!(peers.len(), 1);
    assert_eq!(peers[0].id_short, id(2).short());
    assert_eq!(peers[0].overlay, net.nodes[1].overlay().to_text());
    assert_eq!(peers[0].underlay, "203.0.113.2:4242");
    assert_eq!(peers[0].connection, "direct");
    assert_eq!(peers[0].hostname, "host-2");
    let entry = build_peer_entry(n, &id(2));
    let value: serde_json::Value = serde_json::from_str(&entry).unwrap();
    assert_eq!(value["id"].as_str(), Some(id(2).to_text().as_str()));
    let nothing = build_peer_entry(n, &id(9));
    let value: serde_json::Value = serde_json::from_str(&nothing).unwrap();
    assert_eq!(value["overlay"].as_str(), Some(""));
    assert_eq!(value["connection"].as_str(), Some("direct"));
}

#[test]
fn snapshot_without_peers() {
    let json = empty_peers_json("{}");
    let value: serde_json::Value = serde_json::from_str(&json).unwrap();
    assert!(value["peers"].as_array().unwrap().is_empty());
    let file = read_peers_file(&json).unwrap();
    assert!(file.local.is_none());
    assert!(file.peers.unwrap().is_empty());
    assert!(read_peers_file("not json").is_none());
    assert!(read_peers_file("{}").unwrap().peers.is_none());
}

#[test]
fn events_ask_for_snapshots() {
    let id = keys(2).peer_id();
    assert!(asks_for_snapshot(&PeerEvent::Removed { id }));
    let up = PeerEvent::StateChanged {
        id,
        from: PeerState::Handshaking,
        to: PeerState::Connected,
    };
    assert!(asks_for_snapshot(&up));
    let down = PeerEvent::StateChanged { id, from: PeerState::Connected, to: PeerState::Dead };
    assert!(!asks_for_snapshot(&down));
    assert!(!asks_for_snapshot(&PeerEvent::Discovered { id, underlay: addr(1) }));
}

#[test]
fn a_removed_peer_loses_its_session() {
    let mut net = Net::new(2);
    net.connect(0, 1);
    let n = &mut net.nodes[0];
    n.take_events();
    assert!(n.remove_peer(&id(2)));
    assert!(!n.remove_peer(&id(2)));
    let events = n.take_events();
    assert_eq!(events, vec![PeerEvent::Removed { id: id(2) }]);
    assert!(n.has_session(&id(2)));
    let text = on_event(n, &events[0], "{}").unwrap();
    assert!(!n.has_session(&id(2)));
    assert!(read_peers_file(&text).unwrap().peers.unwrap().is_empty());
    assert!(!n.drop_session(&id(2)));
}

#[test]
fn a_direct_peer_is_told_apart() {
    let mut net = Net::new(2);
    net.connect(0, 1);
    net.nodes[0].health_check(1);
    let peer = net.nodes[0].peers().get(&id(2)).unwrap();
    assert_eq!(peer.path_kind(), PathKind::Direct);
}

// ---------------------------------------------------------------------------
// Channel
// ---------------------------------------------------------------------------
fn channels() -> (MessageChannel, MessageChannel, Instant) {
    let secret = derive_network_secret(&Seed::from_passphrase("channel"));
    let mut a = MessageChannel::new(secret, keys(1));
    let mut b = MessageChannel::new(secret, keys(2));
    let now = Instant::now();
    let (h, msg_a) = a.initate_handshake().unwrap();
    let (responder, msg_b) = match b.handle_inbound_datagram(&msg_a, addr(0), now).unwrap() {
        Received::Handshake { responder, message_b } => (responder, message_b),
        Received::Message(_) => panic!("no session yet"),
    };
    let done = a.read_message_b(h, &addr(1), &addr(1), &msg_b).unwrap();
    assert_eq!(done.peer_id, id(2));
    let peer = b.finish_responder(responder, addr(0), &addr(0), &done.message_c, now).unwrap();
    assert_eq!(peer, id(1));
    a.establish(addr(1), done.transport, now);
    (a, b, now)
}

#[test]
fn channel_carries_messages() {
    let (mut a, mut b, now) = channels();
    let msg = OutboundMessage { message: Message::Data(b"over".to_vec()), to: addr(1) };
    let framed = a.send_message(&msg).unwrap();
    a.sent(&addr(1), now);
    match b.handle_inbound_datagram(&framed, addr(0), now).unwrap() {
        Received::Message(InboundMessage { message, from }) => {
            assert_eq!(message, Message::Data(b"over".to_vec()));
            assert_eq!(from, addr(0));
        }
        Received::Handshake { .. } => panic!("expected a message"),
    }
    let beat = b.send_heartbeat(addr(0)).unwrap();
    match a.handle_inbound_datagram(&beat, addr(1), now).unwrap() {
        Received::Message(m) => assert_eq!(m.message, Message::Heartbeat),
        Received::Handshake { .. } => panic!("expected a message"),
    }
}

#[test]
fn channel_without_a_session() {
    let (mut a, _, _) = channels();
    let msg = OutboundMessage { message: Message::Heartbeat, to: addr(9) };
    assert!(a.send_message(&msg).is_err());
    assert!(a.send_heartbeat(addr(9)).is_err());
}

#[test]
fn channel_refuses_other_addresses() {
    let secret = derive_network_secret(&Seed::from_passphrase("channel"));
    let a = MessageChannel::new(secret, keys(1));
    let (h, _) = a.initate_handshake().unwrap();
    let e = match a.read_message_b(h, &addr(1), &addr(2), b"") {
        Err(e) => e.to_text(),
        Ok(_) => panic!("accepted"),
    };
    assert_eq!(e, "Noise transport error: msg B from unexpected address");
}

#[test]
fn channel_takes_no_unproved_id() {
    let secret = derive_network_secret(&Seed::from_passphrase("channel"));
    let unproved = "Noise handshake failed: peer id not proved";
    let a = MessageChannel::new(secret, keys(1));
    let (h, msg_a) = a.initate_handshake().unwrap();
    let mut far = ResponderHandshake::new(&secret, &keys(2)).unwrap();
    far.read_message_a(&msg_a).unwrap();
    let msg_b = far.write_message_b(&make_claim(&keys(3))).unwrap();
    let refused = a.read_message_b(h, &addr(1), &addr(1), &msg_b);
    assert_eq!(refused.err().unwrap().to_text(), unproved);

    let mut b = MessageChannel::new(secret, keys(2));
    let now = Instant::now();
    let mut h = InitiatorHandshake::new(&secret, &keys(1)).unwrap();
    let msg_a = h.write_message_a(b"").unwrap();
    let (responder, msg_b) = match b.handle_inbound_datagram(&msg_a, addr(0), now).unwrap() {
        Received::Handshake { responder, message_b } => (responder, message_b),
        Received::Message(_) => panic!("no session yet"),
    };
    h.read_message_b(&msg_b).unwrap();
    let msg_c = h.finish(b"").unwrap().msg_bytes;
    let refused = b.finish_responder(responder, addr(0), &addr(0), &msg_c, now);
    assert_eq!(refused.err().unwrap().to_text(), unproved);
    assert!(b.send_heartbeat(addr(0)).is_err());
}

#[test]
fn channel_lists_each_session_once() {
    let secret = derive_network_secret(&Seed::from_passphrase("channel"));
    let mut a = MessageChannel::new(secret, keys(1));
    let now = Instant::now();
    for i in 1..4 {
        let (h, msg_a) = a.initate_handshake().unwrap();
        let mut far = ResponderHandshake::new(&secret, &keys(i as u8 + 1)).unwrap();
        far.read_message_a(&msg_a).unwrap();
        let msg_b = far.write_message_b(&make_claim(&keys(i as u8 + 1))).unwrap();
        let done = a.read_message_b(h, &addr(i), &addr(i), &msg_b).unwrap();
        a.establish(addr(i), done.transport, now);
    }
    let all = vec![addr(1), addr(2), addr(3)];
    assert_eq!(a.heartbeat_needed(now + Duration::from_secs(15)), all);
    assert_eq!(a.prune_expired(now + Duration::from_secs(61)), all);
    assert!(a.prune_expired(now + Duration::from_secs(61)).is_empty());
}

#[test]
fn channel_prunes_silent_sessions() {
    let (mut a, _, now) = channels();
    assert!(a.heartbeat_needed(now + Duration::from_secs(14)).is_empty());
    assert_eq!(a.heartbeat_needed(now + Duration::from_secs(15)), vec![addr(1)]);
    assert!(a.prune_expired(now + Duration::from_secs(60)).is_empty());
    assert_eq!(a.prune_expired(now + Duration::from_secs(61)), vec![addr(1)]);
    assert!(a.send_heartbeat(addr(1)).is_err());
}
