//! Finding peers: trackers, the distributed hash table, ports and addresses.
use bytes::BytesMut;
use seednet::dht::peer_list;
use seednet::locate::{addr_in_answer, addr_in_route, local_hostname, route_interfaces};
use seednet::net::{Ipv4Addr, SocketAddr};
use seednet::ports::{PortSearch, StreamPorts};
use seednet::stream_frame::{
    decode_frame, encode, encode_frame, frame_header, left_to_write, payload_room,
};
use seednet::tracker::{
    announce_request, announce_url, begin_exchange, compact_to_addrs, connect_request, merge_addrs,
    percent_encode, read_announce_response, read_connect_response, response_addrs, tracker_kind,
    udp_host_port, HttpPeerDict, HttpTrackerResponse, PeersField, TrackerKind,
};
use seednet::transport::{EnabledTransports, RouteError, TransportAddr, TransportKind};

fn v4(a: u8, b: u8, c: u8, d: u8, port: u16) -> SocketAddr {
    SocketAddr::v4(Ipv4Addr::new(a, b, c, d), port)
}

// ---------------------------------------------------------------------------
// Trackers
// ---------------------------------------------------------------------------
#[test]
fn tracker_kinds() {
    assert_eq!(tracker_kind("http://t.example/announce"), TrackerKind::Http);
    assert_eq!(tracker_kind("https://t.example/announce"), TrackerKind::Http);
    assert_eq!(tracker_kind("udp://t.example:1337"), TrackerKind::Udp);
    assert_eq!(tracker_kind("wss://t.example"), TrackerKind::Unsupported);
}

#[test]
fn compact_peers() {
    let data = [1, 2, 3, 4, 0x10, 0x92, 5, 6, 7, 8, 0, 80, 9];
    assert_eq!(compact_to_addrs(&data), vec![v4(1, 2, 3, 4, 4242), v4(5, 6, 7, 8, 80)]);
    assert!(compact_to_addrs(&data[..5]).is_empty());
}

#[test]
fn announce_urls() {
    assert_eq!(percent_encode(&[0x00, b'a', b'-', b'~', 0xff, b'/']), "%00a-~%FF%2F");
    let url = announce_url("http://t/announce", &[1u8; 20], &[b'x'; 20], 4242);
    assert!(url.starts_with("http://t/announce?info_hash=%01%01"));
    assert!(url.contains("&peer_id=xxxxxxxxxxxxxxxxxxxx"));
    assert!(url.contains("port=4242"));
    assert!(url.contains("compact=1"));
}

#[test]
fn http_responses() {
    let empty =
        HttpTrackerResponse { peers: PeersField::Empty, failure_reason: String::new() };
    assert_eq!(response_addrs(empty), Ok(vec![]));
    let compact = HttpTrackerResponse {
        peers: PeersField::Compact(vec![1, 2, 3, 4, 0, 80]),
        failure_reason: String::new(),
    };
    assert_eq!(response_addrs(compact), Ok(vec![v4(1, 2, 3, 4, 80)]));
    let full = HttpTrackerResponse {
        peers: PeersField::Full(vec![
            HttpPeerDict { ip: "9.8.7.6".to_string(), port: 1 },
            HttpPeerDict { ip: "not an address".to_string(), port: 2 },
        ]),
        failure_reason: String::new(),
    };
    assert_eq!(response_addrs(full), Ok(vec![v4(9, 8, 7, 6, 1)]));
    let failed = HttpTrackerResponse {
        peers: PeersField::Empty,
        failure_reason: "go away".to_string(),
    };
    assert!(response_addrs(failed).unwrap_err().contains("go away"));
}

#[test]
fn udp_tracker_exchange() {
    assert_eq!(udp_host_port("udp://tracker.example:1337/announce"), "tracker.example:1337");
    assert_eq!(udp_host_port("udp://tracker.example:1337"), "tracker.example:1337");
    let request = connect_request(0x01020304);
    assert_eq!(
        request,
        [0, 0, 0x04, 0x17, 0x27, 0x10, 0x19, 0x80, 0, 0, 0, 0, 1, 2, 3, 4]
    );
    let (transaction, bytes) = begin_exchange();
    assert_eq!(bytes, connect_request(transaction));

    let mut response = vec![0, 0, 0, 0, 1, 2, 3, 4];
    response.extend_from_slice(&[9; 8]);
    let connection = read_connect_response(&response, 0x01020304).unwrap();
    assert_eq!(connection, [9; 8]);
    assert!(read_connect_response(&response, 5).is_err());
    assert!(read_connect_response(&response[..15], 0x01020304).is_err());

    let announce = announce_request(&connection, 7, &[1; 20], &[2; 20], 4242);
    assert_eq!(announce.len(), 98);
    assert_eq!(&announce[..16], &[9, 9, 9, 9, 9, 9, 9, 9, 0, 0, 0, 1, 0, 0, 0, 7]);
    assert_eq!(&announce[16..36], &[1; 20]);
    assert_eq!(&announce[36..56], &[2; 20]);
    assert_eq!(&announce[80..84], &[0, 0, 0, 2]);
    assert_eq!(&announce[92..], &[0xff, 0xff, 0xff, 0xff, 0x10, 0x92]);

    let mut peers = vec![0, 0, 0, 1];
    peers.extend_from_slice(&[0; 16]);
    peers.extend_from_slice(&[1, 2, 3, 4, 0, 80]);
    assert_eq!(read_announce_response(&peers), Ok(vec![v4(1, 2, 3, 4, 80)]));
    assert!(read_announce_response(&peers[..19]).is_err());
    peers[3] = 3;
    assert!(read_announce_response(&peers).is_err());
}

#[test]
fn found_addresses_are_merged() {
    let (a, b, c) = (v4(1, 1, 1, 1, 1), v4(2, 2, 2, 2, 2), v4(3, 3, 3, 3, 3));
    let mut known = vec![a, b];
    merge_addrs(&mut known, &vec![b, c, c]);
    assert_eq!(known, vec![a, b, c]);
}

// ---------------------------------------------------------------------------
// Distributed hash table
// ---------------------------------------------------------------------------
#[test]
fn looked_up_peers_are_sorted_and_distinct() {
    let found = vec![
        (Ipv4Addr::new(9, 0, 0, 1), 5),
        (Ipv4Addr::new(1, 0, 0, 1), 7),
        (Ipv4Addr::new(9, 0, 0, 1), 5),
        (Ipv4Addr::new(1, 0, 0, 1), 6),
    ];
    let mut backwards = found.clone();
    backwards.reverse();
    let list = peer_list(&found);
    assert_eq!(list, vec![v4(1, 0, 0, 1, 6), v4(1, 0, 0, 1, 7), v4(9, 0, 0, 1, 5)]);
    assert_eq!(peer_list(&backwards), list);
    assert!(peer_list(&vec![]).is_empty());
}

// ---------------------------------------------------------------------------
// Ports
// ---------------------------------------------------------------------------
#[test]
fn ten_ports_are_tried() {
    let mut search = PortSearch::new(4242);
    let mut tried = Vec::new();
    while let Some(port) = search.candidate() {
        tried.push(port);
        search.in_use();
    }
    assert_eq!(tried, (4242..4252).collect::<Vec<u16>>());
    let mut search = PortSearch::new(65535);
    search.in_use();
    assert_eq!(search.candidate(), Some(65535));
}

#[test]
fn listeners_follow_each_other() {
    let mut ports = StreamPorts::new(4242);
    assert_eq!(ports.search().candidate(), Some(4242));
    ports.bound(4244);
    assert_eq!(ports.search().candidate(), Some(4245));
    ports.skipped();
    assert_eq!(ports.search().candidate(), Some(4246));
}

// ---------------------------------------------------------------------------
// Our own address
// ---------------------------------------------------------------------------
#[test]
fn hostnames() {
    assert_eq!(local_hostname(Some(" box\n")), "box");
    assert_eq!(local_hostname(None), "");
}

#[test]
fn public_address_in_an_answer() {
    assert_eq!(addr_in_answer("8.8.4.4\n", 7), Some(v4(8, 8, 4, 4, 7)));
    assert_eq!(addr_in_answer("192.168.0.1", 7), None);
    assert_eq!(addr_in_answer("10.88.0.1", 7), None);
    assert_eq!(addr_in_answer("no address", 7), None);
}

#[test]
fn public_address_in_a_route() {
    let route = "1.1.1.1 via 203.0.112.1 dev eth0 src 8.8.4.4 uid 0";
    assert_eq!(addr_in_route(route, 7), Some(v4(8, 8, 4, 4, 7)));
    assert_eq!(addr_in_route("1.1.1.1 dev eth0 src 192.168.1.7", 7), None);
    assert_eq!(addr_in_route("", 7), None);
}

#[test]
fn interfaces_in_a_route() {
    let text = "   route to: default\ndestination: default\n  interface: en0\n      flags: <UP>\n";
    assert_eq!(route_interfaces(text), vec!["en0".to_string()]);
    assert!(route_interfaces("nothing").is_empty());
}

// ---------------------------------------------------------------------------
// Transports
// ---------------------------------------------------------------------------
#[test]
fn transports_are_chosen_by_address() {
    let at = v4(1, 2, 3, 4, 5);
    let all = EnabledTransports { udp: true, tcp: true, ws: true };
    let none = EnabledTransports { udp: false, tcp: false, ws: false };
    assert_eq!(all.route(&TransportAddr::Udp(at)), Ok(TransportKind::Udp));
    assert_eq!(all.route(&TransportAddr::Wss(at)), Err(RouteError::NotImplemented));
    assert_eq!(
        none.route(&TransportAddr::Tcp(at)),
        Err(RouteError::NotEnabled(TransportKind::Tcp))
    );
    assert_eq!(RouteError::NotEnabled(TransportKind::Ws).to_text(), "WS not enabled");
    assert_eq!(all.primary(), Some(TransportKind::Udp));
    assert_eq!(none.primary(), None);
    let tcp = TransportAddr::with_kind(at, TransportKind::Tcp);
    assert_eq!(tcp.kind(), TransportKind::Tcp);
    assert_eq!(tcp.socket_addr(), at);
    assert_eq!(tcp.to_text(), "tcp:1.2.3.4:5");
}

// ---------------------------------------------------------------------------
// Frames on streams
// ---------------------------------------------------------------------------
#[test]
fn stream_frames() {
    assert_eq!(encode_frame(b"abc"), [0, 0, 0, 3, 97, 98, 99]);
    assert_eq!(decode_frame(&[0, 0, 0, 3, 97, 98, 99, 100]), Some(&b"abc"[..]));
    assert_eq!(decode_frame(&[0, 0, 0, 3, 97]), None);
    assert_eq!(decode_frame(&[0, 0]), None);
    let mut buf = BytesMut::new();
    encode(b"x", &mut buf);
    encode(b"yz", &mut buf);
    assert_eq!(&buf[..], &[0, 0, 0, 1, 120, 0, 0, 0, 2, 121, 122]);
}

#[test]
fn stream_frame_limits() {
    assert_eq!(payload_room(65536), Ok(65536));
    assert_eq!(payload_room(65537), Err("frame too large"));
}

#[test]
fn partial_writes_go_on() {
    let header = frame_header(b"hello");
    assert_eq!(header, [0, 0, 0, 5]);
    for written in 0..=9 {
        let (h, p) = left_to_write(&header, b"hello", written);
        let mut rest = h.to_vec();
        rest.extend_from_slice(p);
        assert_eq!(rest, encode_frame(b"hello")[written..].to_vec());
    }
}
