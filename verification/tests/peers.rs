//! Frames, sessions, the life cycle of peers and the table of them.
use seednet::constants::HEARTBEAT_INTERVAL_SECS;
use seednet::frame::{decode_frame, encode_frame, frame_overhead, HEADER_LEN};
use seednet::manager::{PeerEvent, PeerManager};
use seednet::net::{Ipv4Addr, SocketAddr};
use seednet::peer::{PathKind, Peer};
use seednet::session::Session;
use seednet::state::{PeerState, StateRecord, TransitionError};
use seednet::types::{OverlayAddr, PeerId};
use std::time::{Duration, Instant};

fn sleep(d: Duration) {
    let start = Instant::now();
    while start.elapsed() < d {}
}

fn test_peer_id(n: u8) -> PeerId {
    PeerId::from_bytes([n; 32])
}

fn addr(d: u8, port: u16) -> SocketAddr {
    SocketAddr::v4(Ipv4Addr::new(10, 0, 0, d), port)
}

fn discovered(mgr: &mut PeerManager, id: PeerId, a: SocketAddr) {
    mgr.discover(id, a);
}

fn connect(mgr: &mut PeerManager, id: &PeerId) {
    mgr.transition_peer(id, PeerState::Connecting).unwrap();
    mgr.transition_peer(id, PeerState::Handshaking).unwrap();
    mgr.transition_peer(id, PeerState::Connected).unwrap();
}

// ---------------------------------------------------------------------------
// Frames
// ---------------------------------------------------------------------------
#[test]
fn roundtrip() {
    let payload = b"hello world";
    let framed = encode_frame(payload);
    let decoded = decode_frame(&framed).unwrap();
    assert_eq!(decoded, payload);
}

#[test]
fn empty_payload() {
    let framed = encode_frame(&[]);
    let decoded = decode_frame(&framed).unwrap();
    assert!(decoded.is_empty());
}

#[test]
fn truncated_header() {
    assert!(decode_frame(&[0, 0]).is_err());
}

#[test]
fn truncated_payload() {
    let mut framed = encode_frame(b"12345");
    framed.truncate(framed.len() - 2);
    assert!(decode_frame(&framed).is_err());
}

#[test]
fn extra_data_after_payload_ignored() {
    let mut framed = encode_frame(b"data");
    framed.extend_from_slice(b"extra");
    let decoded = decode_frame(&framed).unwrap();
    assert_eq!(decoded, b"data");
}

#[test]
fn frame_bytes_and_errors() {
    assert_eq!(encode_frame(b"ab"), [0, 0, 0, 2, 97, 98]);
    assert_eq!(frame_overhead(), HEADER_LEN);
    assert_eq!(
        decode_frame(&[0, 0]).unwrap_err().to_text(),
        "Noise transport error: frame too short: 2 bytes"
    );
    assert_eq!(
        decode_frame(&[0, 0, 0, 5, 1, 2, 3]).unwrap_err().to_text(),
        "Noise transport error: frame truncated: expected 5 payload bytes, got 3"
    );
    for cut in 0..6 {
        assert!(decode_frame(&encode_frame(b"ab")[..cut]).is_err());
    }
}

// ---------------------------------------------------------------------------
// Sessions
// ---------------------------------------------------------------------------
#[test]
fn new_session_not_expired() {
    let s = Session::new();
    assert!(!s.is_expired());
}

#[test]
fn session_with_tiny_expiry_expires_immediately() {
    let s = Session::with_config(Duration::from_millis(1), Duration::from_millis(1));
    sleep(Duration::from_millis(5));
    assert!(s.is_expired());
}

#[test]
fn record_activity_resets_expiry() {
    let mut s = Session::with_config(Duration::from_secs(15), Duration::from_millis(10));
    sleep(Duration::from_millis(20));
    assert!(s.is_expired());
    s.record_activity();
    assert!(!s.is_expired());
}

#[test]
fn heartbeat_interval_default() {
    let s = Session::new();
    assert_eq!(s.heartbeat_interval(), Duration::from_secs(HEARTBEAT_INTERVAL_SECS));
}

#[test]
fn session_expiry_works() {
    let mut s = Session::with_config(Duration::from_millis(1), Duration::from_millis(1));
    sleep(Duration::from_millis(5));
    assert!(s.is_expired());
    s.record_activity();
    assert!(!s.is_expired());
}

#[test]
fn heartbeat_and_eviction_session_expires_after_timeout() {
    let s = Session::with_config(Duration::from_millis(10), Duration::from_millis(50));
    assert!(!s.is_expired());

    sleep(Duration::from_millis(60));
    assert!(s.is_expired());
}

#[test]
fn session_activity_resets_expiry() {
    let mut s = Session::with_config(Duration::from_millis(10), Duration::from_millis(50));
    sleep(Duration::from_millis(30));
    s.record_activity();
    assert!(!s.is_expired());

    sleep(Duration::from_millis(30));
    assert!(!s.is_expired());

    sleep(Duration::from_millis(30));
    assert!(s.is_expired());
}

#[test]
fn heartbeat_triggers_at_interval() {
    let s = Session::with_config(Duration::from_millis(20), Duration::from_secs(300));
    assert!(!s.should_send_heartbeat());

    sleep(Duration::from_millis(25));
    assert!(s.should_send_heartbeat());
}

#[test]
fn activity_resets_heartbeat_timer() {
    let mut s = Session::with_config(Duration::from_millis(20), Duration::from_secs(300));
    sleep(Duration::from_millis(25));
    assert!(s.should_send_heartbeat());
    s.record_activity();
    assert!(!s.should_send_heartbeat());
}

#[test]
fn peer_lifecycle_session_expires_after_timeout() {
    let mut session = Session::with_config(Duration::from_millis(1), Duration::from_millis(50));

    assert!(!session.is_expired());

    sleep(Duration::from_millis(60));
    assert!(session.is_expired());

    session.record_activity();
    assert!(!session.is_expired());
}

#[test]
fn session_heartbeat_timing() {
    let mut session = Session::with_config(Duration::from_millis(100), Duration::from_secs(60));

    sleep(Duration::from_millis(110));
    assert!(session.should_send_heartbeat());

    session.record_activity();
    assert!(!session.should_send_heartbeat());
}

#[test]
fn session_limits_are_exact() {
    let start = Instant::now();
    let s = Session::new_at(start);
    assert!(!s.heartbeat_due_at(&(start + Duration::from_nanos(14_999_999_999))));
    assert!(s.heartbeat_due_at(&(start + Duration::from_secs(15))));
    assert!(!s.expired_at(&(start + Duration::from_secs(60))));
    assert!(s.expired_at(&(start + Duration::from_nanos(60_000_000_001))));
    let d = Session::default();
    assert_eq!(d.heartbeat_interval(), Duration::from_secs(15));
    assert!(d.time_since_last_activity() < Duration::from_secs(10));
}

// ---------------------------------------------------------------------------
// States
// ---------------------------------------------------------------------------
#[test]
fn happy_path_lifecycle() {
    let states = [
        PeerState::Disconnected,
        PeerState::Discovering,
        PeerState::Connecting,
        PeerState::Handshaking,
        PeerState::Connected,
    ];
    for pair in states.windows(2) {
        assert!(pair[0].can_transition_to(pair[1]));
        assert!(pair[0].transition(pair[1]).is_ok());
    }
}

#[test]
fn failure_returns_to_disconnected() {
    let failing = [PeerState::Discovering, PeerState::Connecting, PeerState::Handshaking];
    for s in failing {
        assert!(s.can_transition_to(PeerState::Disconnected));
    }
}

#[test]
fn connected_can_go_dead() {
    assert!(PeerState::Connected.can_transition_to(PeerState::Dead));
}

#[test]
fn dead_can_reconnect() {
    assert!(PeerState::Dead.can_transition_to(PeerState::Disconnected));
}

#[test]
fn disconnected_cannot_go_connected() {
    assert!(!PeerState::Disconnected.can_transition_to(PeerState::Connected));
    assert!(matches!(
        PeerState::Disconnected.transition(PeerState::Connected),
        Err(TransitionError::InvalidTransition {
            from: PeerState::Disconnected,
            to: PeerState::Connected
        })
    ));
}

#[test]
fn no_self_transition() {
    for s in [
        PeerState::Disconnected,
        PeerState::Discovering,
        PeerState::Connecting,
        PeerState::Handshaking,
        PeerState::Connected,
        PeerState::Dead,
    ] {
        assert!(!s.can_transition_to(s), "{s:?} should not transition to itself");
    }
}

#[test]
fn state_record_transition_updates_time() {
    let mut rec = StateRecord::new(PeerState::Disconnected);
    let before = rec.entered_at;
    rec.transition(PeerState::Discovering).unwrap();
    assert_eq!(rec.state, PeerState::Discovering);
    assert!(rec.entered_at >= before);
}

#[test]
fn state_record_rejects_invalid() {
    let mut rec = StateRecord::new(PeerState::Disconnected);
    assert!(rec.transition(PeerState::Connected).is_err());
}

#[test]
fn display_roundtrip() {
    assert_eq!(PeerState::Connected.to_text(), "connected");
    assert_eq!(PeerState::Dead.to_text(), "dead");
}

#[test]
fn states_are_entered_at_the_given_time() {
    let t = Instant::now();
    let later = t + Duration::from_secs(7);
    let mut rec = StateRecord::new_at(PeerState::Disconnected, t);
    assert_eq!(rec.entered_at, t);
    assert_eq!(rec.elapsed_at(&later), Duration::from_secs(7));
    assert_eq!(rec.elapsed_at(&t), Duration::ZERO);
    assert!(rec.transition_at(PeerState::Connected, later).is_err());
    assert_eq!((rec.state, rec.entered_at), (PeerState::Disconnected, t));
    rec.transition_at(PeerState::Discovering, later).unwrap();
    assert_eq!((rec.state, rec.entered_at), (PeerState::Discovering, later));

    let mut p = Peer::new_at(test_peer_id(1), Some(addr(1, 1)), t);
    assert_eq!(p.underlay_addr(), Some(addr(1, 1)));
    let entered = p.transition_at(PeerState::Discovering, later).unwrap();
    assert_eq!((entered, p.state()), (PeerState::Discovering, PeerState::Discovering));
    assert!(p.transition_at(PeerState::Connected, later).is_err());
}

#[test]
fn silence_grows_with_the_clock() {
    let t = Instant::now();
    let mut s = Session::with_config_at(t, Duration::from_secs(1), Duration::from_secs(3));
    assert_eq!(s.heartbeat_interval(), Duration::from_secs(1));
    let mut before = Duration::ZERO;
    for n in 0..5 {
        let now = t + Duration::from_secs(n);
        assert_eq!(s.silence_at(&now), Duration::from_secs(n));
        assert!(s.silence_at(&now) >= before);
        before = s.silence_at(&now);
        assert_eq!(s.expired_at(&now), n > 3);
    }
    s.record_activity_at(t + Duration::from_secs(4));
    assert_eq!(s.silence_at(&(t + Duration::from_secs(5))), Duration::from_secs(1));
}

#[test]
fn transition_error_text() {
    let e = PeerState::Connected.transition(PeerState::Connecting).unwrap_err();
    assert_eq!(e.to_text(), "invalid state transition from connected to connecting");
    let rec = StateRecord::from(PeerState::Dead);
    assert_eq!(rec.state, PeerState::Dead);
    assert!(rec.elapsed() < Duration::from_secs(10));
}

// ---------------------------------------------------------------------------
// Peers
// ---------------------------------------------------------------------------
#[test]
fn peer_keeps_what_it_is_told() {
    let mut p = Peer::new_with_underlay(test_peer_id(9), addr(9, 1));
    assert_eq!(p.underlay_addr(), Some(addr(9, 1)));
    assert_eq!(p.state(), PeerState::Disconnected);
    assert_eq!(p.path_kind(), PathKind::Direct);
    p.set_hostname("h".to_string());
    p.set_latency_ms(17);
    p.set_path_kind(PathKind::Relay(test_peer_id(1)));
    p.set_public_addr(addr(8, 2));
    assert_eq!(p.hostname(), "h");
    assert_eq!(p.latency_ms(), Some(17));
    assert_eq!(p.path_kind(), PathKind::Relay(test_peer_id(1)));
    assert_eq!(p.public_addr(), Some(addr(8, 2)));
    assert_eq!(p.overlay_ipv6(), None);
    assert_eq!(p.to_text(), "Peer(09090909)");
    assert!(p.state_elapsed() < Duration::from_secs(10));
    assert!(p.transition(PeerState::Connected).is_err());
    assert_eq!(p.state(), PeerState::Disconnected);
}

#[test]
fn insert_and_get() {
    let mut mgr = PeerManager::new();
    let id = test_peer_id(1);
    mgr.insert(Peer::new(id));
    assert!(mgr.contains(&id));
    assert_eq!(mgr.peer_count(), 1);
    let fetched = mgr.get(&id).unwrap();
    assert_eq!(fetched.id(), id);
}

#[test]
fn insert_emits_event() {
    let mut mgr = PeerManager::new();
    let id = test_peer_id(1);
    let at = addr(1, 4242);
    mgr.insert(Peer::new_with_underlay(id, at));
    assert_eq!(mgr.take_events(), vec![PeerEvent::Discovered { id, underlay: at }]);
    mgr.insert(Peer::new(id));
    let nowhere = SocketAddr::v4(Ipv4Addr::new(0, 0, 0, 0), 0);
    assert_eq!(mgr.take_events(), vec![PeerEvent::Discovered { id, underlay: nowhere }]);
    assert_eq!(mgr.peer_count(), 1);
}

#[test]
fn remove_emits_event() {
    let mut mgr = PeerManager::new();
    let id = test_peer_id(2);
    mgr.insert(Peer::new(id));
    mgr.take_events();
    mgr.remove(&id);
    assert_eq!(mgr.take_events(), vec![PeerEvent::Removed { id }]);
    assert_eq!(mgr.peer_count(), 0);
}

#[test]
fn discover_creates_peer_with_event() {
    let mut mgr = PeerManager::new();
    let id = test_peer_id(3);
    let addr = addr(1, 4242);
    let peer = mgr.discover(id, addr);
    assert_eq!(peer.id(), id);
    assert_eq!(peer.state(), PeerState::Discovering);
    assert_eq!(peer.underlay_addr(), Some(addr));
    assert_eq!(mgr.take_events(), vec![PeerEvent::Discovered { id, underlay: addr }]);
}

#[test]
fn discover_existing_peer_updates_addr() {
    let mut mgr = PeerManager::new();
    let id = test_peer_id(4);
    mgr.discover(id, addr(1, 4242));
    mgr.discover(id, addr(2, 4242));
    let peer = mgr.get(&id).unwrap();
    assert_eq!(peer.underlay_addr(), Some(addr(2, 4242)));
}

#[test]
fn transition_peer_emits_event() {
    let mut mgr = PeerManager::new();
    let id = test_peer_id(5);
    mgr.discover(id, addr(5, 4242));
    mgr.take_events();
    mgr.transition_peer(&id, PeerState::Connecting).unwrap();
    assert_eq!(
        mgr.take_events(),
        vec![PeerEvent::StateChanged {
            id,
            from: PeerState::Discovering,
            to: PeerState::Connecting,
        }]
    );
}

#[test]
fn transition_peer_unknown_fails() {
    let mut mgr = PeerManager::new();
    let id = test_peer_id(99);
    let result = mgr.transition_peer(&id, PeerState::Connecting);
    assert!(result.is_err());
}

#[test]
fn assign_overlay_emits_event() {
    let mut mgr = PeerManager::new();
    let id = test_peer_id(6);
    mgr.insert(Peer::new(id));
    mgr.take_events();
    let overlay = OverlayAddr::new(Ipv4Addr::new(10, 88, 1, 6));
    assert!(mgr.assign_overlay(&id, overlay));
    assert_eq!(mgr.take_events(), vec![PeerEvent::OverlayAssigned { id, overlay }]);
    assert!(!mgr.assign_overlay(&test_peer_id(7), overlay));
}

#[test]
fn connected_peers_filters() {
    let mut mgr = PeerManager::new();
    let id_a = test_peer_id(10);
    let id_b = test_peer_id(11);
    mgr.discover(id_b, addr(11, 4242));
    let pa = mgr.discover(id_a, addr(10, 4242));
    pa.transition(PeerState::Connecting).unwrap();
    pa.transition(PeerState::Handshaking).unwrap();
    pa.transition(PeerState::Connected).unwrap();
    assert!(mgr.connected_peers().contains(&id_a));
    assert!(!mgr.connected_peers().contains(&id_b));
}

#[test]
fn ids_returns_all() {
    let mut mgr = PeerManager::new();
    let id1 = test_peer_id(20);
    let id2 = test_peer_id(21);
    mgr.insert(Peer::new(id1));
    mgr.insert(Peer::new(id2));
    let mut ids = mgr.ids();
    ids.sort();
    assert_eq!(ids, vec![id1, id2]);
}

#[test]
fn connected_peer_goes_dead_on_eviction() {
    let mut mgr = PeerManager::new();
    let id = test_peer_id(1);
    discovered(&mut mgr, id, addr(1, 4242));
    connect(&mut mgr, &id);
    mgr.take_events();

    mgr.transition_peer(&id, PeerState::Dead).unwrap();

    assert_eq!(
        mgr.take_events(),
        vec![PeerEvent::StateChanged { id, from: PeerState::Connected, to: PeerState::Dead }]
    );
}

#[test]
fn dead_peer_can_reconnect() {
    let mut mgr = PeerManager::new();
    let id = test_peer_id(2);
    discovered(&mut mgr, id, addr(2, 4242));
    connect(&mut mgr, &id);
    mgr.transition_peer(&id, PeerState::Dead).unwrap();

    mgr.transition_peer(&id, PeerState::Disconnected).unwrap();
    mgr.transition_peer(&id, PeerState::Discovering).unwrap();
}

#[test]
fn remove_evicted_peer_from_manager() {
    let mut mgr = PeerManager::new();
    let id = test_peer_id(3);
    discovered(&mut mgr, id, addr(3, 4242));
    connect(&mut mgr, &id);

    assert!(mgr.contains(&id));
    assert_eq!(mgr.peer_count(), 1);

    mgr.remove(&id);
    assert!(!mgr.contains(&id));
    assert_eq!(mgr.peer_count(), 0);
}

#[test]
fn evict_expired_peers_keeps_active_ones() {
    let mut mgr = PeerManager::new();
    let id_active = test_peer_id(10);
    let id_expired = test_peer_id(20);

    discovered(&mut mgr, id_active, addr(10, 4242));
    connect(&mut mgr, &id_active);

    discovered(&mut mgr, id_expired, addr(20, 4242));
    connect(&mut mgr, &id_expired);

    assert_eq!(mgr.peer_count(), 2);

    mgr.transition_peer(&id_expired, PeerState::Dead).unwrap();
    mgr.remove(&id_expired);

    assert_eq!(mgr.peer_count(), 1);
    assert!(mgr.contains(&id_active));
    assert!(!mgr.contains(&id_expired));
}

#[test]
fn connected_peers_excludes_dead_and_expired() {
    let mut mgr = PeerManager::new();
    let id_alive = test_peer_id(30);
    let id_dead = test_peer_id(31);

    discovered(&mut mgr, id_alive, addr(30, 4242));
    connect(&mut mgr, &id_alive);

    discovered(&mut mgr, id_dead, addr(31, 4242));
    connect(&mut mgr, &id_dead);
    mgr.transition_peer(&id_dead, PeerState::Dead).unwrap();

    let connected = mgr.connected_peers();
    assert!(connected.contains(&id_alive));
    assert!(!connected.contains(&id_dead));
}

#[test]
fn full_peer_lifecycle_transitions() {
    let mut mgr = PeerManager::new();
    let id = PeerId::from_bytes([0x01; 32]);

    let peer = mgr.discover(id, addr(1, 4242));
    assert_eq!(peer.state(), PeerState::Discovering);

    mgr.transition_peer(&id, PeerState::Connecting).unwrap();
    assert_eq!(mgr.get(&id).unwrap().state(), PeerState::Connecting);

    mgr.transition_peer(&id, PeerState::Handshaking).unwrap();
    assert_eq!(mgr.get(&id).unwrap().state(), PeerState::Handshaking);

    mgr.transition_peer(&id, PeerState::Connected).unwrap();
    assert_eq!(mgr.get(&id).unwrap().state(), PeerState::Connected);

    mgr.transition_peer(&id, PeerState::Disconnected).unwrap();
    assert_eq!(mgr.get(&id).unwrap().state(), PeerState::Disconnected);
}

#[test]
fn peer_goes_dead_after_connected() {
    let mut mgr = PeerManager::new();
    let id = PeerId::from_bytes([0x02; 32]);

    mgr.discover(id, addr(2, 4242));
    connect(&mut mgr, &id);

    mgr.transition_peer(&id, PeerState::Dead).unwrap();
    assert_eq!(mgr.get(&id).unwrap().state(), PeerState::Dead);

    mgr.transition_peer(&id, PeerState::Disconnected).unwrap();
    assert_eq!(mgr.get(&id).unwrap().state(), PeerState::Disconnected);
}

#[test]
fn event_sequence_for_lifecycle() {
    let mut mgr = PeerManager::new();
    let id = PeerId::from_bytes([0x03; 32]);
    let addr = addr(3, 4242);

    mgr.discover(id, addr);
    let events = mgr.take_events();
    assert_eq!(events.len(), 1);
    assert!(matches!(events[0], PeerEvent::Discovered { id: _, underlay } if underlay == addr));

    let transitions = [
        (PeerState::Connecting, PeerState::Discovering, PeerState::Connecting),
        (PeerState::Handshaking, PeerState::Connecting, PeerState::Handshaking),
        (PeerState::Connected, PeerState::Handshaking, PeerState::Connected),
    ];

    for (next, expected_from, expected_to) in transitions {
        mgr.transition_peer(&id, next).unwrap();
        let events = mgr.take_events();
        assert_eq!(events.len(), 1);
        match events[0] {
            PeerEvent::StateChanged { id: eid, from, to } => {
                assert_eq!(eid, id);
                assert_eq!(from, expected_from);
                assert_eq!(to, expected_to);
            }
            other => panic!("expected StateChanged, got {other:?}"),
        }
    }
}

#[test]
fn multiple_peers_simultaneously() {
    let mut mgr = PeerManager::new();

    let ids: Vec<PeerId> = (1..=5).map(|i| PeerId::from_bytes([i; 32])).collect();

    for (i, id) in ids.iter().enumerate() {
        mgr.discover(*id, addr(i as u8 + 1, 4242));
    }

    assert_eq!(mgr.peer_count(), 5);

    for id in &ids {
        connect(&mut mgr, id);
    }

    let connected = mgr.connected_peers();
    assert_eq!(connected.len(), 5);

    mgr.remove(&ids[2]);
    assert_eq!(mgr.peer_count(), 4);

    let connected = mgr.connected_peers();
    assert_eq!(connected.len(), 4);
}

#[test]
fn overlay_assignment_and_lookup() {
    let mut mgr = PeerManager::new();
    let id = PeerId::from_bytes([0xAB; 32]);

    let peer = mgr.discover(id, addr(5, 4242));
    assert!(peer.overlay_addr().is_none());

    let overlay = OverlayAddr::new(Ipv4Addr::new(10, 88, 1, 100));
    assert!(mgr.assign_overlay(&id, overlay));

    assert_eq!(mgr.get(&id).unwrap().overlay_addr(), Some(overlay));
}

#[test]
fn rediscover_updates_underlay() {
    let mut mgr = PeerManager::new();
    let id = PeerId::from_bytes([0xCC; 32]);

    mgr.discover(id, addr(10, 4242));
    assert_eq!(mgr.get(&id).unwrap().underlay_addr(), Some(addr(10, 4242)));

    let peer = mgr.discover(id, addr(20, 4243));
    assert_eq!(peer.underlay_addr(), Some(addr(20, 4243)));
    assert_eq!(mgr.get(&id).unwrap().underlay_addr(), Some(addr(20, 4243)));
}

#[test]
fn only_a_step_changes_the_time_of_a_state() {
    let mut mgr = PeerManager::new();
    let (a, b, c) = (test_peer_id(1), test_peer_id(2), test_peer_id(3));
    let early = Instant::now();
    let late = early + Duration::from_secs(3600);
    mgr.discover_at(a, addr(1, 1), early);
    mgr.discover_at(b, addr(2, 2), late);
    let gap = Duration::from_millis(5);
    sleep(gap);
    let elapsed = |mgr: &PeerManager, id: &PeerId| mgr.get(id).unwrap().state_elapsed();

    mgr.discover_at(a, addr(9, 9), late);
    mgr.assign_overlay(&a, OverlayAddr::new(Ipv4Addr::new(10, 88, 1, 1)));
    assert!(mgr.transition_peer_at(&a, PeerState::Connected, late).is_err());
    mgr.insert(Peer::new_at(c, None, late));
    mgr.transition_peer_at(&b, PeerState::Connecting, late).unwrap();
    mgr.remove(&c);
    assert!(elapsed(&mgr, &a) >= gap);
    assert_eq!(elapsed(&mgr, &b), Duration::ZERO);

    mgr.transition_peer_at(&a, PeerState::Connecting, late).unwrap();
    assert_eq!(elapsed(&mgr, &a), Duration::ZERO);
    mgr.transition_peer_at(&b, PeerState::Handshaking, early).unwrap();
    assert!(elapsed(&mgr, &b) >= gap);
    assert!(mgr.remove(&b).unwrap().state_elapsed() >= gap);
}

#[test]
fn bringing_up_a_peer_goes_through_all_states() {
    let mut mgr = PeerManager::new();
    let id = test_peer_id(40);
    mgr.discover(id, addr(40, 4242));
    mgr.take_events();
    mgr.bring_up_at(&id, Instant::now());
    assert_eq!(mgr.get(&id).unwrap().state(), PeerState::Connected);
    assert_eq!(mgr.take_events().len(), 3);
    mgr.bring_up_at(&id, Instant::now());
    assert!(mgr.take_events().is_empty());
}

#[test]
fn event_texts() {
    let id = PeerId::from_bytes([0xab; 32]);
    let overlay = OverlayAddr::new(Ipv4Addr::new(10, 88, 1, 6));
    assert!(PeerEvent::Removed { id }.to_text().contains("abababab"));
    assert!(PeerEvent::Discovered { id, underlay: addr(3, 4242) }
        .to_text()
        .contains("10.0.0.3:4242"));
    assert!(PeerEvent::OverlayAssigned { id, overlay }.to_text().contains("10.88.1.6"));
    let changed = PeerEvent::StateChanged {
        id,
        from: PeerState::Connecting,
        to: PeerState::Handshaking,
    };
    assert!(changed.to_text().contains("connecting"));
    assert!(changed.to_text().contains("handshaking"));
}
