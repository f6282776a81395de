//! Seeds, keys, ids, addresses and the files that keep them.
use seednet::config::{FileWrite, StateDir};
use seednet::constants::{INFOHASH_LEN, NOISE_PROLOGUE_LEN, PUBLIC_KEY_LEN, SECRET_KEY_LEN};
use seednet::derive::{
    derive_infohash, derive_network_secret, derive_overlay_addr, derive_overlay_ipv6,
    overlay_from_digest, overlay_ipv6_from_digest,
};
use seednet::device::{DeviceKeys, DeviceKeysBytes, DeviceSeedBytes};
use seednet::dht::id_from_infohash;
use seednet::engine::{keep_waiting, print_status, SeedNetConfig, SeedNetEngine};
use seednet::error::{Error, IoError, IoKind};
use seednet::net::{Ipv4Addr, SocketAddr};
use seednet::overlay::AllocationTable;
use seednet::routing::RoutingTable;
use seednet::transport::TransportKind;
use seednet::types::{
    blake3_fingerprint, hex_decode, InfoHash, NetworkSecret, OverlayAddr, PeerId, SecretKeyBytes,
    Seed,
};
use sha1::Digest;
use std::collections::HashSet;
use std::str::FromStr;

// ---------------------------------------------------------------------------
// Errors
// ---------------------------------------------------------------------------
#[test]
fn io_error_conversion() {
    let io = std::io::Error::new(std::io::ErrorKind::NotFound, "x");
    let e: Error = Error::Io(IoError { kind: IoKind::NotFound, text: io.to_string() });
    assert!(matches!(e, Error::Io(_)));
    assert!(e.to_text().contains("io error"));
}

#[test]
fn error_messages() {
    assert_eq!(Error::EmptySeed.to_text(), "seed (passphrase) must not be empty");
    assert_eq!(Error::InvalidHexLength(3).to_text(), "invalid hex input: odd length 3");
    assert_eq!(Error::InvalidHexChar('\'').to_text(), "invalid hex character: '\\''");
    assert_eq!(Error::InvalidHexChar('g').to_text(), "invalid hex character: 'g'");
    assert_eq!(Error::InvalidInfoHashLen(19).to_text(), "infohash must be 20 bytes, got 19");
    assert_eq!(Error::InvalidPeerIdLen(4).to_text(), "peer id must be 32 bytes, got 4");
    assert_eq!(Error::Crypto("c".to_string()).to_text(), "cryptography error: c");
    assert_eq!(Error::NoiseHandshake("h".to_string()).to_text(), "Noise handshake failed: h");
    assert_eq!(Error::NoiseTransport("t".to_string()).to_text(), "Noise transport error: t");
    assert_eq!(Error::Serialize("s".to_string()).to_text(), "serialization error: s");
    assert_eq!(
        Error::IdentityMissing("p".to_string()).to_text(),
        "identity file missing or unreadable at p"
    );
    assert_eq!(Error::IdentityCorrupt("b".to_string()).to_text(), "identity file corrupt: b");
    assert_eq!(
        Error::UnsupportedIdentityVersion(7).to_text(),
        "unsupported identity file version: 7"
    );
    assert_eq!(Error::AddrParse("a".to_string()).to_text(), "address parse error: a");
    assert_eq!(Error::Dht("d".to_string()).to_text(), "DHT error: d");
}

// ---------------------------------------------------------------------------
// Basic types
// ---------------------------------------------------------------------------
#[test]
fn seed_round_trip() {
    let s = Seed::from_passphrase("correct horse battery staple");
    assert_eq!(s.as_bytes(), b"correct horse battery staple");
}

#[test]
fn seed_rejects_empty() {
    assert!(matches!(Seed::from_str(""), Err(Error::EmptySeed)));
}

#[test]
fn seed_accepts_text() {
    assert_eq!(Seed::from_str("x").unwrap().as_bytes(), b"x");
}

#[test]
fn seed_text_hides_the_passphrase() {
    let s = Seed::from_passphrase("correct horse battery staple");
    assert!(!s.to_text().contains("horse"));
}

#[test]
fn infohash_display_roundtrip() {
    let raw = [0xabu8; INFOHASH_LEN];
    let h = InfoHash::from_bytes(raw);
    let s = h.to_text();
    let parsed: InfoHash = s.parse().expect("parse");
    assert_eq!(parsed, h);
}

#[test]
fn infohash_rejects_wrong_length() {
    assert!(matches!(InfoHash::from_str("abcd"), Err(Error::InvalidInfoHashLen(2))));
}

#[test]
fn peer_id_parse_roundtrip() {
    let raw = [0x11u8; PUBLIC_KEY_LEN];
    let id = PeerId::from_bytes(raw);
    let s = id.to_text();
    let parsed: PeerId = s.parse().expect("parse");
    assert_eq!(parsed, id);
}

#[test]
fn peer_id_rejects_wrong_length() {
    assert!(matches!(PeerId::from_str("deadbeef"), Err(Error::InvalidPeerIdLen(4))));
}

#[test]
fn peer_id_short_is_the_beginning() {
    let mut raw = [0u8; 32];
    raw[0] = 0xde;
    raw[1] = 0xad;
    raw[2] = 0xbe;
    raw[3] = 0xef;
    let id = PeerId::from_bytes(raw);
    assert_eq!(id.short(), "deadbeef");
    assert!(id.to_text().starts_with("deadbeef00"));
}

#[test]
fn network_secret_debug_redacted() {
    let ns = NetworkSecret::from_bytes([0xff; NOISE_PROLOGUE_LEN]);
    let dbg = ns.debug_text();
    assert!(!dbg.contains("ff"), "secret leaked: {}", dbg);
}

#[test]
fn other_secrets_debug_redacted() {
    let key = SecretKeyBytes::from_bytes([0xff; SECRET_KEY_LEN]);
    assert!(!key.debug_text().contains("ff"));
    let seed = DeviceSeedBytes::from_bytes([0xff; 32]);
    assert!(!seed.debug_text().contains("ff"));
}

#[test]
fn overlay_addr_conversions() {
    let ip = Ipv4Addr::new(10, 88, 1, 5);
    let oa = OverlayAddr::new(ip);
    assert_eq!(Ipv4Addr::from(oa), ip);
    assert_eq!(oa.to_text(), "10.88.1.5");
}

#[test]
fn hex_decode_basic() {
    let v = hex_decode("deadbeef").unwrap();
    assert_eq!(v, [0xde, 0xad, 0xbe, 0xef]);
}

#[test]
fn hex_decode_rejects_odd() {
    assert!(hex_decode("abc").is_err());
}

#[test]
fn hex_decode_names_the_problem() {
    assert!(matches!(hex_decode("abc"), Err(Error::InvalidHexLength(3))));
    assert!(matches!(hex_decode("0g"), Err(Error::InvalidHexChar('g'))));
    assert_eq!(hex_decode("DEADbeef").unwrap(), [0xde, 0xad, 0xbe, 0xef]);
    assert!(hex_decode("").unwrap().is_empty());
}

#[test]
fn fingerprints_differ() {
    assert_ne!(blake3_fingerprint(b"a"), blake3_fingerprint(b"b"));
    assert_eq!(blake3_fingerprint(b"a"), blake3_fingerprint(b"a"));
    assert_eq!(blake3_fingerprint(b"").len(), 16);
}

// ---------------------------------------------------------------------------
// State directory
// ---------------------------------------------------------------------------
fn state_dir() -> StateDir {
    StateDir::new("/var/lib/seednet".to_string())
}

#[test]
fn first_run_generates_then_load_is_stable() {
    let sd = state_dir();
    let (k1, write) = sd.load_or_create_identity(None).expect("generate");
    let write: FileWrite = write.expect("a write");
    assert_eq!(write.path, sd.identity_path());
    let k2 = sd.load_identity(Some(&write.bytes)).expect("load").expect("some");
    assert_eq!(k1.public_key(), k2.public_key());
    let (k3, again) = sd.load_or_create_identity(Some(&write.bytes)).expect("load");
    assert!(again.is_none());
    assert_eq!(k1.public_key(), k3.public_key());
}

#[test]
fn load_returns_none_when_absent() {
    let sd = state_dir();
    assert!(sd.load_identity(None).expect("ok").is_none());
}

#[test]
fn save_and_reload_round_trip() {
    let sd = state_dir();
    let keys = DeviceKeys::generate();
    let write = sd.save_identity(&keys);
    let loaded = sd.load_identity(Some(&write.bytes)).expect("load").expect("some");
    assert_eq!(keys.public_key(), loaded.public_key());
}

#[test]
fn pid_round_trip() {
    let sd = state_dir();
    assert!(sd.read_pid(None).expect("ok").is_none());
    let write = sd.write_pid(4242);
    assert_eq!(write.bytes, b"4242");
    let text = String::from_utf8(write.bytes).unwrap();
    assert_eq!(sd.read_pid(Some(text.as_str())).expect("ok"), Some(4242));
    assert!(sd.read_pid(None).expect("ok").is_none());
}

#[test]
fn pid_file_with_junk_is_refused() {
    let sd = state_dir();
    assert!(sd.read_pid(Some("seven")).is_err());
    assert!(sd.read_pid(Some("")).is_err());
    assert!(sd.read_pid(Some("4294967296")).is_err());
    assert_eq!(sd.read_pid(Some(" 17\n")).expect("ok"), Some(17));
}

#[test]
fn corrupt_identity_errors() {
    let sd = state_dir();
    let res = sd.load_identity(Some(b"not valid postcard"));
    assert!(matches!(res, Err(Error::IdentityCorrupt(_))));
}

#[test]
fn state_files_stand_in_the_directory() {
    let sd = state_dir();
    assert_eq!(sd.path(), "/var/lib/seednet");
    assert_eq!(sd.identity_path(), "/var/lib/seednet/identity.bin");
    assert_eq!(sd.pid_path(), "/var/lib/seednet/seednet.pid");
    assert_eq!(sd.peers_path(), "/var/lib/seednet/peers.json");
    assert_eq!(sd.log_path(), "/var/lib/seednet/seednet.log");
    let write = sd.write_pid(1);
    assert_eq!(write.path, "/var/lib/seednet/seednet.pid");
    assert_eq!(write.temp, "/var/lib/seednet/.seednet.pid.tmp");
    assert_eq!(write.mode, 0o644);
    assert_eq!(sd.save_identity(&DeviceKeys::generate()).mode, 0o600);
}

// ---------------------------------------------------------------------------
// Device keys
// ---------------------------------------------------------------------------
#[test]
fn round_trip_via_seed_bytes() {
    let keys = DeviceKeys::generate();
    let seed = keys.seed_bytes();
    let restored = DeviceKeys::from_seed(seed);
    assert_eq!(restored.public_key(), keys.public_key());
    assert_eq!(restored.peer_id(), keys.peer_id());
}

#[test]
fn two_generations_are_distinct() {
    let a = DeviceKeys::generate();
    let b = DeviceKeys::generate();
    assert_ne!(a.public_key(), b.public_key());
    assert_ne!(a.peer_id(), b.peer_id());
}

#[test]
fn envelope_round_trip() {
    let keys = DeviceKeys::generate();
    let env = DeviceKeysBytes::from_keys(&keys);
    let bytes = env.to_bytes();
    let decoded = DeviceKeysBytes::from_bytes(&bytes).unwrap();
    let seed = decoded.into_seed().unwrap();
    let restored = DeviceKeys::from_seed(seed);
    assert_eq!(restored.public_key(), keys.public_key());
}

#[test]
fn unsupported_version_rejected() {
    let env = DeviceKeysBytes {
        version: 999,
        seed: SecretKeyBytes::from_bytes([0u8; SECRET_KEY_LEN]),
    };
    assert!(matches!(env.into_seed(), Err(Error::UnsupportedIdentityVersion(999))));
}

#[test]
fn x25519_public_is_32_bytes_and_stable() {
    let keys = DeviceKeys::generate();
    let pk = keys.x25519_public_key();
    assert_eq!(pk.len(), 32);
    assert_eq!(pk, keys.x25519_public_key());
}

#[test]
fn peer_id_is_32_bytes() {
    let keys = DeviceKeys::generate();
    assert_eq!(keys.peer_id().as_bytes().len(), 32);
}

#[test]
fn keys_are_those_of_the_seed() {
    let seed = [7u8; 32];
    let keys = DeviceKeys::from_seed(DeviceSeedBytes::from_bytes(seed));
    let signing = ed25519_dalek::SigningKey::from_bytes(&seed);
    assert_eq!(keys.public_key(), signing.verifying_key().to_bytes());
    assert_eq!(keys.signing_key().to_bytes(), seed);
    assert_eq!(keys.seed_bytes().into_inner(), seed);
    let secret = x25519_dalek::StaticSecret::from(keys.x25519_static_secret());
    let public = x25519_dalek::PublicKey::from(&secret);
    assert_eq!(keys.x25519_public_key(), public.to_bytes());
    assert_ne!(keys.x25519_public_key(), keys.public_key());
}

// ---------------------------------------------------------------------------
// Derivation
// ---------------------------------------------------------------------------
fn sample_seed() -> Seed {
    Seed::from_passphrase("correct horse battery staple")
}

#[test]
fn network_secret_is_deterministic() {
    let s = sample_seed();
    let a = derive_network_secret(&s);
    let b = derive_network_secret(&s);
    assert!(a == b, "same seed must yield same secret");
}

#[test]
fn different_seeds_yield_different_secrets() {
    let a = derive_network_secret(&Seed::from_passphrase("alpha"));
    let b = derive_network_secret(&Seed::from_passphrase("beta"));
    assert!(a != b);
}

#[test]
fn network_secret_is_32_bytes() {
    let s = derive_network_secret(&sample_seed());
    assert_eq!(s.as_bytes().len(), NOISE_PROLOGUE_LEN);
}

#[test]
fn infohash_is_deterministic_and_20_bytes() {
    let secret = derive_network_secret(&sample_seed());
    let h = derive_infohash(&secret);
    assert_eq!(h.as_bytes().len(), 20);
    assert_eq!(h, derive_infohash(&secret));
}

#[test]
fn infohash_changes_with_secret() {
    let s1 = derive_network_secret(&Seed::from_passphrase("a"));
    let s2 = derive_network_secret(&Seed::from_passphrase("b"));
    assert_ne!(derive_infohash(&s1), derive_infohash(&s2));
}

#[test]
fn overlay_addr_is_in_subnet() {
    let id = PeerId::from_bytes([0x42; 32]);
    let addr = derive_overlay_addr(&id);
    let octets = addr.ip().octets();
    assert_eq!(&octets[..2], &[10, 88], "addr {} not in /16", addr.to_text());
    assert!(octets[2] >= 1 && octets[2] <= 254, "third octet out of range");
}

#[test]
fn overlay_addr_is_deterministic() {
    let id = PeerId::from_bytes([0x42; 32]);
    assert_eq!(derive_overlay_addr(&id), derive_overlay_addr(&id));
}

#[test]
fn overlay_addr_distributes_well() {
    const N: u32 = 500;
    let mut seen: HashSet<[u8; 4]> = HashSet::new();
    for i in 0u32..N {
        let mut key = [0u8; 32];
        key[..4].copy_from_slice(&i.to_le_bytes());
        let id = PeerId::from_bytes(key);
        let addr = derive_overlay_addr(&id).ip();
        seen.insert(addr.octets());
    }
    let min_distinct = (N as usize * 95) / 100;
    assert!(
        seen.len() >= min_distinct,
        "poor distribution: {} distinct addresses for {} keys (expected >= {})",
        seen.len(),
        N,
        min_distinct
    );
}

#[test]
fn known_infohash_vector() {
    let secret = derive_network_secret(&Seed::from_passphrase("correct horse battery staple"));
    let h = derive_infohash(&secret).to_text();
    assert_eq!(h.len(), 40, "hex length");
    assert!(h.chars().all(|c| c.is_ascii_hexdigit() && !c.is_ascii_uppercase()));
}

#[test]
fn overlay_addr_follows_the_digest() {
    let mut digest = [0u8; 32];
    digest[8] = 77;
    assert_eq!(overlay_from_digest(&digest).to_text(), "10.88.1.77");
    digest[0] = 253;
    assert_eq!(overlay_from_digest(&digest).to_text(), "10.88.254.77");
    digest[0] = 255;
    assert_eq!(overlay_from_digest(&digest).to_text(), "10.88.2.77");
    let id = PeerId::from_bytes([3; 32]);
    let digest = *blake3::hash(&[3u8; 32]).as_bytes();
    assert_eq!(derive_overlay_addr(&id), overlay_from_digest(&digest));
    assert_eq!(derive_overlay_ipv6(&id), overlay_ipv6_from_digest(&digest));
}

#[test]
fn overlay_ipv6_is_deterministic_ula() {
    let id = DeviceKeys::from_seed(DeviceSeedBytes::from_bytes([0x42; 32])).peer_id();
    let a = derive_overlay_ipv6(&id);
    let b = derive_overlay_ipv6(&id);
    assert_eq!(a, b);
    assert_eq!(a.octets()[0], 0xfd);
    let other = DeviceKeys::from_seed(DeviceSeedBytes::from_bytes([0x43; 32])).peer_id();
    assert_ne!(a, derive_overlay_ipv6(&other));
}

#[test]
fn derivation_is_that_of_the_hash_functions() {
    let seed = sample_seed();
    let mut secret = [0u8; 32];
    hkdf::Hkdf::<sha2::Sha256>::new(Some(b"seednet-v1"), seed.as_bytes())
        .expand(b"seednet network secret v1", &mut secret)
        .unwrap();
    assert_eq!(derive_network_secret(&seed).as_bytes(), secret);
    let mut hashed = b"seednet infohash v1".to_vec();
    hashed.extend_from_slice(&secret);
    let infohash: [u8; 20] = sha1::Sha1::digest(&hashed).into();
    assert_eq!(derive_infohash(&derive_network_secret(&seed)).as_bytes(), infohash);
}

#[test]
fn id_from_infohash_is_infallible_for_20_bytes() {
    let secret = derive_network_secret(&Seed::from_passphrase("test"));
    let ih = derive_infohash(&secret);
    let id = id_from_infohash(&ih).expect("20-byte infohash must convert");
    let back: [u8; 20] = id.into();
    assert_eq!(back.as_slice(), ih.as_bytes());
}

// ---------------------------------------------------------------------------
// Engine
// ---------------------------------------------------------------------------
fn engine(seed: &str, port: u16) -> SeedNetEngine {
    let config = SeedNetConfig::new(Seed::from_passphrase(seed), port, state_dir(), Vec::new());
    SeedNetEngine::new(config, None, "host".to_string()).unwrap().0
}

#[test]
fn engine_new_derives_identity() {
    let engine = engine("test engine", 4242);
    assert_eq!(engine.our_overlay().ip().octets()[0], 10);
    assert_eq!(engine.our_overlay().ip().octets()[1], 88);
    assert_ne!(engine.infohash().as_bytes(), [0; 20]);
}

#[test]
fn allocation_works() {
    let mut engine = engine("alloc test", 4242);
    let id = engine.our_peer_id();
    let overlay = engine.our_overlay();
    let table = engine.allocation_table_mut();
    let addr = table.allocate(id);
    assert_eq!(addr, overlay);
    let alloc = table.lookup_by_peer(&id);
    assert!(alloc.is_some());
}

#[test]
fn engine_starts_with_its_own_address() {
    let mut engine = engine("alloc test", 4242);
    let overlay = engine.start();
    assert_eq!(overlay, engine.our_overlay());
    assert_eq!(engine.allocation_table().len(), 1);
    assert!(engine.routing_table().is_empty());
    assert_eq!(engine.peer_manager().peer_count(), 0);
    assert_eq!(engine.start(), overlay);
    assert_eq!(engine.allocation_table().len(), 1);
}

#[test]
fn print_status_does_not_panic() {
    let engine = engine("status test", 4242);
    print_status(&engine);
}

#[test]
fn print_status_ok() {
    let engine = engine("status", 4242);
    let text = print_status(&engine);
    let lines: Vec<&str> = text.lines().collect();
    assert_eq!(lines.len(), 8);
    assert_eq!(lines[0], "SeedNet status");
    assert_eq!(lines[1].chars().count(), 50);
    assert_eq!(lines[2], format!("  Infohash    : {}", engine.infohash().to_text()));
    assert_eq!(lines[3], format!("  PeerId      : {}", engine.our_peer_id().to_text()));
    assert_eq!(lines[4], format!("  Overlay IP  : {}", engine.our_overlay().to_text()));
    assert_eq!(lines[5], "  Port        : 4242");
    assert_eq!(lines[6], "  State dir   : /var/lib/seednet");
    assert_eq!(lines[7], lines[1]);
}

#[test]
fn deterministic_identity_from_seed() {
    let seed = Seed::from_passphrase("deterministic test");
    let config = SeedNetConfig::new(seed.clone(), 4242, state_dir(), Vec::new());
    let (engine, _) = SeedNetEngine::new(config, None, "host".to_string()).unwrap();

    let secret = derive_network_secret(&seed);
    let infohash = derive_infohash(&secret);
    assert_eq!(*engine.infohash(), infohash);
    assert!(*engine.network_secret() == secret);
    assert_eq!(engine.our_overlay(), derive_overlay_addr(&engine.our_peer_id()));
}

#[test]
fn overlay_ip_in_subnet() {
    let engine = engine("subnet check", 4242);
    let octets = engine.our_overlay().ip().octets();
    assert_eq!(octets[0], 10);
    assert_eq!(octets[1], 88);
}

#[test]
fn self_allocation_and_route() {
    let mut engine = engine("self alloc", 4242);
    let peer_id = engine.our_peer_id();
    let overlay = engine.our_overlay();

    let addr = engine.allocation_table_mut().allocate(peer_id);
    assert_eq!(addr, overlay);

    let routing = engine.routing_table_mut();
    routing.add_route(overlay, peer_id);
    assert_eq!(routing.lookup(overlay.ip()), Some(&peer_id));
    assert_eq!(engine.routing_table().len(), 1);
}

#[test]
fn two_engines_different_networks() {
    let engine_a = engine("network A", 4242);
    let engine_b = engine("network B", 4243);

    assert_ne!(engine_a.infohash(), engine_b.infohash());
    assert_ne!(engine_a.our_overlay(), engine_b.our_overlay());
    assert_ne!(engine_a.our_peer_id(), engine_b.our_peer_id());
}

#[test]
fn same_network_different_devices() {
    let engine_a = engine("shared network", 4242);
    let engine_b = engine("shared network", 4243);

    assert_eq!(engine_a.infohash(), engine_b.infohash());
    assert!(engine_a.network_secret() == engine_b.network_secret());

    assert_ne!(engine_a.our_peer_id(), engine_b.our_peer_id());
    assert_ne!(engine_a.our_overlay(), engine_b.our_overlay());
}

#[test]
fn two_devices_routing_table_cross_reference() {
    let keys_a = DeviceKeys::from_seed(DeviceSeedBytes::from_bytes([0xAA; 32]));
    let keys_b = DeviceKeys::from_seed(DeviceSeedBytes::from_bytes([0xBB; 32]));

    let id_a = keys_a.peer_id();
    let id_b = keys_b.peer_id();
    let overlay_a = derive_overlay_addr(&id_a);
    let overlay_b = derive_overlay_addr(&id_b);

    let mut table_a = AllocationTable::new();
    let mut table_b = AllocationTable::new();
    table_a.allocate(id_a);
    table_b.allocate(id_b);

    let mut routing_a = RoutingTable::new();
    routing_a.add_route(overlay_b, id_b);
    routing_a.add_route(overlay_a, id_a);

    let mut routing_b = RoutingTable::new();
    routing_b.add_route(overlay_a, id_a);
    routing_b.add_route(overlay_b, id_b);

    assert_eq!(routing_a.lookup(overlay_b.ip()), Some(&id_b));
    assert_eq!(routing_b.lookup(overlay_a.ip()), Some(&id_a));
    assert_eq!(routing_a.lookup(overlay_a.ip()), Some(&id_a));

    let removed = routing_a.remove_route(&overlay_b).unwrap();
    assert_eq!(removed, id_b);
    assert!(routing_a.lookup(overlay_b.ip()).is_none());
}

#[test]
fn identity_persistence() {
    let seed = Seed::from_passphrase("persist test");

    let config1 = SeedNetConfig::new(seed.clone(), 4242, state_dir(), Vec::new());
    let (engine1, write) = SeedNetEngine::new(config1, None, "host".to_string()).unwrap();
    let peer_id1 = engine1.our_peer_id();
    let stored = write.unwrap().bytes;

    let config2 = SeedNetConfig::new(seed, 4243, state_dir(), Vec::new());
    let (engine2, write) = SeedNetEngine::new(config2, Some(&stored), "host".to_string()).unwrap();
    let peer_id2 = engine2.our_peer_id();

    assert!(write.is_none());
    assert_eq!(peer_id1, peer_id2, "same state dir must yield same identity");
}

#[test]
fn engine_refuses_a_corrupt_identity() {
    let config = SeedNetConfig::new(Seed::from_passphrase("x"), 4242, state_dir(), Vec::new());
    let made = SeedNetEngine::new(config, Some(b"junk"), "host".to_string());
    assert!(matches!(made, Err(Error::IdentityCorrupt(_))));
}

#[test]
fn engine_defaults() {
    let config = SeedNetConfig::new(Seed::from_passphrase("x"), 4242, state_dir(), Vec::new());
    assert_eq!(
        config.transports,
        vec![TransportKind::Udp, TransportKind::Tcp, TransportKind::Ws]
    );
    assert!(config.tracker_urls.is_empty());
    assert!(config.direct_peers.is_empty());
    let urls = vec!["udp://one.example:1".to_string(), "http://two.example/a".to_string()];
    let seed = Seed::from_passphrase("x");
    assert_eq!(SeedNetConfig::new(seed, 1, state_dir(), urls.clone()).tracker_urls, urls);
    let engine = engine("x", 4242);
    assert_eq!(engine.port(), 4242);
    assert_eq!(engine.infohash_bytes().as_slice(), engine.infohash().as_bytes());
    assert_eq!(engine.tracker_peer_id().as_slice(), &engine.our_peer_id().as_bytes()[..20]);
    let (config, node) = engine.into_parts();
    assert_eq!(config.port, 4242);
    assert_eq!(node.hostname(), "host");
}

#[test]
fn texts_are_read_by_from_str() {
    assert!(matches!(Seed::from_str(""), Err(Error::EmptySeed)));
    assert_eq!(Seed::from_str(" ").unwrap().as_bytes(), b" ");
    assert_eq!("h\u{e9}".parse::<Seed>().unwrap().as_bytes(), "h\u{e9}".as_bytes());

    let upper = "0123456789ABCDEF0123456789abcdef01234567";
    let h: InfoHash = upper.parse().unwrap();
    assert_eq!(h.to_text(), upper.to_ascii_lowercase());
    assert_eq!(InfoHash::from_str(&h.to_text()).unwrap(), h);
    assert!(matches!(InfoHash::from_str("abcd"), Err(Error::InvalidInfoHashLen(2))));
    assert!(matches!(InfoHash::from_str("abc"), Err(Error::InvalidHexLength(3))));
    assert!(matches!(InfoHash::from_str("zz"), Err(Error::InvalidHexChar('z'))));

    let upper = "AB".repeat(32);
    let id: PeerId = upper.parse().unwrap();
    assert_eq!(id, PeerId::from_bytes([0xab; 32]));
    assert_eq!(id.to_text(), upper.to_ascii_lowercase());
    assert_eq!(PeerId::from_str(&id.to_text()).unwrap(), id);
    assert!(matches!(PeerId::from_str("deadbeef"), Err(Error::InvalidPeerIdLen(4))));
    assert!(matches!(PeerId::from_str("xyz"), Err(Error::InvalidHexLength(3))));
}

#[test]
fn an_engine_begins_with_nothing() {
    let (_, node) = engine("fresh", 4242).into_parts();
    assert_eq!(node.public_addr(), None);
    assert!(!node.can_relay());
    assert!(node.session_ids().is_empty());
    assert_eq!(node.peers().peer_count(), 0);
    assert!(node.routes().is_empty());
}

#[test]
fn an_engine_keeps_what_it_is_told() {
    let urls = vec!["udp://one.example:1".to_string()];
    let peers = vec![SocketAddr::v4(Ipv4Addr::new(192, 0, 2, 1), 7)];
    let mut config =
        SeedNetConfig::new(Seed::from_passphrase("x"), 4242, state_dir(), urls.clone());
    config.transports = vec![TransportKind::Ws];
    config.direct_peers = peers.clone();
    let (mut engine, _) = SeedNetEngine::new(config, None, "host".to_string()).unwrap();
    engine.start();
    let (config, _) = engine.into_parts();
    assert_eq!(config.transports, vec![TransportKind::Ws]);
    assert_eq!(config.tracker_urls, urls);
    assert_eq!(config.direct_peers, peers);
}

#[test]
fn the_identity_file_alone_makes_the_device() {
    let (first, write) = SeedNetEngine::new(
        SeedNetConfig::new(Seed::from_passphrase("one net"), 1, state_dir(), Vec::new()),
        None,
        "host".to_string(),
    )
    .unwrap();
    let stored = write.unwrap().bytes;
    let (second, _) = SeedNetEngine::new(
        SeedNetConfig::new(Seed::from_passphrase("another net"), 2, state_dir(), Vec::new()),
        Some(&stored),
        "other".to_string(),
    )
    .unwrap();
    assert_eq!(first.our_peer_id(), second.our_peer_id());
    assert_eq!(first.our_overlay(), second.our_overlay());
    assert_eq!(first.our_overlay_ipv6(), second.our_overlay_ipv6());
    assert_eq!(
        first.device_keys().x25519_public_key(),
        second.device_keys().x25519_public_key()
    );
    assert_ne!(first.infohash(), second.infohash());
}

#[test]
fn signatures_are_those_of_the_id() {
    // The second test vector of the Ed25519 standard.
    let seed: [u8; 32] =
        hex_decode("4ccd089b28ff96da9db6c346ec114e0f5b8a319f35aba624da8cf6ed4fb8a6fb")
            .unwrap()
            .try_into()
            .unwrap();
    let keys = DeviceKeys::from_seed(DeviceSeedBytes::from_bytes(seed));
    assert_eq!(
        keys.peer_id().to_text(),
        "3d4017c3e843895a92b70aa74d1b7ebc9c982ccf2ec4968cc0cd55f12af4660c"
    );
    let signature = keys.sign(&[0x72]);
    assert_eq!(
        signature.to_vec(),
        hex_decode(
            "92a009a9f0d4cab8720e820b5f642540a2b27b5416503f8fb3762223ebdb69da\
             085ac1e43e15996e458f3613d0f11d8c387b2eaeb4302aeeb00d291612bb0c00"
        )
        .unwrap()
    );
}

#[test]
fn the_wait_for_the_address_ends() {
    assert!(keep_waiting(0, false));
    assert!(keep_waiting(9, false));
    assert!(!keep_waiting(10, false));
    assert!(!keep_waiting(0, true));
}
