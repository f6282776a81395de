//! Handshakes, encrypted sessions and the messages in them.
use seednet::codec::DecodeError;
use seednet::derive::{derive_network_secret, derive_overlay_addr, derive_overlay_ipv6};
use seednet::device::{DeviceKeys, DeviceSeedBytes};
use seednet::error::Error;
use seednet::frame::{decode_frame, encode_frame};
use seednet::message::{deserialize_message, serialize_message, serialize_message_into, Message};
use seednet::net::{Ipv4Addr, Ipv6Addr, SocketAddr};
use seednet::noise::{
    complete_handshake_pair, InitiatorHandshake, ResponderHandshake, SecureTransport,
};
use seednet::types::{NetworkSecret, OverlayAddr, PeerId, Seed};

fn keys(n: u8) -> DeviceKeys {
    DeviceKeys::from_seed(DeviceSeedBytes::from_bytes([n; 32]))
}

fn secret(phrase: &str) -> NetworkSecret {
    derive_network_secret(&Seed::from_passphrase(phrase))
}

fn pair(phrase: &str, a: u8, b: u8) -> (SecureTransport, SecureTransport) {
    let secret = secret(phrase);
    complete_handshake_pair(&secret, &keys(a), &secret, &keys(b)).unwrap()
}

fn make_ipv4_packet(src: Ipv4Addr, dst: Ipv4Addr, payload: &[u8]) -> Vec<u8> {
    const HDR: usize = 20;
    let total = HDR + payload.len();
    let mut pkt = vec![0u8; total];
    pkt[0] = 0x45;
    pkt[2] = ((total >> 8) & 0xFF) as u8;
    pkt[3] = (total & 0xFF) as u8;
    pkt[8] = 64;
    pkt[9] = 1;
    pkt[12..16].copy_from_slice(&src.octets());
    pkt[16..20].copy_from_slice(&dst.octets());
    pkt[HDR..].copy_from_slice(payload);
    pkt
}

// ---------------------------------------------------------------------------
// Handshake
// ---------------------------------------------------------------------------
#[test]
fn full_xx_handshake_roundtrip() {
    let (mut t_a, mut t_b) = pair("test net", 0x11, 0x22);

    let encrypted = t_a.encrypt(b"hello from A").unwrap();
    let decrypted = t_b.decrypt(&encrypted).unwrap();
    assert_eq!(&decrypted, b"hello from A");

    let encrypted2 = t_b.encrypt(b"hello from B").unwrap();
    let decrypted2 = t_a.decrypt(&encrypted2).unwrap();
    assert_eq!(&decrypted2, b"hello from B");
}

#[test]
fn wrong_prologue_fails() {
    let secret_a = secret("network alpha");
    let secret_b = secret("network beta");
    let result = complete_handshake_pair(&secret_a, &keys(0x11), &secret_b, &keys(0x22));
    assert!(result.is_err(), "handshake with wrong prologue should fail");
}

#[test]
fn another_network_is_refused_by_the_reader() {
    for (x, y) in [("network alpha", "network beta"), ("network beta", "network alpha")] {
        let result = complete_handshake_pair(&secret(x), &keys(1), &secret(y), &keys(2));
        let text = result.err().unwrap().to_text();
        assert!(text.starts_with("Noise handshake failed: msg B read: "), "{text}");
    }
}

#[test]
fn messages_out_of_turn_are_refused_and_change_nothing() {
    let secret = secret("test net");
    let mut initiator = InitiatorHandshake::new(&secret, &keys(1)).unwrap();
    let mut responder = ResponderHandshake::new(&secret, &keys(2)).unwrap();
    let refused = responder.write_message_b(&[]).unwrap_err().to_text();
    assert!(refused.starts_with("Noise handshake failed: msg B write: "), "{refused}");
    let a = initiator.write_message_a(&[]).unwrap();
    let refused = initiator.write_message_a(&[]).unwrap_err().to_text();
    assert!(refused.starts_with("Noise handshake failed: msg A write: "), "{refused}");
    responder.read_message_a(&a).unwrap();
    assert!(responder.read_message_a(&a).is_err());
    let b = responder.write_message_b(&[]).unwrap();
    initiator.read_message_b(&b).unwrap();
    assert!(initiator.read_message_b(&b).is_err());
    let done = initiator.finish(&[]).unwrap();
    let mut there = responder.finish(&done.msg_bytes).unwrap().transport;
    let mut here = done.transport;
    let sealed = here.encrypt(b"after all").unwrap();
    assert_eq!(there.decrypt(&sealed).unwrap(), b"after all");
}

#[test]
fn handshakes_cannot_be_finished_early() {
    let secret = secret("test net");
    let early = InitiatorHandshake::new(&secret, &keys(1)).unwrap().finish(&[]);
    assert!(matches!(
        early.map(|h| h.msg_bytes),
        Err(Error::NoiseHandshake(m)) if m == "remote static key unavailable"
    ));
    let mut initiator = InitiatorHandshake::new(&secret, &keys(1)).unwrap();
    let a = initiator.write_message_a(&[]).unwrap();
    let early = ResponderHandshake::new(&secret, &keys(2)).unwrap().finish(&a);
    assert!(matches!(
        early.map(|h| h.msg_bytes),
        Err(Error::NoiseHandshake(m)) if m == "remote static key unavailable"
    ));
    let early = initiator.finish(&[]).map(|h| h.msg_bytes).unwrap_err().to_text();
    assert!(early.starts_with("Noise handshake failed: msg C write: "), "{early}");
}

#[test]
fn remote_static_key_matches() {
    let (t_a, t_b) = pair("test net", 0x11, 0x22);
    assert_eq!(t_a.remote_static_key(), &keys(0x22).x25519_public_key());
    assert_eq!(t_b.remote_static_key(), &keys(0x11).x25519_public_key());
}

#[test]
fn multiple_encrypt_decrypt_roundtrips() {
    let (mut t_a, mut t_b) = pair("test net", 0x11, 0x22);
    for i in 0u32..10 {
        let msg = format!("message {i}");
        let enc = t_a.encrypt(msg.as_bytes()).unwrap();
        let dec = t_b.decrypt(&enc).unwrap();
        assert_eq!(&dec, msg.as_bytes());
    }
}

#[test]
fn decrypt_garbage_fails() {
    let (_, mut t_b) = pair("test net", 0x11, 0x22);
    let result = t_b.decrypt(&[0xff; 64]);
    assert!(result.is_err(), "decrypting garbage should fail");
}

#[test]
fn empty_payload_handshake() {
    let (mut t_a, mut t_b) = pair("test net", 0x11, 0x22);
    let enc = t_a.encrypt(&[]).unwrap();
    let dec = t_b.decrypt(&enc).unwrap();
    assert!(dec.is_empty());
}

#[test]
fn two_devices_handshake_and_exchange_messages() {
    let (mut t_a, mut t_b) = pair("integration test net", 0xAA, 0xBB);

    let msg_a = b"hello from device A";
    let enc_a = t_a.encrypt(msg_a).unwrap();
    let dec_a: Vec<u8> = t_b.decrypt(&enc_a).unwrap();
    assert_eq!(&dec_a, msg_a);

    let msg_b = b"hello from device B!";
    let enc_b = t_b.encrypt(msg_b).unwrap();
    let dec_b: Vec<u8> = t_a.decrypt(&enc_b).unwrap();
    assert_eq!(&dec_b, msg_b);

    for size in [0, 1, 100, 500, 1000] {
        let payload: Vec<u8> = (0..size).map(|i| (i % 256) as u8).collect();
        let enc = t_a.encrypt(&payload).unwrap();
        let dec: Vec<u8> = t_b.decrypt(&enc).unwrap();
        assert_eq!(dec, payload);
    }
}

#[test]
fn handshake_step_by_step() {
    let secret = secret("step by step");
    let keys_i = keys(0x11);
    let keys_r = keys(0x22);

    let mut initiator = InitiatorHandshake::new(&secret, &keys_i).unwrap();
    let mut responder = ResponderHandshake::new(&secret, &keys_r).unwrap();

    let msg_a = initiator.write_message_a(&[]).unwrap();
    assert!(!msg_a.is_empty());
    let payload_a = responder.read_message_a(&msg_a).unwrap();
    assert!(payload_a.is_empty());

    let msg_b = responder.write_message_b(&[]).unwrap();
    assert!(!msg_b.is_empty());
    let payload_b = initiator.read_message_b(&msg_b).unwrap();
    assert!(payload_b.is_empty());

    let init_result = initiator.finish(&[]).unwrap();
    let resp_result = responder.finish(&init_result.msg_bytes).unwrap();

    assert_eq!(init_result.transport.remote_static_key(), &keys_r.x25519_public_key());
    assert_eq!(resp_result.transport.remote_static_key(), &keys_i.x25519_public_key());
}

#[test]
fn handshake_messages_carry_payloads() {
    let secret = secret("payloads");
    let mut initiator = InitiatorHandshake::new(&secret, &keys(1)).unwrap();
    let mut responder = ResponderHandshake::new(&secret, &keys(2)).unwrap();
    let msg_a = initiator.write_message_a(b"first").unwrap();
    assert_eq!(responder.read_message_a(&msg_a).unwrap(), b"first");
    let msg_b = responder.write_message_b(b"second").unwrap();
    assert_eq!(initiator.read_message_b(&msg_b).unwrap(), b"second");
}

#[test]
fn handshake_errors_name_the_step() {
    let secret = secret("errors");
    let mut responder = ResponderHandshake::new(&secret, &keys(2)).unwrap();
    let e = responder.read_message_a(b"short").unwrap_err();
    assert!(e.to_text().starts_with("Noise handshake failed: msg A read: "));
    let mut initiator = InitiatorHandshake::new(&secret, &keys(1)).unwrap();
    initiator.write_message_a(&[]).unwrap();
    let e = initiator.read_message_b(b"short").unwrap_err();
    assert!(e.to_text().starts_with("Noise handshake failed: msg B read: "));
}

#[test]
fn wrong_network_secret_handshake_fails() {
    let result = complete_handshake_pair(
        &secret("network alpha"),
        &keys(0x11),
        &secret("network beta"),
        &keys(0x22),
    );
    assert!(result.is_err(), "handshake with mismatched prologue must fail");
}

#[test]
fn tampered_ciphertext_detected() {
    let (mut t_a, mut t_b) = pair("tamper test", 0x10, 0x20);

    let msg = Message::Data(b"sensitive data".to_vec());
    let serialized = serialize_message(&msg);
    let mut encrypted = t_a.encrypt(&serialized).unwrap();

    let mid = encrypted.len() / 2;
    encrypted[mid] ^= 0xFF;

    let framed = encode_frame(&encrypted);
    let inner = decode_frame(&framed).unwrap();
    let result = t_b.decrypt(inner);
    assert!(result.is_err(), "tampered ciphertext must be rejected");
}

#[test]
fn replay_attack_detected() {
    let (mut t_a, mut t_b) = pair("replay test", 0x10, 0x20);

    let encrypted = t_a.encrypt(b"first message").unwrap();

    let dec: Vec<u8> = t_b.decrypt(&encrypted).unwrap();
    assert_eq!(&dec, b"first message");

    let replay_result = t_b.decrypt(&encrypted);
    assert!(replay_result.is_err(), "replayed ciphertext must be rejected");
}

#[test]
fn noise_handshake_and_data_over_loopback_udp() {
    let secret = secret("loopback test");
    let keys_a = keys(0xAA);
    let keys_b = keys(0xBB);

    let overlay_a = derive_overlay_addr(&keys_a.peer_id());
    let overlay_b = derive_overlay_addr(&keys_b.peer_id());

    const PREFIX_A: &[u8] = b"seednet-hs-a";
    const PREFIX_B: &[u8] = b"seednet-hs-b";

    let mut initiator = InitiatorHandshake::new(&secret, &keys_a).unwrap();
    let msg_a = initiator.write_message_a(&[]).unwrap();
    let mut recv_a = PREFIX_A.to_vec();
    recv_a.extend_from_slice(&msg_a);

    let mut responder = ResponderHandshake::new(&secret, &keys_b).unwrap();
    responder.read_message_a(&recv_a[PREFIX_A.len()..]).unwrap();
    let msg_b = responder.write_message_b(&[]).unwrap();
    let mut recv_b = PREFIX_B.to_vec();
    recv_b.extend_from_slice(&msg_b);

    initiator.read_message_b(&recv_b[PREFIX_B.len()..]).unwrap();
    let init_result = initiator.finish(&[]).unwrap();
    let mut transport_a = init_result.transport;

    let resp_result = responder.finish(&init_result.msg_bytes).unwrap();
    let mut transport_b = resp_result.transport;

    assert_eq!(transport_a.remote_static_key(), &keys_b.x25519_public_key());
    assert_eq!(transport_b.remote_static_key(), &keys_a.x25519_public_key());

    let ip_packet = make_ipv4_packet(overlay_a.ip(), overlay_b.ip(), b"ping payload");
    let wrapped = serialize_message(&Message::Data(ip_packet.clone()));
    let encrypted = transport_a.encrypt(&wrapped).unwrap();

    let decrypted = transport_b.decrypt(&encrypted).unwrap();
    match deserialize_message(&decrypted).unwrap() {
        Message::Data(payload) => {
            assert_eq!(&*payload, ip_packet.as_slice(), "IP packet arrived intact");
            assert_eq!(&payload[12..16], &overlay_a.ip().octets(), "src IP correct");
            assert_eq!(&payload[16..20], &overlay_b.ip().octets(), "dst IP correct");
        }
        other => panic!("expected Data, got {other:?}"),
    }

    let reply = make_ipv4_packet(overlay_b.ip(), overlay_a.ip(), b"ping payload");
    let wrapped_reply = serialize_message(&Message::Data(reply.clone()));
    let enc_reply = transport_b.encrypt(&wrapped_reply).unwrap();
    let dec_reply = transport_a.decrypt(&enc_reply).unwrap();
    match deserialize_message(&dec_reply).unwrap() {
        Message::Data(payload) => {
            assert_eq!(&*payload, reply.as_slice(), "reply arrived intact");
        }
        other => panic!("expected Data reply, got {other:?}"),
    }
}

// ---------------------------------------------------------------------------
// Messages
// ---------------------------------------------------------------------------
#[test]
fn frame_encrypt_decrypt_roundtrip() {
    let (mut t_a, mut t_b) = pair("test", 0x11, 0x22);

    let msg = Message::Data(b"hello overlay".to_vec());
    let payload = serialize_message(&msg);
    let encrypted: Vec<u8> = t_a.encrypt(&payload).unwrap();
    let framed = encode_frame(&encrypted);

    let inner = decode_frame(&framed).unwrap();
    let decrypted: Vec<u8> = t_b.decrypt(inner).unwrap();
    let recovered: Message = deserialize_message(&decrypted).unwrap();
    assert_eq!(recovered, msg);
}

#[test]
fn serialize_deserialize_messages() {
    let cases = vec![
        Message::Data(vec![1, 2, 3]),
        Message::Heartbeat,
        Message::Ping { sent_ms: 0 },
        Message::Pong { sent_ms: 0 },
        Message::SessionInit {
            overlay: OverlayAddr::new(Ipv4Addr::new(10, 88, 1, 1)),
            overlay_ipv6: None,
            hostname: String::new(),
            public_addr: None,
        },
    ];
    for msg in cases {
        let bytes = serialize_message(&msg);
        let recovered = deserialize_message(&bytes).unwrap();
        assert_eq!(recovered, msg);
    }
}

#[test]
fn ip_packet_survives_full_message_pipeline() {
    let (mut transport_a, mut transport_b) = pair("e2e test", 0xAA, 0xBB);

    let src = Ipv4Addr::new(10, 88, 7, 3);
    let dst = Ipv4Addr::new(10, 88, 20, 207);
    let icmp_payload = b"\x08\x00\xf7\xff\x00\x01\x00\x01hello";
    let ip_packet = make_ipv4_packet(src, dst, icmp_payload);

    let wire_bytes = {
        let wrapped = serialize_message(&Message::Data(ip_packet.clone()));
        transport_a.encrypt(&wrapped).unwrap()
    };

    let decrypted = transport_b.decrypt(&wire_bytes).unwrap();
    let recovered = deserialize_message(&decrypted).unwrap();

    match recovered {
        Message::Data(payload) => {
            assert_eq!(payload, ip_packet, "IP packet must arrive byte-for-byte intact");
            assert_eq!(&payload[16..20], &dst.octets());
            assert_eq!(&payload[12..16], &src.octets());
        }
        other => panic!("expected Message::Data, got {other:?}"),
    }
}

#[test]
fn heartbeat_is_not_data() {
    let (mut t_a, mut t_b) = pair("hb test", 0x11, 0x22);

    let wire = t_a.encrypt(&serialize_message(&Message::Heartbeat)).unwrap();
    let dec = t_b.decrypt(&wire).unwrap();
    let msg = deserialize_message(&dec).unwrap();
    assert!(matches!(msg, Message::Heartbeat));
    assert!(!matches!(msg, Message::Data(_)));
}

#[test]
fn garbage_after_decrypt_is_dropped() {
    let garbage = b"\xFF\xFF\xFF\xFF\xFF\xFF\xFF\xFF";
    let result = deserialize_message(garbage);
    assert!(result.is_err(), "garbage must not deserialize as a valid message");
}

#[test]
fn various_packet_sizes_survive() {
    let (mut t_a, mut t_b) = pair("sizes", 0xAA, 0xBB);

    for size in [0, 1, 20, 100, 500, 1200, 1400] {
        let payload: Vec<u8> = (0..size).map(|i| (i % 251) as u8).collect();
        let pkt =
            make_ipv4_packet(Ipv4Addr::new(10, 88, 1, 1), Ipv4Addr::new(10, 88, 2, 2), &payload);

        let wire = t_a.encrypt(&serialize_message(&Message::Data(pkt.clone()))).unwrap();
        let dec = t_b.decrypt(&wire).unwrap();
        match deserialize_message(&dec).unwrap() {
            Message::Data(received) => assert_eq!(received, pkt, "size={size}"),
            other => panic!("size={size}: expected Data, got {other:?}"),
        }
    }
}

#[test]
fn full_stack_message_over_wire() {
    let (mut t_a, mut t_b) = pair("wire test", 0xAA, 0xBB);

    let msg = Message::Data(b"overlay packet payload".to_vec());
    let serialized = serialize_message(&msg);
    let encrypted = t_a.encrypt(&serialized).unwrap();
    let framed = encode_frame(&encrypted);

    let wire_bytes = framed.clone();

    let inner = decode_frame(&wire_bytes).unwrap();
    let decrypted: Vec<u8> = t_b.decrypt(inner).unwrap();
    let recovered: Message = deserialize_message(&decrypted).unwrap();

    assert_eq!(recovered, msg);
}

#[test]
fn all_message_types_over_wire() {
    let (mut t_a, mut t_b) = pair("msg types", 0x10, 0x20);

    let messages = vec![
        Message::Data(vec![1, 2, 3, 4, 5]),
        Message::Heartbeat,
        Message::Ping { sent_ms: 0 },
        Message::Pong { sent_ms: 0 },
        Message::SessionInit {
            overlay: OverlayAddr::new(Ipv4Addr::new(10, 88, 3, 42)),
            overlay_ipv6: Some([0xfd, 0, 0, 0, 0, 0, 0, 0, 0, 0, 0, 0, 0, 0, 0, 1]),
            hostname: "test-host".to_string(),
            public_addr: None,
        },
    ];

    for msg in messages {
        let serialized = serialize_message(&msg);
        let encrypted = t_a.encrypt(&serialized).unwrap();
        let framed = encode_frame(&encrypted);

        let inner = decode_frame(&framed).unwrap();
        let decrypted: Vec<u8> = t_b.decrypt(inner).unwrap();
        let recovered: Message = deserialize_message(&decrypted).unwrap();
        assert_eq!(recovered, msg);
    }
}

#[test]
fn session_init_with_metadata_round_trips() {
    let peer_id_a = keys(0xAA).peer_id();
    let overlay_a = derive_overlay_addr(&peer_id_a);
    let ipv6_a = derive_overlay_ipv6(&peer_id_a);

    let (mut t_a, mut t_b) = pair("session init test", 0xAA, 0xBB);

    let init_msg = Message::SessionInit {
        overlay: overlay_a,
        overlay_ipv6: Some(ipv6_a.octets()),
        hostname: "my-server.local".to_string(),
        public_addr: None,
    };

    let wire = t_a.encrypt(&serialize_message(&init_msg)).unwrap();
    let dec = t_b.decrypt(&wire).unwrap();
    let recovered = deserialize_message(&dec).unwrap();

    match recovered {
        Message::SessionInit { overlay, overlay_ipv6, hostname, .. } => {
            assert_eq!(overlay, overlay_a);
            assert_eq!(overlay_ipv6, Some(ipv6_a.octets()), "IPv6 must survive wire");
            assert_eq!(hostname, "my-server.local");
        }
        other => panic!("expected SessionInit, got {other:?}"),
    }
}

// ---------------------------------------------------------------------------
// Wire form
// ---------------------------------------------------------------------------
fn id(n: u8) -> PeerId {
    PeerId::from_bytes([n; 32])
}

fn v4(port: u16) -> SocketAddr {
    SocketAddr::v4(Ipv4Addr::new(192, 0, 2, 1), port)
}

fn v6(port: u16) -> SocketAddr {
    let mut b = [0u8; 16];
    b[0] = 0x20;
    b[15] = 9;
    SocketAddr::V6 { ip: Ipv6Addr::from_octets(&b), port, flowinfo: 0, scope_id: 0 }
}

fn v6_octets() -> [u8; 16] {
    let mut b = [0u8; 16];
    b[0] = 0x20;
    b[15] = 9;
    b
}

fn every_message() -> Vec<Message> {
    vec![
        Message::Data(vec![]),
        Message::Data((0..200).map(|i| i as u8).collect()),
        Message::Heartbeat,
        Message::Ping { sent_ms: 1 },
        Message::Ping { sent_ms: 127 },
        Message::Ping { sent_ms: 128 },
        Message::Pong { sent_ms: u64::MAX },
        Message::SessionInit {
            overlay: OverlayAddr::new(Ipv4Addr::new(10, 88, 3, 42)),
            overlay_ipv6: Some([7; 16]),
            hostname: "höst".to_string(),
            public_addr: Some(v6(65535)),
        },
        Message::SessionInit {
            overlay: OverlayAddr::new(Ipv4Addr::new(10, 88, 3, 42)),
            overlay_ipv6: None,
            hostname: String::new(),
            public_addr: Some(v4(4242)),
        },
        Message::HolePunchProbe { token: 300 },
        Message::HolePunchAck { token: 0 },
        Message::RelayRequest { dst_peer_id: id(200) },
        Message::RelayReady { relay_peer_id: id(1), dst_peer_id: id(2) },
        Message::RelayData { src_peer_id: id(3), dst_peer_id: id(4), payload: vec![9; 130] },
        Message::RelayAnnounce { relay_peer_id: id(5), public_addr: v4(1) },
        Message::PeerDirectory { entries: vec![] },
        Message::PeerDirectory { entries: vec![(id(6), v4(2), 1), (id(7), v6(3), 255)] },
    ]
}

#[test]
fn every_message_comes_back() {
    let mut buf = vec![1, 2, 3];
    for msg in every_message() {
        let bytes = serialize_message(&msg);
        assert_eq!(deserialize_message(&bytes).unwrap(), msg);
        serialize_message_into(&msg, &mut buf);
        assert_eq!(buf, bytes);
    }
}

#[test]
fn cut_messages_are_refused() {
    for msg in every_message() {
        let bytes = serialize_message(&msg);
        for n in 0..bytes.len() {
            assert!(deserialize_message(&bytes[..n]).is_err(), "{msg:?} cut at {n}");
        }
    }
}

#[test]
fn decode_errors() {
    assert_eq!(deserialize_message(&[]), Err(DecodeError::UnexpectedEnd));
    assert_eq!(deserialize_message(&[12]), Err(DecodeError::BadVariant));
    assert_eq!(deserialize_message(&[0xff; 8]), Err(DecodeError::BadVarint));
    let bad_option = [4, 10, 88, 1, 1, 2];
    assert_eq!(deserialize_message(&bad_option), Err(DecodeError::BadOption));
    let bad_text = [4, 10, 88, 1, 1, 0, 1, 0xff, 0];
    assert_eq!(deserialize_message(&bad_text), Err(DecodeError::BadUtf8));
    assert_eq!(DecodeError::BadUtf8.to_text(), "Tried to parse invalid utf-8");
}

fn sock4(port: u16) -> (u32, [u8; 4], u16) {
    (0, [192, 0, 2, 1], port)
}

fn sock6(port: u16) -> (u32, [u8; 16], u16) {
    (1, v6_octets(), port)
}

#[test]
fn wire_form_is_that_of_postcard() {
    let bytes = |m: &Message| serialize_message(m);
    let data: Vec<u8> = (0..200).map(|i| i as u8).collect();
    assert_eq!(
        bytes(&Message::Data(data.clone())),
        postcard::to_stdvec(&(0u32, data)).unwrap()
    );
    assert_eq!(bytes(&Message::Heartbeat), postcard::to_stdvec(&(1u32,)).unwrap());
    for n in [0u64, 127, 128, 16384, u64::MAX] {
        assert_eq!(
            bytes(&Message::Ping { sent_ms: n }),
            postcard::to_stdvec(&(2u32, n)).unwrap()
        );
        assert_eq!(
            bytes(&Message::Pong { sent_ms: n }),
            postcard::to_stdvec(&(3u32, n)).unwrap()
        );
    }
    assert_eq!(
        bytes(&Message::SessionInit {
            overlay: OverlayAddr::new(Ipv4Addr::new(10, 88, 3, 42)),
            overlay_ipv6: Some([7; 16]),
            hostname: "höst".to_string(),
            public_addr: Some(v6(65535)),
        }),
        postcard::to_stdvec(&(4u32, [10u8, 88, 3, 42], Some([7u8; 16]), "höst", Some(sock6(65535))))
            .unwrap()
    );
    assert_eq!(
        bytes(&Message::HolePunchProbe { token: 300 }),
        postcard::to_stdvec(&(5u32, 300u64)).unwrap()
    );
    assert_eq!(
        bytes(&Message::HolePunchAck { token: 0 }),
        postcard::to_stdvec(&(6u32, 0u64)).unwrap()
    );
    assert_eq!(
        bytes(&Message::RelayRequest { dst_peer_id: id(200) }),
        postcard::to_stdvec(&(7u32, [200u8; 32])).unwrap()
    );
    assert_eq!(
        bytes(&Message::RelayReady { relay_peer_id: id(1), dst_peer_id: id(2) }),
        postcard::to_stdvec(&(8u32, [1u8; 32], [2u8; 32])).unwrap()
    );
    assert_eq!(
        bytes(&Message::RelayData {
            src_peer_id: id(3),
            dst_peer_id: id(4),
            payload: vec![9; 130]
        }),
        postcard::to_stdvec(&(9u32, [3u8; 32], [4u8; 32], vec![9u8; 130])).unwrap()
    );
    assert_eq!(
        bytes(&Message::RelayAnnounce { relay_peer_id: id(5), public_addr: v4(1) }),
        postcard::to_stdvec(&(10u32, [5u8; 32], sock4(1))).unwrap()
    );
    assert_eq!(
        bytes(&Message::PeerDirectory { entries: vec![(id(6), v4(2), 1), (id(7), v4(3), 255)] }),
        postcard::to_stdvec(&(
            11u32,
            vec![([6u8; 32], sock4(2), 1u8), ([7u8; 32], sock4(3), 255u8)]
        ))
        .unwrap()
    );
}
