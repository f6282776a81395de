//! Fixed parameters of the overlay.
use vstd::prelude::*;

verus! {

/// Protocol magic, the bytes of `seednet-v1`. Used as the HKDF salt and as the
/// name space of display fingerprints.
pub const PROTOCOL_MAGIC: [u8; 10] = [115, 101, 101, 100, 110, 101, 116, 45, 118, 49];

/// UDP port that a node listens on unless told otherwise.
pub const DEFAULT_PORT: u16 = 4242;

/// Octets of the base address of the overlay subnet, `10.88.0.0/16`.
pub const OVERLAY_SUBNET_BASE: [u8; 4] = [10, 88, 0, 0];

/// Prefix length of the overlay subnet.
pub const OVERLAY_SUBNET_PREFIX: u8 = 16;

/// Lowest third octet of a device address; `10.88.0.0/24` is kept for the
/// network's own use.
pub const OVERLAY_HOST_RANGE_START: u8 = 1;

/// Maximum transmission unit of the overlay: the IPv6 minimum.
pub const OVERLAY_MTU: usize = 1280;

/// Length of the Noise prologue, which is the network secret.
pub const NOISE_PROLOGUE_LEN: usize = 32;

/// Length of a BitTorrent info-hash.
pub const INFOHASH_LEN: usize = 20;

/// Length of an Ed25519 or X25519 public key.
pub const PUBLIC_KEY_LEN: usize = 32;

/// Length of an Ed25519 or X25519 secret.
pub const SECRET_KEY_LEN: usize = 32;

/// Length of an Ed25519 signature.
pub const SIGNATURE_LEN: usize = 64;

/// Seconds between heartbeats.
pub const HEARTBEAT_INTERVAL_SECS: u64 = 15;

/// Seconds of silence after which a session counts as expired.
pub const SESSION_EXPIRY_SECS: u64 = 60;

/// Prefix of unencrypted hole-punch packets, the bytes of `seednet-hp` and a
/// zero byte.
pub const HOLE_PUNCH_PROBE_PREFIX: [u8; 11] = [
    115,
    101,
    101,
    100,
    110,
    101,
    116,
    45,
    104,
    112,
    0,
];

/// Public STUN servers, asked in this order until one answers.
pub const STUN_SERVERS: [&'static str; 3] = [
    "stun.l.google.com:19302",
    "stun.cloudflare.com:3478",
    "stun1.l.google.com:19302",
];

} // verus!
