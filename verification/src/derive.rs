//! Values that a network or a device derives from its secrets.
use crate::constants::{OVERLAY_HOST_RANGE_START, OVERLAY_SUBNET_BASE, PROTOCOL_MAGIC};
use crate::net::{Ipv4Addr, Ipv6Addr};
use crate::text::push_bytes;
use crate::types::{InfoHash, NetworkSecret, OverlayAddr, PeerId, Seed};
use vstd::prelude::*;

verus! {

/// The HKDF `info` of the network secret, the bytes of
/// `seednet network secret v1`.
pub const NETWORK_SECRET_INFO: [u8; 25] = [
    115,
    101,
    101,
    100,
    110,
    101,
    116,
    32,
    110,
    101,
    116,
    119,
    111,
    114,
    107,
    32,
    115,
    101,
    99,
    114,
    101,
    116,
    32,
    118,
    49,
];

/// What is hashed before the network secret, the bytes of
/// `seednet infohash v1`.
pub const INFOHASH_TAG: [u8; 19] = [
    115,
    101,
    101,
    100,
    110,
    101,
    116,
    32,
    105,
    110,
    102,
    111,
    104,
    97,
    115,
    104,
    32,
    118,
    49,
];

/// Thirty-two bytes of HKDF-SHA256 output.
pub uninterp spec fn hkdf_sha256(salt: Seq<u8>, ikm: Seq<u8>, info: Seq<u8>) -> Seq<u8>;

/// The SHA-1 digest.
pub uninterp spec fn sha1(data: Seq<u8>) -> Seq<u8>;

/// The BLAKE3 digest.
pub uninterp spec fn blake3(data: Seq<u8>) -> Seq<u8>;

/// HKDF-SHA256 of the `hkdf` crate: extraction from a salt and key material by
/// `Hkdf::new`, then `expand` to thirty-two bytes, which is far below its limit
/// and so does not fail. The output depends on the three arguments alone.
#[verifier::external_body]
fn hkdf_expand(salt: &[u8], ikm: &[u8], info: &[u8]) -> (okm: [u8; 32])
    ensures
        okm@ == hkdf_sha256(salt@, ikm@, info@),
{
    let mut okm = [0u8; 32];
    hkdf::Hkdf::<sha2::Sha256>::new(Some(salt), ikm)
        .expand(info, &mut okm)
        .expect("HKDF expand of 32 bytes cannot fail");
    okm
}

/// `Sha1::digest` of the `sha1` crate: the digest of the given bytes.
#[verifier::external_body]
fn sha1_digest(data: &[u8]) -> (d: [u8; 20])
    ensures
        d@ == sha1(data@),
{
    <sha1::Sha1 as sha1::Digest>::digest(data).into()
}

/// `blake3::hash`: the digest of the given bytes.
#[verifier::external_body]
fn blake3_hash(data: &[u8]) -> (d: [u8; 32])
    ensures
        d@ == blake3(data@),
{
    *::blake3::hash(data).as_bytes()
}

/// The network secret of a seed: HKDF-SHA256 with the protocol magic as salt.
pub open spec fn network_secret_of(seed: Seq<u8>) -> Seq<u8> {
    hkdf_sha256(PROTOCOL_MAGIC@, seed, NETWORK_SECRET_INFO@)
}

/// Derives the secret that all devices with the same seed share.
pub fn derive_network_secret(seed: &Seed) -> (r: NetworkSecret)
    ensures
        r@ == network_secret_of(seed@),
{
    let salt: [u8; 10] = PROTOCOL_MAGIC;
    let info: [u8; 25] = NETWORK_SECRET_INFO;
    NetworkSecret::from_bytes(hkdf_expand(salt.as_slice(), seed.as_bytes(), info.as_slice()))
}

/// The info-hash of a network secret: SHA-1 over a tag and the secret.
pub open spec fn infohash_of(secret: Seq<u8>) -> Seq<u8> {
    sha1(INFOHASH_TAG@ + secret)
}

/// Derives the value that peers announce and look up in the DHT.
pub fn derive_infohash(secret: &NetworkSecret) -> (r: InfoHash)
    ensures
        r@ == infohash_of(secret@),
{
    let tag: [u8; 19] = INFOHASH_TAG;
    let mut data: Vec<u8> = Vec::new();
    push_bytes(&mut data, tag.as_slice());
    push_bytes(&mut data, secret.as_bytes());
    assert(data@ =~= INFOHASH_TAG@ + secret@);
    InfoHash::from_bytes(sha1_digest(data.as_slice()))
}

/// The overlay address of a peer whose id has the given BLAKE3 digest: the third
/// octet is the first byte of the digest brought into 1 to 254, the fourth is
/// its ninth byte.
pub open spec fn overlay_of_digest(d: Seq<u8>) -> OverlayAddr {
    OverlayAddr {
        addr: Ipv4Addr { a: 10, b: 88, c: (d[0] as int % 254 + 1) as u8, d: d[8] },
    }
}

/// The overlay address of a peer.
pub open spec fn overlay_of(id: PeerId) -> OverlayAddr {
    overlay_of_digest(blake3(id@))
}

/// Gives the overlay address that belongs to a digest.
pub fn overlay_from_digest(d: &[u8; 32]) -> (r: OverlayAddr)
    ensures
        r == overlay_of_digest(d@),
{
    let base: [u8; 4] = OVERLAY_SUBNET_BASE;
    let octet3: u8 = d[0] % 254 + OVERLAY_HOST_RANGE_START;
    OverlayAddr::new(Ipv4Addr::new(base[0], base[1], octet3, d[8]))
}

/// Derives the overlay address of a peer from its id: always the same, inside
/// `10.88.0.0/16`, and outside the reserved `10.88.0.0/24`.
pub fn derive_overlay_addr(peer_id: &PeerId) -> (r: OverlayAddr)
    ensures
        r == overlay_of(*peer_id),
{
    let d: [u8; 32] = blake3_hash(peer_id.as_bytes());
    overlay_from_digest(&d)
}

/// The octets of the overlay IPv6 address of a peer whose id has the given
/// BLAKE3 digest: `fd` and the first fifteen bytes of the digest.
pub open spec fn overlay_ipv6_of_digest(d: Seq<u8>) -> Seq<u8> {
    seq![0xfdu8] + d.take(15)
}

/// The overlay IPv6 address of a peer.
pub open spec fn overlay_ipv6_of(id: PeerId) -> Ipv6Addr {
    Ipv6Addr::of_bytes(overlay_ipv6_of_digest(blake3(id@)))
}

/// Gives the overlay IPv6 address that belongs to a digest.
pub fn overlay_ipv6_from_digest(d: &[u8; 32]) -> (r: Ipv6Addr)
    ensures
        r == Ipv6Addr::of_bytes(overlay_ipv6_of_digest(d@)),
{
    let mut octets: [u8; 16] = [0u8; 16];
    octets[0] = 0xfd;
    let mut i: usize = 0;
    while i < 15
        invariant
            i <= 15,
            octets@[0] == 0xfd,
            forall|j: int| 1 <= j < i + 1 ==> octets@[j] == d@[j - 1],
        decreases 15 - i,
    {
        octets[i + 1] = d[i];
        i = i + 1;
    }
    assert(octets@ =~= overlay_ipv6_of_digest(d@));
    Ipv6Addr::from_octets(&octets)
}

/// Derives the unique local IPv6 address (`fd00::/8`) of a peer from its id.
pub fn derive_overlay_ipv6(peer_id: &PeerId) -> (r: Ipv6Addr)
    ensures
        r == overlay_ipv6_of(*peer_id),
{
    let d: [u8; 32] = blake3_hash(peer_id.as_bytes());
    overlay_ipv6_from_digest(&d)
}

/// Devices with the same seed have the same network secret and announce the same
/// info-hash.
pub proof fn same_seed_same_network(a: Seed, b: Seed)
    requires
        a@ == b@,
    ensures
        network_secret_of(a@) == network_secret_of(b@),
        infohash_of(network_secret_of(a@)) == infohash_of(network_secret_of(b@)),
{
}

/// Every derived overlay address lies in `10.88.0.0/16`, with a third octet from
/// 1 to 254.
pub proof fn overlay_in_host_range(id: PeerId)
    ensures
        overlay_of(id).addr.a == 10,
        overlay_of(id).addr.b == 88,
        1 <= overlay_of(id).addr.c <= 254,
{
}

/// Every derived overlay IPv6 address is a unique local one.
pub proof fn overlay_ipv6_is_unique_local(id: PeerId)
    ensures
        overlay_ipv6_of(id).s0 / 256 == 0xfd,
{
    let b = overlay_ipv6_of_digest(blake3(id@));
    assert(b[0] == 0xfd);
}


/// The groups that octets are read into hold them in order.
proof fn lemma_octets(s: Seq<u8>, k: int)
    requires
        s.len() == 16,
        0 <= k < 8,
    ensures
        Ipv6Addr::of_bytes(s).bytes()[2 * k] == s[2 * k],
        Ipv6Addr::of_bytes(s).bytes()[2 * k + 1] == s[2 * k + 1],
{
    let ip = Ipv6Addr::of_bytes(s);
    let (hi, lo) = (s[2 * k], s[2 * k + 1]);
    crate::net::groups_hold_two_octets(ip, k);
    crate::text::most_significant_byte_stands_first(hi, lo, 0, 0, 0, 0);
    assert(ip.segs()[k] == crate::text::be16(hi, lo)) by {
        assert(k == 0 || k == 1 || k == 2 || k == 3 || k == 4 || k == 5 || k == 6 || k == 7);
    }
    let (a, b) = (ip.bytes()[2 * k], ip.bytes()[2 * k + 1]);
    assert(256 * a + b == 256 * hi + lo);
}

/// The overlay address of a device is 10.88.x.y, with x one to 254 from the first byte of
/// its digest and y the ninth byte; the version 6 address is the byte 0xfd and then the
/// first fifteen bytes of the digest.
pub proof fn addresses_come_from_the_digest(d: Seq<u8>, i: int)
    requires
        d.len() == 32,
        0 <= i < 15,
    ensures
        ({
            let a = overlay_of_digest(d).addr;
            &&& a.a == 10 && a.b == 88
            &&& (d[0] < 254 ==> a.c == d[0] + 1)
            &&& (d[0] >= 254 ==> a.c == d[0] - 253)
            &&& a.d == d[8]
        }),
        ({
            let b = Ipv6Addr::of_bytes(overlay_ipv6_of_digest(d)).bytes();
            &&& b.len() == 16
            &&& b[0] == 0xfd
            &&& b[i + 1] == d[i]
        }),
{
    let s = overlay_ipv6_of_digest(d);
    assert(s.len() == 16);
    lemma_octets(s, 0);
    lemma_octets(s, (i + 1) / 2);
    assert(i + 1 == 2 * ((i + 1) / 2) || i + 1 == 2 * ((i + 1) / 2) + 1);
    assert(s[i + 1] == d[i]);
}
} // verus!
