//! Identifiers and secrets: [`Seed`], [`NetworkSecret`], [`InfoHash`],
//! [`PeerId`], [`OverlayAddr`] and [`SecretKeyBytes`].
use crate::constants::{INFOHASH_LEN, PROTOCOL_MAGIC, PUBLIC_KEY_LEN};
use crate::error::Error;
use crate::net::Ipv4Addr;
use crate::text::{array_20, array_32, copy_bytes, hex_short, push_text, same_bytes, to_hex};
use core::str::FromStr;
use vstd::prelude::*;

verus! {

// ---------------------------------------------------------------------------
// Hexadecimal input
// ---------------------------------------------------------------------------
/// Whether some bytes are hexadecimal digits in pairs.
pub open spec fn is_hex(b: Seq<u8>) -> bool {
    &&& b.len() % 2 == 0
    &&& forall|i: int| 0 <= i < b.len() ==> crate::text::hex_value(#[trigger] b[i]) is Some
}

/// The bytes that pairs of hexadecimal digits stand for.
pub open spec fn hex_bytes(b: Seq<u8>) -> Seq<u8> {
    Seq::new(
        b.len() / 2,
        |i: int|
            (crate::text::hex_value(b[2 * i])->Some_0 * 16 + crate::text::hex_value(
                b[2 * i + 1],
            )->Some_0) as u8,
    )
}

/// Whether the byte at `k` is the first that is no hexadecimal digit.
pub open spec fn first_non_hex(b: Seq<u8>, k: int) -> bool {
    &&& 0 <= k < b.len()
    &&& crate::text::hex_value(b[k]) is None
    &&& forall|i: int| 0 <= i < k ==> crate::text::hex_value(#[trigger] b[i]) is Some
}

/// The error for text that is not pairs of hexadecimal digits: its length if it
/// is odd, else the first wrong character.
pub open spec fn hex_error(b: Seq<u8>, e: Error) -> bool {
    if b.len() % 2 != 0 {
        e == Error::InvalidHexLength(b.len() as usize)
    } else {
        exists|k: int| #[trigger]
            first_non_hex(b, k) && e == Error::InvalidHexChar(b[k] as char)
    }
}

/// Gives the value of a hexadecimal digit.
pub fn hex_val(c: u8) -> (r: Result<u8, Error>)
    ensures
        match r {
            Ok(v) => crate::text::hex_value(c) == Some(v) && v < 16,
            Err(e) => crate::text::hex_value(c) is None && e == Error::InvalidHexChar(c as char),
        },
{
    if 48 <= c && c <= 57 {
        Ok(c - 48)
    } else if 97 <= c && c <= 102 {
        Ok(c - 87)
    } else if 65 <= c && c <= 70 {
        Ok(c - 55)
    } else {
        Err(Error::InvalidHexChar(c as char))
    }
}

/// Decodes pairs of hexadecimal digits.
pub fn hex_decode(s: &str) -> (r: Result<Vec<u8>, Error>)
    ensures
        match r {
            Ok(v) => is_hex(vstd::utf8::encode_utf8(s@)) && v@ == hex_bytes(vstd::utf8::encode_utf8(s@)),
            Err(e) => !is_hex(vstd::utf8::encode_utf8(s@)) && hex_error(vstd::utf8::encode_utf8(s@), e),
        },
{
    let bytes: &[u8] = s.as_bytes();
    if bytes.len() % 2 != 0 {
        return Err(Error::InvalidHexLength(bytes.len()));
    }
    let mut out: Vec<u8> = Vec::new();
    let n: usize = bytes.len() / 2;
    let mut i: usize = 0;
    while i < n
        invariant
            i <= n,
            n * 2 == bytes.len(),
            bytes@ == vstd::utf8::encode_utf8(s@),
            forall|j: int| 0 <= j < 2 * i ==> crate::text::hex_value(#[trigger] bytes@[j]) is Some,
            out@ == hex_bytes(bytes@).take(i as int),
        decreases n - i,
    {
        let hi: u8 = match hex_val(bytes[2 * i]) {
            Ok(v) => v,
            Err(e) => {
                assert(first_non_hex(bytes@, 2 * i));
                return Err(e);
            },
        };
        let lo: u8 = match hex_val(bytes[2 * i + 1]) {
            Ok(v) => v,
            Err(e) => {
                assert(first_non_hex(bytes@, 2 * i + 1));
                return Err(e);
            },
        };
        out.push(hi * 16 + lo);
        i = i + 1;
        assert(out@ =~= hex_bytes(bytes@).take(i as int));
    }
    assert(out@ =~= hex_bytes(bytes@));
    Ok(out)
}

/// Bytes are read back from their hexadecimal text.
pub proof fn hex_round_trip(bytes: Seq<u8>)
    ensures
        is_hex(vstd::utf8::encode_utf8(crate::text::hex_text(bytes))),
        hex_bytes(vstd::utf8::encode_utf8(crate::text::hex_text(bytes))) == bytes,
{
    let t = crate::text::hex_text(bytes);
    assert forall|i: int| 0 <= i < t.len() implies 0 <= (#[trigger] t[i]) as nat <= 127 by {
        assert(0 <= bytes[i / 2] as int / 16 < 16);
        assert(0 <= bytes[i / 2] as int % 16 < 16);
    }
    assert(vstd::utf8::is_ascii_chars(t));
    vstd::utf8::is_ascii_chars_encode_utf8(t);
    let b = vstd::utf8::encode_utf8(t);
    assert(b =~= Seq::new(t.len(), |i: int| t[i] as u8));
    assert forall|i: int| 0 <= i < b.len() implies crate::text::hex_value(#[trigger] b[i])
        is Some by {
        assert(0 <= bytes[i / 2] as int / 16 < 16);
        assert(0 <= bytes[i / 2] as int % 16 < 16);
    }
    assert forall|i: int| 0 <= i < bytes.len() implies hex_bytes(b)[i] == bytes[i] by {
        assert(t[2 * i] == crate::text::hex_digit(bytes[i] as int / 16));
        assert(t[2 * i + 1] == crate::text::hex_digit(bytes[i] as int % 16));
        assert(crate::text::hex_value(b[2 * i])->Some_0 == bytes[i] / 16);
        assert(crate::text::hex_value(b[2 * i + 1])->Some_0 == bytes[i] % 16);
    }
    assert(hex_bytes(b) =~= bytes);
}

/// A hexadecimal digit, as a byte of text, in lower case.
pub open spec fn lower_digit(b: u8) -> char {
    if 65 <= b <= 70 {
        (b + 32) as char
    } else {
        b as char
    }
}

/// Text that is read as bytes, in either case, is the text of the bytes, but for the
/// case.
pub proof fn hex_text_is_read_in_either_case(b: Seq<u8>)
    requires
        is_hex(b),
    ensures
        crate::text::hex_text(hex_bytes(b)) == Seq::new(b.len(), |i: int| lower_digit(b[i])),
{
    let bytes = hex_bytes(b);
    let t = crate::text::hex_text(bytes);
    assert forall|i: int| 0 <= i < b.len() implies #[trigger] t[i] == lower_digit(b[i]) by {
        let k = i / 2;
        let hi = crate::text::hex_value(b[2 * k])->Some_0;
        let lo = crate::text::hex_value(b[2 * k + 1])->Some_0;
        assert(crate::text::hex_value(b[2 * k]) is Some);
        assert(crate::text::hex_value(b[2 * k + 1]) is Some);
        assert(hi < 16 && lo < 16);
        assert(bytes[k] == hi * 16 + lo);
        assert(bytes[k] as int / 16 == hi && bytes[k] as int % 16 == lo);
    }
    assert(t =~= Seq::new(b.len(), |i: int| lower_digit(b[i])));
}

// ---------------------------------------------------------------------------
// Display fingerprint
// ---------------------------------------------------------------------------
/// One step of FNV-1a.
pub open spec fn fnv_step(a: u64, x: u8) -> u64 {
    (a ^ (x as u64)).wrapping_mul(0x100000001b3u64)
}

/// FNV-1a over some bytes, from state `a`.
pub open spec fn fnv_fold(a: u64, bytes: Seq<u8>) -> u64
    decreases bytes.len(),
{
    if bytes.len() == 0 {
        a
    } else {
        fnv_step(fnv_fold(a, bytes.drop_last()), bytes.last())
    }
}

/// A number turned left by seven bits.
pub open spec fn turn_left_7(x: u64) -> u64 {
    (x << 7u64) | (x >> 57u64)
}

/// The second word of the fingerprint: for each byte, the first word so far is
/// added and the sum turned.
pub open spec fn fingerprint_fold(a: u64, b: u64, bytes: Seq<u8>) -> u64
    decreases bytes.len(),
{
    if bytes.len() == 0 {
        b
    } else {
        turn_left_7(
            fingerprint_fold(a, b, bytes.drop_last()).wrapping_add(fnv_fold(a, bytes)),
        )
    }
}

/// The `n` bytes of a number, least significant first.
pub open spec fn le_bytes(v: nat, n: nat) -> Seq<u8>
    decreases n,
{
    if n == 0 {
        Seq::empty()
    } else {
        seq![(v % 256) as u8] + le_bytes(v / 256, (n - 1) as nat)
    }
}

/// State of the first word after the protocol magic.
pub open spec fn fingerprint_seed() -> u64 {
    fnv_fold(0xcbf29ce484222325u64, PROTOCOL_MAGIC@)
}

/// A short digest for display, never for security.
pub open spec fn fingerprint(input: Seq<u8>) -> Seq<u8> {
    le_bytes(fnv_fold(fingerprint_seed(), input) as nat, 8) + le_bytes(
        fingerprint_fold(fingerprint_seed(), 0x84222325cbf29ce4u64, input) as nat,
        8,
    )
}

/// Appends the eight bytes of a number, least significant first.
fn push_le64(out: &mut Vec<u8>, v: u64)
    ensures
        final(out)@ == old(out)@ + le_bytes(v as nat, 8),
{
    let ghost before = out@;
    let mut rest: u64 = v;
    let mut i: usize = 0;
    while i < 8
        invariant
            i <= 8,
            out@ + le_bytes(rest as nat, (8 - i) as nat) == before + le_bytes(v as nat, 8),
        decreases 8 - i,
    {
        out.push((rest % 256) as u8);
        assert(out@ + le_bytes((rest / 256) as nat, (8 - (i + 1)) as nat) =~= out@.drop_last()
            + le_bytes(rest as nat, (8 - i) as nat));
        rest = rest / 256;
        i = i + 1;
    }
    assert(out@ =~= before + le_bytes(v as nat, 8));
}

/// Computes the display fingerprint: FNV-1a over the protocol magic and the
/// input, and a second word mixed from its intermediate states.
pub fn blake3_fingerprint(input: &[u8]) -> (h: [u8; 16])
    ensures
        h@ == fingerprint(input@),
{
    let mut a: u64 = 0xcbf29ce484222325;
    let mut b: u64 = 0x84222325cbf29ce4;
    let magic: [u8; 10] = PROTOCOL_MAGIC;
    let mut i: usize = 0;
    while i < 10
        invariant
            i <= 10,
            magic@ == PROTOCOL_MAGIC@,
            a == fnv_fold(0xcbf29ce484222325u64, magic@.take(i as int)),
        decreases 10 - i,
    {
        a = (a ^ (magic[i] as u64)).wrapping_mul(0x100000001b3);
        assert(magic@.take(i + 1).drop_last() =~= magic@.take(i as int));
        i = i + 1;
    }
    assert(magic@.take(10) =~= PROTOCOL_MAGIC@);
    let ghost seed = a;
    let mut j: usize = 0;
    while j < input.len()
        invariant
            j <= input.len(),
            a == fnv_fold(seed, input@.take(j as int)),
            b == fingerprint_fold(seed, 0x84222325cbf29ce4u64, input@.take(j as int)),
        decreases input.len() - j,
    {
        a = (a ^ (input[j] as u64)).wrapping_mul(0x100000001b3);
        let sum: u64 = b.wrapping_add(a);
        b = (sum << 7u64) | (sum >> 57u64);
        assert(input@.take(j + 1).drop_last() =~= input@.take(j as int));
        j = j + 1;
    }
    assert(input@.take(j as int) =~= input@);
    let mut out: Vec<u8> = Vec::new();
    push_le64(&mut out, a);
    push_le64(&mut out, b);
    proof {
        lemma_le_bytes_len(a as nat, 8);
        lemma_le_bytes_len(b as nat, 8);
    }
    assert(out@ =~= fingerprint(input@));
    let h: [u8; 16] = crate::text::array_16(out.as_slice(), 0);
    assert(h@ =~= out@);
    h
}

/// The bytes of a number are as many as asked for.
proof fn lemma_le_bytes_len(v: nat, n: nat)
    ensures
        le_bytes(v, n).len() == n,
    decreases n,
{
    if n > 0 {
        lemma_le_bytes_len(v / 256, (n - 1) as nat);
    }
}

// ---------------------------------------------------------------------------
// Seed
// ---------------------------------------------------------------------------
/// The passphrase that a network is made from. Every device with the same seed
/// joins the same overlay.
#[derive(Debug, PartialEq, Eq)]
pub struct Seed {
    bytes: Vec<u8>,
}

impl Clone for Seed {
    fn clone(&self) -> (r: Seed)
        ensures
            r@ == self@,
    {
        Seed { bytes: copy_bytes(self.bytes.as_slice()) }
    }
}

impl View for Seed {
    type V = Seq<u8>;

    closed spec fn view(&self) -> Seq<u8> {
        self.bytes@
    }
}

impl Seed {
    /// Shortest passphrase that is accepted.
    pub const MIN_LEN: usize = 1;

    /// The seed of a passphrase.
    pub fn from_passphrase(s: &str) -> (r: Seed)
        ensures
            r@ == vstd::utf8::encode_utf8(s@),
    {
        Seed { bytes: copy_bytes(s.as_bytes()) }
    }

    /// The bytes of the passphrase.
    pub fn as_bytes(&self) -> (r: &[u8])
        ensures
            r@ == self@,
    {
        self.bytes.as_slice()
    }

    /// The seed of a passphrase that is not empty.
    pub fn from_text(s: &str) -> (r: Result<Seed, Error>)
        ensures
            match r {
                Ok(seed) => vstd::utf8::encode_utf8(s@).len() >= 1 && seed@ == vstd::utf8::encode_utf8(s@),
                Err(e) => vstd::utf8::encode_utf8(s@).len() == 0 && e == Error::EmptySeed,
            },
    {
        if s.as_bytes().len() < Self::MIN_LEN {
            return Err(Error::EmptySeed);
        }
        Ok(Seed::from_passphrase(s))
    }

    /// Gives a text that shows a fingerprint and never the passphrase.
    pub fn to_text(&self) -> (s: String)
        ensures
            s@ == "seed:"@ + crate::text::short_hex_text(fingerprint(self@)),
    {
        let mut s: String = String::new();
        let fp: [u8; 16] = blake3_fingerprint(self.bytes.as_slice());
        push_text(&mut s, "seed:");
        push_text(&mut s, hex_short(&fp).as_str());
        assert(s@ =~= "seed:"@ + crate::text::short_hex_text(fingerprint(self@)));
        s
    }
}

impl FromStr for Seed {
    type Err = Error;

    fn from_str(s: &str) -> (r: Result<Seed, Error>)
        ensures
            match r {
                Ok(seed) => vstd::utf8::encode_utf8(s@).len() >= 1 && seed@ == vstd::utf8::encode_utf8(s@),
                Err(e) => vstd::utf8::encode_utf8(s@).len() == 0 && e == Error::EmptySeed,
            },
    {
        Seed::from_text(s)
    }
}

/// Gives `name(fingerprint)`, the text of a secret that must not be shown.
fn redacted(name: &str, bytes: &[u8]) -> (s: String)
    ensures
        s@ == redacted_text(name@, bytes@),
{
    let mut s: String = String::new();
    let fp: [u8; 16] = blake3_fingerprint(bytes);
    push_text(&mut s, name);
    push_text(&mut s, "(");
    push_text(&mut s, hex_short(&fp).as_str());
    push_text(&mut s, ")");
    assert(s@ =~= redacted_text(name@, bytes@));
    s
}

/// The text that stands for a secret: a name and a fingerprint.
pub open spec fn redacted_text(name: Seq<char>, bytes: Seq<u8>) -> Seq<char> {
    name + "("@ + crate::text::short_hex_text(fingerprint(bytes)) + ")"@
}

// ---------------------------------------------------------------------------
// NetworkSecret
// ---------------------------------------------------------------------------
/// The secret that all devices with the same seed share. It is hashed to the
/// [`InfoHash`] and is the prologue of every Noise handshake.
#[derive(Clone, Copy, Eq)]
pub struct NetworkSecret {
    pub bytes: [u8; 32],
}

impl View for NetworkSecret {
    type V = Seq<u8>;

    open spec fn view(&self) -> Seq<u8> {
        self.bytes@
    }
}

impl NetworkSecret {
    /// The secret with the given bytes.
    pub fn from_bytes(bytes: [u8; 32]) -> (r: NetworkSecret)
        ensures
            r.bytes == bytes,
    {
        NetworkSecret { bytes }
    }

    /// The bytes.
    pub fn as_bytes(&self) -> (r: &[u8])
        ensures
            r@ == self@,
    {
        self.bytes.as_slice()
    }

    /// The bytes, owned.
    pub fn into_inner(self) -> (r: [u8; 32])
        ensures
            r == self.bytes,
    {
        self.bytes
    }

    /// Gives a text that shows a fingerprint and never the secret.
    pub fn debug_text(&self) -> (s: String)
        ensures
            s@ == redacted_text("NetworkSecret"@, self@),
    {
        redacted("NetworkSecret", self.bytes.as_slice())
    }
}

impl PartialEq for NetworkSecret {
    fn eq(&self, other: &NetworkSecret) -> (r: bool) {
        proof {
            if self.bytes@ == other.bytes@ {
                assert(self.bytes =~= other.bytes);
            }
        }
        same_bytes(self.bytes.as_slice(), other.bytes.as_slice())
    }
}

impl vstd::std_specs::cmp::PartialEqSpecImpl for NetworkSecret {
    open spec fn obeys_eq_spec() -> bool {
        true
    }

    open spec fn eq_spec(&self, other: &NetworkSecret) -> bool {
        *self == *other
    }
}

// ---------------------------------------------------------------------------
// InfoHash
// ---------------------------------------------------------------------------
/// The value that peers announce and look up in the DHT.
#[derive(Clone, Copy, Debug, Eq, Hash)]
pub struct InfoHash {
    pub bytes: [u8; 20],
}

impl View for InfoHash {
    type V = Seq<u8>;

    open spec fn view(&self) -> Seq<u8> {
        self.bytes@
    }
}

impl InfoHash {
    /// The info-hash with the given bytes.
    pub fn from_bytes(bytes: [u8; 20]) -> (r: InfoHash)
        ensures
            r.bytes == bytes,
    {
        InfoHash { bytes }
    }

    /// The bytes.
    pub fn as_bytes(&self) -> (r: &[u8])
        ensures
            r@ == self@,
    {
        self.bytes.as_slice()
    }

    /// Gives the lower-case hexadecimal text.
    pub fn to_text(&self) -> (s: String)
        ensures
            s@ == crate::text::hex_text(self@),
    {
        to_hex(self.bytes.as_slice())
    }

    /// Reads forty hexadecimal digits.
    pub fn from_text(s: &str) -> (r: Result<InfoHash, Error>)
        ensures
            match r {
                Ok(h) => is_hex(vstd::utf8::encode_utf8(s@)) && vstd::utf8::encode_utf8(s@).len() == 40 && h@ == hex_bytes(
                    vstd::utf8::encode_utf8(s@),
                ),
                Err(e) => if is_hex(vstd::utf8::encode_utf8(s@)) {
                    vstd::utf8::encode_utf8(s@).len() != 40 && e == Error::InvalidInfoHashLen(
                        (vstd::utf8::encode_utf8(s@).len() / 2) as usize,
                    )
                } else {
                    hex_error(vstd::utf8::encode_utf8(s@), e)
                },
            },
    {
        let bytes: Vec<u8> = match hex_decode(s) {
            Ok(v) => v,
            Err(e) => return Err(e),
        };
        if bytes.len() != INFOHASH_LEN {
            return Err(Error::InvalidInfoHashLen(bytes.len()));
        }
        let h: InfoHash = InfoHash { bytes: array_20(bytes.as_slice(), 0) };
        assert(h@ =~= bytes@);
        Ok(h)
    }
}

impl FromStr for InfoHash {
    type Err = Error;

    fn from_str(s: &str) -> (r: Result<InfoHash, Error>)
        ensures
            match r {
                Ok(h) => is_hex(vstd::utf8::encode_utf8(s@)) && vstd::utf8::encode_utf8(s@).len() == 40 && h@ == hex_bytes(
                    vstd::utf8::encode_utf8(s@),
                ),
                Err(e) => if is_hex(vstd::utf8::encode_utf8(s@)) {
                    vstd::utf8::encode_utf8(s@).len() != 40 && e == Error::InvalidInfoHashLen(
                        (vstd::utf8::encode_utf8(s@).len() / 2) as usize,
                    )
                } else {
                    hex_error(vstd::utf8::encode_utf8(s@), e)
                },
            },
    {
        InfoHash::from_text(s)
    }
}

impl PartialEq for InfoHash {
    fn eq(&self, other: &InfoHash) -> (r: bool) {
        proof {
            if self.bytes@ == other.bytes@ {
                assert(self.bytes =~= other.bytes);
            }
        }
        same_bytes(self.bytes.as_slice(), other.bytes.as_slice())
    }
}

impl vstd::std_specs::cmp::PartialEqSpecImpl for InfoHash {
    open spec fn obeys_eq_spec() -> bool {
        true
    }

    open spec fn eq_spec(&self, other: &InfoHash) -> bool {
        *self == *other
    }
}

// ---------------------------------------------------------------------------
// PeerId
// ---------------------------------------------------------------------------
/// The identifier of a device: a public key.
#[derive(Clone, Copy, Debug, Eq, Hash, PartialOrd, Ord)]
pub struct PeerId {
    pub bytes: [u8; 32],
}

impl View for PeerId {
    type V = Seq<u8>;

    open spec fn view(&self) -> Seq<u8> {
        self.bytes@
    }
}

/// A peer id is determined by its bytes.
pub broadcast proof fn peer_id_by_bytes(a: PeerId, b: PeerId)
    requires
        #[trigger] a@ == #[trigger] b@,
    ensures
        a == b,
{
    assert(a.bytes =~= b.bytes);
}

impl PeerId {
    /// The peer id with the given bytes.
    pub fn from_bytes(bytes: [u8; 32]) -> (r: PeerId)
        ensures
            r.bytes == bytes,
    {
        PeerId { bytes }
    }

    /// The bytes.
    pub fn as_bytes(&self) -> (r: &[u8])
        ensures
            r@ == self@,
    {
        self.bytes.as_slice()
    }

    /// Gives the first eight hexadecimal digits, for log lines.
    pub fn short(&self) -> (s: String)
        ensures
            s@ == crate::text::short_hex_text(self@),
    {
        hex_short(self.bytes.as_slice())
    }

    /// Gives the lower-case hexadecimal text.
    pub fn to_text(&self) -> (s: String)
        ensures
            s@ == crate::text::hex_text(self@),
    {
        to_hex(self.bytes.as_slice())
    }

    /// Reads sixty-four hexadecimal digits.
    pub fn from_text(s: &str) -> (r: Result<PeerId, Error>)
        ensures
            match r {
                Ok(id) => is_hex(vstd::utf8::encode_utf8(s@)) && vstd::utf8::encode_utf8(s@).len() == 64 && id@ == hex_bytes(
                    vstd::utf8::encode_utf8(s@),
                ),
                Err(e) => if is_hex(vstd::utf8::encode_utf8(s@)) {
                    vstd::utf8::encode_utf8(s@).len() != 64 && e == Error::InvalidPeerIdLen(
                        (vstd::utf8::encode_utf8(s@).len() / 2) as usize,
                    )
                } else {
                    hex_error(vstd::utf8::encode_utf8(s@), e)
                },
            },
    {
        let bytes: Vec<u8> = match hex_decode(s) {
            Ok(v) => v,
            Err(e) => return Err(e),
        };
        if bytes.len() != PUBLIC_KEY_LEN {
            return Err(Error::InvalidPeerIdLen(bytes.len()));
        }
        let id: PeerId = PeerId { bytes: array_32(bytes.as_slice(), 0) };
        assert(id@ =~= bytes@);
        Ok(id)
    }
}

impl FromStr for PeerId {
    type Err = Error;

    fn from_str(s: &str) -> (r: Result<PeerId, Error>)
        ensures
            match r {
                Ok(id) => is_hex(vstd::utf8::encode_utf8(s@)) && vstd::utf8::encode_utf8(s@).len() == 64 && id@ == hex_bytes(
                    vstd::utf8::encode_utf8(s@),
                ),
                Err(e) => if is_hex(vstd::utf8::encode_utf8(s@)) {
                    vstd::utf8::encode_utf8(s@).len() != 64 && e == Error::InvalidPeerIdLen(
                        (vstd::utf8::encode_utf8(s@).len() / 2) as usize,
                    )
                } else {
                    hex_error(vstd::utf8::encode_utf8(s@), e)
                },
            },
    {
        PeerId::from_text(s)
    }
}

impl PartialEq for PeerId {
    fn eq(&self, other: &PeerId) -> (r: bool) {
        proof {
            if self.bytes@ == other.bytes@ {
                assert(self.bytes =~= other.bytes);
            }
        }
        same_bytes(self.bytes.as_slice(), other.bytes.as_slice())
    }
}

impl vstd::std_specs::cmp::PartialEqSpecImpl for PeerId {
    open spec fn obeys_eq_spec() -> bool {
        true
    }

    open spec fn eq_spec(&self, other: &PeerId) -> bool {
        *self == *other
    }
}

// ---------------------------------------------------------------------------
// OverlayAddr
// ---------------------------------------------------------------------------
/// An address inside the overlay, kept apart from underlay addresses.
#[derive(Clone, Copy, Debug, PartialEq, Eq, Structural, Hash)]
pub struct OverlayAddr {
    pub addr: Ipv4Addr,
}

impl OverlayAddr {
    /// The overlay address with the given IPv4 address.
    pub fn new(addr: Ipv4Addr) -> (r: OverlayAddr)
        ensures
            r == (OverlayAddr { addr }),
    {
        OverlayAddr { addr }
    }

    /// The IPv4 address.
    pub fn ip(self) -> (r: Ipv4Addr)
        ensures
            r == self.addr,
    {
        self.addr
    }

    /// Gives the dotted-quad text.
    pub fn to_text(&self) -> (s: String)
        ensures
            s@ == self.addr.text(),
    {
        self.addr.to_text()
    }
}

impl From<Ipv4Addr> for OverlayAddr {
    fn from(addr: Ipv4Addr) -> (r: OverlayAddr) {
        OverlayAddr { addr }
    }
}

impl vstd::std_specs::convert::FromSpecImpl<Ipv4Addr> for OverlayAddr {
    open spec fn obeys_from_spec() -> bool {
        true
    }

    open spec fn from_spec(addr: Ipv4Addr) -> OverlayAddr {
        OverlayAddr { addr }
    }
}

impl From<OverlayAddr> for Ipv4Addr {
    fn from(addr: OverlayAddr) -> (r: Ipv4Addr) {
        addr.addr
    }
}

impl vstd::std_specs::convert::FromSpecImpl<OverlayAddr> for Ipv4Addr {
    open spec fn obeys_from_spec() -> bool {
        true
    }

    open spec fn from_spec(addr: OverlayAddr) -> Ipv4Addr {
        addr.addr
    }
}

// ---------------------------------------------------------------------------
// SecretKeyBytes
// ---------------------------------------------------------------------------
/// Secret key material in an envelope that is not shown.
#[derive(Eq)]
pub struct SecretKeyBytes {
    pub bytes: [u8; 32],
}

impl Clone for SecretKeyBytes {
    fn clone(&self) -> (r: SecretKeyBytes)
        ensures
            r == *self,
    {
        SecretKeyBytes { bytes: self.bytes }
    }
}

impl View for SecretKeyBytes {
    type V = Seq<u8>;

    open spec fn view(&self) -> Seq<u8> {
        self.bytes@
    }
}

impl SecretKeyBytes {
    /// The secret with the given bytes.
    pub fn from_bytes(bytes: [u8; 32]) -> (r: SecretKeyBytes)
        ensures
            r.bytes == bytes,
    {
        SecretKeyBytes { bytes }
    }

    /// The bytes.
    pub fn as_bytes(&self) -> (r: &[u8])
        ensures
            r@ == self@,
    {
        self.bytes.as_slice()
    }

    /// The bytes, owned.
    pub fn into_inner(self) -> (r: [u8; 32])
        ensures
            r == self.bytes,
    {
        self.bytes
    }

    /// Gives a text that shows a fingerprint and never the secret.
    pub fn debug_text(&self) -> (s: String)
        ensures
            s@ == redacted_text("SecretKeyBytes"@, self@),
    {
        redacted("SecretKeyBytes", self.bytes.as_slice())
    }
}

impl PartialEq for SecretKeyBytes {
    fn eq(&self, other: &SecretKeyBytes) -> (r: bool) {
        proof {
            if self.bytes@ == other.bytes@ {
                assert(self.bytes =~= other.bytes);
            }
        }
        same_bytes(self.bytes.as_slice(), other.bytes.as_slice())
    }
}

impl vstd::std_specs::cmp::PartialEqSpecImpl for SecretKeyBytes {
    open spec fn obeys_eq_spec() -> bool {
        true
    }

    open spec fn eq_spec(&self, other: &SecretKeyBytes) -> bool {
        *self == *other
    }
}

// ---------------------------------------------------------------------------
// Laws
// ---------------------------------------------------------------------------
/// Parsing the text of an info-hash gives the info-hash back: the text is what
/// [`InfoHash::from_str`] accepts, and stands for the same bytes.
pub proof fn infohash_text_round_trip(h: InfoHash)
    ensures
        is_hex(vstd::utf8::encode_utf8(crate::text::hex_text(h@))),
        vstd::utf8::encode_utf8(crate::text::hex_text(h@)).len() == 40,
        hex_bytes(vstd::utf8::encode_utf8(crate::text::hex_text(h@))) == h@,
{
    hex_round_trip(h@);
}

/// Parsing the text of a peer id gives the peer id back: the text is what
/// [`PeerId::from_str`] accepts, and stands for the same bytes.
pub proof fn peer_id_text_round_trip(id: PeerId)
    ensures
        is_hex(vstd::utf8::encode_utf8(crate::text::hex_text(id@))),
        vstd::utf8::encode_utf8(crate::text::hex_text(id@)).len() == 64,
        hex_bytes(vstd::utf8::encode_utf8(crate::text::hex_text(id@))) == id@,
{
    hex_round_trip(id@);
}


/// The text that stands for a secret is its name with eight digits of a digest in
/// brackets: nothing of the secret itself.
pub proof fn redaction_shows_a_digest(name: Seq<char>, a: Seq<u8>, b: Seq<u8>)
    ensures
        fingerprint(a).len() == 16,
        redacted_text(name, a).len() == name.len() + 10,
        fingerprint(a).take(4) == fingerprint(b).take(4) ==> redacted_text(name, a)
            == redacted_text(name, b),
        redacted_text(name, a).take(name.len() as int) == name,
{
    reveal_strlit("(");
    reveal_strlit(")");
    lemma_le_bytes_len(fnv_fold(fingerprint_seed(), a) as nat, 8);
    lemma_le_bytes_len(
        fingerprint_fold(fingerprint_seed(), 0x84222325cbf29ce4u64, a) as nat,
        8,
    );
    lemma_le_bytes_len(fnv_fold(fingerprint_seed(), b) as nat, 8);
    lemma_le_bytes_len(
        fingerprint_fold(fingerprint_seed(), 0x84222325cbf29ce4u64, b) as nat,
        8,
    );
    assert(redacted_text(name, a).take(name.len() as int) =~= name);
}
} // verus!
