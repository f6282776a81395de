//! The keys of a device.
//!
//! A device owns one secret of thirty-two bytes. Its Ed25519 signing key and its
//! X25519 key, which is the Noise static key, both come from it.
use crate::codec::{decode_n, decode_u32, encode_varint, DecodeError};
use crate::error::Error;
use crate::text::{array_32, push_bytes, same_bytes};
use crate::types::{PeerId, SecretKeyBytes};
use ed25519_dalek::SigningKey;
use vstd::prelude::*;

verus! {

/// An Ed25519 signing key of the `ed25519-dalek` crate.
#[verifier::external_type_specification]
#[verifier::external_body]
pub struct ExSigningKey(ed25519_dalek::SigningKey);

/// The secret bytes that a signing key holds.
pub uninterp spec fn signing_seed(key: SigningKey) -> Seq<u8>;

/// The Ed25519 public key of a secret.
pub uninterp spec fn ed25519_public(seed: Seq<u8>) -> Seq<u8>;

/// The X25519 public key of a secret.
pub uninterp spec fn x25519_public(secret: Seq<u8>) -> Seq<u8>;

/// The Ed25519 signature of a message under a secret.
pub uninterp spec fn ed25519_signature(seed: Seq<u8>, message: Seq<u8>) -> Seq<u8>;

/// Whether a signature of a message holds under a public key.
pub uninterp spec fn ed25519_holds(key: Seq<u8>, message: Seq<u8>, signature: Seq<u8>) -> bool;

/// `SigningKey::from_bytes` keeps the secret bytes.
pub assume_specification[ SigningKey::from_bytes ](
    secret_key: &ed25519_dalek::SecretKey,
) -> (r: SigningKey)
    ensures
        signing_seed(r) == secret_key@,
;

/// `SigningKey::as_bytes` gives the secret bytes.
pub assume_specification[ SigningKey::as_bytes ](key: &SigningKey) -> (r: &ed25519_dalek::SecretKey)
    ensures
        r@ == signing_seed(*key),
;

/// `SigningKey::verifying_key`, as bytes: the public key of the secret, which
/// depends on the secret alone.
#[verifier::external_body]
fn verifying_key_bytes(key: &SigningKey) -> (r: [u8; 32])
    ensures
        r@ == ed25519_public(signing_seed(*key)),
{
    key.verifying_key().to_bytes()
}

/// `Signer::sign` of a signing key, as bytes. Signing takes no randomness, so the
/// signature depends on the secret and the message alone; it holds under the public
/// key of the secret.
#[verifier::external_body]
fn signature_bytes(key: &SigningKey, message: &[u8]) -> (r: [u8; 64])
    ensures
        r@ == ed25519_signature(signing_seed(*key), message@),
        ed25519_holds(ed25519_public(signing_seed(*key)), message@, r@),
{
    ed25519_dalek::Signer::sign(key, message).to_bytes()
}

/// `VerifyingKey::from_bytes` and `Verifier::verify`: whether the bytes are a public
/// key under which the signature of the message holds. That depends on the three
/// arguments alone.
#[verifier::external_body]
pub(crate) fn signature_holds(key: &[u8; 32], message: &[u8], signature: &[u8; 64]) -> (r: bool)
    ensures
        r == ed25519_holds(key@, message@, signature@),
{
    let signature = ed25519_dalek::Signature::from_bytes(signature);
    match ed25519_dalek::VerifyingKey::from_bytes(key) {
        Ok(key) => ed25519_dalek::Verifier::verify(&key, message, &signature).is_ok(),
        Err(_) => false,
    }
}

/// `x25519_dalek::PublicKey::from` a static secret: the public key of the secret,
/// which depends on the secret alone.
#[verifier::external_body]
fn x25519_public_bytes(secret: [u8; 32]) -> (r: [u8; 32])
    ensures
        r@ == x25519_public(secret@),
{
    x25519_dalek::PublicKey::from(&x25519_dalek::StaticSecret::from(secret)).to_bytes()
}

/// `rand::random` for thirty-two bytes. Nothing is claimed of what comes.
#[verifier::external_body]
fn random_32() -> [u8; 32] {
    rand::random::<[u8; 32]>()
}

// ---------------------------------------------------------------------------
// DeviceSeedBytes
// ---------------------------------------------------------------------------
/// The secret that the keys of a device come from; the only one that is stored.
#[derive(Eq)]
pub struct DeviceSeedBytes {
    pub bytes: [u8; 32],
}

impl Clone for DeviceSeedBytes {
    fn clone(&self) -> (r: DeviceSeedBytes)
        ensures
            r == *self,
    {
        DeviceSeedBytes { bytes: self.bytes }
    }
}

impl View for DeviceSeedBytes {
    type V = Seq<u8>;

    open spec fn view(&self) -> Seq<u8> {
        self.bytes@
    }
}

impl DeviceSeedBytes {
    /// A random secret.
    pub fn generate() -> (r: DeviceSeedBytes)
        ensures
            r@.len() == 32,
    {
        DeviceSeedBytes { bytes: random_32() }
    }

    /// The secret with the given bytes.
    pub fn from_bytes(bytes: [u8; 32]) -> (r: DeviceSeedBytes)
        ensures
            r.bytes == bytes,
    {
        DeviceSeedBytes { bytes }
    }

    /// The bytes.
    pub fn as_bytes(&self) -> (r: &[u8])
        ensures
            r@ == self@,
    {
        self.bytes.as_slice()
    }

    /// The bytes, owned.
    pub fn into_inner(self) -> (r: [u8; 32])
        ensures
            r == self.bytes,
    {
        self.bytes
    }

    /// Gives a text that shows nothing of the secret.
    pub fn debug_text(&self) -> (s: String)
        ensures
            s@ == "DeviceSeedBytes(**redacted**)"@,
    {
        "DeviceSeedBytes(**redacted**)".to_owned()
    }
}

impl PartialEq for DeviceSeedBytes {
    fn eq(&self, other: &DeviceSeedBytes) -> (r: bool) {
        proof {
            if self.bytes@ == other.bytes@ {
                assert(self.bytes =~= other.bytes);
            }
        }
        same_bytes(self.bytes.as_slice(), other.bytes.as_slice())
    }
}

impl vstd::std_specs::cmp::PartialEqSpecImpl for DeviceSeedBytes {
    open spec fn obeys_eq_spec() -> bool {
        true
    }

    open spec fn eq_spec(&self, other: &DeviceSeedBytes) -> bool {
        *self == *other
    }
}

// ---------------------------------------------------------------------------
// DeviceKeys
// ---------------------------------------------------------------------------
/// A secret made fit for X25519: the three lowest bits and the highest bit
/// cleared, the second highest set.
pub open spec fn clamped(seed: Seq<u8>) -> Seq<u8> {
    seed.update(0, seed[0] & 248).update(31, (seed[31] & 127) | 64)
}

/// The keys of a device.
#[derive(Debug)]
pub struct DeviceKeys {
    signing: SigningKey,
}

impl Clone for DeviceKeys {
    fn clone(&self) -> (r: DeviceKeys)
        ensures
            r.seed() == self.seed(),
    {
        DeviceKeys::from_seed(self.seed_bytes())
    }
}

impl DeviceKeys {
    /// The secret that the keys come from.
    pub closed spec fn seed(&self) -> Seq<u8> {
        signing_seed(self.signing)
    }

    /// The X25519 secret.
    pub open spec fn noise_secret(&self) -> Seq<u8> {
        clamped(self.seed())
    }

    /// Keys from a random secret.
    pub fn generate() -> (r: DeviceKeys)
        ensures
            r.seed().len() == 32,
    {
        DeviceKeys::from_seed(DeviceSeedBytes::generate())
    }

    /// Keys from a secret.
    pub fn from_seed(seed: DeviceSeedBytes) -> (r: DeviceKeys)
        ensures
            r.seed() == seed@,
    {
        DeviceKeys { signing: SigningKey::from_bytes(&seed.bytes) }
    }

    /// The secret that the keys come from.
    pub fn seed_bytes(&self) -> (r: DeviceSeedBytes)
        ensures
            r@ == self.seed(),
    {
        DeviceSeedBytes { bytes: *self.signing.as_bytes() }
    }

    /// The Ed25519 public key.
    pub fn public_key(&self) -> (r: [u8; 32])
        ensures
            r@ == ed25519_public(self.seed()),
    {
        verifying_key_bytes(&self.signing)
    }

    /// The id of the device: its Ed25519 public key.
    pub fn peer_id(&self) -> (r: PeerId)
        ensures
            r@ == ed25519_public(self.seed()),
    {
        PeerId::from_bytes(self.public_key())
    }

    /// The X25519 secret, used as the Noise static key.
    pub fn x25519_static_secret(&self) -> (r: [u8; 32])
        ensures
            r@ == self.noise_secret(),
    {
        let mut k: [u8; 32] = *self.signing.as_bytes();
        k[0] = k[0] & 248;
        k[31] = (k[31] & 127) | 64;
        assert(k@ =~= clamped(self.seed()));
        k
    }

    /// The X25519 public key.
    pub fn x25519_public_key(&self) -> (r: [u8; 32])
        ensures
            r@ == x25519_public(self.noise_secret()),
    {
        x25519_public_bytes(self.x25519_static_secret())
    }

    /// Signs a message.
    pub fn sign(&self, message: &[u8]) -> (r: [u8; 64])
        ensures
            r@ == ed25519_signature(self.seed(), message@),
            ed25519_holds(ed25519_public(self.seed()), message@, r@),
    {
        signature_bytes(&self.signing, message)
    }

    /// The signing key.
    pub fn signing_key(&self) -> (r: &SigningKey)
        ensures
            signing_seed(*r) == self.seed(),
    {
        &self.signing
    }
}

// ---------------------------------------------------------------------------
// Identity file
// ---------------------------------------------------------------------------
/// What the identity file holds: a version and the secret.
pub struct DeviceKeysBytes {
    pub version: u32,
    pub seed: SecretKeyBytes,
}

/// The bytes of the identity file.
pub open spec fn identity_bytes(version: u32, seed: Seq<u8>) -> Seq<u8> {
    crate::codec::varint_bytes(version as nat) + seed
}

/// What the bytes of an identity file say: version and secret. Bytes after them
/// do not matter.
pub open spec fn identity_decoded(b: Seq<u8>) -> Result<(u32, Seq<u8>), DecodeError> {
    match crate::codec::take_u32(b) {
        Ok((version, rest)) => match crate::codec::take_n(rest, 32) {
            Ok((seed, _)) => Ok((version as u32, seed)),
            Err(e) => Err(e),
        },
        Err(e) => Err(e),
    }
}

impl DeviceKeysBytes {
    /// The version that is written and understood.
    pub const CURRENT_VERSION: u32 = 1;

    /// What is stored of some keys.
    pub fn from_keys(keys: &DeviceKeys) -> (r: DeviceKeysBytes)
        ensures
            r.version == 1,
            r.seed@ == keys.seed(),
    {
        let seed: DeviceSeedBytes = keys.seed_bytes();
        DeviceKeysBytes {
            version: Self::CURRENT_VERSION,
            seed: SecretKeyBytes::from_bytes(seed.into_inner()),
        }
    }

    /// The stored secret, if the version is understood.
    pub fn into_seed(self) -> (r: Result<DeviceSeedBytes, Error>)
        ensures
            match r {
                Ok(seed) => self.version == 1 && seed@ == self.seed@,
                Err(e) => self.version != 1 && e == Error::UnsupportedIdentityVersion(
                    self.version,
                ),
            },
    {
        if self.version != Self::CURRENT_VERSION {
            return Err(Error::UnsupportedIdentityVersion(self.version));
        }
        Ok(DeviceSeedBytes::from_bytes(self.seed.into_inner()))
    }

    /// Gives the bytes of the identity file.
    pub fn to_bytes(&self) -> (r: Vec<u8>)
        ensures
            r@ == identity_bytes(self.version, self.seed@),
    {
        let mut buf: Vec<u8> = Vec::new();
        encode_varint(&mut buf, self.version as u64);
        push_bytes(&mut buf, self.seed.as_bytes());
        assert(buf@ =~= identity_bytes(self.version, self.seed@));
        buf
    }

    /// Reads the bytes of an identity file.
    pub fn from_bytes(input: &[u8]) -> (r: Result<DeviceKeysBytes, Error>)
        ensures
            match r {
                Ok(k) => identity_decoded(input@) == Ok::<(u32, Seq<u8>), DecodeError>(
                    (k.version, k.seed@),
                ),
                Err(e) => identity_decoded(input@) matches Err(d) && e matches Error::Serialize(m)
                    && m@ == d.text(),
            },
    {
        assert(input@.skip(0) =~= input@);
        match decode_u32(input, 0) {
            Ok((version, p)) => match decode_n(input, p, 32) {
                Ok((b, _)) => {
                    let seed: SecretKeyBytes = SecretKeyBytes::from_bytes(array_32(b, 0));
                    assert(seed@ =~= b@);
                    Ok(DeviceKeysBytes { version, seed })
                },
                Err(e) => Err(Error::Serialize(e.to_text())),
            },
            Err(e) => Err(Error::Serialize(e.to_text())),
        }
    }
}

/// Keys are read back from the identity file that was written of them: same
/// version, same secret, and so the same public keys and id.
pub proof fn identity_round_trip(keys: DeviceKeys)
    requires
        keys.seed().len() == 32,
    ensures
        identity_decoded(identity_bytes(1, keys.seed())) == Ok::<(u32, Seq<u8>), DecodeError>(
            (1u32, keys.seed()),
        ),
{
    let rest = Seq::<u8>::empty();
    crate::codec::u32_round_trip(1, keys.seed());
    crate::codec::plain_round_trip(keys.seed(), rest);
    assert(keys.seed() + rest =~= keys.seed());
}


/// The secret for key agreement is the seed of the device with four of its bits cleared
/// and one set, as the curve asks: a multiple of eight with the second highest bit as its
/// highest; every other bit is that of the seed.
pub proof fn secrets_fit_the_curve(seed: Seq<u8>, i: int)
    requires
        seed.len() == 32,
        0 < i < 31,
    ensures
        clamped(seed).len() == 32,
        clamped(seed)[0] % 8 == 0,
        clamped(seed)[0] / 8 == seed[0] / 8,
        clamped(seed)[i] == seed[i],
        64 <= clamped(seed)[31] < 128,
        clamped(seed)[31] % 64 == seed[31] % 64,
        clamped(clamped(seed)) == clamped(seed),
{
    let (x, y) = (seed[0], seed[31]);
    assert((x & 248) % 8 == 0 && (x & 248) / 8 == x / 8) by (bit_vector);
    assert(64 <= ((y & 127) | 64) < 128 && ((y & 127) | 64) % 64 == y % 64) by (bit_vector);
    assert((x & 248) & 248 == x & 248) by (bit_vector);
    assert((((y & 127) | 64) & 127) | 64 == (y & 127) | 64) by (bit_vector);
    assert(clamped(clamped(seed)) =~= clamped(seed));
}
} // verus!
