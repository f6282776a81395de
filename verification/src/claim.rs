//! How a device proves its id in a handshake.
//!
//! The id is the Ed25519 public key of the device; Noise proves another key, the
//! X25519 static one. So messages B and C carry a claim: the id, and a signature
//! under it of the static key.
use crate::device::{
    clamped, ed25519_holds, ed25519_public, ed25519_signature, signature_holds, x25519_public,
    DeviceKeys,
};
use crate::error::Error;
use crate::noise::{
    noise_payload, noise_static_key, HandshakeResult, InitiatorHandshake, ResponderHandshake,
    SecureTransport,
};
use crate::text::{array_32, push_bytes, sub_bytes};
use crate::types::PeerId;
use vstd::prelude::*;

verus! {

/// Tag of a signed static key, the bytes of `seednet-id`.
pub const CLAIM_TAG: [u8; 10] = [115, 101, 101, 100, 110, 101, 116, 45, 105, 100];

/// Length of a claim: an id and a signature.
pub const CLAIM_LEN: usize = 96;

/// What is signed of a static key.
pub open spec fn claim_text(static_key: Seq<u8>) -> Seq<u8> {
    CLAIM_TAG@ + static_key
}

/// The claim of the device with a secret.
pub open spec fn claim_of(seed: Seq<u8>) -> Seq<u8> {
    ed25519_public(seed) + ed25519_signature(seed, claim_text(x25519_public(clamped(seed))))
}

/// The id that a claim proves for the holder of a static key, if it does.
pub open spec fn claimed_id(claim: Seq<u8>, static_key: Seq<u8>) -> Option<PeerId> {
    if claim.len() == 96 && ed25519_holds(
        claim.take(32),
        claim_text(static_key),
        claim.skip(32),
    ) {
        Some(crate::message::peer_of(claim.take(32)))
    } else {
        None
    }
}

fn claim_text_bytes(static_key: &[u8; 32]) -> (r: Vec<u8>)
    ensures
        r@ == claim_text(static_key@),
{
    let mut r: Vec<u8> = Vec::new();
    push_bytes(&mut r, CLAIM_TAG.as_slice());
    push_bytes(&mut r, static_key.as_slice());
    assert(r@ =~= claim_text(static_key@));
    r
}

/// The claim of a device. It proves the id of the device for its static key.
pub fn make_claim(keys: &DeviceKeys) -> (r: Vec<u8>)
    ensures
        r@ == claim_of(keys.seed()),
        r@.len() == 96,
        claimed_id(r@, x25519_public(keys.noise_secret())) matches Some(id) && id@
            == ed25519_public(keys.seed()),
{
    let id: [u8; 32] = keys.public_key();
    let static_key: [u8; 32] = keys.x25519_public_key();
    let text: Vec<u8> = claim_text_bytes(&static_key);
    let signature: [u8; 64] = keys.sign(text.as_slice());
    let mut r: Vec<u8> = Vec::new();
    push_bytes(&mut r, id.as_slice());
    push_bytes(&mut r, signature.as_slice());
    proof {
        assert(r@ =~= id@ + signature@);
        assert(r@.take(32) =~= id@);
        assert(r@.skip(32) =~= signature@);
        crate::message::lemma_peer_of(PeerId { bytes: id });
    }
    r
}

/// Reads a claim of the holder of a static key.
pub fn read_claim(claim: &[u8], static_key: &[u8; 32]) -> (r: Option<PeerId>)
    ensures
        r == claimed_id(claim@, static_key@),
{
    if claim.len() != CLAIM_LEN {
        return None;
    }
    let id: [u8; 32] = array_32(claim, 0);
    let signature: [u8; 64] = array_64(sub_bytes(claim, 32, 96));
    let text: Vec<u8> = claim_text_bytes(static_key);
    proof {
        assert(id@ =~= claim@.take(32));
        assert(signature@ =~= claim@.skip(32));
    }
    if signature_holds(&id, text.as_slice(), &signature) {
        let peer: PeerId = PeerId::from_bytes(id);
        proof {
            crate::message::lemma_peer_of(peer);
        }
        Some(peer)
    } else {
        None
    }
}

fn array_64(bytes: &[u8]) -> (r: [u8; 64])
    requires
        bytes@.len() == 64,
    ensures
        r@ == bytes@,
{
    let mut r: [u8; 64] = [0; 64];
    let mut i: usize = 0;
    while i < 64
        invariant
            i <= 64,
            bytes@.len() == 64,
            forall|j: int| 0 <= j < i ==> r@[j] == bytes@[j],
        decreases 64 - i,
    {
        r[i] = bytes[i];
        i = i + 1;
    }
    assert(r@ =~= bytes@);
    r
}

// ---------------------------------------------------------------------------
// The ends of handshakes
// ---------------------------------------------------------------------------
/// The id that a handshake message proves, if it is accepted and does.
pub open spec fn proved_id(
    prologue: Seq<u8>,
    transcript: Seq<Seq<u8>>,
    msg: Seq<u8>,
) -> Option<PeerId> {
    match noise_payload(prologue, transcript, msg) {
        Some(payload) => if msg.len() <= 65535 {
            claimed_id(payload, noise_static_key(transcript, msg))
        } else {
            None
        },
        None => None,
    }
}

/// The error where a handshake ends without a proved id.
pub open spec fn no_id_error(e: Error) -> bool {
    e matches Error::NoiseHandshake(m) && m@ == "peer id not proved"@
}

/// Whether an error is the one for a handshake message that proves no id, at the
/// given step: that of Noise if it is not accepted, else that of the claim.
pub open spec fn is_refusal(
    prologue: Seq<u8>,
    transcript: Seq<Seq<u8>>,
    msg: Seq<u8>,
    step: Seq<char>,
    e: Error,
) -> bool {
    &&& proved_id(prologue, transcript, msg) is None
    &&& if msg.len() > 65535 || noise_payload(prologue, transcript, msg) is None {
        crate::noise::handshake_error(e, step)
    } else {
        no_id_error(e)
    }
}

/// Reads message B of a handshake that we began and writes message C with our claim.
/// Gives the peer that message B proves, and the end of the handshake.
pub fn finish_initiator(handshake: InitiatorHandshake, b: &[u8], claim: &[u8]) -> (r: Result<
    (PeerId, HandshakeResult),
    Error,
>)
    requires
        handshake.wf(),
        handshake@.transcript.len() == 1,
        claim@.len() == 96,
    ensures
        match r {
            Ok((peer, done)) => {
                let t = handshake@.transcript.push(b@);
                let c = done.msg_bytes@;
                &&& proved_id(handshake@.prologue, handshake@.transcript, b@) == Some(peer)
                &&& c.len() == 160
                &&& noise_payload(handshake@.prologue, t, c) == Some(claim@)
                &&& noise_static_key(t, c) == x25519_public(handshake@.secret)
                &&& done.transport.wf()
                &&& done.transport.remote() == noise_static_key(handshake@.transcript, b@)
                &&& done.transport.session() == crate::noise::fresh_session(true, t.push(c))
            },
            Err(e) => is_refusal(
                handshake@.prologue,
                handshake@.transcript,
                b@,
                "msg B read: "@,
                e,
            ),
        },
{
    let mut h: InitiatorHandshake = handshake;
    let payload: Vec<u8> = match h.read_message_b(b) {
        Ok(p) => p,
        Err(e) => return Err(e),
    };
    let done: HandshakeResult = match h.finish(claim) {
        Ok(d) => d,
        Err(e) => return Err(e),
    };
    match read_claim(payload.as_slice(), done.transport.remote_static_key()) {
        Some(peer) => Ok((peer, done)),
        None => Err(Error::NoiseHandshake("peer id not proved".to_owned())),
    }
}

/// Reads message C of a handshake that we answered. Gives the peer that it proves,
/// and the session.
pub fn finish_responder(handshake: ResponderHandshake, c: &[u8]) -> (r: Result<
    (PeerId, SecureTransport),
    Error,
>)
    requires
        handshake.wf(),
        handshake@.transcript.len() == 2,
    ensures
        match r {
            Ok((peer, transport)) => {
                &&& proved_id(handshake@.prologue, handshake@.transcript, c@) == Some(peer)
                &&& transport.wf()
                &&& transport.remote() == noise_static_key(handshake@.transcript, c@)
                &&& transport.session() == crate::noise::fresh_session(
                    false,
                    handshake@.transcript.push(c@),
                )
            },
            Err(e) => is_refusal(
                handshake@.prologue,
                handshake@.transcript,
                c@,
                "msg C read: "@,
                e,
            ),
        },
{
    let (transport, payload) = match handshake.finish_with_payload(c) {
        Ok(d) => d,
        Err(e) => return Err(e),
    };
    match read_claim(payload.as_slice(), transport.remote_static_key()) {
        Some(peer) => Ok((peer, transport)),
        None => Err(Error::NoiseHandshake("peer id not proved".to_owned())),
    }
}


/// A claim proves an id only if it is that id followed by a signature of it over the tag
/// and the static key; and a handshake proves an id only through such a claim for the key
/// that the handshake itself shows.
pub proof fn only_signed_claims_prove(
    claim: Seq<u8>,
    key: Seq<u8>,
    prologue: Seq<u8>,
    transcript: Seq<Seq<u8>>,
    msg: Seq<u8>,
)
    ensures
        claimed_id(claim, key) is Some <==> claim.len() == 96 && ed25519_holds(
            claim.subrange(0, 32),
            CLAIM_TAG@ + key,
            claim.subrange(32, 96),
        ),
        proved_id(prologue, transcript, msg) matches Some(id) ==> {
            &&& msg.len() <= 65535
            &&& noise_payload(prologue, transcript, msg) matches Some(payload)
            &&& payload.len() == 96
            &&& ed25519_holds(
                payload.subrange(0, 32),
                CLAIM_TAG@ + noise_static_key(transcript, msg),
                payload.subrange(32, 96),
            )
        },
        noise_payload(prologue, transcript, msg) == Some(claim) && msg.len() <= 65535
            ==> proved_id(prologue, transcript, msg) == claimed_id(
            claim,
            noise_static_key(transcript, msg),
        ),
{
    if claim.len() == 96 {
        assert(claim.skip(32) =~= claim.subrange(32, 96));
        assert(claim.take(32) =~= claim.subrange(0, 32));
    }
    if let Some(payload) = noise_payload(prologue, transcript, msg) {
        if payload.len() == 96 {
            assert(payload.skip(32) =~= payload.subrange(32, 96));
            assert(payload.take(32) =~= payload.subrange(0, 32));
        }
    }
}
} // verus!
