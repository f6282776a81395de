//! Noise XX handshake and encrypted transport.
//!
//! The pattern is `Noise_XX_25519_ChaChaPoly_BLAKE2s` with the network secret as
//! prologue, so only devices that share the secret complete a handshake.
//!
//! ```text
//! initiator → responder   message A: ephemeral key
//! responder → initiator   message B: ephemeral key, static key
//! initiator → responder   message C: static key
//! ```
use crate::device::{x25519_public, DeviceKeys};
use crate::error::Error;
use crate::text::{array_32, push_text};
use crate::types::NetworkSecret;
use snow::Error as SnowError;
use snow::{HandshakeState, TransportState};
use vstd::prelude::*;

verus! {

/// The Noise protocol in use.
pub const NOISE_PATTERN: &'static str = "Noise_XX_25519_ChaChaPoly_BLAKE2s";

/// Longest Noise message.
pub const MAX_MESSAGE_LEN: usize = 65535;

/// How much longer than its plaintext a transport message is.
pub const TRANSPORT_OVERHEAD: usize = 16;

// ---------------------------------------------------------------------------
// What is trusted of `snow`
// ---------------------------------------------------------------------------
/// A handshake in progress, of the `snow` crate.
#[verifier::external_type_specification]
#[verifier::external_body]
pub struct ExHandshakeState(snow::HandshakeState);

/// An established session, of the `snow` crate.
#[verifier::external_type_specification]
#[verifier::external_body]
pub struct ExTransportState(snow::TransportState);

/// An error of the `snow` crate.
#[verifier::external_type_specification]
#[verifier::external_body]
pub struct ExSnowError(SnowError);

/// What a handshake state holds.
#[verifier::ext_equal]
pub ghost struct NoiseHandshake {
    /// Whether the state was built for [`NOISE_PATTERN`].
    pub xx: bool,
    /// Whether this side began.
    pub initiator: bool,
    /// The prologue that it was built with.
    pub prologue: Seq<u8>,
    /// The static secret that it was built with.
    pub secret: Seq<u8>,
    /// The messages written and read so far, in order.
    pub transcript: Seq<Seq<u8>>,
    /// The static key of the other side, once a message brought it.
    pub remote: Option<Seq<u8>>,
}

impl NoiseHandshake {
    /// Whether it is this side's turn to write.
    pub open spec fn to_write(self) -> bool {
        self.transcript.len() < 3 && self.initiator == (self.transcript.len() % 2 == 0)
    }

    /// Whether it is this side's turn to read.
    pub open spec fn to_read(self) -> bool {
        self.transcript.len() < 3 && self.initiator != (self.transcript.len() % 2 == 0)
    }

    /// The state after one more message, with what is then known of the other
    /// side.
    pub open spec fn after(self, message: Seq<u8>, remote: Option<Seq<u8>>) -> NoiseHandshake {
        NoiseHandshake { transcript: self.transcript.push(message), remote, ..self }
    }
}

/// How much longer than its payload a handshake message is: the ephemeral key
/// of message A; ephemeral key, encrypted static key and tag of message B;
/// encrypted static key and tag of message C.
pub open spec fn handshake_overhead(position: nat) -> nat {
    if position == 0 {
        32
    } else if position == 1 {
        96
    } else {
        64
    }
}

/// Whether a handshake state is as it was built, before the first message.
pub open spec fn just_begun(
    h: NoiseHandshake,
    initiator: bool,
    prologue: Seq<u8>,
    secret: Seq<u8>,
) -> bool {
    &&& h.xx
    &&& h.initiator == initiator
    &&& h.prologue == prologue
    &&& h.secret == secret
    &&& h.transcript.len() == 0
    &&& h.remote is None
}

/// What a transport state holds.
#[verifier::ext_equal]
pub ghost struct NoiseSession {
    /// Whether the state came from a handshake with [`NOISE_PATTERN`].
    pub xx: bool,
    /// The key for messages that this side writes.
    pub sending_key: Seq<u8>,
    /// The key for messages that this side reads.
    pub receiving_key: Seq<u8>,
    /// Number of messages written.
    pub sent: nat,
    /// Number of messages read.
    pub received: nat,
}

/// What a handshake state holds.
pub uninterp spec fn noise_handshake(state: HandshakeState) -> NoiseHandshake;

/// What a transport state holds.
pub uninterp spec fn noise_session(state: TransportState) -> NoiseSession;

/// The payload that the reader of a handshake message gets, if it accepts the
/// message. It depends on the reader's prologue and on what both sides have
/// seen: the earlier messages fix the ephemeral and static keys.
pub uninterp spec fn noise_payload(
    prologue: Seq<u8>,
    transcript: Seq<Seq<u8>>,
    message: Seq<u8>,
) -> Option<Seq<u8>>;

/// The static key that a handshake message carries.
pub uninterp spec fn noise_static_key(transcript: Seq<Seq<u8>>, message: Seq<u8>) -> Seq<u8>;

/// The two session keys after three messages: initiator to responder, and
/// responder to initiator.
pub uninterp spec fn noise_keys(transcript: Seq<Seq<u8>>) -> (Seq<u8>, Seq<u8>);

/// The ciphertext of a transport message.
pub uninterp spec fn noise_seal(key: Seq<u8>, count: nat, plaintext: Seq<u8>) -> Seq<u8>;

/// The plaintext of a transport message, if it is authentic.
pub uninterp spec fn noise_open(key: Seq<u8>, count: nat, ciphertext: Seq<u8>) -> Option<Seq<u8>>;

/// The message that an error shows.
pub uninterp spec fn noise_error_text(e: SnowError) -> Seq<char>;

/// `snow::Builder` with a prologue and a local private key, then
/// `build_initiator`. With the pattern in use, which the crate's default
/// resolver supports, no step fails, and the state holds what it was given.
#[verifier::external_body]
fn build_initiator(pattern: &str, prologue: &[u8], secret: &[u8; 32]) -> (r: Result<
    HandshakeState,
    SnowError,
>)
    requires
        pattern@ == NOISE_PATTERN@,
    ensures
        r is Ok,
        just_begun(noise_handshake(r->Ok_0), true, prologue@, secret@),
{
    snow::Builder::new(pattern.parse()?)
        .prologue(prologue)?
        .local_private_key(secret)?
        .build_initiator()
}

/// `snow::Builder` with a prologue and a local private key, then
/// `build_responder`. With the pattern in use, which the crate's default
/// resolver supports, no step fails, and the state holds what it was given.
#[verifier::external_body]
fn build_responder(pattern: &str, prologue: &[u8], secret: &[u8; 32]) -> (r: Result<
    HandshakeState,
    SnowError,
>)
    requires
        pattern@ == NOISE_PATTERN@,
    ensures
        r is Ok,
        just_begun(noise_handshake(r->Ok_0), false, prologue@, secret@),
{
    snow::Builder::new(pattern.parse()?)
        .prologue(prologue)?
        .local_private_key(secret)?
        .build_responder()
}

/// `HandshakeState::write_message` of a state for the pattern in use. It only
/// succeeds in turn. What it writes is longer than the payload by what the
/// keys and tags of the message need, is accepted by a reader with the same
/// prologue who has seen the same messages, and gives that reader the payload;
/// from the second message on it carries the writer's static key. The third
/// message needs no randomness, so writing it fails only for want of room or
/// turn. Out of turn nothing changes. Not stated: what the bytes are, since the
/// first two messages hold a random key, and what the state holds after a failure
/// in turn. There must be room for the longest Noise message: with less room than
/// the static key and its tag need, the function panics.
pub assume_specification[ HandshakeState::write_message ](
    state: &mut HandshakeState,
    payload: &[u8],
    message: &mut [u8],
) -> (r: Result<usize, SnowError>)
    requires
        old(message)@.len() >= 65535,
    ensures
        final(message)@.len() == old(message)@.len(),
        noise_handshake(*old(state)).xx ==> match r {
            Ok(n) => {
                let before = noise_handshake(*old(state));
                let sent = final(message)@.take(n as int);
                &&& n == payload@.len() + handshake_overhead(before.transcript.len())
                &&& n <= old(message)@.len()
                &&& n <= 65535
                &&& before.to_write()
                &&& noise_handshake(*final(state)) == before.after(sent, before.remote)
                &&& noise_payload(before.prologue, before.transcript, sent) == Some(payload@)
                &&& before.transcript.len() >= 1 ==> noise_static_key(before.transcript, sent)
                    == x25519_public(before.secret)
            },
            Err(_) => {
                let before = noise_handshake(*old(state));
                &&& !before.to_write() ==> noise_handshake(*final(state)) == before
                &&& before.to_write() && before.transcript.len() == 2 ==> payload@.len() + 64
                    > old(message)@.len() || payload@.len() + 64 > 65535
            },
        },
;

/// `HandshakeState::read_message` of a state for the pattern in use, with room
/// for the payload unless the message is longer than a Noise message. In turn, it
/// succeeds exactly for the messages that give a payload, and hands that out; from
/// the second message on the other side's static key is then known. Out of turn it
/// fails, and nothing changes. Not stated: what the state holds after a failure in
/// turn.
pub assume_specification[ HandshakeState::read_message ](
    state: &mut HandshakeState,
    message: &[u8],
    payload: &mut [u8],
) -> (r: Result<usize, SnowError>)
    ensures
        final(payload)@.len() == old(payload)@.len(),
        noise_handshake(*old(state)).xx && (message@.len() <= old(payload)@.len() || message@.len()
            > 65535) ==> match r {
            Ok(n) => {
                let before = noise_handshake(*old(state));
                &&& n <= old(payload)@.len()
                &&& message@.len() <= 65535
                &&& before.to_read()
                &&& noise_payload(before.prologue, before.transcript, message@) == Some(
                    final(payload)@.take(n as int),
                )
                &&& noise_handshake(*final(state)) == before.after(
                    message@,
                    if before.transcript.len() >= 1 {
                        Some(noise_static_key(before.transcript, message@))
                    } else {
                        before.remote
                    },
                )
            },
            Err(_) => {
                let before = noise_handshake(*old(state));
                &&& !before.to_read() ==> noise_handshake(*final(state)) == before
                &&& before.to_read() ==> message@.len() > 65535 || noise_payload(
                    before.prologue,
                    before.transcript,
                    message@,
                ) is None
            },
        },
;

/// `HandshakeState::get_remote_static`, copied: the other side's static key, if
/// known. The key of the pattern in use has thirty-two bytes.
#[verifier::external_body]
fn remote_static(state: &HandshakeState) -> (r: Option<Vec<u8>>)
    ensures
        noise_handshake(*state).xx ==> match r {
            Some(k) => noise_handshake(*state).remote == Some(k@) && k@.len() == 32,
            None => noise_handshake(*state).remote is None,
        },
{
    state.get_remote_static().map(|k| k.to_vec())
}

/// `HandshakeState::into_transport_mode`: possible once all three messages have
/// passed. The session keys depend on the messages alone; the sides have them
/// the other way round.
pub assume_specification[ HandshakeState::into_transport_mode ](state: HandshakeState) -> (r: Result<
    TransportState,
    SnowError,
>)
    ensures
        noise_handshake(state).xx ==> match r {
            Ok(t) => {
                let h = noise_handshake(state);
                let keys = noise_keys(h.transcript);
                &&& h.transcript.len() == 3
                &&& noise_session(t) == (NoiseSession {
                    xx: true,
                    sending_key: if h.initiator {
                        keys.0
                    } else {
                        keys.1
                    },
                    receiving_key: if h.initiator {
                        keys.1
                    } else {
                        keys.0
                    },
                    sent: 0,
                    received: 0,
                })
            },
            Err(_) => noise_handshake(state).transcript.len() != 3,
        },
;

/// `TransportState::write_message`: writes the ciphertext of the payload under
/// the sending key and the number of messages sent, and counts the message. It
/// is sixteen bytes longer than the payload, and opens to it. It fails exactly
/// where the result would be longer than a Noise message or than the room given,
/// or the counter is used up, and then changes nothing.
pub assume_specification[ TransportState::write_message ](
    state: &mut TransportState,
    payload: &[u8],
    message: &mut [u8],
) -> (r: Result<usize, SnowError>)
    ensures
        final(message)@.len() == old(message)@.len(),
        noise_session(*old(state)).xx ==> match r {
            Ok(n) => {
                let before = noise_session(*old(state));
                let sealed = noise_seal(before.sending_key, before.sent, payload@);
                &&& n == payload@.len() + 16
                &&& n <= old(message)@.len()
                &&& n <= 65535
                &&& before.sent < u64::MAX
                &&& final(message)@.take(n as int) == sealed
                &&& noise_open(before.sending_key, before.sent, sealed) == Some(payload@)
                &&& noise_session(*final(state)) == (NoiseSession {
                    sent: before.sent + 1,
                    ..before
                })
            },
            Err(_) => {
                let before = noise_session(*old(state));
                &&& (payload@.len() + 16 > 65535 || payload@.len() + 16 > old(message)@.len()
                    || before.sent >= u64::MAX)
                &&& noise_session(*final(state)) == before
            },
        },
;

/// `TransportState::read_message` with room for the plaintext: hands out the
/// plaintext of an authentic message under the receiving key and the number of
/// messages received, and counts the message. It fails exactly for other
/// messages, messages that are too long, and a counter that is used up, and then
/// changes nothing.
pub assume_specification[ TransportState::read_message ](
    state: &mut TransportState,
    message: &[u8],
    payload: &mut [u8],
) -> (r: Result<usize, SnowError>)
    ensures
        final(payload)@.len() == old(payload)@.len(),
        noise_session(*old(state)).xx && message@.len() <= old(payload)@.len() ==> match r {
            Ok(n) => {
                let before = noise_session(*old(state));
                &&& n + 16 == message@.len()
                &&& message@.len() <= 65535
                &&& before.received < u64::MAX
                &&& noise_open(before.receiving_key, before.received, message@) == Some(
                    final(payload)@.take(n as int),
                )
                &&& noise_session(*final(state)) == (NoiseSession {
                    received: before.received + 1,
                    ..before
                })
            },
            Err(_) => {
                let before = noise_session(*old(state));
                &&& (message@.len() > 65535 || before.received >= u64::MAX || noise_open(
                    before.receiving_key,
                    before.received,
                    message@,
                ) is None)
                &&& noise_session(*final(state)) == before
            },
        },
;

/// The `Display` text of an error of `snow`, which depends on the error alone.
#[verifier::external_body]
fn error_text(e: &SnowError) -> (s: String)
    ensures
        s@ == noise_error_text(*e),
{
    e.to_string()
}

// ---------------------------------------------------------------------------
// Errors
// ---------------------------------------------------------------------------
/// Whether an error is a failed handshake at the given step.
pub open spec fn handshake_error(e: Error, step: Seq<char>) -> bool {
    e matches Error::NoiseHandshake(m) && exists|cause: SnowError|
        m@ == step + #[trigger] noise_error_text(cause)
}

/// Whether an error is a transport failure at the given step.
pub open spec fn transport_error(e: Error, step: Seq<char>) -> bool {
    e matches Error::NoiseTransport(m) && exists|cause: SnowError|
        m@ == step + #[trigger] noise_error_text(cause)
}

fn step_text(step: &str, e: &SnowError) -> (s: String)
    ensures
        s@ == step@ + noise_error_text(*e),
{
    let mut s: String = String::new();
    push_text(&mut s, step);
    push_text(&mut s, error_text(e).as_str());
    assert(s@ =~= step@ + noise_error_text(*e));
    s
}

fn handshake_failed(step: &str, e: SnowError) -> (r: Error)
    ensures
        handshake_error(r, step@),
{
    Error::NoiseHandshake(step_text(step, &e))
}

fn transport_failed(step: &str, e: SnowError) -> (r: Error)
    ensures
        transport_error(r, step@),
{
    Error::NoiseTransport(step_text(step, &e))
}

// ---------------------------------------------------------------------------
// Secure transport
// ---------------------------------------------------------------------------
/// An encrypted session with one peer.
#[derive(Debug)]
pub struct SecureTransport {
    state: TransportState,
    remote_static: [u8; 32],
}

impl SecureTransport {
    /// Keys and message counts of the session.
    pub closed spec fn session(&self) -> NoiseSession {
        noise_session(self.state)
    }

    /// The static key of the peer.
    pub closed spec fn remote(&self) -> Seq<u8> {
        self.remote_static@
    }

    /// The session was made by a handshake of this module.
    pub open spec fn wf(&self) -> bool {
        self.session().xx && self.remote().len() == 32
    }

    /// Whether a plaintext can be encrypted: it fits a Noise message, and the
    /// counter is not used up.
    pub open spec fn can_encrypt(s: NoiseSession, plaintext: Seq<u8>) -> bool {
        plaintext.len() + 16 <= 65535 && s.sent < u64::MAX
    }

    /// What a ciphertext decrypts to, if it does.
    pub open spec fn opened(s: NoiseSession, ciphertext: Seq<u8>) -> Option<Seq<u8>> {
        if ciphertext.len() <= 65535 && s.received < u64::MAX {
            noise_open(s.receiving_key, s.received, ciphertext)
        } else {
            None
        }
    }

    /// Encrypts a message for the peer.
    pub fn encrypt(&mut self, plaintext: &[u8]) -> (r: Result<Vec<u8>, Error>)
        requires
            old(self).wf(),
        ensures
            final(self).wf(),
            final(self).remote() == old(self).remote(),
            match r {
                Ok(c) => {
                    let s = old(self).session();
                    &&& SecureTransport::can_encrypt(s, plaintext@)
                    &&& c@ == noise_seal(s.sending_key, s.sent, plaintext@)
                    &&& c@.len() == plaintext@.len() + 16
                    &&& noise_open(s.sending_key, s.sent, c@) == Some(plaintext@)
                    &&& final(self).session() == (NoiseSession { sent: s.sent + 1, ..s })
                },
                Err(e) => {
                    &&& !SecureTransport::can_encrypt(old(self).session(), plaintext@)
                    &&& transport_error(e, "encrypt: "@)
                    &&& final(self).session() == old(self).session()
                },
            },
    {
        let room: usize = plaintext.len().saturating_add(TRANSPORT_OVERHEAD);
        let mut buf: Vec<u8> = vec![0u8; room];
        match self.state.write_message(plaintext, buf.as_mut_slice()) {
            Ok(n) => {
                buf.truncate(n);
                Ok(buf)
            },
            Err(e) => Err(transport_failed("encrypt: ", e)),
        }
    }

    /// Decrypts a message from the peer.
    pub fn decrypt(&mut self, ciphertext: &[u8]) -> (r: Result<Vec<u8>, Error>)
        requires
            old(self).wf(),
        ensures
            final(self).wf(),
            final(self).remote() == old(self).remote(),
            match r {
                Ok(p) => {
                    let s = old(self).session();
                    &&& SecureTransport::opened(s, ciphertext@) == Some(p@)
                    &&& p@.len() + 16 == ciphertext@.len()
                    &&& final(self).session() == (NoiseSession { received: s.received + 1, ..s })
                },
                Err(e) => {
                    &&& SecureTransport::opened(old(self).session(), ciphertext@) is None
                    &&& transport_error(e, "decrypt: "@)
                    &&& final(self).session() == old(self).session()
                },
            },
    {
        let mut buf: Vec<u8> = vec![0u8; ciphertext.len()];
        match self.state.read_message(ciphertext, buf.as_mut_slice()) {
            Ok(n) => {
                buf.truncate(n);
                Ok(buf)
            },
            Err(e) => Err(transport_failed("decrypt: ", e)),
        }
    }

    /// The static key that the peer proved to hold.
    pub fn remote_static_key(&self) -> (r: &[u8; 32])
        ensures
            r@ == self.remote(),
    {
        &self.remote_static
    }
}

/// Whether what `a` writes next is what `b` reads next.
pub open spec fn feeds(a: NoiseSession, b: NoiseSession) -> bool {
    a.sending_key == b.receiving_key && a.sent == b.received
}

/// Whether two sessions are the two ends of one connection with nothing under
/// way.
pub open spec fn paired(a: NoiseSession, b: NoiseSession) -> bool {
    feeds(a, b) && feeds(b, a)
}

/// What one end of a connection encrypts, the other end decrypts to the same
/// plaintext, and the ends stay paired: if the session `a` sealed a plaintext
/// that it could encrypt, then `b` opens the result, and after both have counted
/// the message they are paired again.
pub proof fn decrypt_undoes_encrypt(a: NoiseSession, b: NoiseSession, plaintext: Seq<u8>, c: Seq<u8>)
    requires
        paired(a, b),
        SecureTransport::can_encrypt(a, plaintext),
        c.len() == plaintext.len() + 16,
        noise_open(a.sending_key, a.sent, c) == Some(plaintext),
    ensures
        SecureTransport::opened(b, c) == Some(plaintext),
        paired(
            NoiseSession { sent: a.sent + 1, ..a },
            NoiseSession { received: b.received + 1, ..b },
        ),
{
}

// ---------------------------------------------------------------------------
// Handshakes
// ---------------------------------------------------------------------------
/// A completed handshake: the session, and for the initiator the last message to
/// send.
pub struct HandshakeResult {
    pub transport: SecureTransport,
    pub msg_bytes: Vec<u8>,
}

/// The session of one side after three messages.
pub open spec fn fresh_session(initiator: bool, transcript: Seq<Seq<u8>>) -> NoiseSession {
    let keys = noise_keys(transcript);
    NoiseSession {
        xx: true,
        sending_key: if initiator {
            keys.0
        } else {
            keys.1
        },
        receiving_key: if initiator {
            keys.1
        } else {
            keys.0
        },
        sent: 0,
        received: 0,
    }
}

/// The error where the other side's key is not known at the end.
pub open spec fn no_key_error(e: Error) -> bool {
    e matches Error::NoiseHandshake(m) && m@ == "remote static key unavailable"@
}

fn finished(state: HandshakeState) -> (r: Result<SecureTransport, Error>)
    requires
        noise_handshake(state).xx,
    ensures
        match r {
            Ok(t) => {
                let h = noise_handshake(state);
                &&& h.transcript.len() == 3
                &&& h.remote == Some(t.remote())
                &&& t.wf()
                &&& t.session() == fresh_session(h.initiator, h.transcript)
            },
            Err(e) => {
                let h = noise_handshake(state);
                if h.remote is None {
                    no_key_error(e)
                } else {
                    h.transcript.len() != 3 && handshake_error(e, "into transport: "@)
                }
            },
        },
{
    let key: Vec<u8> = match remote_static(&state) {
        Some(k) => k,
        None => return Err(Error::NoiseHandshake("remote static key unavailable".to_owned())),
    };
    let remote: [u8; 32] = array_32(key.as_slice(), 0);
    assert(remote@ =~= key@);
    match state.into_transport_mode() {
        Ok(t) => Ok(SecureTransport { state: t, remote_static: remote }),
        Err(e) => Err(handshake_failed("into transport: ", e)),
    }
}

/// What may come of reading a handshake message, at the given step. In turn, it is
/// read if it gives a payload; out of turn it is refused and nothing changes. After
/// a message that was refused in turn the handshake is to be given up: what it then
/// holds is not said.
pub open spec fn read_outcome(
    before: NoiseHandshake,
    after: NoiseHandshake,
    msg: Seq<u8>,
    step: Seq<char>,
    r: Result<Vec<u8>, Error>,
) -> bool {
    match r {
        Ok(p) => {
            &&& before.to_read()
            &&& msg.len() <= 65535
            &&& noise_payload(before.prologue, before.transcript, msg) == Some(p@)
            &&& after == before.after(
                msg,
                if before.transcript.len() >= 1 {
                    Some(noise_static_key(before.transcript, msg))
                } else {
                    before.remote
                },
            )
        },
        Err(e) => {
            &&& handshake_error(e, step)
            &&& before.to_read() ==> msg.len() > 65535 || noise_payload(
                before.prologue,
                before.transcript,
                msg,
            ) is None
            &&& !before.to_read() ==> after == before
        },
    }
}

/// What may come of writing a handshake message, at the given step. Out of turn
/// nothing is written and nothing changes. In turn, a reader with the same prologue
/// who has seen the same messages gets the payload, and from message B on the
/// writer's static key. Messages A and B hold a fresh random key, and writing them
/// fails if no randomness is to be had; writing message C fails only if the payload
/// is too long. After a failure in turn the handshake is to be given up: what it
/// then holds is not said.
pub open spec fn write_outcome(
    before: NoiseHandshake,
    after: NoiseHandshake,
    payload: Seq<u8>,
    step: Seq<char>,
    r: Result<Vec<u8>, Error>,
) -> bool {
    match r {
        Ok(m) => {
            &&& before.to_write()
            &&& m@.len() == payload.len() + handshake_overhead(before.transcript.len())
            &&& m@.len() <= 65535
            &&& after == before.after(m@, before.remote)
            &&& noise_payload(before.prologue, before.transcript, m@) == Some(payload)
            &&& before.transcript.len() >= 1 ==> noise_static_key(before.transcript, m@)
                == x25519_public(before.secret)
        },
        Err(e) => {
            &&& handshake_error(e, step)
            &&& before.to_write() && before.transcript.len() == 2 ==> payload.len() + 64 > 65535
            &&& !before.to_write() ==> after == before
        },
    }
}

fn read_step(state: &mut HandshakeState, msg: &[u8], step: &str) -> (r: Result<Vec<u8>, Error>)
    requires
        noise_handshake(*old(state)).xx,
    ensures
        read_outcome(
            noise_handshake(*old(state)),
            noise_handshake(*final(state)),
            msg@,
            step@,
            r,
        ),
{
    let mut buf: Vec<u8> = vec![0u8; MAX_MESSAGE_LEN];
    match state.read_message(msg, buf.as_mut_slice()) {
        Ok(n) => {
            buf.truncate(n);
            Ok(buf)
        },
        Err(e) => Err(handshake_failed(step, e)),
    }
}

fn write_step(state: &mut HandshakeState, payload: &[u8], step: &str) -> (r: Result<Vec<u8>, Error>)
    requires
        noise_handshake(*old(state)).xx,
    ensures
        write_outcome(
            noise_handshake(*old(state)),
            noise_handshake(*final(state)),
            payload@,
            step@,
            r,
        ),
{
    let mut buf: Vec<u8> = vec![0u8; MAX_MESSAGE_LEN];
    match state.write_message(payload, buf.as_mut_slice()) {
        Ok(n) => {
            buf.truncate(n);
            Ok(buf)
        },
        Err(e) => Err(handshake_failed(step, e)),
    }
}

/// The side of a handshake that begins.
#[derive(Debug)]
pub struct InitiatorHandshake {
    state: HandshakeState,
}

impl InitiatorHandshake {
    /// What the handshake has seen so far.
    pub closed spec fn view(&self) -> NoiseHandshake {
        noise_handshake(self.state)
    }

    /// The handshake was begun by this module.
    pub open spec fn wf(&self) -> bool {
        self@.xx && self@.initiator
    }

    /// Begins a handshake in the network of `network_secret`.
    pub fn new(network_secret: &NetworkSecret, device_keys: &DeviceKeys) -> (r: Result<
        InitiatorHandshake,
        Error,
    >)
        ensures
            r matches Ok(h) && h.wf() && h@.prologue == network_secret@ && h@.secret
                == device_keys.noise_secret() && h@.transcript.len() == 0 && h@.remote is None,
    {
        let secret: [u8; 32] = device_keys.x25519_static_secret();
        match build_initiator(NOISE_PATTERN, network_secret.as_bytes(), &secret) {
            Ok(state) => Ok(InitiatorHandshake { state }),
            Err(e) => Err(handshake_failed("initiator build: ", e)),
        }
    }

    /// Writes message A.
    pub fn write_message_a(&mut self, payload: &[u8]) -> (r: Result<Vec<u8>, Error>)
        requires
            old(self).wf(),
        ensures
            write_outcome(old(self)@, final(self)@, payload@, "msg A write: "@, r),
    {
        write_step(&mut self.state, payload, "msg A write: ")
    }

    /// Reads message B.
    pub fn read_message_b(&mut self, msg: &[u8]) -> (r: Result<Vec<u8>, Error>)
        requires
            old(self).wf(),
        ensures
            read_outcome(old(self)@, final(self)@, msg@, "msg B read: "@, r),
    {
        read_step(&mut self.state, msg, "msg B read: ")
    }

    /// Writes message C and turns the handshake into a session. That takes a
    /// handshake that has read message B.
    pub fn finish(self, payload: &[u8]) -> (r: Result<HandshakeResult, Error>)
        requires
            self.wf(),
        ensures
            match r {
                Ok(h) => {
                    let c = h.msg_bytes@;
                    &&& self@.transcript.len() == 2
                    &&& payload@.len() + 64 <= 65535
                    &&& c.len() == payload@.len() + 64
                    &&& noise_payload(self@.prologue, self@.transcript, c) == Some(payload@)
                    &&& noise_static_key(self@.transcript, c) == x25519_public(self@.secret)
                    &&& h.transport.wf()
                    &&& self@.remote == Some(h.transport.remote())
                    &&& h.transport.session() == fresh_session(true, self@.transcript.push(c))
                },
                Err(e) => {
                    ||| handshake_error(e, "msg C write: "@) && (self@.transcript.len() == 2
                        ==> payload@.len() + 64 > 65535)
                    ||| self@.to_write() && self@.remote is None && no_key_error(e)
                    ||| self@.transcript.len() == 0 && self@.remote is Some && handshake_error(
                        e,
                        "into transport: "@,
                    )
                },
            },
    {
        let mut state: HandshakeState = self.state;
        let msg_bytes: Vec<u8> = match write_step(&mut state, payload, "msg C write: ") {
            Ok(m) => m,
            Err(e) => return Err(e),
        };
        match finished(state) {
            Ok(transport) => Ok(HandshakeResult { transport, msg_bytes }),
            Err(e) => Err(e),
        }
    }
}

/// The side of a handshake that answers.
#[derive(Debug)]
pub struct ResponderHandshake {
    state: HandshakeState,
}

impl ResponderHandshake {
    /// What the handshake has seen so far.
    pub closed spec fn view(&self) -> NoiseHandshake {
        noise_handshake(self.state)
    }

    /// The handshake was begun by this module.
    pub open spec fn wf(&self) -> bool {
        self@.xx && !self@.initiator
    }

    /// Gets ready to answer in the network of `network_secret`.
    pub fn new(network_secret: &NetworkSecret, device_keys: &DeviceKeys) -> (r: Result<
        ResponderHandshake,
        Error,
    >)
        ensures
            r matches Ok(h) && h.wf() && h@.prologue == network_secret@ && h@.secret
                == device_keys.noise_secret() && h@.transcript.len() == 0 && h@.remote is None,
    {
        let secret: [u8; 32] = device_keys.x25519_static_secret();
        match build_responder(NOISE_PATTERN, network_secret.as_bytes(), &secret) {
            Ok(state) => Ok(ResponderHandshake { state }),
            Err(e) => Err(handshake_failed("responder build: ", e)),
        }
    }

    /// Reads message A.
    pub fn read_message_a(&mut self, msg: &[u8]) -> (r: Result<Vec<u8>, Error>)
        requires
            old(self).wf(),
        ensures
            read_outcome(old(self)@, final(self)@, msg@, "msg A read: "@, r),
    {
        read_step(&mut self.state, msg, "msg A read: ")
    }

    /// Writes message B.
    pub fn write_message_b(&mut self, payload: &[u8]) -> (r: Result<Vec<u8>, Error>)
        requires
            old(self).wf(),
        ensures
            write_outcome(old(self)@, final(self)@, payload@, "msg B write: "@, r),
    {
        write_step(&mut self.state, payload, "msg B write: ")
    }

    /// Reads message C and turns the handshake into a session. That takes a
    /// handshake that has written message B.
    pub fn finish(self, msg: &[u8]) -> (r: Result<HandshakeResult, Error>)
        requires
            self.wf(),
        ensures
            match r {
                Ok(h) => {
                    &&& self@.transcript.len() == 2
                    &&& msg@.len() <= 65535
                    &&& noise_payload(self@.prologue, self@.transcript, msg@) is Some
                    &&& h.msg_bytes@.len() == 0
                    &&& h.transport.wf()
                    &&& h.transport.remote() == noise_static_key(self@.transcript, msg@)
                    &&& h.transport.session() == fresh_session(false, self@.transcript.push(msg@))
                },
                Err(e) => {
                    ||| handshake_error(e, "msg C read: "@) && (self@.to_read() ==> msg@.len()
                        > 65535 || noise_payload(self@.prologue, self@.transcript, msg@) is None)
                    ||| self@.transcript.len() == 0 && self@.remote is None && no_key_error(e)
                    ||| self@.transcript.len() == 0 && self@.remote is Some && handshake_error(
                        e,
                        "into transport: "@,
                    )
                },
            },
    {
        match self.finish_with_payload(msg) {
            Ok((transport, _)) => Ok(HandshakeResult { transport, msg_bytes: Vec::new() }),
            Err(e) => Err(e),
        }
    }

    /// Reads message C and turns the handshake into a session, with the payload of
    /// the message.
    pub fn finish_with_payload(self, msg: &[u8]) -> (r: Result<(SecureTransport, Vec<u8>), Error>)
        requires
            self.wf(),
        ensures
            match r {
                Ok((transport, payload)) => {
                    &&& self@.transcript.len() == 2
                    &&& msg@.len() <= 65535
                    &&& noise_payload(self@.prologue, self@.transcript, msg@) == Some(payload@)
                    &&& transport.wf()
                    &&& transport.remote() == noise_static_key(self@.transcript, msg@)
                    &&& transport.session() == fresh_session(false, self@.transcript.push(msg@))
                },
                Err(e) => {
                    ||| handshake_error(e, "msg C read: "@) && (self@.to_read() ==> msg@.len()
                        > 65535 || noise_payload(self@.prologue, self@.transcript, msg@) is None)
                    ||| self@.transcript.len() == 0 && self@.remote is None && no_key_error(e)
                    ||| self@.transcript.len() == 0 && self@.remote is Some && handshake_error(
                        e,
                        "into transport: "@,
                    )
                },
            },
    {
        let mut state: HandshakeState = self.state;
        let payload: Vec<u8> = match read_step(&mut state, msg, "msg C read: ") {
            Ok(p) => p,
            Err(e) => return Err(e),
        };
        match finished(state) {
            Ok(transport) => Ok((transport, payload)),
            Err(e) => Err(e),
        }
    }
}

/// Whether a message A without a payload is one that a device of a network writes.
pub open spec fn writes_a(network: Seq<u8>, a: Seq<u8>) -> bool {
    &&& a.len() == 32
    &&& noise_payload(network, Seq::empty(), a) == Some(Seq::<u8>::empty())
}

/// Whether a message B without a payload is one that a device of a network, with a
/// static secret, writes in answer to message A.
pub open spec fn writes_b(network: Seq<u8>, secret: Seq<u8>, a: Seq<u8>, b: Seq<u8>) -> bool {
    &&& b.len() == 96
    &&& noise_payload(network, seq![a], b) == Some(Seq::<u8>::empty())
    &&& noise_static_key(seq![a], b) == x25519_public(secret)
}

/// Whether a message C without a payload is one that a device of a network, with a
/// static secret, writes in answer to message B.
pub open spec fn writes_c(
    network: Seq<u8>,
    secret: Seq<u8>,
    a: Seq<u8>,
    b: Seq<u8>,
    c: Seq<u8>,
) -> bool {
    &&& c.len() == 64
    &&& noise_payload(network, seq![a, b], c) == Some(Seq::<u8>::empty())
    &&& noise_static_key(seq![a, b], c) == x25519_public(secret)
}

/// A side of a handshake: its network secret and its static secret.
pub ghost struct Side {
    pub network: Seq<u8>,
    pub secret: Seq<u8>,
}

/// Whether message A passed from the first side to the second, which accepts it.
pub open spec fn passes_a(first: Side, second: Side, a: Seq<u8>) -> bool {
    &&& writes_a(first.network, a)
    &&& noise_payload(second.network, Seq::empty(), a) is Some
}

/// Whether messages A and B passed between the sides, each accepted by its reader.
pub open spec fn passes_b(first: Side, second: Side, a: Seq<u8>, b: Seq<u8>) -> bool {
    &&& passes_a(first, second, a)
    &&& writes_b(second.network, second.secret, a, b)
    &&& noise_payload(first.network, seq![a], b) is Some
}

/// Whether messages A, B and C passed between the sides, each accepted by its reader.
pub open spec fn passes_c(first: Side, second: Side, a: Seq<u8>, b: Seq<u8>, c: Seq<u8>) -> bool {
    &&& passes_b(first, second, a, b)
    &&& writes_c(first.network, first.secret, a, b, c)
    &&& noise_payload(second.network, seq![a, b], c) is Some
}

/// Whether the second side refuses a message A of the first.
pub open spec fn refuses_a(first: Side, second: Side, a: Seq<u8>) -> bool {
    &&& writes_a(first.network, a)
    &&& noise_payload(second.network, Seq::empty(), a) is None
}

/// Whether the first side refuses a message B of the second.
pub open spec fn refuses_b(first: Side, second: Side, a: Seq<u8>, b: Seq<u8>) -> bool {
    &&& passes_a(first, second, a)
    &&& writes_b(second.network, second.secret, a, b)
    &&& noise_payload(first.network, seq![a], b) is None
}

/// Whether the second side refuses a message C of the first.
pub open spec fn refuses_c(first: Side, second: Side, a: Seq<u8>, b: Seq<u8>, c: Seq<u8>) -> bool {
    &&& passes_b(first, second, a, b)
    &&& writes_c(first.network, first.secret, a, b, c)
    &&& noise_payload(second.network, seq![a, b], c) is None
}

/// Whether an error is one in which a handshake between two sides may end: message A
/// or B could not be written, for want of randomness, or a message is refused by its
/// reader, under the reader's own network secret.
pub open spec fn pair_error(first: Side, second: Side, e: Error) -> bool {
    ||| handshake_error(e, "msg A write: "@)
    ||| handshake_error(e, "msg A read: "@) && exists|a: Seq<u8>| #[trigger]
        refuses_a(first, second, a)
    ||| handshake_error(e, "msg B write: "@) && exists|a: Seq<u8>| #[trigger]
        passes_a(first, second, a)
    ||| handshake_error(e, "msg B read: "@) && exists|a: Seq<u8>, b: Seq<u8>| #[trigger]
        refuses_b(first, second, a, b)
    ||| handshake_error(e, "msg C read: "@) && exists|a: Seq<u8>, b: Seq<u8>, c: Seq<u8>|
        #[trigger] refuses_c(first, second, a, b, c)
}

/// Runs both sides of a handshake against each other.
///
/// If it completes, each side has accepted the other's messages under its own network
/// secret, the two sessions are the ends of one connection, and each side knows the
/// other's static key. Else a message was refused under the secret of its reader, or no
/// randomness was to be had for message A or B; between sides that share the network
/// secret only the latter happens. That sides with different secrets do refuse each
/// other's messages is not stated: it rests on chance.
pub fn complete_handshake_pair(
    secret_a: &NetworkSecret,
    keys_a: &DeviceKeys,
    secret_b: &NetworkSecret,
    keys_b: &DeviceKeys,
) -> (r: Result<(SecureTransport, SecureTransport), Error>)
    ensures
        ({
            let first = Side { network: secret_a@, secret: keys_a.noise_secret() };
            let second = Side { network: secret_b@, secret: keys_b.noise_secret() };
            match r {
                Ok((a, b)) => {
                    &&& a.wf()
                    &&& b.wf()
                    &&& exists|ma: Seq<u8>, mb: Seq<u8>, mc: Seq<u8>|
                        {
                            &&& #[trigger] passes_c(first, second, ma, mb, mc)
                            &&& a.session() == fresh_session(true, seq![ma, mb, mc])
                            &&& b.session() == fresh_session(false, seq![ma, mb, mc])
                        }
                    &&& paired(a.session(), b.session())
                    &&& a.session().sent == 0
                    &&& a.session().received == 0
                    &&& a.remote() == x25519_public(keys_b.noise_secret())
                    &&& b.remote() == x25519_public(keys_a.noise_secret())
                },
                Err(e) => {
                    &&& pair_error(first, second, e)
                    &&& secret_a@ == secret_b@ ==> handshake_error(e, "msg A write: "@)
                        || handshake_error(e, "msg B write: "@)
                },
            }
        }),
{
    let ghost first = Side { network: secret_a@, secret: keys_a.noise_secret() };
    let ghost second = Side { network: secret_b@, secret: keys_b.noise_secret() };
    let none: [u8; 0] = [];
    let mut initiator: InitiatorHandshake = match InitiatorHandshake::new(secret_a, keys_a) {
        Ok(h) => h,
        Err(e) => return Err(e),
    };
    let mut responder: ResponderHandshake = match ResponderHandshake::new(secret_b, keys_b) {
        Ok(h) => h,
        Err(e) => return Err(e),
    };
    assert(none@ =~= Seq::empty());
    assert(initiator@.transcript =~= Seq::empty());
    assert(responder@.transcript =~= Seq::empty());
    let msg_a: Vec<u8> = match initiator.write_message_a(none.as_slice()) {
        Ok(m) => m,
        Err(e) => return Err(e),
    };
    assert(initiator@.transcript =~= seq![msg_a@]);
    match responder.read_message_a(msg_a.as_slice()) {
        Ok(_) => {},
        Err(e) => {
            assert(refuses_a(first, second, msg_a@));
            return Err(e);
        },
    }
    assert(passes_a(first, second, msg_a@));
    assert(responder@.transcript =~= seq![msg_a@]);
    let msg_b: Vec<u8> = match responder.write_message_b(none.as_slice()) {
        Ok(m) => m,
        Err(e) => return Err(e),
    };
    assert(responder@.transcript =~= seq![msg_a@, msg_b@]);
    match initiator.read_message_b(msg_b.as_slice()) {
        Ok(_) => {},
        Err(e) => {
            assert(refuses_b(first, second, msg_a@, msg_b@));
            return Err(e);
        },
    }
    assert(initiator@.transcript =~= seq![msg_a@, msg_b@]);
    let init: HandshakeResult = match initiator.finish(none.as_slice()) {
        Ok(h) => h,
        Err(e) => return Err(e),
    };
    let ghost msg_c = init.msg_bytes@;
    assert(seq![msg_a@, msg_b@].push(msg_c) =~= seq![msg_a@, msg_b@, msg_c]);
    let resp: HandshakeResult = match responder.finish(init.msg_bytes.as_slice()) {
        Ok(h) => h,
        Err(e) => {
            assert(refuses_c(first, second, msg_a@, msg_b@, msg_c));
            return Err(e);
        },
    };
    assert(passes_c(first, second, msg_a@, msg_b@, msg_c));
    Ok((init.transport, resp.transport))
}

/// Two sides that share the network secret refuse no message of each other.
pub proof fn one_network_refuses_nothing(
    first: Side,
    second: Side,
    a: Seq<u8>,
    b: Seq<u8>,
    c: Seq<u8>,
)
    requires
        first.network == second.network,
    ensures
        !refuses_a(first, second, a),
        !refuses_b(first, second, a, b),
        !refuses_c(first, second, a, b, c),
{
}

/// Two sides that saw the same three messages hold the two ends of one
/// connection.
pub proof fn same_transcript_pairs(transcript: Seq<Seq<u8>>)
    ensures
        paired(fresh_session(true, transcript), fresh_session(false, transcript)),
{
}

} // verus!
