//! Errors of the library.
use crate::text::{push_dec, push_text};
use vstd::prelude::*;

verus! {

/// What kind of input or output failure it is, as far as anybody asks.
#[derive(Clone, Copy, Debug, PartialEq, Eq, Structural)]
pub enum IoKind {
    NotFound,
    PermissionDenied,
    Unsupported,
    Other,
}

/// An input or output failure.
#[derive(Debug, PartialEq, Eq)]
pub struct IoError {
    pub kind: IoKind,
    pub text: String,
}

/// What can go wrong, one variant for each condition.
#[derive(Debug)]
pub enum Error {
    /// The passphrase is empty.
    EmptySeed,
    /// Hexadecimal text of odd length.
    InvalidHexLength(usize),
    /// A character that is no hexadecimal digit.
    InvalidHexChar(char),
    /// An info-hash of a wrong length.
    InvalidInfoHashLen(usize),
    /// A peer id of a wrong length.
    InvalidPeerIdLen(usize),
    /// A cryptographic failure.
    Crypto(String),
    /// A failed Noise handshake.
    NoiseHandshake(String),
    /// A failure of the encrypted transport.
    NoiseTransport(String),
    /// An input or output failure.
    Io(IoError),
    /// Bytes that do not decode.
    Serialize(String),
    /// No identity file at this path.
    IdentityMissing(String),
    /// An identity file that cannot be read.
    IdentityCorrupt(String),
    /// An identity file of an unknown version.
    UnsupportedIdentityVersion(u32),
    /// Text that is no address.
    AddrParse(String),
    /// A failure of the DHT.
    Dht(String),
}

/// The text that the formatting of a character for debugging gives.
pub uninterp spec fn char_debug_text(c: char) -> Seq<char>;

/// Formats a character with the `Debug` impl of `char`: the character between
/// single quotes, with escapes where needed. The text depends on the character
/// alone and is named, not spelled out.
#[verifier::external_body]
fn char_debug(c: char) -> (s: String)
    ensures
        s@ == char_debug_text(c),
{
    format!("{:?}", c)
}

impl Error {
    /// The message for a reader.
    pub open spec fn text(&self) -> Seq<char> {
        match self {
            Error::EmptySeed => "seed (passphrase) must not be empty"@,
            Error::InvalidHexLength(n) => "invalid hex input: odd length "@
                + crate::text::dec_text(*n as nat),
            Error::InvalidHexChar(c) => "invalid hex character: "@ + char_debug_text(*c),
            Error::InvalidInfoHashLen(n) => "infohash must be 20 bytes, got "@
                + crate::text::dec_text(*n as nat),
            Error::InvalidPeerIdLen(n) => "peer id must be 32 bytes, got "@ + crate::text::dec_text(
                *n as nat,
            ),
            Error::Crypto(m) => "cryptography error: "@ + m@,
            Error::NoiseHandshake(m) => "Noise handshake failed: "@ + m@,
            Error::NoiseTransport(m) => "Noise transport error: "@ + m@,
            Error::Io(m) => "io error: "@ + m.text@,
            Error::Serialize(m) => "serialization error: "@ + m@,
            Error::IdentityMissing(m) => "identity file missing or unreadable at "@ + m@,
            Error::IdentityCorrupt(m) => "identity file corrupt: "@ + m@,
            Error::UnsupportedIdentityVersion(n) => "unsupported identity file version: "@
                + crate::text::dec_text(*n as nat),
            Error::AddrParse(m) => "address parse error: "@ + m@,
            Error::Dht(m) => "DHT error: "@ + m@,
        }
    }

    /// Gives the message for a reader.
    pub fn to_text(&self) -> (s: String)
        ensures
            s@ == self.text(),
    {
        let mut s: String = String::new();
        match self {
            Error::EmptySeed => push_text(&mut s, "seed (passphrase) must not be empty"),
            Error::InvalidHexLength(n) => {
                push_text(&mut s, "invalid hex input: odd length ");
                push_dec(&mut s, *n as u64);
            },
            Error::InvalidHexChar(c) => {
                push_text(&mut s, "invalid hex character: ");
                push_text(&mut s, char_debug(*c).as_str());
            },
            Error::InvalidInfoHashLen(n) => {
                push_text(&mut s, "infohash must be 20 bytes, got ");
                push_dec(&mut s, *n as u64);
            },
            Error::InvalidPeerIdLen(n) => {
                push_text(&mut s, "peer id must be 32 bytes, got ");
                push_dec(&mut s, *n as u64);
            },
            Error::Crypto(m) => {
                push_text(&mut s, "cryptography error: ");
                push_text(&mut s, m.as_str());
            },
            Error::NoiseHandshake(m) => {
                push_text(&mut s, "Noise handshake failed: ");
                push_text(&mut s, m.as_str());
            },
            Error::NoiseTransport(m) => {
                push_text(&mut s, "Noise transport error: ");
                push_text(&mut s, m.as_str());
            },
            Error::Io(m) => {
                push_text(&mut s, "io error: ");
                push_text(&mut s, m.text.as_str());
            },
            Error::Serialize(m) => {
                push_text(&mut s, "serialization error: ");
                push_text(&mut s, m.as_str());
            },
            Error::IdentityMissing(m) => {
                push_text(&mut s, "identity file missing or unreadable at ");
                push_text(&mut s, m.as_str());
            },
            Error::IdentityCorrupt(m) => {
                push_text(&mut s, "identity file corrupt: ");
                push_text(&mut s, m.as_str());
            },
            Error::UnsupportedIdentityVersion(n) => {
                push_text(&mut s, "unsupported identity file version: ");
                push_dec(&mut s, *n as u64);
            },
            Error::AddrParse(m) => {
                push_text(&mut s, "address parse error: ");
                push_text(&mut s, m.as_str());
            },
            Error::Dht(m) => {
                push_text(&mut s, "DHT error: ");
                push_text(&mut s, m.as_str());
            },
        }
        assert(s@ =~= self.text());
        s
    }
}

} // verus!
