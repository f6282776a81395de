//! Building blocks of the compact wire format: variable-length integers,
//! length-prefixed bytes and text, optional values and addresses.
//!
//! Encoding is described by spec functions from values to bytes, decoding by
//! spec functions that take a value off the front of some bytes and leave the
//! rest.
use crate::net::{Ipv4Addr, Ipv6Addr, SocketAddr};
use crate::text::{array_16, array_32, copy_bytes, push_bytes, sub_bytes};
use crate::types::PeerId;
use vstd::prelude::*;

verus! {

/// Why some bytes do not decode.
#[derive(Clone, Copy, Debug, PartialEq, Eq, Structural)]
pub enum DecodeError {
    /// The bytes end inside a value.
    UnexpectedEnd,
    /// An integer that does not end in time or is too large.
    BadVarint,
    /// Text that is not UTF-8.
    BadUtf8,
    /// An optional value whose tag is neither 0 nor 1.
    BadOption,
    /// A variant that does not exist.
    BadVariant,
}

impl DecodeError {
    /// The message for a reader.
    pub open spec fn text(&self) -> Seq<char> {
        match self {
            DecodeError::UnexpectedEnd => "Hit the end of buffer, expected more data"@,
            DecodeError::BadVarint =>
                "Found a varint that didn't terminate. Is the usize too big for this platform?"@,
            DecodeError::BadUtf8 => "Tried to parse invalid utf-8"@,
            DecodeError::BadOption => "Found an Option discriminant that wasn't 0 or 1"@,
            DecodeError::BadVariant => "Serde Deserialization Error"@,
        }
    }

    /// Gives the message for a reader.
    pub fn to_text(&self) -> (s: String)
        ensures
            s@ == self.text(),
    {
        match self {
            DecodeError::UnexpectedEnd => "Hit the end of buffer, expected more data".to_owned(),
            DecodeError::BadVarint =>
                "Found a varint that didn't terminate. Is the usize too big for this platform?".to_owned(),
            DecodeError::BadUtf8 => "Tried to parse invalid utf-8".to_owned(),
            DecodeError::BadOption => "Found an Option discriminant that wasn't 0 or 1".to_owned(),
            DecodeError::BadVariant => "Serde Deserialization Error".to_owned(),
        }
    }
}

/// The error of `String::from_utf8`, carried and not looked into.
#[verifier::external_type_specification]
#[verifier::external_body]
pub struct ExFromUtf8Error(std::string::FromUtf8Error);

/// `String::from_utf8` accepts exactly the bytes that are UTF-8 and gives the
/// string that they encode.
pub assume_specification[ String::from_utf8 ](vec: Vec<u8>) -> (r: Result<
    String,
    std::string::FromUtf8Error,
>)
    ensures
        r is Ok <==> vstd::utf8::valid_utf8(vec@),
        r matches Ok(s) ==> vstd::utf8::encode_utf8(s@) == vec@,
;

// ---------------------------------------------------------------------------
// Variable-length integers
// ---------------------------------------------------------------------------
/// Seven bits to a byte, least significant first; all bytes but the last have
/// the high bit set.
pub open spec fn varint_bytes(v: nat) -> Seq<u8>
    decreases v,
{
    if v < 128 {
        seq![v as u8]
    } else {
        seq![(v % 128 + 128) as u8] + varint_bytes(v / 128)
    }
}

/// Takes an integer of at most `n` bytes, whose `n`-th byte is at most `last`.
pub open spec fn take_varint(s: Seq<u8>, n: nat, last: nat) -> Result<
    (nat, Seq<u8>),
    DecodeError,
>
    decreases n,
{
    if n == 0 {
        Err(DecodeError::BadVarint)
    } else if s.len() == 0 {
        Err(DecodeError::UnexpectedEnd)
    } else if s[0] < 128 {
        if n == 1 && s[0] > last {
            Err(DecodeError::BadVarint)
        } else {
            Ok((s[0] as nat, s.skip(1)))
        }
    } else {
        match take_varint(s.skip(1), (n - 1) as nat, last) {
            Ok((v, rest)) => Ok((v * 128 + (s[0] - 128) as nat, rest)),
            Err(e) => Err(e),
        }
    }
}

/// One more than the largest integer of `n` bytes whose last is at most `last`.
pub open spec fn varint_cap(n: nat, last: nat) -> nat
    decreases n,
{
    if n == 0 {
        0
    } else if n == 1 {
        last + 1
    } else {
        128 * varint_cap((n - 1) as nat, last)
    }
}

/// Takes a 16-bit integer.
pub open spec fn take_u16(s: Seq<u8>) -> Result<(nat, Seq<u8>), DecodeError> {
    take_varint(s, 3, 3)
}

/// Takes a 32-bit integer.
pub open spec fn take_u32(s: Seq<u8>) -> Result<(nat, Seq<u8>), DecodeError> {
    take_varint(s, 5, 15)
}

/// Takes a 64-bit integer.
pub open spec fn take_u64(s: Seq<u8>) -> Result<(nat, Seq<u8>), DecodeError> {
    take_varint(s, 10, 1)
}

/// What is taken stays below the cap and is a suffix.
proof fn lemma_take_varint_cap(s: Seq<u8>, n: nat, last: nat)
    ensures
        take_varint(s, n, last) matches Ok((v, rest)) ==> {
            &&& (last < 128 ==> v < varint_cap(n, last))
            &&& rest.len() < s.len()
        },
    decreases n,
{
    if n > 0 && s.len() > 0 && s[0] >= 128 {
        lemma_take_varint_cap(s.skip(1), (n - 1) as nat, last);
    } else if n > 1 {
        lemma_varint_cap_grows(n, last);
    }
}

proof fn lemma_varint_cap_grows(n: nat, last: nat)
    requires
        n > 1,
    ensures
        varint_cap(n, last) >= 128,
        varint_cap(n, last) >= varint_cap((n - 1) as nat, last),
    decreases n,
{
    reveal_with_fuel(varint_cap, 3);
    if n > 2 {
        lemma_varint_cap_grows((n - 1) as nat, last);
    }
}

proof fn lemma_caps()
    ensures
        varint_cap(3, 3) == 0x10000,
        varint_cap(5, 15) == 0x1_0000_0000,
        varint_cap(10, 1) == 0x1_0000_0000_0000_0000,
{
    reveal_with_fuel(varint_cap, 11);
}

/// An integer below the cap is read back from its bytes, whatever follows.
pub proof fn varint_round_trip(v: nat, n: nat, last: nat, rest: Seq<u8>)
    requires
        n >= 1,
        last < 128,
        v < varint_cap(n, last),
    ensures
        take_varint(varint_bytes(v) + rest, n, last) == Ok::<(nat, Seq<u8>), DecodeError>(
            (v, rest),
        ),
    decreases v,
{
    let s = varint_bytes(v) + rest;
    if v < 128 {
        assert(s[0] == v as u8);
        assert(s.skip(1) =~= rest);
    } else {
        assert(n > 1);
        assert(v / 128 < varint_cap((n - 1) as nat, last));
        varint_round_trip(v / 128, (n - 1) as nat, last, rest);
        assert(s[0] == (v % 128 + 128) as u8);
        assert(s.skip(1) =~= varint_bytes(v / 128) + rest);
    }
}

/// 16-bit integers are read back from their bytes.
pub proof fn u16_round_trip(v: u16, rest: Seq<u8>)
    ensures
        take_u16(varint_bytes(v as nat) + rest) == Ok::<(nat, Seq<u8>), DecodeError>(
            (v as nat, rest),
        ),
{
    lemma_caps();
    varint_round_trip(v as nat, 3, 3, rest);
}

/// 32-bit integers are read back from their bytes.
pub proof fn u32_round_trip(v: u32, rest: Seq<u8>)
    ensures
        take_u32(varint_bytes(v as nat) + rest) == Ok::<(nat, Seq<u8>), DecodeError>(
            (v as nat, rest),
        ),
{
    lemma_caps();
    varint_round_trip(v as nat, 5, 15, rest);
}

/// 64-bit integers are read back from their bytes.
pub proof fn u64_round_trip(v: u64, rest: Seq<u8>)
    ensures
        take_u64(varint_bytes(v as nat) + rest) == Ok::<(nat, Seq<u8>), DecodeError>(
            (v as nat, rest),
        ),
{
    lemma_caps();
    varint_round_trip(v as nat, 10, 1, rest);
}

/// Appends an integer.
pub fn encode_varint(buf: &mut Vec<u8>, v: u64)
    ensures
        final(buf)@ == old(buf)@ + varint_bytes(v as nat),
{
    let ghost before = buf@;
    let mut rest: u64 = v;
    while rest >= 128
        invariant
            buf@ + varint_bytes(rest as nat) == before + varint_bytes(v as nat),
        decreases rest,
    {
        let ghost was = buf@;
        buf.push((rest % 128 + 128) as u8);
        assert(buf@ + varint_bytes((rest / 128) as nat) =~= was + varint_bytes(rest as nat));
        rest = rest / 128;
    }
    let ghost was = buf@;
    buf.push(rest as u8);
    assert(buf@ =~= was + varint_bytes(rest as nat));
}

/// Takes an integer of at most `n` bytes.
fn decode_varint(data: &[u8], pos: usize, n: u8, last: u8) -> (r: Result<
    (u64, usize),
    DecodeError,
>)
    requires
        pos <= data@.len(),
        1 <= n,
        last < 128,
        varint_cap(n as nat, last as nat) <= 0x1_0000_0000_0000_0000,
    ensures
        match r {
            Ok((v, p)) => pos < p <= data@.len() && take_varint(
                data@.skip(pos as int),
                n as nat,
                last as nat,
            ) == Ok::<(nat, Seq<u8>), DecodeError>((v as nat, data@.skip(p as int))),
            Err(e) => take_varint(data@.skip(pos as int), n as nat, last as nat) == Err::<
                (nat, Seq<u8>),
                DecodeError,
            >(e),
        },
    decreases n,
{
    let ghost s = data@.skip(pos as int);
    if pos == data.len() {
        return Err(DecodeError::UnexpectedEnd);
    }
    let b: u8 = data[pos];
    assert(s[0] == b);
    assert(s.skip(1) =~= data@.skip(pos + 1));
    if b < 128 {
        if n == 1 && b > last {
            Err(DecodeError::BadVarint)
        } else {
            Ok((b as u64, pos + 1))
        }
    } else if n == 1 {
        Err(DecodeError::BadVarint)
    } else {
        proof {
            lemma_varint_cap_grows(n as nat, last as nat);
        }
        match decode_varint(data, pos + 1, n - 1, last) {
            Ok((v, p)) => {
                proof {
                    lemma_take_varint_cap(data@.skip(pos + 1), (n - 1) as nat, last as nat);
                }
                Ok((v * 128 + (b - 128) as u64, p))
            },
            Err(e) => Err(e),
        }
    }
}

/// Takes a 16-bit integer.
pub fn decode_u16(data: &[u8], pos: usize) -> (r: Result<(u16, usize), DecodeError>)
    requires
        pos <= data@.len(),
    ensures
        match r {
            Ok((v, p)) => pos < p <= data@.len() && take_u16(data@.skip(pos as int)) == Ok::<
                (nat, Seq<u8>),
                DecodeError,
            >((v as nat, data@.skip(p as int))),
            Err(e) => take_u16(data@.skip(pos as int)) == Err::<(nat, Seq<u8>), DecodeError>(e),
        },
{
    proof {
        lemma_caps();
        lemma_take_varint_cap(data@.skip(pos as int), 3, 3);
    }
    match decode_varint(data, pos, 3, 3) {
        Ok((v, p)) => Ok((v as u16, p)),
        Err(e) => Err(e),
    }
}

/// Takes a 32-bit integer.
pub fn decode_u32(data: &[u8], pos: usize) -> (r: Result<(u32, usize), DecodeError>)
    requires
        pos <= data@.len(),
    ensures
        match r {
            Ok((v, p)) => pos < p <= data@.len() && take_u32(data@.skip(pos as int)) == Ok::<
                (nat, Seq<u8>),
                DecodeError,
            >((v as nat, data@.skip(p as int))),
            Err(e) => take_u32(data@.skip(pos as int)) == Err::<(nat, Seq<u8>), DecodeError>(e),
        },
{
    proof {
        lemma_caps();
        lemma_take_varint_cap(data@.skip(pos as int), 5, 15);
    }
    match decode_varint(data, pos, 5, 15) {
        Ok((v, p)) => Ok((v as u32, p)),
        Err(e) => Err(e),
    }
}

/// Takes a 64-bit integer.
pub fn decode_u64(data: &[u8], pos: usize) -> (r: Result<(u64, usize), DecodeError>)
    requires
        pos <= data@.len(),
    ensures
        match r {
            Ok((v, p)) => pos < p <= data@.len() && take_u64(data@.skip(pos as int)) == Ok::<
                (nat, Seq<u8>),
                DecodeError,
            >((v as nat, data@.skip(p as int))),
            Err(e) => take_u64(data@.skip(pos as int)) == Err::<(nat, Seq<u8>), DecodeError>(e),
        },
{
    proof {
        lemma_caps();
    }
    decode_varint(data, pos, 10, 1)
}

// ---------------------------------------------------------------------------
// Plain bytes
// ---------------------------------------------------------------------------
/// Takes `n` bytes.
pub open spec fn take_n(s: Seq<u8>, n: nat) -> Result<(Seq<u8>, Seq<u8>), DecodeError> {
    if s.len() < n {
        Err(DecodeError::UnexpectedEnd)
    } else {
        Ok((s.take(n as int), s.skip(n as int)))
    }
}

/// Plain bytes are read back, whatever follows.
pub proof fn plain_round_trip(b: Seq<u8>, rest: Seq<u8>)
    ensures
        take_n(b + rest, b.len()) == Ok::<(Seq<u8>, Seq<u8>), DecodeError>((b, rest)),
{
    assert((b + rest).take(b.len() as int) =~= b);
    assert((b + rest).skip(b.len() as int) =~= rest);
}

/// Takes `n` bytes.
pub fn decode_n(data: &[u8], pos: usize, n: usize) -> (r: Result<(&[u8], usize), DecodeError>)
    requires
        pos <= data@.len(),
    ensures
        match r {
            Ok((b, p)) => p == pos + n && p <= data@.len() && b@ == data@.subrange(
                pos as int,
                p as int,
            ) && take_n(data@.skip(pos as int), n as nat) == Ok::<
                (Seq<u8>, Seq<u8>),
                DecodeError,
            >((b@, data@.skip(p as int))),
            Err(e) => take_n(data@.skip(pos as int), n as nat) == Err::<
                (Seq<u8>, Seq<u8>),
                DecodeError,
            >(e),
        },
{
    if data.len() - pos < n {
        return Err(DecodeError::UnexpectedEnd);
    }
    let b: &[u8] = sub_bytes(data, pos, pos + n);
    assert(b@ =~= data@.skip(pos as int).take(n as int));
    assert(data@.skip(pos as int).skip(n as int) =~= data@.skip(pos + n));
    Ok((b, pos + n))
}

/// Takes one byte.
pub open spec fn take_u8(s: Seq<u8>) -> Result<(u8, Seq<u8>), DecodeError> {
    if s.len() == 0 {
        Err(DecodeError::UnexpectedEnd)
    } else {
        Ok((s[0], s.skip(1)))
    }
}

/// Takes one byte.
pub fn decode_u8(data: &[u8], pos: usize) -> (r: Result<(u8, usize), DecodeError>)
    requires
        pos <= data@.len(),
    ensures
        match r {
            Ok((b, p)) => p == pos + 1 && p <= data@.len() && take_u8(data@.skip(pos as int))
                == Ok::<(u8, Seq<u8>), DecodeError>((b, data@.skip(p as int))),
            Err(e) => take_u8(data@.skip(pos as int)) == Err::<(u8, Seq<u8>), DecodeError>(e),
        },
{
    if pos == data.len() {
        return Err(DecodeError::UnexpectedEnd);
    }
    assert(data@.skip(pos as int).skip(1) =~= data@.skip(pos + 1));
    Ok((data[pos], pos + 1))
}

/// One byte is read back, whatever follows.
pub proof fn u8_round_trip(b: u8, rest: Seq<u8>)
    ensures
        take_u8(seq![b] + rest) == Ok::<(u8, Seq<u8>), DecodeError>((b, rest)),
{
    assert((seq![b] + rest).skip(1) =~= rest);
}

// ---------------------------------------------------------------------------
// Length-prefixed bytes and text
// ---------------------------------------------------------------------------
/// Bytes after their number.
pub open spec fn blob_bytes(b: Seq<u8>) -> Seq<u8> {
    varint_bytes(b.len()) + b
}

/// Takes a number and so many bytes.
#[verifier::opaque]
pub open spec fn take_blob(s: Seq<u8>) -> Result<(Seq<u8>, Seq<u8>), DecodeError> {
    match take_u64(s) {
        Ok((n, rest)) => take_n(rest, n),
        Err(e) => Err(e),
    }
}

/// Length-prefixed bytes are read back, whatever follows.
pub proof fn blob_round_trip(b: Seq<u8>, rest: Seq<u8>)
    requires
        b.len() <= u64::MAX,
    ensures
        take_blob(blob_bytes(b) + rest) == Ok::<(Seq<u8>, Seq<u8>), DecodeError>((b, rest)),
{
    reveal(take_blob);
    u64_round_trip(b.len() as u64, b + rest);
    assert(blob_bytes(b) + rest =~= varint_bytes(b.len()) + (b + rest));
    plain_round_trip(b, rest);
}

/// Appends bytes after their number.
pub fn encode_blob(buf: &mut Vec<u8>, b: &[u8])
    ensures
        final(buf)@ == old(buf)@ + blob_bytes(b@),
{
    let ghost before = buf@;
    encode_varint(buf, b.len() as u64);
    push_bytes(buf, b);
    assert(buf@ =~= before + blob_bytes(b@));
}

/// Takes a number and so many bytes.
pub fn decode_blob(data: &[u8], pos: usize) -> (r: Result<(Vec<u8>, usize), DecodeError>)
    requires
        pos <= data@.len(),
    ensures
        match r {
            Ok((b, p)) => pos < p <= data@.len() && take_blob(data@.skip(pos as int)) == Ok::<
                (Seq<u8>, Seq<u8>),
                DecodeError,
            >((b@, data@.skip(p as int))),
            Err(e) => take_blob(data@.skip(pos as int)) == Err::<(Seq<u8>, Seq<u8>), DecodeError>(
                e,
            ),
        },
{
    proof {
        reveal(take_blob);
    }
    match decode_u64(data, pos) {
        Ok((n, p)) => {
            if n > (data.len() - p) as u64 {
                return Err(DecodeError::UnexpectedEnd);
            }
            match decode_n(data, p, n as usize) {
                Ok((b, q)) => Ok((copy_bytes(b), q)),
                Err(e) => Err(e),
            }
        },
        Err(e) => Err(e),
    }
}

/// Takes length-prefixed text, which must be UTF-8.
#[verifier::opaque]
pub open spec fn take_text(s: Seq<u8>) -> Result<(Seq<char>, Seq<u8>), DecodeError> {
    match take_blob(s) {
        Ok((b, rest)) => if vstd::utf8::valid_utf8(b) {
            Ok((vstd::utf8::decode_utf8(b), rest))
        } else {
            Err(DecodeError::BadUtf8)
        },
        Err(e) => Err(e),
    }
}

/// Text is read back, whatever follows.
pub proof fn text_round_trip(t: Seq<char>, rest: Seq<u8>)
    requires
        vstd::utf8::encode_utf8(t).len() <= u64::MAX,
    ensures
        take_text(blob_bytes(vstd::utf8::encode_utf8(t)) + rest) == Ok::<
            (Seq<char>, Seq<u8>),
            DecodeError,
        >((t, rest)),
{
    reveal(take_text);
    blob_round_trip(vstd::utf8::encode_utf8(t), rest);
    vstd::utf8::encode_utf8_valid_utf8(t);
    vstd::utf8::encode_utf8_decode_utf8(t);
}

/// Takes length-prefixed text.
pub fn decode_text(data: &[u8], pos: usize) -> (r: Result<(String, usize), DecodeError>)
    requires
        pos <= data@.len(),
    ensures
        match r {
            Ok((t, p)) => pos < p <= data@.len() && take_text(data@.skip(pos as int)) == Ok::<
                (Seq<char>, Seq<u8>),
                DecodeError,
            >((t@, data@.skip(p as int))),
            Err(e) => take_text(data@.skip(pos as int)) == Err::<
                (Seq<char>, Seq<u8>),
                DecodeError,
            >(e),
        },
{
    proof {
        reveal(take_text);
    }
    match decode_blob(data, pos) {
        Ok((b, p)) => match String::from_utf8(b) {
            Ok(t) => {
                proof {
                    vstd::utf8::encode_utf8_decode_utf8(t@);
                }
                Ok((t, p))
            },
            Err(_) => Err(DecodeError::BadUtf8),
        },
        Err(e) => Err(e),
    }
}

// ---------------------------------------------------------------------------
// Peer ids
// ---------------------------------------------------------------------------
/// Takes a peer id.
pub open spec fn take_peer(s: Seq<u8>) -> Result<(Seq<u8>, Seq<u8>), DecodeError> {
    take_n(s, 32)
}

/// Takes a peer id.
pub fn decode_peer(data: &[u8], pos: usize) -> (r: Result<(PeerId, usize), DecodeError>)
    requires
        pos <= data@.len(),
    ensures
        match r {
            Ok((id, p)) => pos < p <= data@.len() && take_peer(data@.skip(pos as int)) == Ok::<
                (Seq<u8>, Seq<u8>),
                DecodeError,
            >((id@, data@.skip(p as int))),
            Err(e) => take_peer(data@.skip(pos as int)) == Err::<(Seq<u8>, Seq<u8>), DecodeError>(
                e,
            ),
        },
{
    match decode_n(data, pos, 32) {
        Ok((b, p)) => {
            let id: PeerId = PeerId::from_bytes(array_32(b, 0));
            assert(id@ =~= b@);
            Ok((id, p))
        },
        Err(e) => Err(e),
    }
}

// ---------------------------------------------------------------------------
// Addresses
// ---------------------------------------------------------------------------
/// A family tag, the octets and the port.
#[verifier::opaque]
pub open spec fn addr_bytes(a: SocketAddr) -> Seq<u8> {
    match a {
        SocketAddr::V4 { ip, port } => varint_bytes(0) + ip.bytes() + varint_bytes(port as nat),
        SocketAddr::V6 { ip, port, .. } => varint_bytes(1) + ip.bytes() + varint_bytes(
            port as nat,
        ),
    }
}

/// What of a socket address is put on the wire: all but the flow label and the
/// scope of an IPv6 address.
pub open spec fn on_wire(a: SocketAddr) -> SocketAddr {
    match a {
        SocketAddr::V4 { ip, port } => a,
        SocketAddr::V6 { ip, port, .. } => SocketAddr::V6 { ip, port, flowinfo: 0, scope_id: 0 },
    }
}

/// Takes an IPv4 address.
#[verifier::opaque]
pub open spec fn take_ipv4(s: Seq<u8>) -> Result<(Ipv4Addr, Seq<u8>), DecodeError> {
    match take_n(s, 4) {
        Ok((b, rest)) => Ok((Ipv4Addr { a: b[0], b: b[1], c: b[2], d: b[3] }, rest)),
        Err(e) => Err(e),
    }
}

/// Takes a socket address.
#[verifier::opaque]
pub open spec fn take_addr(s: Seq<u8>) -> Result<(SocketAddr, Seq<u8>), DecodeError> {
    match take_u32(s) {
        Ok((tag, rest)) => if tag == 0 {
            match take_ipv4(rest) {
                Ok((ip, rest)) => match take_u16(rest) {
                    Ok((port, rest)) => Ok((SocketAddr::V4 { ip, port: port as u16 }, rest)),
                    Err(e) => Err(e),
                },
                Err(e) => Err(e),
            }
        } else if tag == 1 {
            match take_n(rest, 16) {
                Ok((b, rest)) => match take_u16(rest) {
                    Ok((port, rest)) => Ok(
                        (
                            SocketAddr::V6 {
                                ip: Ipv6Addr::of_bytes(b),
                                port: port as u16,
                                flowinfo: 0,
                                scope_id: 0,
                            },
                            rest,
                        ),
                    ),
                    Err(e) => Err(e),
                },
                Err(e) => Err(e),
            }
        } else {
            Err(DecodeError::BadVariant)
        },
        Err(e) => Err(e),
    }
}

/// An IPv4 address is read back, whatever follows.
pub proof fn ipv4_round_trip(ip: Ipv4Addr, rest: Seq<u8>)
    ensures
        take_ipv4(ip.bytes() + rest) == Ok::<(Ipv4Addr, Seq<u8>), DecodeError>((ip, rest)),
{
    reveal(take_ipv4);
    plain_round_trip(ip.bytes(), rest);
}

/// A socket address is read back as far as it is on the wire, whatever follows.
pub proof fn addr_round_trip(a: SocketAddr, rest: Seq<u8>)
    ensures
        take_addr(addr_bytes(a) + rest) == Ok::<(SocketAddr, Seq<u8>), DecodeError>(
            (on_wire(a), rest),
        ),
{
    reveal(take_addr);
    reveal(addr_bytes);
    match a {
        SocketAddr::V4 { ip, port } => {
            let tail = varint_bytes(port as nat) + rest;
            assert(addr_bytes(a) + rest =~= varint_bytes(0) + (ip.bytes() + tail));
            u32_round_trip(0, ip.bytes() + tail);
            ipv4_round_trip(ip, tail);
            u16_round_trip(port, rest);
        },
        SocketAddr::V6 { ip, port, flowinfo, scope_id } => {
            let tail = varint_bytes(port as nat) + rest;
            assert(addr_bytes(a) + rest =~= varint_bytes(1) + (ip.bytes() + tail));
            u32_round_trip(1, ip.bytes() + tail);
            plain_round_trip(ip.bytes(), tail);
            u16_round_trip(port, rest);
            crate::net::ipv6_octets_round_trip(ip);
        },
    }
}

/// Appends an IPv4 address.
pub fn encode_ipv4(buf: &mut Vec<u8>, ip: &Ipv4Addr)
    ensures
        final(buf)@ == old(buf)@ + ip.bytes(),
{
    let ghost before = buf@;
    buf.push(ip.a);
    buf.push(ip.b);
    buf.push(ip.c);
    buf.push(ip.d);
    assert(buf@ =~= before + ip.bytes());
}

/// Appends a socket address.
pub fn encode_addr(buf: &mut Vec<u8>, a: &SocketAddr)
    ensures
        final(buf)@ == old(buf)@ + addr_bytes(*a),
{
    proof {
        reveal(addr_bytes);
    }
    let ghost before = buf@;
    match a {
        SocketAddr::V4 { ip, port } => {
            encode_varint(buf, 0);
            encode_ipv4(buf, ip);
            encode_varint(buf, *port as u64);
        },
        SocketAddr::V6 { ip, port, .. } => {
            encode_varint(buf, 1);
            let octets: [u8; 16] = ip.octets();
            push_bytes(buf, octets.as_slice());
            encode_varint(buf, *port as u64);
        },
    }
    assert(buf@ =~= before + addr_bytes(*a));
}

/// Takes an IPv4 address.
pub fn decode_ipv4(data: &[u8], pos: usize) -> (r: Result<(Ipv4Addr, usize), DecodeError>)
    requires
        pos <= data@.len(),
    ensures
        match r {
            Ok((ip, p)) => pos < p <= data@.len() && take_ipv4(data@.skip(pos as int)) == Ok::<
                (Ipv4Addr, Seq<u8>),
                DecodeError,
            >((ip, data@.skip(p as int))),
            Err(e) => take_ipv4(data@.skip(pos as int)) == Err::<(Ipv4Addr, Seq<u8>), DecodeError>(
                e,
            ),
        },
{
    proof {
        reveal(take_ipv4);
    }
    match decode_n(data, pos, 4) {
        Ok((b, p)) => Ok((Ipv4Addr { a: b[0], b: b[1], c: b[2], d: b[3] }, p)),
        Err(e) => Err(e),
    }
}

/// Takes a socket address.
pub fn decode_addr(data: &[u8], pos: usize) -> (r: Result<(SocketAddr, usize), DecodeError>)
    requires
        pos <= data@.len(),
    ensures
        match r {
            Ok((a, p)) => pos < p <= data@.len() && take_addr(data@.skip(pos as int)) == Ok::<
                (SocketAddr, Seq<u8>),
                DecodeError,
            >((a, data@.skip(p as int))),
            Err(e) => take_addr(data@.skip(pos as int)) == Err::<
                (SocketAddr, Seq<u8>),
                DecodeError,
            >(e),
        },
{
    proof {
        reveal(take_addr);
    }
    match decode_u32(data, pos) {
        Ok((tag, p)) => if tag == 0 {
            match decode_ipv4(data, p) {
                Ok((ip, p)) => match decode_u16(data, p) {
                    Ok((port, p)) => Ok((SocketAddr::V4 { ip, port }, p)),
                    Err(e) => Err(e),
                },
                Err(e) => Err(e),
            }
        } else if tag == 1 {
            match decode_n(data, p, 16) {
                Ok((b, p)) => {
                    let octets: [u8; 16] = array_16(b, 0);
                    assert(octets@ =~= b@);
                    match decode_u16(data, p) {
                        Ok((port, p)) => Ok(
                            (
                                SocketAddr::V6 {
                                    ip: Ipv6Addr::from_octets(&octets),
                                    port,
                                    flowinfo: 0,
                                    scope_id: 0,
                                },
                                p,
                            ),
                        ),
                        Err(e) => Err(e),
                    }
                },
                Err(e) => Err(e),
            }
        } else {
            Err(DecodeError::BadVariant)
        },
        Err(e) => Err(e),
    }
}

// ---------------------------------------------------------------------------
// Optional values
// ---------------------------------------------------------------------------
/// Takes the tag of an optional value: whether a value follows.
pub open spec fn take_tag(s: Seq<u8>) -> Result<(bool, Seq<u8>), DecodeError> {
    match take_u8(s) {
        Ok((b, rest)) => if b == 0 {
            Ok((false, rest))
        } else if b == 1 {
            Ok((true, rest))
        } else {
            Err(DecodeError::BadOption)
        },
        Err(e) => Err(e),
    }
}

/// Takes the tag of an optional value.
pub fn decode_tag(data: &[u8], pos: usize) -> (r: Result<(bool, usize), DecodeError>)
    requires
        pos <= data@.len(),
    ensures
        match r {
            Ok((some, p)) => pos < p <= data@.len() && take_tag(data@.skip(pos as int)) == Ok::<
                (bool, Seq<u8>),
                DecodeError,
            >((some, data@.skip(p as int))),
            Err(e) => take_tag(data@.skip(pos as int)) == Err::<(bool, Seq<u8>), DecodeError>(e),
        },
{
    match decode_u8(data, pos) {
        Ok((b, p)) => if b == 0 {
            Ok((false, p))
        } else if b == 1 {
            Ok((true, p))
        } else {
            Err(DecodeError::BadOption)
        },
        Err(e) => Err(e),
    }
}


/// The number that groups of seven bits stand for, the least significant first.
pub open spec fn groups_value(s: Seq<u8>) -> nat
    decreases s.len(),
{
    if s.len() == 0 {
        0
    } else {
        (s[0] % 128) as nat + 128 * groups_value(s.skip(1))
    }
}

/// A number is written in groups of seven bits, the least significant first; each byte
/// but the last says by its high bit that another follows, and no group is wasted.
pub proof fn numbers_are_written_in_groups(v: nat)
    ensures
        groups_value(varint_bytes(v)) == v,
        varint_bytes(v).len() > 0,
        varint_bytes(v).last() < 128,
        v > 0 ==> varint_bytes(v).last() > 0,
        forall|i: int| 0 <= i < varint_bytes(v).len() - 1 ==> #[trigger] varint_bytes(v)[i] >= 128,
    decreases v,
{
    let s = varint_bytes(v);
    if v < 128 {
        assert(s.skip(1) =~= Seq::<u8>::empty());
        assert(groups_value(s.skip(1)) == 0);
        assert(s[0] == v);
    } else {
        let rest = varint_bytes(v / 128);
        numbers_are_written_in_groups(v / 128);
        assert(s.skip(1) =~= rest);
        assert(s[0] == v % 128 + 128);
        assert(s[0] % 128 == v % 128);
        assert(s.last() == rest.last());
        assert forall|i: int| 0 <= i < s.len() - 1 implies #[trigger] s[i] >= 128 by {
            if i > 0 {
                assert(s[i] == rest[i - 1]);
            }
        }
    }
}

/// A socket address is written as its family, zero for version 4 and one for version 6,
/// its octets in order and its port.
pub proof fn addresses_are_written_family_first(a: SocketAddr)
    ensures
        a matches SocketAddr::V4 { ip, port } ==> addr_bytes(a) == seq![0u8, ip.a, ip.b, ip.c, ip.d]
            + varint_bytes(port as nat),
        a matches SocketAddr::V6 { ip, port, .. } ==> addr_bytes(a) == seq![1u8] + ip.bytes()
            + varint_bytes(port as nat),
{
    reveal(addr_bytes);
    assert(varint_bytes(0) =~= seq![0u8]);
    assert(varint_bytes(1) =~= seq![1u8]);
    if let SocketAddr::V4 { ip, port } = a {
        assert(addr_bytes(a) =~= seq![0u8, ip.a, ip.b, ip.c, ip.d] + varint_bytes(port as nat));
    }
}
} // verus!
