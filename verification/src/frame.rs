//! Messages with a length before them: four bytes, big-endian, then the payload.
use crate::error::Error;
use crate::text::{join_be32, push_be32, push_bytes, push_dec, push_text, sub_bytes};
use vstd::prelude::*;

verus! {

/// Length of the header.
pub const HEADER_LEN: usize = 4;

/// The header for a payload of so many bytes; lengths that four bytes cannot hold
/// are cut off.
pub open spec fn header_bytes(len: nat) -> Seq<u8> {
    crate::text::be32_bytes((len % 0x1_0000_0000) as u32)
}

/// A frame.
pub open spec fn frame_bytes(payload: Seq<u8>) -> Seq<u8> {
    header_bytes(payload.len()) + payload
}

/// The length that a header gives.
pub open spec fn framed_len(data: Seq<u8>) -> nat {
    crate::text::be32(data[0], data[1], data[2], data[3]) as nat
}

/// The payload of the frame that data begins with, if it is complete.
pub open spec fn unframed(data: Seq<u8>) -> Option<Seq<u8>> {
    if data.len() < 4 || data.len() < 4 + framed_len(data) {
        None
    } else {
        Some(data.subrange(4, 4 + framed_len(data) as int))
    }
}

/// The length of a slice, as far as four bytes can hold it.
pub fn len_u32(payload: &[u8]) -> (n: u32)
    ensures
        n == payload@.len() % 0x1_0000_0000,
{
    let len: u64 = payload.len() as u64;
    (len % 0x1_0000_0000) as u32
}

/// Puts a payload into a frame.
pub fn encode_frame(payload: &[u8]) -> (buf: Vec<u8>)
    ensures
        buf@ == frame_bytes(payload@),
{
    let mut buf: Vec<u8> = Vec::new();
    push_be32(&mut buf, len_u32(payload));
    push_bytes(&mut buf, payload);
    assert(buf@ =~= frame_bytes(payload@));
    buf
}

/// The error for data that is no complete frame.
pub open spec fn frame_error(data: Seq<u8>, e: Error) -> bool {
    e matches Error::NoiseTransport(m) && m@ == (if data.len() < 4 {
        "frame too short: "@ + crate::text::dec_text(data.len()) + " bytes"@
    } else {
        "frame truncated: expected "@ + crate::text::dec_text(framed_len(data))
            + " payload bytes, got "@ + crate::text::dec_text((data.len() - 4) as nat)
    })
}

/// Takes the payload out of a frame. What follows the frame is ignored.
pub fn decode_frame(data: &[u8]) -> (r: Result<&[u8], Error>)
    ensures
        match r {
            Ok(p) => unframed(data@) == Some(p@),
            Err(e) => unframed(data@) is None && frame_error(data@, e),
        },
{
    if data.len() < HEADER_LEN {
        let mut m: String = "frame too short: ".to_owned();
        push_dec(&mut m, data.len() as u64);
        push_text(&mut m, " bytes");
        return Err(Error::NoiseTransport(m));
    }
    let len: u32 = join_be32(data[0], data[1], data[2], data[3]);
    let rest: usize = data.len() - HEADER_LEN;
    if (rest as u64) < (len as u64) {
        let mut m: String = "frame truncated: expected ".to_owned();
        push_dec(&mut m, len as u64);
        push_text(&mut m, " payload bytes, got ");
        push_dec(&mut m, rest as u64);
        return Err(Error::NoiseTransport(m));
    }
    let end: usize = HEADER_LEN + len as usize;
    Ok(sub_bytes(data, HEADER_LEN, end))
}

/// How much longer than its payload a frame is.
pub fn frame_overhead() -> (n: usize)
    ensures
        n == HEADER_LEN,
        forall|p: Seq<u8>| #[trigger] frame_bytes(p).len() == p.len() + n,
{
    HEADER_LEN
}

/// A payload whose length four bytes can hold comes out of its frame unchanged,
/// whatever follows the frame.
pub proof fn frame_round_trip(payload: Seq<u8>, rest: Seq<u8>)
    requires
        payload.len() < 0x1_0000_0000,
    ensures
        unframed(frame_bytes(payload) + rest) == Some(payload),
        unframed(frame_bytes(payload)) == Some(payload),
{
    let n = payload.len() as u32;
    let data = frame_bytes(payload) + rest;
    crate::text::be32_round_trip(n);
    let h = crate::text::be32_bytes(n);
    assert(data[0] == h[0] && data[1] == h[1] && data[2] == h[2] && data[3] == h[3]);
    assert(data.subrange(4, 4 + payload.len() as int) =~= payload);
    let own = frame_bytes(payload);
    assert(own[0] == h[0] && own[1] == h[1] && own[2] == h[2] && own[3] == h[3]);
    assert(own.subrange(4, 4 + payload.len() as int) =~= payload);
}

/// A frame that is cut short is refused.
pub proof fn cut_frame_is_refused(payload: Seq<u8>, n: int)
    requires
        payload.len() < 0x1_0000_0000,
        0 <= n < frame_bytes(payload).len(),
    ensures
        unframed(frame_bytes(payload).take(n)) is None,
{
    let len = payload.len() as u32;
    let h = crate::text::be32_bytes(len);
    let cut = frame_bytes(payload).take(n);
    crate::text::be32_round_trip(len);
    if n >= 4 {
        assert(cut[0] == h[0] && cut[1] == h[1] && cut[2] == h[2] && cut[3] == h[3]);
    }
}


/// A frame begins with the length of its payload in four bytes, the most significant
/// first, and the payload follows whole.
pub proof fn the_length_stands_first(payload: Seq<u8>)
    requires
        payload.len() < 0x1_0000_0000,
    ensures
        ({
            let f = frame_bytes(payload);
            &&& f.len() == 4 + payload.len()
            &&& 16777216 * f[0] + 65536 * f[1] + 256 * f[2] + f[3] == payload.len()
            &&& f.skip(4) == payload
        }),
{
    let n = (payload.len() % 0x1_0000_0000) as u32;
    crate::text::most_significant_byte_stands_first(0, 0, 0, 0, 0, n);
    assert(frame_bytes(payload).skip(4) =~= payload);
}

/// What stands behind a whole frame is left alone: only so many bytes as the first four
/// say are taken, and with fewer there is no payload.
pub proof fn the_length_decides(data: Seq<u8>)
    requires
        data.len() >= 4,
    ensures
        ({
            let n = 16777216 * data[0] + 65536 * data[1] + 256 * data[2] + data[3];
            match unframed(data) {
                Some(p) => 4 + n <= data.len() && p.len() == n && data.take(4) + p + data.skip(
                    4 + n,
                ) == data,
                None => data.len() < 4 + n,
            }
        }),
{
    crate::text::most_significant_byte_stands_first(data[0], data[1], data[2], data[3], 0, 0);
    let n = 16777216 * data[0] + 65536 * data[1] + 256 * data[2] + data[3];
    if let Some(p) = unframed(data) {
        assert(data.take(4) + p + data.skip(4 + n) =~= data);
    }
}
} // verus!
