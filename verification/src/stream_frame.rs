//! Frames on byte streams, built in buffers of the `bytes` crate.
use crate::frame::len_u32;
use crate::text::{join_be32, push_be32, sub_bytes};
use bytes::{BufMut, BytesMut};
use vstd::prelude::*;

verus! {

// ---------------------------------------------------------------------------
// What is trusted of `bytes`
// ---------------------------------------------------------------------------
/// A growable buffer of the `bytes` crate.
#[verifier::external_type_specification]
#[verifier::external_body]
pub struct ExBytesMut(bytes::BytesMut);

/// What a buffer holds.
pub uninterp spec fn buffered(buf: BytesMut) -> Seq<u8>;

/// `BytesMut::with_capacity`: an empty buffer.
#[verifier::external_body]
fn buffer_with_room(n: usize) -> (buf: BytesMut)
    requires
        n <= isize::MAX,
    ensures
        buffered(buf).len() == 0,
{
    BytesMut::with_capacity(n)
}

/// `BufMut::put_u32` appends four bytes, big-endian. The buffer must be able to
/// grow.
#[verifier::external_body]
fn put_number(buf: &mut BytesMut, n: u32)
    requires
        buffered(*old(buf)).len() + 4 <= isize::MAX / 2,
    ensures
        buffered(*final(buf)) == buffered(*old(buf)) + crate::text::be32_bytes(n),
{
    buf.put_u32(n);
}

/// `BufMut::put_slice` appends bytes. The buffer must be able to grow.
#[verifier::external_body]
fn put_bytes(buf: &mut BytesMut, bytes: &[u8])
    requires
        buffered(*old(buf)).len() + bytes@.len() <= isize::MAX / 2,
    ensures
        buffered(*final(buf)) == buffered(*old(buf)) + bytes@,
{
    buf.put_slice(bytes);
}

/// The contents of a buffer as a vector.
#[verifier::external_body]
fn buffer_to_vec(buf: &BytesMut) -> (v: Vec<u8>)
    ensures
        v@ == buffered(*buf),
{
    buf.to_vec()
}

// ---------------------------------------------------------------------------
// Frames
// ---------------------------------------------------------------------------
/// Longest payload that is read from a stream.
pub const MAX_FRAME: u32 = 65536;

/// Appends a frame to a buffer.
pub fn encode(payload: &[u8], buf: &mut BytesMut)
    requires
        buffered(*old(buf)).len() + 4 + payload@.len() <= isize::MAX / 2,
    ensures
        buffered(*final(buf)) == buffered(*old(buf)) + crate::frame::frame_bytes(payload@),
{
    put_number(buf, len_u32(payload));
    put_bytes(buf, payload);
    assert(buffered(*buf) =~= buffered(*old(buf)) + crate::frame::frame_bytes(payload@));
}

/// Puts a payload into a frame.
pub fn encode_frame(payload: &[u8]) -> (r: Vec<u8>)
    requires
        4 + payload@.len() <= isize::MAX / 2,
    ensures
        r@ == crate::frame::frame_bytes(payload@),
{
    let mut buf: BytesMut = buffer_with_room(4 + payload.len());
    encode(payload, &mut buf);
    let r: Vec<u8> = buffer_to_vec(&buf);
    assert(r@ =~= crate::frame::frame_bytes(payload@));
    r
}

/// Takes the payload out of a frame, if it is complete.
pub fn decode_frame(buf: &[u8]) -> (r: Option<&[u8]>)
    ensures
        match r {
            Some(p) => crate::frame::unframed(buf@) == Some(p@),
            None => crate::frame::unframed(buf@) is None,
        },
{
    if buf.len() < 4 {
        return None;
    }
    let len: u32 = join_be32(buf[0], buf[1], buf[2], buf[3]);
    let rest: usize = buf.len() - 4;
    if (rest as u64) < (len as u64) {
        return None;
    }
    Some(sub_bytes(buf, 4, 4 + len as usize))
}

/// The room that the payload of a frame on a stream needs, by its header.
pub fn payload_room(len: u32) -> (r: Result<usize, &'static str>)
    ensures
        match r {
            Ok(n) => n == len && len <= 65536,
            Err(m) => len > 65536 && m@ == "frame too large"@,
        },
{
    if len > MAX_FRAME {
        Err("frame too large")
    } else {
        Ok(len as usize)
    }
}

/// The header of the frame for a payload.
pub fn frame_header(payload: &[u8]) -> (h: Vec<u8>)
    ensures
        h@ == crate::frame::header_bytes(payload@.len()),
        h@.len() == 4,
{
    let mut h: Vec<u8> = Vec::new();
    push_be32(&mut h, len_u32(payload));
    assert(h@ =~= crate::frame::header_bytes(payload@.len()));
    h
}

/// What of a frame is left to write when so many bytes of it are written: a part
/// of the header, then a part of the payload.
pub fn left_to_write<'a>(header: &'a [u8], payload: &'a [u8], written: usize) -> (r: (
    &'a [u8],
    &'a [u8],
))
    requires
        header@.len() == 4,
        written <= 4 + payload@.len(),
    ensures
        r.0@ + r.1@ == (header@ + payload@).skip(written as int),
        r.0@.len() == (if written < 4 {
            4 - written
        } else {
            0
        }),
{
    let (head, from) = if written < 4 {
        (written, 0usize)
    } else {
        (4usize, written - 4)
    };
    let r = (sub_bytes(header, head, 4), sub_bytes(payload, from, payload.len()));
    assert(r.0@ + r.1@ =~= (header@ + payload@).skip(written as int));
    r
}

} // verus!
