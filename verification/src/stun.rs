//! STUN binding requests and responses (RFC 5389).
use crate::net::{Ipv4Addr, SocketAddr};
use crate::text::{join_be16, join_be32, push_be16, push_be32, push_bytes, push_text};
use vstd::prelude::*;

verus! {

/// The magic cookie of STUN messages.
pub const STUN_MAGIC: u32 = 0x2112_A442;

/// The upper half of the magic cookie.
pub const STUN_MAGIC_HIGH: u16 = 0x2112;

/// Message type of a binding request.
pub const BINDING_REQUEST: u16 = 0x0001;

/// Attribute with the address masked by the magic cookie.
pub const ATTR_XOR_MAPPED_ADDRESS: u16 = 0x0020;

/// Attribute with the plain address.
pub const ATTR_MAPPED_ADDRESS: u16 = 0x0001;

/// Transaction of every request, the bytes of `seednet-stun`.
pub const STUN_TRANSACTION: [u8; 12] = [
    115,
    101,
    101,
    100,
    110,
    101,
    116,
    45,
    115,
    116,
    117,
    110,
];

/// Seconds to wait for a response.
pub const STUN_TIMEOUT_SECS: u64 = 3;

/// Why no public address was found.
#[derive(Debug, PartialEq, Eq)]
pub enum StunError {
    Io(String),
    Timeout,
    BadResponse(&'static str),
    Resolve(String),
}

impl StunError {
    /// The message for a reader.
    pub open spec fn text(&self) -> Seq<char> {
        match self {
            StunError::Io(e) => "STUN I/O: "@ + e@,
            StunError::Timeout => "STUN timeout"@,
            StunError::BadResponse(r) => "STUN bad response: "@ + r@,
            StunError::Resolve(r) => "STUN resolve: "@ + r@,
        }
    }

    /// Gives the message for a reader.
    pub fn to_text(&self) -> (s: String)
        ensures
            s@ == self.text(),
    {
        let mut s: String = String::new();
        match self {
            StunError::Io(e) => {
                push_text(&mut s, "STUN I/O: ");
                push_text(&mut s, e.as_str());
            },
            StunError::Timeout => {
                push_text(&mut s, "STUN timeout");
            },
            StunError::BadResponse(r) => {
                push_text(&mut s, "STUN bad response: ");
                push_text(&mut s, r);
            },
            StunError::Resolve(r) => {
                push_text(&mut s, "STUN resolve: ");
                push_text(&mut s, r.as_str());
            },
        }
        assert(s@ =~= self.text());
        s
    }
}

// ---------------------------------------------------------------------------
// Request
// ---------------------------------------------------------------------------
/// A binding request without attributes.
pub open spec fn binding_request_bytes() -> Seq<u8> {
    crate::text::be16_bytes(BINDING_REQUEST) + crate::text::be16_bytes(0)
        + crate::text::be32_bytes(STUN_MAGIC) + STUN_TRANSACTION@
}

/// Gives a binding request.
pub fn binding_request() -> (r: Vec<u8>)
    ensures
        r@ == binding_request_bytes(),
        r@.len() == 20,
{
    let mut r: Vec<u8> = Vec::new();
    push_be16(&mut r, BINDING_REQUEST);
    push_be16(&mut r, 0);
    push_be32(&mut r, STUN_MAGIC);
    push_bytes(&mut r, STUN_TRANSACTION.as_slice());
    assert(r@ =~= binding_request_bytes());
    r
}

// ---------------------------------------------------------------------------
// Response
// ---------------------------------------------------------------------------
/// Whether a packet is long enough for a STUN header and carries the magic cookie.
pub open spec fn looks_like_stun(buf: Seq<u8>) -> bool {
    buf.len() >= 20 && crate::text::be32(buf[4], buf[5], buf[6], buf[7]) == STUN_MAGIC
}

/// Tests whether a packet looks like a STUN message.
pub fn is_stun_packet(buf: &[u8]) -> (r: bool)
    ensures
        r == looks_like_stun(buf@),
{
    buf.len() >= 20 && join_be32(buf[4], buf[5], buf[6], buf[7]) == STUN_MAGIC
}

/// The number at two bytes.
pub open spec fn word_at(buf: Seq<u8>, at: int) -> u16 {
    crate::text::be16(buf[at], buf[at + 1])
}

/// The number at four bytes.
pub open spec fn long_at(buf: Seq<u8>, at: int) -> u32 {
    crate::text::be32(buf[at], buf[at + 1], buf[at + 2], buf[at + 3])
}

/// The address in an attribute value, if the attribute is of a kind that holds an
/// IPv4 address.
pub open spec fn attribute_addr(kind: u16, buf: Seq<u8>, at: int, len: int) -> Option<SocketAddr> {
    if len < 8 || buf[at + 1] != 1 {
        None
    } else if kind == ATTR_XOR_MAPPED_ADDRESS {
        Some(
            SocketAddr::V4 {
                ip: Ipv4Addr::of_number(long_at(buf, at + 4) ^ STUN_MAGIC),
                port: word_at(buf, at + 2) ^ STUN_MAGIC_HIGH,
            },
        )
    } else if kind == ATTR_MAPPED_ADDRESS {
        Some(
            SocketAddr::V4 {
                ip: Ipv4Addr::of_number(long_at(buf, at + 4)),
                port: word_at(buf, at + 2),
            },
        )
    } else {
        None
    }
}

/// The first address among the attributes from a position on. Each attribute is
/// a kind, a length and a value that is padded to a multiple of four bytes; one
/// that is cut off ends the search.
pub open spec fn mapped_addr(buf: Seq<u8>, pos: int) -> Option<SocketAddr>
    decreases buf.len() + 4 - pos,
{
    if pos < 0 || pos + 4 > buf.len() {
        None
    } else {
        let len = word_at(buf, pos + 2) as int;
        if pos + 4 + len > buf.len() {
            None
        } else {
            match attribute_addr(word_at(buf, pos), buf, pos + 4, len) {
                Some(a) => Some(a),
                None => mapped_addr(buf, pos + 4 + (len + 3) / 4 * 4),
            }
        }
    }
}

/// Reads the public address out of a response.
pub fn parse_stun_response(buf: &[u8]) -> (r: Result<SocketAddr, StunError>)
    ensures
        match r {
            Ok(a) => buf@.len() >= 20 && mapped_addr(buf@, 20) == Some(a),
            Err(StunError::BadResponse(m)) => if buf@.len() < 20 {
                m@ == "response too short"@
            } else {
                mapped_addr(buf@, 20) is None && m@ == "no MAPPED-ADDRESS attribute found"@
            },
            Err(_) => false,
        },
{
    if buf.len() < 20 {
        return Err(StunError::BadResponse("response too short"));
    }
    let mut pos: usize = 20;
    while pos <= buf.len() && buf.len() - pos >= 4
        invariant
            20 <= buf.len(),
            mapped_addr(buf@, 20) == mapped_addr(buf@, pos as int),
        ensures
            mapped_addr(buf@, 20) is None,
        decreases buf.len() + 4 - pos,
    {
        let kind: u16 = join_be16(buf[pos], buf[pos + 1]);
        let len: usize = join_be16(buf[pos + 2], buf[pos + 3]) as usize;
        let at: usize = pos + 4;
        if len > buf.len() - at {
            break;
        }
        if kind == ATTR_XOR_MAPPED_ADDRESS && len >= 8 && buf[at + 1] == 1 {
            let port: u16 = join_be16(buf[at + 2], buf[at + 3]) ^ STUN_MAGIC_HIGH;
            let ip: u32 = join_be32(buf[at + 4], buf[at + 5], buf[at + 6], buf[at + 7])
                ^ STUN_MAGIC;
            return Ok(SocketAddr::v4(Ipv4Addr::from_number(ip), port));
        } else if kind == ATTR_MAPPED_ADDRESS && len >= 8 && buf[at + 1] == 1 {
            let port: u16 = join_be16(buf[at + 2], buf[at + 3]);
            let ip: u32 = join_be32(buf[at + 4], buf[at + 5], buf[at + 6], buf[at + 7]);
            return Ok(SocketAddr::v4(Ipv4Addr::from_number(ip), port));
        }
        let padding: usize = (4 - len % 4) % 4;
        let rest: usize = buf.len() - at - len;
        if padding > rest {
            assert(mapped_addr(buf@, at + (len + 3) / 4 * 4) is None);
            break;
        }
        assert((len + 3) / 4 * 4 == len + padding);
        pos = at + len + padding;
    }
    Err(StunError::BadResponse("no MAPPED-ADDRESS attribute found"))
}

// ---------------------------------------------------------------------------
// Asking several servers
// ---------------------------------------------------------------------------
/// The first IPv4 address among those that a server's name stands for.
pub fn first_ipv4(addrs: &[SocketAddr]) -> (r: Option<SocketAddr>)
    ensures
        match r {
            Some(a) => exists|i: int|
                0 <= i < addrs@.len() && #[trigger] addrs@[i] == a && a is V4 && forall|j: int|
                    0 <= j < i ==> !(#[trigger] addrs@[j] is V4),
            None => forall|j: int| 0 <= j < addrs@.len() ==> !(#[trigger] addrs@[j] is V4),
        },
{
    let mut i: usize = 0;
    while i < addrs.len()
        invariant
            i <= addrs@.len(),
            forall|j: int| 0 <= j < i ==> !(#[trigger] addrs@[j] is V4),
        decreases addrs.len() - i,
    {
        match addrs[i] {
            SocketAddr::V4 { .. } => return Some(addrs[i]),
            SocketAddr::V6 { .. } => {},
        }
        i = i + 1;
    }
    None
}

/// The error for a server name that stands for no IPv4 address.
pub fn no_address_error(host: &str) -> (e: StunError)
    ensures
        e matches StunError::Resolve(m) && m@ == "no A record for "@ + host@,
{
    let mut m: String = String::new();
    push_text(&mut m, "no A record for ");
    push_text(&mut m, host);
    assert(m@ =~= "no A record for "@ + host@);
    StunError::Resolve(m)
}

/// Asking servers in turn until one answers.
pub struct StunSearch {
    next: usize,
    last: StunError,
}

impl StunSearch {
    /// How many servers have failed.
    pub closed spec fn failures(&self) -> nat {
        self.next as nat
    }

    /// The last failure.
    pub closed spec fn last_error(&self) -> StunError {
        self.last
    }

    /// A search that has not begun.
    pub fn new() -> (r: StunSearch)
        ensures
            r.failures() == 0,
            r.last_error() matches StunError::BadResponse(m) && m@ == "no servers"@,
    {
        StunSearch { next: 0, last: StunError::BadResponse("no servers") }
    }

    /// The server to ask now, if one is left.
    pub fn server<'a>(&self, servers: &'a [&'a str]) -> (r: Option<&'a str>)
        ensures
            match r {
                Some(s) => self.failures() < servers@.len() && s@
                    == servers@[self.failures() as int]@,
                None => self.failures() >= servers@.len(),
            },
    {
        if self.next < servers.len() {
            Some(servers[self.next])
        } else {
            None
        }
    }

    /// Notes that the server asked last failed.
    pub fn failed(&mut self, e: StunError)
        requires
            old(self).failures() < usize::MAX,
        ensures
            final(self).failures() == old(self).failures() + 1,
            final(self).last_error() == e,
    {
        self.next = self.next + 1;
        self.last = e;
    }

    /// The error to give when no server is left.
    pub fn into_error(self) -> (e: StunError)
        ensures
            e == self.last_error(),
    {
        self.last
    }
}

// ---------------------------------------------------------------------------
// Laws
// ---------------------------------------------------------------------------
/// The response that a server gives to a client at an IPv4 address.
pub open spec fn response_for(ip: Ipv4Addr, port: u16) -> Seq<u8> {
    seq![1u8, 1u8] + crate::text::be16_bytes(12) + crate::text::be32_bytes(STUN_MAGIC)
        + STUN_TRANSACTION@ + crate::text::be16_bytes(ATTR_XOR_MAPPED_ADDRESS)
        + crate::text::be16_bytes(8) + seq![0u8, 1u8] + crate::text::be16_bytes(
        port ^ STUN_MAGIC_HIGH,
    ) + crate::text::be32_bytes(ip.number() ^ STUN_MAGIC)
}

/// A response with a masked address gives back the address.
pub proof fn response_round_trip(ip: Ipv4Addr, port: u16)
    ensures
        looks_like_stun(response_for(ip, port)),
        mapped_addr(response_for(ip, port), 20) == Some(SocketAddr::V4 { ip, port }),
{
    let r = response_for(ip, port);
    let n = ip.number();
    let xp = port ^ STUN_MAGIC_HIGH;
    let xi = n ^ STUN_MAGIC;
    assert(crate::text::be32_bytes(STUN_MAGIC) =~= r.subrange(4, 8));
    assert(crate::text::be16_bytes(ATTR_XOR_MAPPED_ADDRESS) =~= r.subrange(20, 22));
    assert(crate::text::be16_bytes(8) =~= r.subrange(22, 24));
    assert(r[25] == 1);
    assert(crate::text::be16_bytes(xp) =~= r.subrange(26, 28));
    assert(crate::text::be32_bytes(xi) =~= r.subrange(28, 32));
    crate::text::be32_round_trip(STUN_MAGIC);
    crate::text::be16_round_trip(ATTR_XOR_MAPPED_ADDRESS);
    crate::text::be16_round_trip(8);
    crate::text::be16_round_trip(xp);
    crate::text::be32_round_trip(xi);
    assert((port ^ 0x2112u16) ^ 0x2112u16 == port) by (bit_vector);
    assert((n ^ 0x2112_A442u32) ^ 0x2112_A442u32 == n) by (bit_vector);
    crate::net::ipv4_number_round_trip(ip);
    assert(r.subrange(4, 8)[0] == r[4] && r.subrange(4, 8)[1] == r[5] && r.subrange(4, 8)[2] == r[6]
        && r.subrange(4, 8)[3] == r[7]);
    assert(r.subrange(20, 22)[0] == r[20] && r.subrange(20, 22)[1] == r[21]);
    assert(r.subrange(22, 24)[0] == r[22] && r.subrange(22, 24)[1] == r[23]);
    assert(r.subrange(26, 28)[0] == r[26] && r.subrange(26, 28)[1] == r[27]);
    assert(r.subrange(28, 32)[0] == r[28] && r.subrange(28, 32)[1] == r[29] && r.subrange(28, 32)[2]
        == r[30] && r.subrange(28, 32)[3] == r[31]);
    assert(mapped_addr(r, 20) == attribute_addr(word_at(r, 20), r, 24, 8));
}

/// A whole attribute: its kind, its length, its value, and what pads the value to a
/// multiple of four bytes.
pub open spec fn attribute(kind: u16, value: Seq<u8>, padding: Seq<u8>) -> Seq<u8> {
    crate::text::be16_bytes(kind) + crate::text::be16_bytes(value.len() as u16) + value + padding
}

/// Whether a value can stand in an attribute with a padding.
pub open spec fn is_padded(value: Seq<u8>, padding: Seq<u8>) -> bool {
    &&& value.len() <= 65535
    &&& padding.len() < 4
    &&& (value.len() + padding.len()) % 4 == 0
}

proof fn lemma_shift(a: Seq<u8>, i: int, b: Seq<u8>, j: int)
    requires
        0 <= i <= a.len(),
        0 <= j <= b.len(),
        a.skip(i) == b.skip(j),
    ensures
        mapped_addr(a, i) == mapped_addr(b, j),
    decreases a.len() - i,
{
    let n = a.len() - i;
    assert(a.skip(i).len() == n && b.skip(j).len() == n);
    assert forall|k: int| 0 <= k < n implies #[trigger] a[i + k] == b[j + k] by {
        assert(a.skip(i)[k] == a[i + k]);
        assert(b.skip(j)[k] == b[j + k]);
    }
    if n >= 4 {
        assert(a[i + 0] == b[j + 0] && a[i + 1] == b[j + 1]);
        assert(a[i + 2] == b[j + 2] && a[i + 3] == b[j + 3]);
        let len = word_at(a, i + 2) as int;
        assert(len == word_at(b, j + 2));
        if 4 + len <= n {
            if len >= 8 {
                assert(a[i + 5] == b[j + 5] && a[i + 6] == b[j + 6] && a[i + 7] == b[j + 7]);
                assert(a[i + 8] == b[j + 8] && a[i + 9] == b[j + 9]);
                assert(a[i + 10] == b[j + 10] && a[i + 11] == b[j + 11]);
            }
            assert(attribute_addr(word_at(a, i), a, i + 4, len) == attribute_addr(
                word_at(b, j),
                b,
                j + 4,
                len,
            ));
            let step = 4 + (len + 3) / 4 * 4;
            if step <= n {
                assert(a.skip(i + step) =~= b.skip(j + step)) by {
                    assert forall|k: int| 0 <= k < n - step implies #[trigger] a.skip(
                        i + step,
                    )[k] == b.skip(j + step)[k] by {
                        assert(a[i + (step + k)] == b[j + (step + k)]);
                    }
                }
                lemma_shift(a, i + step, b, j + step);
            }
        }
    }
}

proof fn lemma_attribute_head(head: Seq<u8>, kind: u16, value: Seq<u8>, padding: Seq<u8>, rest: Seq<u8>)
    requires
        is_padded(value, padding),
    ensures
        ({
            let buf = head + attribute(kind, value, padding) + rest;
            let at = head.len() as int;
            &&& buf.len() == at + 4 + value.len() + padding.len() + rest.len()
            &&& word_at(buf, at) == kind
            &&& word_at(buf, at + 2) == value.len()
            &&& forall|k: int| 0 <= k < value.len() ==> buf[at + 4 + k] == #[trigger] value[k]
            &&& buf.skip(at + 4 + value.len() + padding.len()) == rest
            &&& (value.len() + 3) / 4 * 4 == value.len() + padding.len()
        }),
{
    let attr = attribute(kind, value, padding);
    let buf = head + attr + rest;
    let at = head.len() as int;
    let n = value.len() as u16;
    crate::text::be16_round_trip(kind);
    crate::text::be16_round_trip(n);
    let k = crate::text::be16_bytes(kind);
    let l = crate::text::be16_bytes(n);
    assert(attr[0] == k[0] && attr[1] == k[1] && attr[2] == l[0] && attr[3] == l[1]);
    assert(buf[at] == attr[0] && buf[at + 1] == attr[1]);
    assert(buf[at + 2] == attr[2] && buf[at + 3] == attr[3]);
    assert forall|i: int| 0 <= i < value.len() implies buf[at + 4 + i] == #[trigger] value[i] by {
        assert(attr[4 + i] == value[i]);
        assert(buf[at + (4 + i)] == attr[4 + i]);
    }
    assert(buf.skip(at + 4 + value.len() + padding.len()) =~= rest);
}

/// An attribute that holds no mapped address is passed over, with its padding: in front
/// of other attributes it makes no difference to the address that is read. That holds of
/// every kind but the two that hold an address, and of those when the address is not an
/// IPv4 one or is cut short.
pub proof fn other_attributes_are_passed_over(
    head: Seq<u8>,
    kind: u16,
    value: Seq<u8>,
    padding: Seq<u8>,
    rest: Seq<u8>,
)
    requires
        head.len() == 20,
        is_padded(value, padding),
        (kind != 0x0001 && kind != 0x0020) || value.len() < 8 || value[1] != 1,
    ensures
        mapped_addr(head + attribute(kind, value, padding) + rest, 20) == mapped_addr(
            head + rest,
            20,
        ),
{
    let buf = head + attribute(kind, value, padding) + rest;
    lemma_attribute_head(head, kind, value, padding, rest);
    assert(forall|k: int| 0 <= k < value.len() ==> buf[24 + k] == #[trigger] value[k]);
    if value.len() >= 8 {
        assert(buf[24 + 1int] == value[1]);
        assert(buf[25] == value[1]);
    }
    let next: int = 24int + value.len() + padding.len();
    assert(attribute_addr(kind, buf, 24, value.len() as int) is None);
    assert((head + rest).skip(20) =~= rest);
    lemma_shift(buf, next, head + rest, 20);
}

/// The first attribute with an IPv4 address decides, whatever follows it: the plain one
/// holds the port and the address as they are, the other one under the mask of the magic
/// cookie.
pub proof fn the_first_address_is_read(
    head: Seq<u8>,
    masked: bool,
    ip: Ipv4Addr,
    port: u16,
    more: Seq<u8>,
    padding: Seq<u8>,
    rest: Seq<u8>,
)
    requires
        head.len() == 20,
        is_padded(address_value(masked, ip, port) + more, padding),
    ensures
        mapped_addr(
            head + attribute(
                if masked {
                    0x0020u16
                } else {
                    0x0001u16
                },
                address_value(masked, ip, port) + more,
                padding,
            ) + rest,
            20,
        ) == Some(SocketAddr::V4 { ip, port }),
{
    let kind = if masked {
        0x0020u16
    } else {
        0x0001u16
    };
    let fixed = address_value(masked, ip, port);
    let value = fixed + more;
    let buf = head + attribute(kind, value, padding) + rest;
    lemma_attribute_head(head, kind, value, padding, rest);
    let n = ip.number();
    let xp = if masked {
        port ^ 0x2112u16
    } else {
        port
    };
    let xi = if masked {
        n ^ 0x2112_A442u32
    } else {
        n
    };
    let p = crate::text::be16_bytes(xp);
    let i = crate::text::be32_bytes(xi);
    assert(fixed.len() == 8);
    assert(value[1] == 1);
    assert(value[2] == p[0] && value[3] == p[1]);
    assert(value[4] == i[0] && value[5] == i[1] && value[6] == i[2] && value[7] == i[3]);
    assert(buf[25] == value[1]);
    assert(buf[26] == value[2] && buf[27] == value[3]);
    assert(buf[28] == value[4] && buf[29] == value[5]);
    assert(buf[30] == value[6] && buf[31] == value[7]);
    crate::text::be16_round_trip(xp);
    crate::text::be32_round_trip(xi);
    assert((port ^ 0x2112u16) ^ 0x2112u16 == port) by (bit_vector);
    assert((n ^ 0x2112_A442u32) ^ 0x2112_A442u32 == n) by (bit_vector);
    crate::net::ipv4_number_round_trip(ip);
}

/// What an attribute holds for an IPv4 address and a port: a zero, the family, and the
/// two numbers, most significant byte first, perhaps masked by the magic cookie.
pub open spec fn address_value(masked: bool, ip: Ipv4Addr, port: u16) -> Seq<u8> {
    seq![0u8, 1u8] + crate::text::be16_bytes(
        if masked {
            port ^ 0x2112u16
        } else {
            port
        },
    ) + crate::text::be32_bytes(
        if masked {
            ip.number() ^ 0x2112_A442u32
        } else {
            ip.number()
        },
    )
}

/// Several attributes without an address, each with its kind, value and padding.
pub open spec fn attributes(list: Seq<(u16, Seq<u8>, Seq<u8>)>) -> Seq<u8>
    decreases list.len(),
{
    if list.len() == 0 {
        Seq::empty()
    } else {
        attribute(list[0].0, list[0].1, list[0].2) + attributes(list.skip(1))
    }
}

/// However many other attributes stand before it, a masked address is read.
pub proof fn an_address_is_found_behind_others(
    head: Seq<u8>,
    list: Seq<(u16, Seq<u8>, Seq<u8>)>,
    ip: Ipv4Addr,
    port: u16,
    rest: Seq<u8>,
)
    requires
        head.len() == 20,
        forall|i: int|
            0 <= i < list.len() ==> {
                let a = #[trigger] list[i];
                is_padded(a.1, a.2) && a.0 != 0x0001 && a.0 != 0x0020
            },
    ensures
        mapped_addr(
            head + attributes(list) + (attribute(
                0x0020,
                address_value(true, ip, port),
                Seq::empty(),
            ) + rest),
            20,
        ) == Some(SocketAddr::V4 { ip, port }),
    decreases list.len(),
{
    let last = attribute(0x0020, address_value(true, ip, port), Seq::empty());
    if list.len() == 0 {
        let value = address_value(true, ip, port);
        assert(value + Seq::<u8>::empty() =~= value);
        assert(value.len() == 8);
        the_first_address_is_read(head, true, ip, port, Seq::empty(), Seq::empty(), rest);
        assert(head + attributes(list) + (last + rest) =~= head + last + rest);
    } else {
        let a = list[0];
        let tail = attributes(list.skip(1)) + (last + rest);
        assert forall|i: int| 0 <= i < list.skip(1).len() implies ({
            let b = #[trigger] list.skip(1)[i];
            is_padded(b.1, b.2) && b.0 != 0x0001 && b.0 != 0x0020
        }) by {
            assert(list.skip(1)[i] == list[i + 1]);
        }
        an_address_is_found_behind_others(head, list.skip(1), ip, port, rest);
        assert(is_padded(a.1, a.2));
        other_attributes_are_passed_over(head, a.0, a.1, a.2, tail);
        assert(head + attributes(list) + (last + rest) =~= head + attribute(a.0, a.1, a.2) + tail);
        assert(head + attributes(list.skip(1)) + (last + rest) =~= head + tail);
    }
}

/// A response whose attributes end before an address gives none: nothing is read out of
/// an attribute that is cut off.
pub proof fn a_cut_attribute_gives_nothing(head: Seq<u8>, rest: Seq<u8>)
    requires
        head.len() == 20,
        rest.len() < 4 || rest.len() < 4 + crate::text::be16(rest[2], rest[3]),
    ensures
        mapped_addr(head + rest, 20) is None,
{
    let buf = head + rest;
    if rest.len() >= 4 {
        assert(buf[22] == rest[2] && buf[23] == rest[3]);
    }
}


/// A request is twenty bytes: the type one, no attributes, the magic number that marks the
/// protocol, and the twelve bytes of the transaction; it is told from other packets by
/// these.
pub proof fn a_request_is_twenty_bytes()
    ensures
        ({
            let r = binding_request_bytes();
            &&& r.len() == 20
            &&& r[0] == 0 && r[1] == 1
            &&& r[2] == 0 && r[3] == 0
            &&& r[4] == 0x21 && r[5] == 0x12 && r[6] == 0xA4 && r[7] == 0x42
            &&& r.skip(8) == STUN_TRANSACTION@
        }),
{
    let r = binding_request_bytes();
    crate::text::most_significant_byte_stands_first(0, 0, 0, 0, BINDING_REQUEST, STUN_MAGIC);
    assert(STUN_TRANSACTION@.len() == 12);
    assert(r.skip(8) =~= STUN_TRANSACTION@);
}
} // verus!
