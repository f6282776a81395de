//! BitTorrent trackers: requests, responses, and the peers in them.
use crate::net::{parse_ipv4, Ipv4Addr, SocketAddr};
use crate::text::{
    chars_of, join_be16, join_be32, push_be16, push_be32, push_bytes, push_dec, push_text,
    push_zeros, starts_with, string_of, sub_chars,
};
use vstd::prelude::*;

verus! {

/// `rand::random` for a number. Nothing is claimed of what comes.
#[verifier::external_body]
fn random_u32() -> u32 {
    rand::random::<u32>()
}

// ---------------------------------------------------------------------------
// Which protocol
// ---------------------------------------------------------------------------
/// How a tracker is asked.
#[derive(Clone, Copy, Debug, PartialEq, Eq, Structural)]
pub enum TrackerKind {
    Http,
    Udp,
    Unsupported,
}

/// How a tracker is asked, by its URL.
pub open spec fn kind_of_url(url: Seq<char>) -> TrackerKind {
    if "http://"@.is_prefix_of(url) || "https://"@.is_prefix_of(url) {
        TrackerKind::Http
    } else if "udp://"@.is_prefix_of(url) {
        TrackerKind::Udp
    } else {
        TrackerKind::Unsupported
    }
}

/// Tells how a tracker is asked.
pub fn tracker_kind(url: &str) -> (r: TrackerKind)
    ensures
        r == kind_of_url(url@),
{
    let chars: Vec<char> = chars_of(url);
    if starts_with(chars.as_slice(), "http://") || starts_with(chars.as_slice(), "https://") {
        TrackerKind::Http
    } else if starts_with(chars.as_slice(), "udp://") {
        TrackerKind::Udp
    } else {
        TrackerKind::Unsupported
    }
}

// ---------------------------------------------------------------------------
// Compact peer lists
// ---------------------------------------------------------------------------
/// The address in six bytes: four of IP address, two of port.
pub open spec fn compact_addr(data: Seq<u8>, at: int) -> SocketAddr {
    SocketAddr::V4 {
        ip: Ipv4Addr { a: data[at], b: data[at + 1], c: data[at + 2], d: data[at + 3] },
        port: crate::text::be16(data[at + 4], data[at + 5]),
    }
}

/// The addresses in a compact list, six bytes each; what is left over is ignored.
pub open spec fn compact_addrs(data: Seq<u8>) -> Seq<SocketAddr> {
    Seq::new((data.len() / 6) as nat, |i: int| compact_addr(data, 6 * i))
}

/// Reads a compact list.
pub fn compact_to_addrs(data: &[u8]) -> (r: Vec<SocketAddr>)
    ensures
        r@ == compact_addrs(data@),
{
    let n: usize = data.len() / 6;
    let mut r: Vec<SocketAddr> = Vec::new();
    let mut i: usize = 0;
    while i < n
        invariant
            i <= n,
            n == data.len() / 6,
            r@ == compact_addrs(data@).take(i as int),
        decreases n - i,
    {
        assert(6 * i + 6 <= data.len());
        let at: usize = 6 * i;
        let ip: Ipv4Addr = Ipv4Addr::new(data[at], data[at + 1], data[at + 2], data[at + 3]);
        r.push(SocketAddr::v4(ip, join_be16(data[at + 4], data[at + 5])));
        i = i + 1;
        assert(r@ =~= compact_addrs(data@).take(i as int));
    }
    assert(r@ =~= compact_addrs(data@));
    r
}

/// An address as six bytes.
pub open spec fn compact_bytes(ip: Ipv4Addr, port: u16) -> Seq<u8> {
    ip.bytes() + crate::text::be16_bytes(port)
}

/// An address that is put at the end of a compact list of whole entries is the
/// last address read from it, and the others stay.
pub proof fn compact_list_grows(data: Seq<u8>, ip: Ipv4Addr, port: u16)
    requires
        data.len() % 6 == 0,
    ensures
        compact_addrs(data + compact_bytes(ip, port)) == compact_addrs(data).push(
            SocketAddr::V4 { ip, port },
        ),
{
    let b = compact_bytes(ip, port);
    let all = data + b;
    let p = crate::text::be16_bytes(port);
    crate::text::be16_round_trip(port);
    assert(b.len() == 6);
    assert(b[0] == ip.a && b[1] == ip.b && b[2] == ip.c && b[3] == ip.d && b[4] == p[0] && b[5]
        == p[1]);
    assert forall|i: int| 0 <= i < data.len() / 6 implies compact_addrs(all)[i]
        == #[trigger] compact_addrs(data)[i] by {
        assert(6 * i + 5 < data.len());
    }
    let n = data.len() as int;
    assert(6 * (n / 6) == n);
    assert(all[n] == b[0] && all[n + 1] == b[1] && all[n + 2] == b[2] && all[n + 3] == b[3] && all[n
        + 4] == b[4] && all[n + 5] == b[5]);
    assert(compact_addrs(all) =~= compact_addrs(data).push(SocketAddr::V4 { ip, port }));
}

// ---------------------------------------------------------------------------
// HTTP
// ---------------------------------------------------------------------------
/// Whether a byte stands for itself in a URL.
pub open spec fn is_unreserved(b: u8) -> bool {
    (48 <= b <= 57) || (65 <= b <= 90) || (97 <= b <= 122) || b == 45 || b == 95 || b == 46 || b
        == 126
}

/// The upper-case hexadecimal digit of a number below sixteen.
pub open spec fn upper_hex_digit(n: int) -> char {
    if n < 10 {
        (48 + n) as char
    } else {
        (55 + n) as char
    }
}

/// A byte in a URL: itself, or a percent sign and two hexadecimal digits.
pub open spec fn encoded_byte(b: u8) -> Seq<char> {
    if is_unreserved(b) {
        seq![b as char]
    } else {
        seq!['%', upper_hex_digit(b as int / 16), upper_hex_digit(b as int % 16)]
    }
}

/// Bytes in a URL.
pub open spec fn percent_encoded(data: Seq<u8>) -> Seq<char>
    decreases data.len(),
{
    if data.len() == 0 {
        Seq::empty()
    } else {
        percent_encoded(data.drop_last()) + encoded_byte(data.last())
    }
}

fn upper_hex_char(n: u8) -> (c: char)
    requires
        n < 16,
    ensures
        c == upper_hex_digit(n as int),
{
    if n < 10 {
        (48u8 + n) as char
    } else {
        (55u8 + n) as char
    }
}

/// Encodes bytes for the query of a URL.
pub fn percent_encode(data: &[u8]) -> (s: String)
    ensures
        s@ == percent_encoded(data@),
{
    let mut s: String = String::new();
    let mut i: usize = 0;
    assert(s@ =~= percent_encoded(data@.take(0)));
    while i < data.len()
        invariant
            i <= data@.len(),
            s@ == percent_encoded(data@.take(i as int)),
        decreases data.len() - i,
    {
        let b: u8 = data[i];
        let ghost before = s@;
        if (48 <= b && b <= 57) || (65 <= b && b <= 90) || (97 <= b && b <= 122) || b == 45 || b
            == 95 || b == 46 || b == 126 {
            s.push(b as char);
        } else {
            s.push('%');
            s.push(upper_hex_char(b / 16));
            s.push(upper_hex_char(b % 16));
        }
        assert(s@ =~= before + encoded_byte(b));
        i = i + 1;
        assert(data@.take(i as int).drop_last() =~= data@.take(i - 1));
    }
    assert(data@.take(i as int) =~= data@);
    s
}

/// The URL of an announcement.
pub open spec fn announce_url_text(
    url: Seq<char>,
    info_hash: Seq<u8>,
    peer_id: Seq<u8>,
    port: u16,
) -> Seq<char> {
    url + "?info_hash="@ + percent_encoded(info_hash) + "&peer_id="@ + percent_encoded(peer_id)
        + "&port="@ + crate::text::dec_text(port as nat)
        + "&uploaded=0&downloaded=0&left=0&compact=1&event=started&numwant=50"@
}

/// Gives the URL of an announcement.
pub fn announce_url(url: &str, info_hash: &[u8], peer_id: &[u8], port: u16) -> (s: String)
    ensures
        s@ == announce_url_text(url@, info_hash@, peer_id@, port),
{
    let mut s: String = url.to_owned();
    push_text(&mut s, "?info_hash=");
    push_text(&mut s, percent_encode(info_hash).as_str());
    push_text(&mut s, "&peer_id=");
    push_text(&mut s, percent_encode(peer_id).as_str());
    push_text(&mut s, "&port=");
    push_dec(&mut s, port as u64);
    push_text(&mut s, "&uploaded=0&downloaded=0&left=0&compact=1&event=started&numwant=50");
    s
}

/// A peer as a tracker may spell it out.
#[derive(Debug, PartialEq, Eq)]
pub struct HttpPeerDict {
    pub ip: String,
    pub port: u16,
}

/// The peers in a response.
#[derive(Debug, PartialEq, Eq)]
pub enum PeersField {
    Empty,
    Compact(Vec<u8>),
    Full(Vec<HttpPeerDict>),
}

/// A tracker's response.
#[derive(Debug, PartialEq, Eq)]
pub struct HttpTrackerResponse {
    pub peers: PeersField,
    pub failure_reason: String,
}

/// The addresses of peers that are spelled out with an IPv4 address.
pub open spec fn full_addrs(list: Seq<HttpPeerDict>) -> Seq<SocketAddr>
    decreases list.len(),
{
    if list.len() == 0 {
        Seq::empty()
    } else {
        let before = full_addrs(list.drop_last());
        match crate::net::ipv4_of(list.last().ip@) {
            Some(ip) => before.push(SocketAddr::V4 { ip, port: list.last().port }),
            None => before,
        }
    }
}

fn full_to_addrs(list: &Vec<HttpPeerDict>) -> (r: Vec<SocketAddr>)
    ensures
        r@ == full_addrs(list@),
{
    let mut r: Vec<SocketAddr> = Vec::new();
    let mut i: usize = 0;
    while i < list.len()
        invariant
            i <= list@.len(),
            r@ == full_addrs(list@.take(i as int)),
        decreases list.len() - i,
    {
        let chars: Vec<char> = chars_of(list[i].ip.as_str());
        if let Some(ip) = parse_ipv4(chars.as_slice()) {
            r.push(SocketAddr::v4(ip, list[i].port));
        }
        i = i + 1;
        assert(list@.take(i as int).drop_last() =~= list@.take(i - 1));
    }
    assert(list@.take(i as int) =~= list@);
    r
}

/// The peers in a response, or the reason that the tracker gives for failing.
pub fn response_addrs(resp: HttpTrackerResponse) -> (r: Result<Vec<SocketAddr>, String>)
    ensures
        match r {
            Ok(addrs) => resp.failure_reason@.len() == 0 && addrs@ == (match resp.peers {
                PeersField::Empty => Seq::empty(),
                PeersField::Compact(data) => compact_addrs(data@),
                PeersField::Full(list) => full_addrs(list@),
            }),
            Err(m) => resp.failure_reason@.len() > 0 && m@ == resp.failure_reason@,
        },
{
    if chars_of(resp.failure_reason.as_str()).len() > 0 {
        return Err(resp.failure_reason);
    }
    match resp.peers {
        PeersField::Empty => {
            let none: Vec<SocketAddr> = Vec::new();
            assert(none@ =~= Seq::empty());
            Ok(none)
        },
        PeersField::Compact(data) => Ok(compact_to_addrs(data.as_slice())),
        PeersField::Full(list) => Ok(full_to_addrs(&list)),
    }
}

// ---------------------------------------------------------------------------
// UDP
// ---------------------------------------------------------------------------
/// A text without the prefixes `udp://` that it begins with.
pub open spec fn without_scheme(url: Seq<char>) -> Seq<char>
    decreases url.len(),
{
    if url.len() >= 6 && "udp://"@.len() == 6 && "udp://"@.is_prefix_of(url) {
        without_scheme(url.skip(6))
    } else {
        url
    }
}

/// A text up to its first slash.
pub open spec fn up_to_slash(s: Seq<char>) -> Seq<char>
    decreases s.len(),
{
    if s.len() == 0 || s[0] == '/' {
        Seq::empty()
    } else {
        seq![s[0]] + up_to_slash(s.skip(1))
    }
}

proof fn lemma_up_to_slash(s: Seq<char>, n: int)
    requires
        0 <= n <= s.len(),
        forall|i: int| 0 <= i < n ==> s[i] != '/',
        n < s.len() ==> s[n] == '/',
    ensures
        up_to_slash(s) == s.take(n),
    decreases n,
{
    if n > 0 {
        assert forall|i: int| 0 <= i < n - 1 implies s.skip(1)[i] != '/' by {
            assert(s[i + 1] != '/');
        }
        lemma_up_to_slash(s.skip(1), n - 1);
        assert(seq![s[0]] + s.skip(1).take(n - 1) =~= s.take(n));
    } else {
        assert(s.take(0) =~= Seq::empty());
    }
}

/// Host and port of a UDP tracker: its URL without scheme and path.
pub fn udp_host_port(url: &str) -> (r: String)
    ensures
        r@ == up_to_slash(without_scheme(url@)),
{
    let chars: Vec<char> = chars_of(url);
    let n: usize = chars.len();
    let mut start: usize = 0;
    proof {
        reveal_strlit("udp://");
        assert(chars@.skip(0) =~= chars@);
    }
    while starts_with(sub_chars(chars.as_slice(), start, n), "udp://")
        invariant
            start <= n,
            n == chars@.len(),
            chars@ == url@,
            "udp://"@.len() == 6,
            without_scheme(url@) == without_scheme(chars@.skip(start as int)),
        ensures
            without_scheme(url@) == chars@.skip(start as int),
        decreases n - start,
    {
        assert(chars@.subrange(start as int, n as int) =~= chars@.skip(start as int));
        assert(chars@.skip(start as int).skip(6) =~= chars@.skip(start + 6));
        start = start + 6;
    }
    assert(chars@.subrange(start as int, n as int) =~= chars@.skip(start as int));
    let mut end: usize = start;
    while end < n && chars[end] != '/'
        invariant
            start <= end <= n,
            n == chars@.len(),
            forall|i: int| start <= i < end ==> chars@[i] != '/',
        decreases n - end,
    {
        end = end + 1;
    }
    proof {
        let s = chars@.skip(start as int);
        lemma_up_to_slash(s, end - start);
        assert(s.take(end - start) =~= chars@.subrange(start as int, end as int));
    }
    string_of(sub_chars(chars.as_slice(), start, end))
}

/// The request for a connection.
pub open spec fn connect_request_bytes(transaction: u32) -> Seq<u8> {
    crate::text::be32_bytes(0x0000_0417) + crate::text::be32_bytes(0x2710_1980)
        + crate::text::be32_bytes(0) + crate::text::be32_bytes(transaction)
}

/// Begins an exchange with a UDP tracker: a random transaction id, and the
/// request for a connection.
pub fn begin_exchange() -> (r: (u32, Vec<u8>))
    ensures
        r.1@ == connect_request_bytes(r.0),
{
    let transaction: u32 = random_u32();
    (transaction, connect_request(transaction))
}

/// Gives the request for a connection.
pub fn connect_request(transaction: u32) -> (r: Vec<u8>)
    ensures
        r@ == connect_request_bytes(transaction),
        r@.len() == 16,
{
    let mut r: Vec<u8> = Vec::new();
    push_be32(&mut r, 0x0000_0417);
    push_be32(&mut r, 0x2710_1980);
    push_be32(&mut r, 0);
    push_be32(&mut r, transaction);
    assert(r@ =~= connect_request_bytes(transaction));
    r
}

/// The number at four bytes.
pub open spec fn number_at(buf: Seq<u8>, at: int) -> u32 {
    crate::text::be32(buf[at], buf[at + 1], buf[at + 2], buf[at + 3])
}

/// Whether a packet is the response to a request for a connection.
pub open spec fn is_connect_response(buf: Seq<u8>, transaction: u32) -> bool {
    buf.len() >= 16 && number_at(buf, 0) == 0 && number_at(buf, 4) == transaction
}

/// Reads the connection id, eight bytes, out of a response.
pub fn read_connect_response(buf: &[u8], transaction: u32) -> (r: Result<Vec<u8>, &'static str>)
    ensures
        match r {
            Ok(id) => is_connect_response(buf@, transaction) && id@ == buf@.subrange(8, 16),
            Err(m) => !is_connect_response(buf@, transaction) && m@ == (if buf@.len() < 16 {
                "connect response too short"@
            } else {
                "invalid connect response"@
            }),
        },
{
    if buf.len() < 16 {
        return Err("connect response too short");
    }
    let action: u32 = join_be32(buf[0], buf[1], buf[2], buf[3]);
    let tid: u32 = join_be32(buf[4], buf[5], buf[6], buf[7]);
    if action != 0 || tid != transaction {
        return Err("invalid connect response");
    }
    Ok(crate::text::copy_bytes(crate::text::sub_bytes(buf, 8, 16)))
}

/// The request that announces us: connection, action, transaction, info-hash, our
/// id, twenty-four zero bytes of counters, the event that we started, eight zero
/// bytes of address and key, no limit on the number of peers, and our port.
pub open spec fn announce_request_bytes(
    connection: Seq<u8>,
    transaction: u32,
    info_hash: Seq<u8>,
    peer_id: Seq<u8>,
    port: u16,
) -> Seq<u8> {
    connection + crate::text::be32_bytes(1) + crate::text::be32_bytes(transaction) + info_hash
        + peer_id + Seq::new(24, |i: int| 0u8) + crate::text::be32_bytes(2) + Seq::new(
        8,
        |i: int| 0u8,
    ) + crate::text::be32_bytes(0xFFFF_FFFF) + crate::text::be16_bytes(port)
}

/// Gives the request that announces us.
pub fn announce_request(
    connection: &[u8],
    transaction: u32,
    info_hash: &[u8],
    peer_id: &[u8],
    port: u16,
) -> (r: Vec<u8>)
    requires
        connection@.len() == 8,
        info_hash@.len() == 20,
        peer_id@.len() == 20,
    ensures
        r@ == announce_request_bytes(connection@, transaction, info_hash@, peer_id@, port),
        r@.len() == 98,
{
    let mut r: Vec<u8> = crate::text::copy_bytes(connection);
    push_be32(&mut r, 1);
    push_be32(&mut r, transaction);
    push_bytes(&mut r, info_hash);
    push_bytes(&mut r, peer_id);
    push_zeros(&mut r, 24);
    push_be32(&mut r, 2);
    push_zeros(&mut r, 8);
    push_be32(&mut r, 0xFFFF_FFFF);
    push_be16(&mut r, port);
    r
}

/// Reads the peers out of the response to an announcement.
pub fn read_announce_response(buf: &[u8]) -> (r: Result<Vec<SocketAddr>, String>)
    ensures
        match r {
            Ok(addrs) => buf@.len() >= 20 && number_at(buf@, 0) == 1 && addrs@ == compact_addrs(
                buf@.skip(20),
            ),
            Err(m) => if buf@.len() < 20 {
                m@ == "announce response too short"@
            } else {
                number_at(buf@, 0) != 1 && m@ == "unexpected action "@ + crate::text::dec_text(
                    number_at(buf@, 0) as nat,
                )
            },
        },
{
    if buf.len() < 20 {
        return Err("announce response too short".to_owned());
    }
    let action: u32 = join_be32(buf[0], buf[1], buf[2], buf[3]);
    if action != 1 {
        let mut m: String = "unexpected action ".to_owned();
        push_dec(&mut m, action as u64);
        return Err(m);
    }
    let peers: &[u8] = crate::text::sub_bytes(buf, 20, buf.len());
    assert(peers@ =~= buf@.skip(20));
    Ok(compact_to_addrs(peers))
}

// ---------------------------------------------------------------------------
// Lists of addresses
// ---------------------------------------------------------------------------
/// A list extended by the addresses of another that are not in it yet, in order.
pub open spec fn merged(a: Seq<SocketAddr>, b: Seq<SocketAddr>) -> Seq<SocketAddr>
    decreases b.len(),
{
    if b.len() == 0 {
        a
    } else {
        let before = merged(a, b.drop_last());
        if before.contains(b.last()) {
            before
        } else {
            before.push(b.last())
        }
    }
}

fn has_addr(list: &Vec<SocketAddr>, a: &SocketAddr) -> (r: bool)
    ensures
        r == list@.contains(*a),
{
    let mut i: usize = 0;
    while i < list.len()
        invariant
            i <= list@.len(),
            forall|j: int| 0 <= j < i ==> list@[j] != *a,
        decreases list.len() - i,
    {
        if list[i] == *a {
            return true;
        }
        i = i + 1;
    }
    false
}

/// Extends a list by the addresses of another that are not in it yet.
pub fn merge_addrs(known: &mut Vec<SocketAddr>, found: &Vec<SocketAddr>)
    ensures
        final(known)@ == merged(old(known)@, found@),
{
    let mut i: usize = 0;
    while i < found.len()
        invariant
            i <= found@.len(),
            known@ == merged(old(known)@, found@.take(i as int)),
        decreases found.len() - i,
    {
        if !has_addr(known, &found[i]) {
            known.push(found[i]);
        }
        i = i + 1;
        assert(found@.take(i as int).drop_last() =~= found@.take(i - 1));
    }
    assert(found@.take(i as int) =~= found@);
}

/// Merging loses nothing and repeats nothing: every address of either list is in
/// the result, the first list stands at its beginning, and if that held no
/// address twice, neither does the result.
pub proof fn merging_keeps_all(a: Seq<SocketAddr>, b: Seq<SocketAddr>)
    ensures
        a.is_prefix_of(merged(a, b)),
        forall|x: SocketAddr| #[trigger]
            merged(a, b).contains(x) <==> (a.contains(x) || b.contains(x)),
        a.no_duplicates() ==> merged(a, b).no_duplicates(),
    decreases b.len(),
{
    if b.len() == 0 {
        assert(a =~= a.subrange(0, a.len() as int));
    } else {
        let before = merged(a, b.drop_last());
        merging_keeps_all(a, b.drop_last());
        let after = merged(a, b);
        assert(a =~= after.subrange(0, a.len() as int)) by {
            assert(a =~= before.subrange(0, a.len() as int));
        }
        assert forall|x: SocketAddr| #[trigger] after.contains(x) <==> (a.contains(x) || b.contains(
            x,
        )) by {
            if b.contains(x) {
                let i = b.index_of(x);
                if i < b.len() - 1 {
                    assert(b.drop_last()[i] == x);
                    assert(before.contains(x));
                }
            }
            if b.drop_last().contains(x) {
                let i = b.drop_last().index_of(x);
                assert(b[i] == x);
            }
            if before.contains(x) {
                let i = before.index_of(x);
                assert(after[i] == x);
            }
            if after.contains(x) {
                let i = after.index_of(x);
                if i < before.len() {
                    assert(before[i] == x);
                } else {
                    assert(b[b.len() - 1] == x);
                }
            }
            if x == b.last() && !before.contains(x) {
                assert(after[before.len() as int] == x);
            }
        }
        if a.no_duplicates() && !before.contains(b.last()) {
            assert forall|i: int, j: int|
                0 <= i < after.len() && 0 <= j < after.len() && i != j implies after[i]
                != after[j] by {
                if i < before.len() && j == before.len() {
                    assert(before.contains(before[i]));
                }
                if j < before.len() && i == before.len() {
                    assert(before.contains(before[j]));
                }
            }
        }
    }
}


/// A tracker is asked the way that its address begins with, and one that begins
/// otherwise is not asked.
pub proof fn the_scheme_names_the_kind(rest: Seq<char>, url: Seq<char>)
    ensures
        kind_of_url("http://"@ + rest) == TrackerKind::Http,
        kind_of_url("https://"@ + rest) == TrackerKind::Http,
        kind_of_url("udp://"@ + rest) == TrackerKind::Udp,
        kind_of_url(url) == TrackerKind::Http ==> url.len() >= 7 && url[0] == 'h',
        kind_of_url(url) == TrackerKind::Udp ==> url.len() >= 6 && url[0] == 'u',
{
    reveal_strlit("http://");
    reveal_strlit("https://");
    reveal_strlit("udp://");
    assert("http://"@.is_prefix_of("http://"@ + rest));
    assert("https://"@.is_prefix_of("https://"@ + rest));
    assert("udp://"@.is_prefix_of("udp://"@ + rest));
    let u = "udp://"@ + rest;
    assert(u[0] == 'u');
    if "http://"@.is_prefix_of(u) {
        assert("http://"@[0] == u[0]);
    }
    if "https://"@.is_prefix_of(u) {
        assert("https://"@[0] == u[0]);
    }
    if "http://"@.is_prefix_of(url) {
        assert("http://"@[0] == url[0]);
    }
    if "https://"@.is_prefix_of(url) {
        assert("https://"@[0] == url[0]);
    }
    if "udp://"@.is_prefix_of(url) {
        assert("udp://"@[0] == url[0]);
    }
}

/// Of a compact list, each six bytes are an address: four octets and a port with its
/// most significant byte first. Up to five bytes at the end are left over.
pub proof fn six_bytes_are_an_address(data: Seq<u8>, i: int)
    requires
        0 <= i,
        6 * i + 6 <= data.len(),
    ensures
        6 * compact_addrs(data).len() <= data.len() < 6 * compact_addrs(data).len() + 6,
        compact_addrs(data)[i] matches SocketAddr::V4 { ip, port } && ip.a == data[6 * i] && ip.b
            == data[6 * i + 1] && ip.c == data[6 * i + 2] && ip.d == data[6 * i + 3] && port == 256
            * data[6 * i + 4] + data[6 * i + 5],
{
    crate::text::most_significant_byte_stands_first(data[6 * i + 4], data[6 * i + 5], 0, 0, 0, 0);
}

/// Bytes are encoded one by one: letters, digits and the four marks `-`, `_`, `.` and `~`
/// as themselves, any other byte as a percent sign and its two digits in upper case, the
/// high one first.
pub proof fn bytes_are_encoded_one_by_one(a: Seq<u8>, b: u8, c: Seq<u8>)
    ensures
        percent_encoded(a + c) == percent_encoded(a) + percent_encoded(c),
        ({
            let (c, s) = (b as char, percent_encoded(seq![b]));
            if 'a' <= c <= 'z' || 'A' <= c <= 'Z' || '0' <= c <= '9' || c == '-' || c == '_' || c
                == '.' || c == '~' {
                s == seq![c]
            } else {
                &&& s.len() == 3
                &&& s[0] == '%'
                &&& ('0' <= s[1] <= '9' || 'A' <= s[1] <= 'F')
                &&& ('0' <= s[2] <= '9' || 'A' <= s[2] <= 'F')
                &&& crate::text::hex_value(s[1] as u8) matches Some(h) && crate::text::hex_value(
                    s[2] as u8,
                ) matches Some(l) && 16 * h + l == b
            }
        }),
        percent_encoded(Seq::empty()) == Seq::<char>::empty(),
    decreases c.len(),
{
    let one = seq![b];
    assert(one.drop_last() =~= Seq::<u8>::empty());
    assert(one.last() == b);
    assert(percent_encoded(one.drop_last()) =~= Seq::<char>::empty());
    assert(percent_encoded(one) =~= encoded_byte(b));
    if c.len() == 0 {
        assert(a + c =~= a);
        assert(percent_encoded(a + c) =~= percent_encoded(a) + percent_encoded(c));
    } else {
        bytes_are_encoded_one_by_one(a, b, c.drop_last());
        assert((a + c).drop_last() =~= a + c.drop_last());
        assert((a + c).last() == c.last());
        assert(percent_encoded(a + c) =~= percent_encoded(a) + percent_encoded(c));
    }
}

/// An announcement carries the hash, our id and our port, each as the value of its name,
/// behind the address of the tracker.
pub proof fn announcements_name_us(
    url: Seq<char>,
    info_hash: Seq<u8>,
    peer_id: Seq<u8>,
    port: u16,
)
    ensures
        ({
            let t = announce_url_text(url, info_hash, peer_id, port);
            &&& (url + "?info_hash="@ + percent_encoded(info_hash) + "&"@).is_prefix_of(t)
            &&& crate::words::holds(t, "&peer_id="@ + percent_encoded(peer_id) + "&"@)
            &&& crate::words::holds(
                t,
                "&port="@ + crate::text::dec_text(port as nat) + "&uploaded=0&"@,
            )
        }),
{
    let t = announce_url_text(url, info_hash, peer_id, port);
    let tail = "&uploaded=0&downloaded=0&left=0&compact=1&event=started&numwant=50"@;
    reveal_strlit("&uploaded=0&downloaded=0&left=0&compact=1&event=started&numwant=50");
    reveal_strlit("&uploaded=0&");
    reveal_strlit("&");
    reveal_strlit("&peer_id=");
    reveal_strlit("&port=");
    let head = url + "?info_hash="@ + percent_encoded(info_hash);
    let id = "&peer_id="@ + percent_encoded(peer_id);
    let at = "&port="@ + crate::text::dec_text(port as nat);
    assert(t =~= head + id + at + tail);
    assert(t.take(head.len() as int + 1) =~= head + "&"@);
    assert((head + "&"@).is_prefix_of(t));
    let (i, j) = (head.len() as int, (head.len() + id.len()) as int);
    assert(t.subrange(i, i + (id + "&"@).len()) =~= id + "&"@);
    assert(t.subrange(j, j + (at + "&uploaded=0&"@).len()) =~= at + "&uploaded=0&"@);
}

/// Peers that are listed one by one are read one by one: an entry that names an address
/// gives it with its port, and one that does not is left out without harm to the others.
pub proof fn listed_peers_are_read_one_by_one(a: Seq<HttpPeerDict>, b: Seq<HttpPeerDict>)
    ensures
        full_addrs(a + b) == full_addrs(a) + full_addrs(b),
        a.len() == 1 ==> match crate::net::ipv4_of(a[0].ip@) {
            Some(ip) => full_addrs(a) == seq![SocketAddr::V4 { ip, port: a[0].port }],
            None => full_addrs(a).len() == 0,
        },
    decreases b.len(),
{
    if a.len() == 1 {
        assert(a.drop_last() =~= Seq::<HttpPeerDict>::empty());
        assert(full_addrs(a.drop_last()) =~= Seq::<SocketAddr>::empty());
        assert(a.last() == a[0]);
    }
    if b.len() == 0 {
        assert(a + b =~= a);
        assert(full_addrs(a + b) =~= full_addrs(a) + full_addrs(b));
    } else {
        listed_peers_are_read_one_by_one(a, b.drop_last());
        assert((a + b).drop_last() =~= a + b.drop_last());
        assert((a + b).last() == b.last());
        assert(full_addrs(a + b) =~= full_addrs(a) + full_addrs(b));
    }
}

/// The host and port of a tracker of the datagram kind stand between the scheme and the
/// path.
pub proof fn the_host_stands_before_the_path(host: Seq<char>, path: Seq<char>)
    requires
        !host.contains('/'),
        !"udp:"@.is_prefix_of(host),
    ensures
        up_to_slash(without_scheme("udp://"@ + host + "/"@ + path)) == host,
        up_to_slash(without_scheme("udp://"@ + host)) == host,
        up_to_slash(without_scheme(host)) == host,
{
    lemma_host(host, "/"@ + path);
    lemma_host(host, Seq::empty());
    assert("udp://"@ + host + "/"@ + path =~= "udp://"@ + (host + ("/"@ + path)));
    assert(host + Seq::<char>::empty() =~= host);
}

/// What follows the scheme is read up to its first slash.
proof fn lemma_host(host: Seq<char>, tail: Seq<char>)
    requires
        !host.contains('/'),
        !"udp:"@.is_prefix_of(host),
        tail.len() == 0 || "/"@.is_prefix_of(tail),
    ensures
        up_to_slash(without_scheme("udp://"@ + (host + tail))) == host,
        up_to_slash(without_scheme(host + tail)) == host,
{
    reveal_strlit("udp://");
    reveal_strlit("udp:");
    reveal_strlit("/");
    let u = "udp://"@;
    let s = host + tail;
    let whole = u + s;
    assert(tail.len() > 0 ==> tail[0] == '/') by {
        if tail.len() > 0 {
            assert("/"@[0] == tail[0]);
        }
    }
    assert(u.is_prefix_of(whole));
    assert(whole.skip(6) =~= s);
    assert(without_scheme(whole) == without_scheme(s));
    if u.is_prefix_of(s) {
        assert(u =~= s.subrange(0, 6));
        assert forall|i: int| 0 <= i < 6 implies s[i] == u[i] by {
            assert(s.subrange(0, 6)[i] == s[i]);
        }
        assert(s[0] == 'u' && s[1] == 'd' && s[2] == 'p' && s[3] == ':');
        if host.len() >= 4 {
            assert("udp:"@ =~= host.subrange(0, 4));
        } else {
            assert(s[host.len() as int] == '/');
        }
    }
    assert(without_scheme(s) == s);
    lemma_before_slash(host, tail);
}

/// Text up to a slash, or up to the end.
proof fn lemma_before_slash(host: Seq<char>, tail: Seq<char>)
    requires
        !host.contains('/'),
        tail.len() > 0 ==> tail[0] == '/',
    ensures
        up_to_slash(host + tail) == host,
    decreases host.len(),
{
    if host.len() == 0 {
        assert(host + tail =~= tail);
        assert(up_to_slash(tail) =~= host);
    } else {
        let rest = host.skip(1);
        assert(host[0] != '/');
        assert forall|i: int| 0 <= i < rest.len() implies rest[i] != '/' by {
            assert(host[i + 1] == rest[i]);
        }
        lemma_before_slash(rest, tail);
        assert((host + tail).skip(1) =~= rest + tail);
        assert(up_to_slash(host + tail) =~= host);
    }
}

/// The first request to such a tracker is sixteen bytes: the number 0x41727101980 that
/// marks the protocol, the action zero and the number of the exchange.
pub proof fn connecting_takes_sixteen_bytes(transaction: u32)
    ensures
        ({
            let r = connect_request_bytes(transaction);
            &&& r.len() == 16
            &&& number_at(r, 0) * 0x1_0000_0000 + number_at(r, 4) == 0x417_2710_1980
            &&& number_at(r, 8) == 0
            &&& number_at(r, 12) == transaction
        }),
{
    crate::text::be32_round_trip(0x0000_0417);
    crate::text::be32_round_trip(0x2710_1980);
    crate::text::be32_round_trip(0);
    crate::text::be32_round_trip(transaction);
}

/// The second request is ninety-eight bytes: the connection, the action one, the number
/// of the exchange, the hash, our id, nothing transferred, the event two for a start, no
/// address, no key, as many peers as there are, and our port.
pub proof fn announcing_takes_ninety_eight_bytes(
    connection: Seq<u8>,
    transaction: u32,
    info_hash: Seq<u8>,
    peer_id: Seq<u8>,
    port: u16,
)
    requires
        connection.len() == 8,
        info_hash.len() == 20,
        peer_id.len() == 20,
    ensures
        ({
            let r = announce_request_bytes(connection, transaction, info_hash, peer_id, port);
            &&& r.len() == 98
            &&& r.take(8) == connection
            &&& number_at(r, 8) == 1
            &&& number_at(r, 12) == transaction
            &&& r.subrange(16, 36) == info_hash
            &&& r.subrange(36, 56) == peer_id
            &&& forall|i: int| 56 <= i < 80 ==> r[i] == 0
            &&& number_at(r, 80) == 2
            &&& number_at(r, 84) == 0
            &&& number_at(r, 88) == 0
            &&& number_at(r, 92) == 0xFFFF_FFFF
            &&& 256 * r[96] + r[97] == port
        }),
{
    let r = announce_request_bytes(connection, transaction, info_hash, peer_id, port);
    crate::text::be32_round_trip(1);
    crate::text::be32_round_trip(transaction);
    crate::text::be32_round_trip(2);
    crate::text::be32_round_trip(0);
    crate::text::be32_round_trip(0xFFFF_FFFF);
    crate::text::most_significant_byte_stands_first(0, 0, 0, 0, port, 0);
    assert(r.take(8) =~= connection);
    assert(r.subrange(16, 36) =~= info_hash);
    assert(r.subrange(36, 56) =~= peer_id);
    assert(number_at(r, 84) == 0);
}

/// Addresses that are found come behind those known, in the order in which they were
/// found, each once: what is found again changes nothing.
pub proof fn merging_again_changes_nothing(
    a: Seq<SocketAddr>,
    b: Seq<SocketAddr>,
    c: Seq<SocketAddr>,
    x: SocketAddr,
)
    ensures
        merged(a, b + c) == merged(merged(a, b), c),
        (forall|i: int| 0 <= i < b.len() ==> a.contains(#[trigger] b[i])) ==> merged(a, b) == a,
        !a.contains(x) ==> merged(a, seq![x]) == a.push(x),
        a.contains(x) ==> merged(a, seq![x]) == a,
    decreases b.len() + c.len(),
{
    assert(seq![x].drop_last() =~= Seq::<SocketAddr>::empty());
    assert(seq![x].last() == x);
    assert(merged(a, Seq::empty()) == a);
    if c.len() == 0 {
        assert(b + c =~= b);
        if b.len() > 0 {
            merging_again_changes_nothing(a, b.drop_last(), c, x);
            if forall|i: int| 0 <= i < b.len() ==> a.contains(#[trigger] b[i]) {
                assert forall|i: int| 0 <= i < b.drop_last().len() implies a.contains(
                    #[trigger] b.drop_last()[i],
                ) by {
                    assert(b[i] == b.drop_last()[i]);
                }
                assert(a.contains(b[b.len() - 1]));
            }
        }
    } else {
        merging_again_changes_nothing(a, b, c.drop_last(), x);
        assert((b + c).drop_last() =~= b + c.drop_last());
        assert((b + c).last() == c.last());
    }
}

/// An answer to the first request is taken if it has its sixteen bytes, the action zero
/// and the number of the exchange, whatever follows; any other is not.
pub proof fn only_our_exchange_is_answered(buf: Seq<u8>, transaction: u32)
    requires
        buf.len() >= 16,
    ensures
        is_connect_response(buf, transaction) <==> {
            &&& buf[0] == 0 && buf[1] == 0 && buf[2] == 0 && buf[3] == 0
            &&& 16777216 * buf[4] + 65536 * buf[5] + 256 * buf[6] + buf[7] == transaction
        },
        !is_connect_response(buf.take(15), transaction),
{
    crate::text::most_significant_byte_stands_first(buf[0], buf[1], buf[2], buf[3], 0, 0);
    crate::text::most_significant_byte_stands_first(buf[4], buf[5], buf[6], buf[7], 0, 0);
}
} // verus!
