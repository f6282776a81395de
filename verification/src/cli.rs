//! What the command line program decides and says. Processes, files and the
//! terminal are left to the caller.
use crate::config::StateDir;
use crate::constants::{DEFAULT_PORT, INFOHASH_LEN};
use crate::derive::{derive_infohash, derive_network_secret, derive_overlay_addr};
use crate::device::DeviceKeys;
use crate::json::{list_in, member, member_text, parse_json, Json};
use crate::net::SocketAddr;
use crate::text::{
    chars_of, push_dec, push_hex, push_text, same_chars, same_text, string_of, sub_bytes,
};
use crate::transport::TransportKind;
use crate::types::{NetworkSecret, OverlayAddr, PeerId, Seed};
use crate::words::{join, lines, push_padded, push_repeated, split, to_lower, trim, words};
use serde_json::Value;
use vstd::prelude::*;

verus! {

// ---------------------------------------------------------------------------
// Options
// ---------------------------------------------------------------------------
/// The port to use: the one asked for, or the usual one.
pub fn choose_port(asked: Option<u16>) -> (r: u16)
    ensures
        r == (match asked {
            Some(p) => p,
            None => DEFAULT_PORT,
        }),
{
    match asked {
        Some(p) => p,
        None => DEFAULT_PORT,
    }
}

/// The log filter for a number of `-v` flags.
pub fn log_filter(verbose: u8) -> (r: &'static str)
    ensures
        r@ == (if verbose == 0 {
            "seednet=warn"@
        } else if verbose == 1 {
            "seednet=info"@
        } else if verbose == 2 {
            "seednet=debug"@
        } else {
            "seednet=trace"@
        }),
{
    match verbose {
        0 => "seednet=warn",
        1 => "seednet=info",
        2 => "seednet=debug",
        _ => "seednet=trace",
    }
}

/// The transport with a name.
pub open spec fn transport_named(name: Seq<char>) -> Option<TransportKind> {
    if name == "udp"@ {
        Some(TransportKind::Udp)
    } else if name == "tcp"@ {
        Some(TransportKind::Tcp)
    } else if name == "ws"@ {
        Some(TransportKind::Ws)
    } else if name == "wss"@ {
        Some(TransportKind::Wss)
    } else {
        None
    }
}

/// An item of a comma-separated list as it is looked up: without white space
/// around it, in lower case.
pub open spec fn item_key(part: Seq<char>) -> Seq<char> {
    crate::words::lowered(crate::words::trimmed(part))
}

/// The transports that the items of a list name.
pub open spec fn transports_in(parts: Seq<Seq<char>>) -> Seq<TransportKind>
    decreases parts.len(),
{
    if parts.len() == 0 {
        Seq::empty()
    } else {
        let before = transports_in(parts.drop_last());
        match transport_named(item_key(parts.last())) {
            Some(k) => before.push(k),
            None => before,
        }
    }
}

/// The items of a list that name no transport.
pub open spec fn unknown_in(parts: Seq<Seq<char>>) -> Seq<Seq<char>>
    decreases parts.len(),
{
    if parts.len() == 0 {
        Seq::empty()
    } else {
        let before = unknown_in(parts.drop_last());
        match transport_named(item_key(parts.last())) {
            Some(_) => before,
            None => before.push(item_key(parts.last())),
        }
    }
}

fn named_transport(name: &[char]) -> (r: Option<TransportKind>)
    ensures
        r == transport_named(name@),
{
    let udp: Vec<char> = chars_of("udp");
    let tcp: Vec<char> = chars_of("tcp");
    let ws: Vec<char> = chars_of("ws");
    let wss: Vec<char> = chars_of("wss");
    if same_chars(name, udp.as_slice()) {
        Some(TransportKind::Udp)
    } else if same_chars(name, tcp.as_slice()) {
        Some(TransportKind::Tcp)
    } else if same_chars(name, ws.as_slice()) {
        Some(TransportKind::Ws)
    } else if same_chars(name, wss.as_slice()) {
        Some(TransportKind::Wss)
    } else {
        None
    }
}

/// Reads a comma-separated list of transports: those that it names, and the items
/// that name none.
pub fn parse_transports(s: &str) -> (r: (Vec<TransportKind>, Vec<String>))
    ensures
        r.0@ == transports_in(crate::words::split_parts(s@, ',')),
        crate::words::texts(r.1@) == unknown_in(crate::words::split_parts(s@, ',')),
{
    let chars: Vec<char> = chars_of(s);
    let parts: Vec<Vec<char>> = split(chars.as_slice(), ',');
    let ghost all = crate::words::char_seqs(parts@);
    let mut kinds: Vec<TransportKind> = Vec::new();
    let mut unknown: Vec<String> = Vec::new();
    let mut i: usize = 0;
    assert(crate::words::texts(unknown@) =~= Seq::empty());
    while i < parts.len()
        invariant
            i <= parts@.len(),
            all == crate::words::char_seqs(parts@),
            kinds@ == transports_in(all.take(i as int)),
            crate::words::texts(unknown@) == unknown_in(all.take(i as int)),
        decreases parts.len() - i,
    {
        let name: Vec<char> = to_lower(trim(parts[i].as_slice()));
        proof {
            assert(all.take(i + 1).drop_last() =~= all.take(i as int));
            assert(all.take(i + 1).last() == parts@[i as int]@);
        }
        match named_transport(name.as_slice()) {
            Some(k) => kinds.push(k),
            None => {
                let ghost was = unknown@;
                unknown.push(string_of(name.as_slice()));
                assert(crate::words::texts(unknown@) =~= crate::words::texts(was).push(name@));
            },
        }
        i = i + 1;
    }
    assert(all.take(i as int) =~= all);
    (kinds, unknown)
}

/// The items of a comma-separated list, without white space around them; none of
/// an empty list.
pub open spec fn list_items(s: Seq<char>) -> Seq<Seq<char>> {
    if s.len() == 0 {
        Seq::empty()
    } else {
        crate::words::split_parts(s, ',').map_values(|p: Seq<char>| crate::words::trimmed(p))
    }
}

/// Splits a comma-separated list into its items.
pub fn split_list(s: &str) -> (r: Vec<String>)
    ensures
        crate::words::texts(r@) == list_items(s@),
{
    let chars: Vec<char> = chars_of(s);
    let mut r: Vec<String> = Vec::new();
    if chars.len() == 0 {
        assert(crate::words::texts(r@) =~= Seq::empty());
        return r;
    }
    let parts: Vec<Vec<char>> = split(chars.as_slice(), ',');
    let ghost all = crate::words::char_seqs(parts@);
    let mut i: usize = 0;
    while i < parts.len()
        invariant
            i <= parts@.len(),
            all == crate::words::char_seqs(parts@),
            crate::words::texts(r@) == all.map_values(
                |p: Seq<char>| crate::words::trimmed(p),
            ).take(i as int),
        decreases parts.len() - i,
    {
        let item: String = string_of(trim(parts[i].as_slice()));
        let ghost was = r@;
        r.push(item);
        i = i + 1;
        proof {
            assert(crate::words::texts(r@) =~= crate::words::texts(was).push(item@));
            assert(crate::words::texts(r@) =~= all.map_values(
                |p: Seq<char>| crate::words::trimmed(p),
            ).take(i as int));
        }
    }
    assert(crate::words::texts(r@) =~= list_items(s@));
    r
}

/// Being more than nothing.
pub open spec fn not_blank() -> spec_fn(Seq<char>) -> bool {
    |t: Seq<char>| t.len() > 0
}

/// Reads a comma-separated list of tracker URLs: its items that are not empty.
pub fn parse_tracker_urls(s: &str) -> (r: Vec<String>)
    ensures
        crate::words::texts(r@) == list_items(s@).filter(not_blank()),
{
    let items: Vec<String> = split_list(s);
    let ghost all = crate::words::texts(items@);
    let ghost f = not_blank();
    let mut r: Vec<String> = Vec::new();
    let mut i: usize = 0;
    assert(all.take(0).filter(f) =~= Seq::empty()) by {
        reveal(Seq::filter);
    }
    assert(crate::words::texts(r@) =~= Seq::empty());
    while i < items.len()
        invariant
            i <= items@.len(),
            f == not_blank(),
            all == crate::words::texts(items@),
            crate::words::texts(r@) == all.take(i as int).filter(f),
        decreases items.len() - i,
    {
        proof {
            assert(all.take(i + 1).drop_last() =~= all.take(i as int));
            assert(all.take(i + 1).last() == items@[i as int]@);
            reveal(Seq::filter);
        }
        if chars_of(items[i].as_str()).len() > 0 {
            let ghost was = r@;
            r.push(items[i].as_str().to_owned());
            assert(crate::words::texts(r@) =~= crate::words::texts(was).push(items@[i as int]@));
        }
        i = i + 1;
    }
    assert(all.take(i as int) =~= all);
    r
}

/// The addresses among what items were read as.
pub open spec fn addrs_in(parsed: Seq<Option<SocketAddr>>) -> Seq<SocketAddr>
    decreases parsed.len(),
{
    if parsed.len() == 0 {
        Seq::empty()
    } else {
        let before = addrs_in(parsed.drop_last());
        match parsed.last() {
            Some(a) => before.push(a),
            None => before,
        }
    }
}

/// The items that were not read as an address.
pub open spec fn rejected_in(items: Seq<Seq<char>>, parsed: Seq<Option<SocketAddr>>) -> Seq<
    Seq<char>,
>
    decreases items.len(),
{
    if items.len() == 0 {
        Seq::empty()
    } else {
        let before = rejected_in(items.drop_last(), parsed.drop_last());
        match parsed.last() {
            Some(_) => before,
            None => before.push(items.last()),
        }
    }
}

/// Sorts the items of a list of addresses by what they were read as: addresses,
/// and the items that are none.
pub fn parse_trackers(items: &Vec<String>, parsed: &Vec<Option<SocketAddr>>) -> (r: (
    Vec<SocketAddr>,
    Vec<String>,
))
    requires
        items@.len() == parsed@.len(),
    ensures
        r.0@ == addrs_in(parsed@),
        crate::words::texts(r.1@) == rejected_in(crate::words::texts(items@), parsed@),
{
    let ghost all = crate::words::texts(items@);
    let mut addrs: Vec<SocketAddr> = Vec::new();
    let mut rejected: Vec<String> = Vec::new();
    let mut i: usize = 0;
    assert(crate::words::texts(rejected@) =~= Seq::empty());
    while i < items.len()
        invariant
            i <= items@.len(),
            items@.len() == parsed@.len(),
            all == crate::words::texts(items@),
            addrs@ == addrs_in(parsed@.take(i as int)),
            crate::words::texts(rejected@) == rejected_in(
                all.take(i as int),
                parsed@.take(i as int),
            ),
        decreases items.len() - i,
    {
        proof {
            assert(parsed@.take(i + 1).drop_last() =~= parsed@.take(i as int));
            assert(all.take(i + 1).drop_last() =~= all.take(i as int));
            assert(all.take(i + 1).last() == items@[i as int]@);
        }
        match parsed[i] {
            Some(a) => addrs.push(a),
            None => {
                let ghost was = rejected@;
                rejected.push(items[i].as_str().to_owned());
                assert(crate::words::texts(rejected@) =~= crate::words::texts(was).push(
                    items@[i as int]@,
                ));
            },
        }
        i = i + 1;
    }
    assert(all.take(i as int) =~= all);
    assert(parsed@.take(i as int) =~= parsed@);
    (addrs, rejected)
}

// ---------------------------------------------------------------------------
// Small texts
// ---------------------------------------------------------------------------
/// The hexadecimal text of the first bytes, at most so many.
pub fn short_hex(bytes: &[u8], take: usize) -> (s: String)
    ensures
        s@ == crate::text::hex_text(
            bytes@.take(
                if bytes@.len() < take {
                    bytes@.len() as int
                } else {
                    take as int
                },
            ),
        ),
{
    let n: usize = if bytes.len() < take {
        bytes.len()
    } else {
        take
    };
    let mut s: String = String::new();
    push_hex(&mut s, sub_bytes(bytes, 0, n));
    assert(bytes@.subrange(0, n as int) =~= bytes@.take(n as int));
    assert(s@ =~= crate::text::hex_text(bytes@.take(n as int)));
    s
}

/// The last lines of a text, at most so many, with line feeds between them.
pub open spec fn tail_text(s: Seq<char>, n: nat) -> Seq<char> {
    let all = crate::words::lines_of(s);
    let start = if all.len() < n {
        0
    } else {
        all.len() - n
    };
    crate::words::joined(all.skip(start), "\n"@)
}

/// Gives the last lines of a log, at most so many; a note if there is no log.
pub fn read_log_tail(contents: Option<&str>, n: usize) -> (s: String)
    ensures
        s@ == (match contents {
            Some(t) => tail_text(t@, n as nat),
            None => "(log not available)"@,
        }),
{
    let t: &str = match contents {
        Some(t) => t,
        None => return "(log not available)".to_owned(),
    };
    let all: Vec<String> = lines(t);
    let len: usize = all.len();
    let start: usize = if len < n {
        0
    } else {
        len - n
    };
    let tail: &[String] = vstd::slice::slice_subrange(all.as_slice(), start, len);
    proof {
        assert(crate::words::texts(tail@) =~= crate::words::texts(all@).skip(start as int));
    }
    join(tail, "\n")
}

fn line2(a: &str, b: &str) -> (s: String)
    ensures
        s@ == a@ + b@,
{
    let mut s: String = a.to_owned();
    push_text(&mut s, b);
    s
}

fn line_num(a: &str, n: u64, b: &str) -> (s: String)
    ensures
        s@ == a@ + crate::text::dec_text(n as nat) + b@,
{
    let mut s: String = a.to_owned();
    push_dec(&mut s, n);
    push_text(&mut s, b);
    s
}

// ---------------------------------------------------------------------------
// list
// ---------------------------------------------------------------------------
/// A row of the table of peers.
pub open spec fn table_row(
    id: Seq<char>,
    overlay: Seq<char>,
    ipv6: Seq<char>,
    conn: Seq<char>,
    underlay: Seq<char>,
) -> Seq<char> {
    crate::words::padded(id, 18) + "  "@ + crate::words::padded(overlay, 16) + "  "@
        + crate::words::padded(ipv6, 40) + "  "@ + crate::words::padded(conn, 10) + "  "@
        + crate::words::padded(underlay, 26)
}

fn row_string(id: &str, overlay: &str, ipv6: &str, conn: &str, underlay: &str) -> (s: String)
    ensures
        s@ == table_row(id@, overlay@, ipv6@, conn@, underlay@),
{
    let mut s: String = String::new();
    push_padded(&mut s, id, 18);
    push_text(&mut s, "  ");
    push_padded(&mut s, overlay, 16);
    push_text(&mut s, "  ");
    push_padded(&mut s, ipv6, 40);
    push_text(&mut s, "  ");
    push_padded(&mut s, conn, 10);
    push_text(&mut s, "  ");
    push_padded(&mut s, underlay, 26);
    assert(s@ =~= table_row(id@, overlay@, ipv6@, conn@, underlay@));
    s
}

/// The first row of the table of peers.
pub open spec fn table_head() -> Seq<char> {
    table_row(
        "PEER ID (hostname)"@,
        "OVERLAY IPv4"@,
        "OVERLAY IPv6"@,
        "CONN"@,
        "UNDERLAY ADDR"@,
    )
}

/// How a peer is named: its short id, and its host name if it has one.
pub open spec fn display_name(short: Seq<char>, hostname: Seq<char>) -> Seq<char> {
    if hostname.len() == 0 {
        short
    } else {
        short + " ("@ + hostname + ")"@
    }
}

/// How the connection to a peer is named.
pub open spec fn display_connection(connection: Seq<char>, relay_via: Seq<char>) -> Seq<char> {
    if connection == "relay"@ && relay_via.len() > 0 {
        "relay/"@ + relay_via
    } else {
        connection
    }
}

/// The row for a peer of the file.
pub open spec fn peer_line(j: Json) -> Seq<char> {
    table_row(
        display_name(
            crate::json::text_or(j, "id_short"@, "?"@),
            crate::json::text_or(j, "hostname"@, ""@),
        ),
        crate::json::text_or(j, "overlay"@, "?"@),
        crate::json::text_or(j, "overlay_ipv6"@, ""@),
        display_connection(
            crate::json::text_or(j, "connection"@, "direct"@),
            crate::json::text_or(j, "relay_via"@, ""@),
        ),
        crate::json::text_or(j, "underlay"@, "?"@),
    )
}

fn peer_line_string(p: &Value) -> (s: String)
    ensures
        s@ == peer_line(crate::json::json_tree(*p)),
{
    let short: String = member_text(p, "id_short", "?");
    let overlay: String = member_text(p, "overlay", "?");
    let ipv6: String = member_text(p, "overlay_ipv6", "");
    let hostname: String = member_text(p, "hostname", "");
    let connection: String = member_text(p, "connection", "direct");
    let relay_via: String = member_text(p, "relay_via", "");
    let underlay: String = member_text(p, "underlay", "?");
    let ghost hn = hostname@;
    let ghost sh = short@;
    let id: String = if chars_of(hostname.as_str()).len() == 0 {
        short
    } else {
        let mut t: String = short;
        push_text(&mut t, " (");
        push_text(&mut t, hostname.as_str());
        push_text(&mut t, ")");
        t
    };
    assert(id@ == display_name(sh, hn));
    let ghost cn = connection@;
    let conn: String = if same_text(connection.as_str(), "relay") && chars_of(
        relay_via.as_str(),
    ).len() > 0 {
        line2("relay/", relay_via.as_str())
    } else {
        connection
    };
    assert(conn@ == display_connection(cn, relay_via@));
    row_string(id.as_str(), overlay.as_str(), ipv6.as_str(), conn.as_str(), underlay.as_str())
}

/// What `list` prints for the peers of the file.
pub open spec fn list_lines(js: Seq<Json>) -> Seq<Seq<char>> {
    if js.len() == 0 {
        seq!["No peers connected."@]
    } else {
        seq![table_head(), crate::words::repeated('─', 118)] + js.map_values(
            |j: Json| peer_line(j),
        ) + seq![
            Seq::<char>::empty(),
            crate::text::dec_text(js.len()) + " peer(s) connected."@,
        ]
    }
}

/// What `list` prints, given whether the daemon runs and the contents of the file
/// that says who is connected. A file that is not JSON is an error.
pub fn list(running: bool, contents: Option<&str>) -> (r: Result<Vec<String>, &'static str>)
    ensures
        if !running {
            r matches Ok(v) && crate::words::texts(v@) == seq!["SeedNet is not running."@]
        } else {
            match contents {
                None => r matches Ok(v) && crate::words::texts(v@)
                    == seq!["No peers connected yet."@],
                Some(t) => match crate::json::json_parsed(t@) {
                    None => r matches Err(m) && m@ == "peers.json is malformed"@,
                    Some(j) => r matches Ok(v) && crate::words::texts(v@) == (
                    match crate::json::member_of(j, "peers"@) {
                        Json::List(js) => list_lines(js),
                        _ => list_lines(Seq::empty()),
                    }),
                },
            }
        },
{
    let mut out: Vec<String> = Vec::new();
    if !running {
        out.push("SeedNet is not running.".to_owned());
        assert(crate::words::texts(out@) =~= seq!["SeedNet is not running."@]);
        return Ok(out);
    }
    let t: &str = match contents {
        Some(t) => t,
        None => {
            out.push("No peers connected yet.".to_owned());
            assert(crate::words::texts(out@) =~= seq!["No peers connected yet."@]);
            return Ok(out);
        },
    };
    let data: Value = match parse_json(t) {
        Some(v) => v,
        None => return Err("peers.json is malformed"),
    };
    match list_in(member(&data, "peers")) {
        Some(peers) => Ok(list_table(peers)),
        None => {
            out.push("No peers connected.".to_owned());
            assert(crate::words::texts(out@) =~= seq!["No peers connected."@]);
            Ok(out)
        },
    }
}

fn list_table(peers: &Vec<Value>) -> (out: Vec<String>)
    ensures
        crate::words::texts(out@) == list_lines(crate::json::json_trees(peers@)),
{
    let ghost js = crate::json::json_trees(peers@);
    let ghost rows = js.map_values(|j: Json| peer_line(j));
    let mut out: Vec<String> = Vec::new();
    if peers.len() == 0 {
        out.push("No peers connected.".to_owned());
        assert(crate::words::texts(out@) =~= seq!["No peers connected."@]);
        return out;
    }
    out.push(
        row_string("PEER ID (hostname)", "OVERLAY IPv4", "OVERLAY IPv6", "CONN", "UNDERLAY ADDR"),
    );
    let mut rule: String = String::new();
    push_repeated(&mut rule, '─', 118);
    assert(rule@ =~= crate::words::repeated('─', 118));
    out.push(rule);
    let ghost head = seq![table_head(), crate::words::repeated('─', 118)];
    let mut i: usize = 0;
    assert(crate::words::texts(out@) =~= head + rows.take(0));
    while i < peers.len()
        invariant
            i <= peers@.len(),
            js == crate::json::json_trees(peers@),
            rows == js.map_values(|j: Json| peer_line(j)),
            crate::words::texts(out@) == head + rows.take(i as int),
        decreases peers.len() - i,
    {
        let row: String = peer_line_string(&peers[i]);
        let ghost was = out@;
        out.push(row);
        i = i + 1;
        proof {
            assert(rows[i - 1] == row@);
            assert(crate::words::texts(out@) =~= crate::words::texts(was).push(row@));
            assert(crate::words::texts(out@) =~= head + rows.take(i as int));
        }
    }
    assert(rows.take(i as int) =~= rows);
    let ghost was = out@;
    out.push(String::new());
    let last: String = line_num("", peers.len() as u64, " peer(s) connected.");
    proof {
        reveal_strlit("");
        assert(last@ =~= crate::text::dec_text(js.len()) + " peer(s) connected."@);
    }
    out.push(last);
    assert(crate::words::texts(out@) =~= list_lines(js));
    out
}

// ---------------------------------------------------------------------------
// status
// ---------------------------------------------------------------------------
/// What `status` prints, given the process id in its file and whether that
/// process lives.
pub fn status(dir: &StateDir, pid: Option<u32>, alive: bool) -> (out: Vec<String>)
    ensures
        crate::words::texts(out@) == (match pid {
            Some(pid) => if alive {
                seq![
                    "SeedNet: running (pid "@ + crate::text::dec_text(pid as nat) + ")"@,
                    "  state dir : "@ + dir@,
                ]
            } else {
                seq![
                    "SeedNet: stale PID (pid "@ + crate::text::dec_text(pid as nat) + ")"@,
                    "  (stale PID file; run `seednet down` to clean up)"@,
                    "  state dir : "@ + dir@,
                ]
            },
            None => seq!["SeedNet: not running"@, "  state dir : "@ + dir@],
        }),
{
    let mut out: Vec<String> = Vec::new();
    match pid {
        Some(pid) => {
            if alive {
                out.push(line_num("SeedNet: running (pid ", pid as u64, ")"));
            } else {
                out.push(line_num("SeedNet: stale PID (pid ", pid as u64, ")"));
                out.push("  (stale PID file; run `seednet down` to clean up)".to_owned());
            }
        },
        None => out.push("SeedNet: not running".to_owned()),
    }
    out.push(line2("  state dir : ", dir.path()));
    proof {
        match pid {
            Some(p) => {
                let n = crate::text::dec_text(p as nat);
                if alive {
                    assert(crate::words::texts(out@) =~= seq![
                        "SeedNet: running (pid "@ + n + ")"@,
                        "  state dir : "@ + dir@,
                    ]);
                } else {
                    assert(crate::words::texts(out@) =~= seq![
                        "SeedNet: stale PID (pid "@ + n + ")"@,
                        "  (stale PID file; run `seednet down` to clean up)"@,
                        "  state dir : "@ + dir@,
                    ]);
                }
            },
            None => {
                assert(crate::words::texts(out@) =~= seq![
                    "SeedNet: not running"@,
                    "  state dir : "@ + dir@,
                ]);
            },
        }
    }
    out
}

// ---------------------------------------------------------------------------
// identity
// ---------------------------------------------------------------------------
/// A rule of the reports.
pub const RULE: &'static str = "──────────────────────────────────────────────────────────";

/// What `identity` prints for a seed and the keys of this device.
pub open spec fn identity_lines(dir: Seq<char>, seed: Seq<u8>, keys: DeviceKeys, id: PeerId) -> Seq<
    Seq<char>,
> {
    let secret = crate::derive::network_secret_of(seed);
    seq![
        "SeedNet identity"@,
        RULE@,
        "State dir      : "@ + dir,
        "Network secret : "@ + crate::text::hex_text(secret.take(8)),
        "DHT infohash   : "@ + crate::text::hex_text(crate::derive::infohash_of(secret)) + "  ("@
            + crate::text::dec_text(20) + " bytes)"@,
        "This device    :"@,
        "  PeerId (ed25519 pub) : "@ + crate::text::hex_text(id@),
        "  X25519 pub (noise)   : "@ + crate::text::hex_text(
            crate::device::x25519_public(keys.noise_secret()),
        ),
        "  Overlay IPv4         : "@ + crate::derive::overlay_of(id).addr.text(),
        "  Identity file        : "@ + crate::config::path_in(
            dir,
            crate::config::IDENTITY_FILENAME@,
        ),
        RULE@,
    ]
}

/// Gives what `identity` prints.
pub fn identity(dir: &StateDir, seed: &Seed, keys: &DeviceKeys) -> (out: Vec<String>)
    ensures
        exists|id: PeerId|
            id@ == crate::device::ed25519_public(keys.seed()) && crate::words::texts(out@)
                == #[trigger] identity_lines(dir@, seed@, *keys, id),
{
    let secret: NetworkSecret = derive_network_secret(seed);
    let infohash = derive_infohash(&secret);
    let id: PeerId = keys.peer_id();
    let overlay: OverlayAddr = derive_overlay_addr(&id);
    let noise: [u8; 32] = keys.x25519_public_key();
    let mut out: Vec<String> = Vec::new();
    out.push("SeedNet identity".to_owned());
    out.push(RULE.to_owned());
    out.push(line2("State dir      : ", dir.path()));
    out.push(line2("Network secret : ", short_hex(secret.as_bytes(), 8).as_str()));
    let mut hash: String = line2("DHT infohash   : ", infohash.to_text().as_str());
    push_text(&mut hash, "  (");
    push_dec(&mut hash, INFOHASH_LEN as u64);
    push_text(&mut hash, " bytes)");
    out.push(hash);
    out.push("This device    :".to_owned());
    out.push(line2("  PeerId (ed25519 pub) : ", id.to_text().as_str()));
    out.push(line2("  X25519 pub (noise)   : ", short_hex(noise.as_slice(), 32).as_str()));
    out.push(line2("  Overlay IPv4         : ", overlay.to_text().as_str()));
    out.push(line2("  Identity file        : ", dir.identity_path().as_str()));
    out.push(RULE.to_owned());
    proof {
        assert(noise@.take(32) =~= noise@);
        assert(crate::words::texts(out@) =~= identity_lines(dir@, seed@, *keys, id));
    }
    out
}


/// Each part of a list of transports is either one of the four names, in whatever case
/// and with blanks around it, and gives that transport, or is reported; parts are taken
/// one by one.
pub proof fn transports_are_named_or_reported(a: Seq<Seq<char>>, b: Seq<Seq<char>>)
    ensures
        transports_in(a + b) == transports_in(a) + transports_in(b),
        unknown_in(a + b) == unknown_in(a) + unknown_in(b),
        transports_in(a).len() + unknown_in(a).len() == a.len(),
        a.len() == 1 && transports_in(a).len() == 1 ==> transports_in(a)[0].text() == item_key(
            a[0],
        ),
        a.len() == 1 && unknown_in(a).len() == 1 ==> unknown_in(a)[0] == item_key(a[0]) && forall|
            k: TransportKind,
        | #[trigger] k.text() != item_key(a[0]),
    decreases a.len() + b.len(),
{
    if a.len() > 0 {
        transports_are_named_or_reported(a.drop_last(), Seq::empty());
    }
    if a.len() == 1 {
        assert(a.drop_last() =~= Seq::<Seq<char>>::empty());
        assert(a.last() == a[0]);
    }
    if b.len() == 0 {
        assert(a + b =~= a);
        assert(transports_in(a + b) =~= transports_in(a) + transports_in(b));
        assert(unknown_in(a + b) =~= unknown_in(a) + unknown_in(b));
    } else {
        transports_are_named_or_reported(a, b.drop_last());
        assert((a + b).drop_last() =~= a + b.drop_last());
        assert((a + b).last() == b.last());
        assert(transports_in(a + b) =~= transports_in(a) + transports_in(b));
        assert(unknown_in(a + b) =~= unknown_in(a) + unknown_in(b));
    }
}

/// Each item of a list of addresses is either read or reported; items are taken one by
/// one, in order.
pub proof fn addresses_are_read_or_reported(
    items: Seq<Seq<char>>,
    parsed: Seq<Option<SocketAddr>>,
    item: Seq<char>,
    addr: SocketAddr,
)
    requires
        items.len() == parsed.len(),
    ensures
        addrs_in(parsed).len() + rejected_in(items, parsed).len() == items.len(),
        addrs_in(parsed.push(Some(addr))) == addrs_in(parsed).push(addr),
        rejected_in(items.push(item), parsed.push(Some(addr))) == rejected_in(items, parsed),
        addrs_in(parsed.push(None)) == addrs_in(parsed),
        rejected_in(items.push(item), parsed.push(None)) == rejected_in(items, parsed).push(item),
    decreases items.len(),
{
    if items.len() > 0 {
        addresses_are_read_or_reported(items.drop_last(), parsed.drop_last(), item, addr);
    }
    assert(parsed.push(Some(addr)).drop_last() =~= parsed);
    assert(parsed.push(None).drop_last() =~= parsed);
    assert(items.push(item).drop_last() =~= items);
}

/// The tail of a log is its last lines: the whole of a short one, and of a longer one as
/// many lines as were asked for, up to the last.
pub proof fn the_tail_ends_with_the_last_line(s: Seq<char>, n: nat)
    ensures
        ({
            let all = crate::words::lines_of(s);
            &&& all.len() <= n ==> tail_text(s, n) == crate::words::joined(all, "\n"@)
            &&& all.len() > n ==> exists|kept: Seq<Seq<char>>| #[trigger]
                crate::words::joined(kept, "\n"@) == tail_text(s, n) && kept.len() == n && all
                    == all.take(all.len() - n) + kept
        }),
{
    let all = crate::words::lines_of(s);
    if all.len() <= n {
        assert(all.skip(0) =~= all);
    } else {
        let kept = all.skip(all.len() - n);
        assert(all =~= all.take(all.len() - n) + kept);
        assert(crate::words::joined(kept, "\n"@) == tail_text(s, n));
    }
}

/// A row of the table shows its five columns in order, each in its place as far as those
/// before it keep to their widths.
pub proof fn columns_stand_in_their_places(
    id: Seq<char>,
    overlay: Seq<char>,
    ipv6: Seq<char>,
    conn: Seq<char>,
    underlay: Seq<char>,
)
    requires
        id.len() <= 18,
        overlay.len() <= 16,
        ipv6.len() <= 40,
        conn.len() <= 10,
    ensures
        ({
            let r = table_row(id, overlay, ipv6, conn, underlay);
            &&& r.subrange(0, id.len() as int) == id
            &&& r.subrange(20, 20int + overlay.len()) == overlay
            &&& r.subrange(38, 38int + ipv6.len()) == ipv6
            &&& r.subrange(80, 80int + conn.len()) == conn
            &&& r.subrange(92, 92int + underlay.len()) == underlay
        }),
{
    reveal_strlit("  ");
    let r = table_row(id, overlay, ipv6, conn, underlay);
    assert(r.subrange(0, id.len() as int) =~= id);
    assert(r.subrange(20, 20int + overlay.len()) =~= overlay);
    assert(r.subrange(38, 38int + ipv6.len()) =~= ipv6);
    assert(r.subrange(80, 80int + conn.len()) =~= conn);
    assert(r.subrange(92, 92int + underlay.len()) =~= underlay);
}

/// A peer is shown by its short id, with its host name in brackets where it has one; a
/// relayed connection names its relay where that is known.
pub proof fn names_and_relays_are_shown(short: Seq<char>, name: Seq<char>, relay: Seq<char>)
    ensures
        display_name(short, Seq::empty()) == short,
        name.len() > 0 ==> display_name(short, name).len() == short.len() + name.len() + 3,
        name.len() > 0 ==> display_name(short, name).subrange(
            short.len() as int + 2,
            (short.len() + 2 + name.len()) as int,
        ) == name,
        short.is_prefix_of(display_name(short, name)),
        display_connection("direct"@, relay) == "direct"@,
        display_connection("relay"@, Seq::empty()) == "relay"@,
        relay.len() > 0 ==> display_connection("relay"@, relay) == "relay/"@ + relay,
{
    reveal_strlit(" (");
    reveal_strlit(")");
    reveal_strlit("direct");
    reveal_strlit("relay");
    assert("direct"@[0] == 'd' && "relay"@[0] == 'r');
    if name.len() > 0 {
        assert(display_name(short, name).subrange(
            short.len() as int + 2,
            (short.len() + 2 + name.len()) as int,
        ) =~= name);
    }
    assert(short.is_prefix_of(display_name(short, name)));
}

/// The list shows one line for each peer, between the two lines of the head and the count.
pub proof fn each_peer_has_a_line(js: Seq<Json>, i: int)
    requires
        0 <= i < js.len(),
    ensures
        list_lines(js).len() == js.len() + 4,
        list_lines(js)[i + 2] == peer_line(js[i]),
        list_lines(js).last() == crate::text::dec_text(js.len()) + " peer(s) connected."@,
        list_lines(Seq::empty()).len() == 1,
{
}

/// A list is its items between commas, without blanks around them; an empty text is an
/// empty list.
pub proof fn lists_are_parted_by_commas(a: Seq<char>, b: Seq<char>)
    ensures
        list_items(Seq::empty()).len() == 0,
        a.len() > 0 && !a.contains(',') ==> list_items(a) == seq![crate::words::trimmed(a)],
        a.len() > 0 && b.len() > 0 ==> list_items(a.push(',') + b) == list_items(a) + list_items(b),
{
    crate::words::splitting_goes_piece_by_piece(a, ',', b);
    let f = |p: Seq<char>| crate::words::trimmed(p);
    if a.len() > 0 && !a.contains(',') {
        assert(list_items(a) =~= seq![crate::words::trimmed(a)]);
    }
    if a.len() > 0 && b.len() > 0 {
        assert(list_items(a.push(',') + b) =~= list_items(a) + list_items(b));
    }
}

/// Of a list of trackers no item that is kept is blank, and each that is not blank is kept.
pub proof fn blank_items_are_left_out(s: Seq<char>, i: int)
    requires
        0 <= i < list_items(s).len(),
    ensures
        list_items(s)[i].len() > 0 ==> list_items(s).filter(not_blank()).contains(list_items(s)[i]),
        forall|k: int|
            0 <= k < list_items(s).filter(not_blank()).len() ==> #[trigger] list_items(s).filter(
                not_blank(),
            )[k].len() > 0,
{
    broadcast use vstd::seq_lib::group_filter_ensures;
    if list_items(s)[i].len() > 0 {
        list_items(s).lemma_filter_contains(not_blank(), i);
    }
    assert forall|k: int| 0 <= k < list_items(s).filter(not_blank()).len() implies #[trigger] list_items(
        s,
    ).filter(not_blank())[k].len() > 0 by {
        list_items(s).lemma_filter_pred(not_blank(), k);
    }
}
} // verus!
