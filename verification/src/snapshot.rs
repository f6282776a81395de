//! The file that says who is connected.
use crate::manager::PeerEvent;
use crate::net::{Ipv6Addr, SocketAddr};
use crate::node::Node;
use crate::node_state::NodeState;
use crate::state::PeerState;
use crate::text::{push_text, to_dec};
use crate::types::{OverlayAddr, PeerId};
use vstd::prelude::*;

verus! {

/// A name and a value, quoted.
pub open spec fn field_text(name: Seq<char>, value: Seq<char>) -> Seq<char> {
    "\""@ + name + "\":\""@ + value + "\""@
}

fn push_field(s: &mut String, name: &str, value: &str)
    ensures
        final(s)@ == old(s)@ + field_text(name@, value@),
{
    push_text(s, "\"");
    push_text(s, name);
    push_text(s, "\":\"");
    push_text(s, value);
    push_text(s, "\"");
    assert(s@ =~= old(s)@ + field_text(name@, value@));
}

/// The text of an address, empty if there is none.
pub open spec fn addr_text(a: Option<SocketAddr>) -> Seq<char> {
    match a {
        Some(a) => a.text(),
        None => Seq::empty(),
    }
}

fn addr_string(a: Option<SocketAddr>) -> (s: String)
    ensures
        s@ == addr_text(a),
{
    match a {
        Some(a) => a.to_text(),
        None => String::new(),
    }
}

/// The entry for this device.
pub open spec fn local_text(
    id: PeerId,
    overlay: OverlayAddr,
    overlay_ipv6: Ipv6Addr,
    hostname: Seq<char>,
    public: Option<SocketAddr>,
) -> Seq<char> {
    "{"@ + field_text("id"@, crate::text::hex_text(id@)) + ","@ + field_text(
        "id_short"@,
        crate::text::short_hex_text(id@),
    ) + ","@ + field_text("overlay"@, overlay.addr.text()) + ","@ + field_text(
        "overlay_ipv6"@,
        overlay_ipv6.text(),
    ) + ","@ + field_text("hostname"@, hostname) + ","@ + field_text(
        "public_addr"@,
        addr_text(public),
    ) + ","@ + field_text("connection"@, "direct"@) + ","@ + field_text("underlay"@, ""@) + "}"@
}

/// Gives the entry for this device.
pub fn local_json(
    id: &PeerId,
    overlay: &OverlayAddr,
    overlay_ipv6: &Ipv6Addr,
    hostname: &str,
    public: Option<SocketAddr>,
) -> (s: String)
    ensures
        s@ == local_text(*id, *overlay, *overlay_ipv6, hostname@, public),
{
    let mut s: String = "{".to_owned();
    push_field(&mut s, "id", id.to_text().as_str());
    push_text(&mut s, ",");
    push_field(&mut s, "id_short", id.short().as_str());
    push_text(&mut s, ",");
    push_field(&mut s, "overlay", overlay.to_text().as_str());
    push_text(&mut s, ",");
    push_field(&mut s, "overlay_ipv6", overlay_ipv6.to_text().as_str());
    push_text(&mut s, ",");
    push_field(&mut s, "hostname", hostname);
    push_text(&mut s, ",");
    push_field(&mut s, "public_addr", addr_string(public).as_str());
    push_text(&mut s, ",");
    push_field(&mut s, "connection", "direct");
    push_text(&mut s, ",");
    push_field(&mut s, "underlay", "");
    push_text(&mut s, "}");
    s
}

/// What is said of a connected peer.
#[verifier::ext_equal]
pub ghost struct EntryTexts {
    pub overlay: Seq<char>,
    pub overlay_ipv6: Seq<char>,
    pub hostname: Seq<char>,
    pub public_addr: Seq<char>,
    pub connection: Seq<char>,
    pub relay_via: Seq<char>,
    pub latency: Seq<char>,
    pub underlay: Seq<char>,
}

/// What is said of a peer: what is known of it, its overlay address by the
/// routes, and the relay if it is reached through one. What is not known is
/// empty.
pub open spec fn entry_texts(s: NodeState, id: PeerId) -> EntryTexts {
    let known = s.peers.known.contains_key(id);
    let info = s.peers.known[id];
    EntryTexts {
        overlay: if s.routes.addrs.contains_key(id) {
            s.routes.addrs[id].text()
        } else {
            Seq::empty()
        },
        overlay_ipv6: match info.overlay_ipv6 {
            Some(a) if known => a.text(),
            _ => Seq::empty(),
        },
        hostname: if known {
            info.hostname
        } else {
            Seq::empty()
        },
        public_addr: if known {
            addr_text(info.public_addr)
        } else {
            Seq::empty()
        },
        connection: if s.paths.has(id) {
            "relay"@
        } else {
            "direct"@
        },
        relay_via: if s.paths.has(id) {
            crate::text::short_hex_text(s.paths.map[id].0@)
        } else {
            Seq::empty()
        },
        latency: match info.latency_ms {
            Some(ms) if known => crate::text::dec_text(ms as nat),
            _ => Seq::empty(),
        },
        underlay: if known {
            addr_text(info.underlay_addr)
        } else {
            Seq::empty()
        },
    }
}

/// The entry for a peer.
pub open spec fn entry_text(id: PeerId, e: EntryTexts) -> Seq<char> {
    "{"@ + field_text("id"@, crate::text::hex_text(id@)) + ","@ + field_text(
        "id_short"@,
        crate::text::short_hex_text(id@),
    ) + ","@ + field_text("overlay"@, e.overlay) + ","@ + field_text(
        "overlay_ipv6"@,
        e.overlay_ipv6,
    ) + ","@ + field_text("hostname"@, e.hostname) + ","@ + field_text(
        "public_addr"@,
        e.public_addr,
    ) + ","@ + field_text("connection"@, e.connection) + ","@ + field_text(
        "relay_via"@,
        e.relay_via,
    ) + ","@ + field_text("latency_ms"@, e.latency) + ","@ + field_text("underlay"@, e.underlay)
        + "}"@
}

/// Gives the entry for a peer.
pub fn build_peer_entry(node: &Node, id: &PeerId) -> (s: String)
    requires
        node.wf(),
    ensures
        s@ == entry_text(*id, entry_texts(node@, *id)),
{
    let overlay: String = match node.routes().lookup_peer_ip(id) {
        Some(ip) => ip.to_text(),
        None => String::new(),
    };
    let mut overlay_ipv6: String = String::new();
    let mut hostname: String = String::new();
    let mut public_addr: String = String::new();
    let mut latency: String = String::new();
    let mut underlay: String = String::new();
    let ghost e = entry_texts(node@, *id);
    assert(overlay@ =~= e.overlay);
    if let Some(p) = node.peers().get(id) {
        if let Some(a) = p.overlay_ipv6() {
            overlay_ipv6 = a.to_text();
        }
        push_text(&mut hostname, p.hostname());
        public_addr = addr_string(p.public_addr());
        if let Some(ms) = p.latency_ms() {
            latency = to_dec(ms as u64);
        }
        underlay = addr_string(p.underlay_addr());
    }
    assert(overlay_ipv6@ =~= e.overlay_ipv6);
    assert(hostname@ =~= e.hostname);
    assert(public_addr@ =~= e.public_addr);
    assert(latency@ =~= e.latency);
    assert(underlay@ =~= e.underlay);
    let (connection, relay_via) = match node.path(id) {
        Some(p) => ("relay", p.0.short()),
        None => ("direct", String::new()),
    };
    assert(relay_via@ =~= e.relay_via);
    let mut s: String = "{".to_owned();
    push_field(&mut s, "id", id.to_text().as_str());
    push_text(&mut s, ",");
    push_field(&mut s, "id_short", id.short().as_str());
    push_text(&mut s, ",");
    push_field(&mut s, "overlay", overlay.as_str());
    push_text(&mut s, ",");
    push_field(&mut s, "overlay_ipv6", overlay_ipv6.as_str());
    push_text(&mut s, ",");
    push_field(&mut s, "hostname", hostname.as_str());
    push_text(&mut s, ",");
    push_field(&mut s, "public_addr", public_addr.as_str());
    push_text(&mut s, ",");
    push_field(&mut s, "connection", connection);
    push_text(&mut s, ",");
    push_field(&mut s, "relay_via", relay_via.as_str());
    push_text(&mut s, ",");
    push_field(&mut s, "latency_ms", latency.as_str());
    push_text(&mut s, ",");
    push_field(&mut s, "underlay", underlay.as_str());
    push_text(&mut s, "}");
    s
}

/// The entries for some peers, with commas between them.
pub open spec fn entries_text(s: NodeState, ids: Seq<PeerId>) -> Seq<char>
    decreases ids.len(),
{
    if ids.len() == 0 {
        Seq::empty()
    } else {
        let last = entry_text(ids.last(), entry_texts(s, ids.last()));
        if ids.len() == 1 {
            last
        } else {
            entries_text(s, ids.drop_last()) + ","@ + last
        }
    }
}

/// The file: this device, and the connected peers.
pub open spec fn peers_text(local: Seq<char>, entries: Seq<char>) -> Seq<char> {
    "{\"local\":"@ + local + ",\"peers\":["@ + entries + "]}"@
}

/// Gives the file for a device without peers.
pub fn empty_peers_json(local: &str) -> (s: String)
    ensures
        s@ == peers_text(local@, Seq::empty()),
{
    let mut s: String = "{\"local\":".to_owned();
    push_text(&mut s, local);
    push_text(&mut s, ",\"peers\":[");
    push_text(&mut s, "]}");
    assert(s@ =~= peers_text(local@, Seq::empty()));
    s
}

/// Gives the file for a node.
pub fn build_peers_json(node: &Node, local: &str) -> (s: String)
    requires
        node.wf(),
    ensures
        s@ == peers_text(
            local@,
            entries_text(
                node@,
                node@.peers.order.filter(crate::manager::is_connected(node@.peers.known)),
            ),
        ),
{
    let ids: Vec<PeerId> = node.peers().connected_peers();
    let mut entries: String = String::new();
    let mut i: usize = 0;
    while i < ids.len()
        invariant
            node.wf(),
            i <= ids@.len(),
            entries@ == entries_text(node@, ids@.take(i as int)),
        decreases ids.len() - i,
    {
        let ghost before = entries@;
        if i > 0 {
            push_text(&mut entries, ",");
        }
        push_text(&mut entries, build_peer_entry(node, &ids[i]).as_str());
        i = i + 1;
        proof {
            assert(ids@.take(i as int).drop_last() =~= ids@.take(i - 1));
            assert(entries@ =~= entries_text(node@, ids@.take(i as int)));
        }
    }
    assert(ids@.take(i as int) =~= ids@);
    let mut s: String = "{\"local\":".to_owned();
    push_text(&mut s, local);
    push_text(&mut s, ",\"peers\":[");
    push_text(&mut s, entries.as_str());
    push_text(&mut s, "]}");
    s
}

/// Whether the file is written anew after an event: a peer was removed or came
/// up.
pub fn asks_for_snapshot(e: &PeerEvent) -> (r: bool)
    ensures
        r == (match e {
            PeerEvent::Removed { .. } => true,
            PeerEvent::StateChanged { to, .. } => *to == PeerState::Connected,
            _ => false,
        }),
{
    match e {
        PeerEvent::Removed { .. } => true,
        PeerEvent::StateChanged { to, .. } => *to == PeerState::Connected,
        _ => false,
    }
}

/// What the file says after an event, if it is written anew. The session of a
/// peer that was removed is ended first.
pub fn on_event(node: &mut Node, e: &PeerEvent, local: &str) -> (r: Option<String>)
    requires
        old(node).wf(),
    ensures
        final(node).wf(),
        final(node)@ == (match e {
            PeerEvent::Removed { id } => old(node)@.dropped(*id),
            _ => old(node)@,
        }),
        match r {
            Some(s) => {
                &&& (e is Removed || (e is StateChanged && e->to == PeerState::Connected))
                &&& s@ == peers_text(
                    local@,
                    entries_text(
                        final(node)@,
                        final(node)@.peers.order.filter(
                            crate::manager::is_connected(final(node)@.peers.known),
                        ),
                    ),
                )
            },
            None => !(e is Removed || (e is StateChanged && e->to == PeerState::Connected)),
        },
{
    if let PeerEvent::Removed { id } = e {
        node.drop_session(id);
    }
    if asks_for_snapshot(e) {
        Some(build_peers_json(node, local))
    } else {
        None
    }
}


/// An entry tells of a peer what the node knows: the route's overlay address, the relay
/// that leads to it or that the connection is direct, and of a known peer its name, its
/// addresses and its latency; what is not known is left empty.
pub proof fn entries_tell_what_is_known(s: NodeState, id: PeerId)
    ensures
        ({
            let e = entry_texts(s, id);
            &&& s.paths.has(id) ==> e.connection == "relay"@ && e.relay_via
                == crate::text::short_hex_text(s.paths.map[id].0@)
            &&& !s.paths.has(id) ==> e.connection == "direct"@ && e.relay_via.len() == 0
            &&& s.routes.addrs.contains_key(id) ==> e.overlay == s.routes.addrs[id].text()
            &&& !s.routes.addrs.contains_key(id) ==> e.overlay.len() == 0
            &&& s.peers.known.contains_key(id) ==> {
                let p = s.peers.known[id];
                &&& e.hostname == p.hostname
                &&& p.latency_ms matches Some(ms) ==> e.latency == crate::text::dec_text(ms as nat)
                &&& p.latency_ms is None ==> e.latency.len() == 0
                &&& p.underlay_addr matches Some(a) ==> e.underlay == a.text()
                &&& p.underlay_addr is None ==> e.underlay.len() == 0
                &&& p.public_addr matches Some(a) ==> e.public_addr == a.text()
                &&& p.public_addr is None ==> e.public_addr.len() == 0
                &&& p.overlay_ipv6 matches Some(a) ==> e.overlay_ipv6 == a.text()
                &&& p.overlay_ipv6 is None ==> e.overlay_ipv6.len() == 0
            }
            &&& !s.peers.known.contains_key(id) ==> e.hostname.len() == 0 && e.latency.len() == 0
                && e.underlay.len() == 0 && e.public_addr.len() == 0 && e.overlay_ipv6.len() == 0
        }),
{
}

/// The entries stand in the order of the peers, each whole, with commas between.
pub proof fn entries_stand_side_by_side(s: NodeState, ids: Seq<PeerId>, id: PeerId)
    ensures
        entries_text(s, seq![id]) == entry_text(id, entry_texts(s, id)),
        ids.len() > 0 ==> entries_text(s, ids.push(id)) == entries_text(s, ids) + seq![',']
            + entry_text(id, entry_texts(s, id)),
        entries_text(s, Seq::empty()).len() == 0,
{
    reveal_strlit(",");
    assert(","@ =~= seq![',']);
    assert(seq![id].last() == id);
    assert(ids.push(id).drop_last() =~= ids);
    assert(ids.push(id).last() == id);
}

/// A text holds each part that follows a beginning of it.
proof fn lemma_part(t: Seq<char>, front: Seq<char>, part: Seq<char>, whole: Seq<char>)
    requires
        (front + part).is_prefix_of(whole),
        whole.is_prefix_of(t),
    ensures
        crate::words::holds(t, part),
        front.is_prefix_of(t),
{
    let i = front.len() as int;
    assert(whole =~= t.subrange(0, whole.len() as int));
    assert(front + part =~= whole.subrange(0, (front + part).len() as int));
    assert forall|k: int| 0 <= k < (front + part).len() implies t[k] == (front + part)[k] by {
        assert(whole[k] == t.subrange(0, whole.len() as int)[k]);
        assert((front + part)[k] == whole.subrange(0, (front + part).len() as int)[k]);
    }
    assert(t.subrange(i, i + part.len()) =~= part) by {
        assert forall|k: int| 0 <= k < part.len() implies t[i + k] == part[k] by {
            assert((front + part)[i + k] == part[k]);
        }
    }
    assert(front =~= t.subrange(0, i)) by {
        assert forall|k: int| 0 <= k < i implies t[k] == front[k] by {
            assert((front + part)[k] == front[k]);
        }
    }
}

/// The entry of a peer holds each of its texts as the value of its name.
pub proof fn entries_hold_each_text(id: PeerId, e: EntryTexts)
    ensures
        ({
            let t = entry_text(id, e);
            &&& crate::words::holds(t, field_text("id"@, crate::text::hex_text(id@)))
            &&& crate::words::holds(t, field_text("overlay"@, e.overlay))
            &&& crate::words::holds(t, field_text("hostname"@, e.hostname))
            &&& crate::words::holds(t, field_text("connection"@, e.connection))
            &&& crate::words::holds(t, field_text("relay_via"@, e.relay_via))
            &&& crate::words::holds(t, field_text("latency_ms"@, e.latency))
            &&& crate::words::holds(t, field_text("underlay"@, e.underlay))
        }),
{
    let t = entry_text(id, e);
    let comma = ","@;
    let a = "{"@;
    let f0 = field_text("id"@, crate::text::hex_text(id@));
    let s0 = comma + field_text("id_short"@, crate::text::short_hex_text(id@)) + comma;
    let b = a + f0 + s0;
    let f1 = field_text("overlay"@, e.overlay);
    let s1 = comma + field_text("overlay_ipv6"@, e.overlay_ipv6) + comma;
    let c = b + f1 + s1;
    let f2 = field_text("hostname"@, e.hostname);
    let s2 = comma + field_text("public_addr"@, e.public_addr) + comma;
    let d = c + f2 + s2;
    let f3 = field_text("connection"@, e.connection);
    let g = d + f3 + comma;
    let f4 = field_text("relay_via"@, e.relay_via);
    let h = g + f4 + comma;
    let f5 = field_text("latency_ms"@, e.latency);
    let k = h + f5 + comma;
    let f6 = field_text("underlay"@, e.underlay);
    assert(t =~= k + f6 + "}"@);
    assert((k + f6).is_prefix_of(t));
    lemma_part(t, k, f6, t);
    assert((h + f5).is_prefix_of(k));
    lemma_part(t, h, f5, k);
    assert((g + f4).is_prefix_of(h));
    lemma_part(t, g, f4, h);
    assert((d + f3).is_prefix_of(g));
    lemma_part(t, d, f3, g);
    assert((c + f2).is_prefix_of(d));
    lemma_part(t, c, f2, d);
    assert((b + f1).is_prefix_of(c));
    lemma_part(t, b, f1, c);
    assert((a + f0).is_prefix_of(b));
    lemma_part(t, a, f0, b);
}

/// A field is its name and its value in double quotes, with a colon between; the file is
/// an object with our own entry and the list of the others.
pub proof fn fields_are_quoted(name: Seq<char>, value: Seq<char>, local: Seq<char>, entries: Seq<char>)
    ensures
        field_text(name, value) == seq!['"'] + name + seq!['"', ':', '"'] + value + seq!['"'],
        ({
            let t = peers_text(local, entries);
            &&& t.len() == 9 + local.len() + 10 + entries.len() + 2
            &&& t.subrange(9, 9int + local.len()) == local
            &&& t.subrange(19int + local.len(), 19int + local.len() + entries.len()) == entries
        }),
{
    reveal_strlit("\"");
    reveal_strlit("\":\"");
    reveal_strlit("{\"local\":");
    reveal_strlit(",\"peers\":[");
    reveal_strlit("]}");
    assert(field_text(name, value) =~= seq!['"'] + name + seq!['"', ':', '"'] + value + seq!['"']);
    let t = peers_text(local, entries);
    assert(t.subrange(9, 9int + local.len()) =~= local);
    assert(t.subrange(19int + local.len(), 19int + local.len() + entries.len()) =~= entries);
}
} // verus!
