//! The connected peers, as the file that says who is connected lists them.
use crate::json::{list_in, member, member_string, member_text, parse_json, Json};
use serde_json::Value;
use vstd::prelude::*;

verus! {

/// A connected peer, or this device.
#[derive(Debug, PartialEq, Eq)]
pub struct PeerRow {
    pub id_short: String,
    pub overlay: String,
    pub overlay_ipv6: String,
    pub underlay: String,
    pub hostname: String,
    /// `direct` or `relay`.
    pub connection: String,
    pub relay_via: String,
    pub is_local: bool,
}

/// What a [`PeerRow`] says.
#[verifier::ext_equal]
pub ghost struct Row {
    pub id_short: Seq<char>,
    pub overlay: Seq<char>,
    pub overlay_ipv6: Seq<char>,
    pub underlay: Seq<char>,
    pub hostname: Seq<char>,
    pub connection: Seq<char>,
    pub relay_via: Seq<char>,
    pub is_local: bool,
}

impl View for PeerRow {
    type V = Row;

    open spec fn view(&self) -> Row {
        Row {
            id_short: self.id_short@,
            overlay: self.overlay@,
            overlay_ipv6: self.overlay_ipv6@,
            underlay: self.underlay@,
            hostname: self.hostname@,
            connection: self.connection@,
            relay_via: self.relay_via@,
            is_local: self.is_local,
        }
    }
}

/// What several rows say.
pub open spec fn rows_view(v: Seq<PeerRow>) -> Seq<Row> {
    v.map_values(|r: PeerRow| r@)
}

/// The row for this device: it needs an id and an overlay address.
pub open spec fn local_row(j: Json) -> Option<Row> {
    let own = crate::json::member_of(j, "local"@);
    match (
        crate::json::member_of(own, "id_short"@),
        crate::json::member_of(own, "overlay"@),
    ) {
        (Json::Text(id_short), Json::Text(overlay)) => Some(
            Row {
                id_short,
                overlay,
                overlay_ipv6: crate::json::text_or(own, "overlay_ipv6"@, ""@),
                underlay: Seq::empty(),
                hostname: crate::json::text_or(own, "hostname"@, ""@),
                connection: "direct"@,
                relay_via: Seq::empty(),
                is_local: true,
            },
        ),
        _ => None,
    }
}

/// The row for a peer: it needs an id, an overlay and an underlay address.
pub open spec fn remote_row(j: Json) -> Option<Row> {
    match (
        crate::json::member_of(j, "id_short"@),
        crate::json::member_of(j, "overlay"@),
        crate::json::member_of(j, "underlay"@),
    ) {
        (Json::Text(id_short), Json::Text(overlay), Json::Text(underlay)) => Some(
            Row {
                id_short,
                overlay,
                overlay_ipv6: crate::json::text_or(j, "overlay_ipv6"@, ""@),
                underlay,
                hostname: crate::json::text_or(j, "hostname"@, ""@),
                connection: crate::json::text_or(j, "connection"@, "direct"@),
                relay_via: crate::json::text_or(j, "relay_via"@, ""@),
                is_local: false,
            },
        ),
        _ => None,
    }
}

/// The rows for those elements that have what a row needs.
pub open spec fn remote_rows(js: Seq<Json>) -> Seq<Row>
    decreases js.len(),
{
    if js.len() == 0 {
        Seq::empty()
    } else {
        let before = remote_rows(js.drop_last());
        match remote_row(js.last()) {
            Some(r) => before.push(r),
            None => before,
        }
    }
}

/// What the file says: this device, and the peers; no peers if the file has no
/// list of them.
#[derive(Debug, PartialEq, Eq)]
pub struct PeersFile {
    pub local: Option<PeerRow>,
    pub peers: Option<Vec<PeerRow>>,
}

fn read_local(v: &Value) -> (r: Option<PeerRow>)
    ensures
        match r {
            Some(row) => local_row(crate::json::json_tree(*v)) == Some(row@),
            None => local_row(crate::json::json_tree(*v)) is None,
        },
{
    let own: &Value = member(v, "local");
    let id_short: String = match member_string(own, "id_short") {
        Some(s) => s,
        None => return None,
    };
    let overlay: String = match member_string(own, "overlay") {
        Some(s) => s,
        None => return None,
    };
    let row: PeerRow = PeerRow {
        id_short,
        overlay,
        overlay_ipv6: member_text(own, "overlay_ipv6", ""),
        underlay: String::new(),
        hostname: member_text(own, "hostname", ""),
        connection: "direct".to_owned(),
        relay_via: String::new(),
        is_local: true,
    };
    assert(row@ =~= local_row(crate::json::json_tree(*v))->Some_0);
    Some(row)
}

fn read_remote(v: &Value) -> (r: Option<PeerRow>)
    ensures
        match r {
            Some(row) => remote_row(crate::json::json_tree(*v)) == Some(row@),
            None => remote_row(crate::json::json_tree(*v)) is None,
        },
{
    let id_short: String = match member_string(v, "id_short") {
        Some(s) => s,
        None => return None,
    };
    let overlay: String = match member_string(v, "overlay") {
        Some(s) => s,
        None => return None,
    };
    let underlay: String = match member_string(v, "underlay") {
        Some(s) => s,
        None => return None,
    };
    let row: PeerRow = PeerRow {
        id_short,
        overlay,
        overlay_ipv6: member_text(v, "overlay_ipv6", ""),
        underlay,
        hostname: member_text(v, "hostname", ""),
        connection: member_text(v, "connection", "direct"),
        relay_via: member_text(v, "relay_via", ""),
        is_local: false,
    };
    assert(row@ =~= remote_row(crate::json::json_tree(*v))->Some_0);
    Some(row)
}

fn read_remotes(vs: &Vec<Value>) -> (r: Vec<PeerRow>)
    ensures
        rows_view(r@) == remote_rows(crate::json::json_trees(vs@)),
{
    let ghost js = crate::json::json_trees(vs@);
    let mut r: Vec<PeerRow> = Vec::new();
    let mut i: usize = 0;
    assert(rows_view(r@) =~= Seq::empty());
    while i < vs.len()
        invariant
            i <= vs@.len(),
            js == crate::json::json_trees(vs@),
            rows_view(r@) == remote_rows(js.take(i as int)),
        decreases vs.len() - i,
    {
        proof {
            assert(js.take(i + 1).drop_last() =~= js.take(i as int));
            assert(js.take(i + 1).last() == crate::json::json_tree(vs@[i as int]));
        }
        if let Some(row) = read_remote(&vs[i]) {
            let ghost was = r@;
            r.push(row);
            assert(rows_view(r@) =~= rows_view(was).push(row@));
        }
        i = i + 1;
    }
    assert(js.take(i as int) =~= js);
    r
}

/// Reads the file; nothing if it is not JSON.
pub fn read_peers_file(text: &str) -> (r: Option<PeersFile>)
    ensures
        match crate::json::json_parsed(text@) {
            Some(j) => {
                &&& r matches Some(f)
                &&& match local_row(j) {
                    Some(row) => f.local matches Some(l) && l@ == row,
                    None => f.local is None,
                }
                &&& match crate::json::member_of(j, "peers"@) {
                    Json::List(js) => f.peers matches Some(ps) && rows_view(ps@) == remote_rows(js),
                    _ => f.peers is None,
                }
            },
            None => r is None,
        },
{
    let v: Value = match parse_json(text) {
        Some(v) => v,
        None => return None,
    };
    let peers: Option<Vec<PeerRow>> = match list_in(member(&v, "peers")) {
        Some(vs) => Some(read_remotes(vs)),
        None => None,
    };
    Some(PeersFile { local: read_local(&v), peers })
}


/// A row shows what the file says of its peer: its short id and its addresses, and where
/// the file gives them its host name and its connection; without the first three there is
/// no row, and without a word on the connection it is a direct one.
pub proof fn rows_show_what_the_file_says(j: Json)
    ensures
        remote_row(j) is Some <==> (crate::json::member_of(j, "id_short"@) is Text
            && crate::json::member_of(j, "overlay"@) is Text && crate::json::member_of(
            j,
            "underlay"@,
        ) is Text),
        remote_row(j) matches Some(r) ==> {
            &&& !r.is_local
            &&& crate::json::member_of(j, "id_short"@) == Json::Text(r.id_short)
            &&& crate::json::member_of(j, "overlay"@) == Json::Text(r.overlay)
            &&& crate::json::member_of(j, "underlay"@) == Json::Text(r.underlay)
            &&& crate::json::member_of(j, "hostname"@) matches Json::Text(t) ==> r.hostname == t
            &&& crate::json::member_of(j, "connection"@) matches Json::Text(t) ==> r.connection == t
            &&& crate::json::member_of(j, "relay_via"@) matches Json::Text(t) ==> r.relay_via == t
            &&& crate::json::member_of(j, "overlay_ipv6"@) matches Json::Text(t) ==> r.overlay_ipv6
                == t
            &&& !(crate::json::member_of(j, "connection"@) is Text) ==> r.connection == "direct"@
            &&& !(crate::json::member_of(j, "hostname"@) is Text) ==> r.hostname.len() == 0
            &&& !(crate::json::member_of(j, "relay_via"@) is Text) ==> r.relay_via.len() == 0
        },
        local_row(j) matches Some(r) ==> {
            let own = crate::json::member_of(j, "local"@);
            &&& r.is_local
            &&& crate::json::member_of(own, "id_short"@) == Json::Text(r.id_short)
            &&& crate::json::member_of(own, "overlay"@) == Json::Text(r.overlay)
            &&& crate::json::member_of(own, "hostname"@) matches Json::Text(t) ==> r.hostname == t
            &&& crate::json::member_of(own, "overlay_ipv6"@) matches Json::Text(t)
                ==> r.overlay_ipv6 == t
        },
{
    reveal_strlit("");
}

/// Rows are read one by one, in order; an entry that gives none does no harm to the
/// others.
pub proof fn rows_are_read_one_by_one(a: Seq<Json>, b: Seq<Json>)
    ensures
        remote_rows(a + b) == remote_rows(a) + remote_rows(b),
        a.len() == 1 ==> match remote_row(a[0]) {
            Some(r) => remote_rows(a) == seq![r],
            None => remote_rows(a).len() == 0,
        },
    decreases b.len(),
{
    if a.len() == 1 {
        assert(a.drop_last() =~= Seq::<Json>::empty());
        assert(remote_rows(a.drop_last()) =~= Seq::<Row>::empty());
        assert(a.last() == a[0]);
    }
    if b.len() == 0 {
        assert(a + b =~= a);
        assert(remote_rows(a + b) =~= remote_rows(a) + remote_rows(b));
    } else {
        rows_are_read_one_by_one(a, b.drop_last());
        assert((a + b).drop_last() =~= a + b.drop_last());
        assert((a + b).last() == b.last());
        assert(remote_rows(a + b) =~= remote_rows(a) + remote_rows(b));
    }
}
} // verus!
