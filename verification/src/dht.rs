//! Peers from the BitTorrent DHT.
use crate::error::Error;
use crate::net::{Ipv4Addr, SocketAddr};
use crate::text::push_text;
use crate::types::InfoHash;
use mainline::Id;
use vstd::prelude::*;

verus! {

// ---------------------------------------------------------------------------
// Keys
// ---------------------------------------------------------------------------
/// A key of the DHT, of the `mainline` crate.
#[verifier::external_type_specification]
#[verifier::external_body]
pub struct ExId(mainline::Id);

/// The bytes of a key.
pub uninterp spec fn id_bytes(id: Id) -> Seq<u8>;

/// `Id::from_bytes`, with the text of the error: succeeds exactly for twenty
/// bytes, and keeps them.
#[verifier::external_body]
fn id_from_bytes(bytes: &[u8]) -> (r: Result<Id, String>)
    ensures
        match r {
            Ok(id) => bytes@.len() == 20 && id_bytes(id) == bytes@,
            Err(m) => bytes@.len() != 20 && m@ == "Invalid Id size, expected 20, got "@
                + crate::text::dec_text(bytes@.len()),
        },
{
    Id::from_bytes(bytes).map_err(|e| e.to_string())
}

/// The key under which a network is announced and looked up: its info-hash.
pub fn id_from_infohash(info_hash: &InfoHash) -> (r: Result<Id, Error>)
    ensures
        r matches Ok(id) && id_bytes(id) == info_hash@,
{
    match id_from_bytes(info_hash.as_bytes()) {
        Ok(id) => Ok(id),
        Err(e) => {
            let mut m: String = "invalid infohash length: ".to_owned();
            push_text(&mut m, e.as_str());
            Err(Error::Dht(m))
        },
    }
}

// ---------------------------------------------------------------------------
// Answers
// ---------------------------------------------------------------------------
/// Where an address stands in the order: by IP address, then by port.
pub open spec fn rank(a: (Ipv4Addr, u16)) -> int {
    a.0.number() * 65536 + a.1
}

/// Whether a list is in order and holds nothing twice.
pub open spec fn strictly_sorted(s: Seq<(Ipv4Addr, u16)>) -> bool {
    forall|i: int, j: int| 0 <= i < j < s.len() ==> rank(#[trigger] s[i]) < rank(#[trigger] s[j])
}

fn rank_of(a: &(Ipv4Addr, u16)) -> (r: u64)
    ensures
        r == rank(*a),
{
    (a.0.to_number() as u64) * 65536 + a.1 as u64
}

/// Addresses of the same rank are the same.
pub proof fn rank_injective(a: (Ipv4Addr, u16), b: (Ipv4Addr, u16))
    requires
        rank(a) == rank(b),
    ensures
        a == b,
{
    assert(a.0.number() == b.0.number());
    crate::net::ipv4_number_injective(a.0, b.0);
}

/// The list as socket addresses.
pub open spec fn socket_addrs(s: Seq<(Ipv4Addr, u16)>) -> Seq<SocketAddr> {
    s.map_values(|a: (Ipv4Addr, u16)| SocketAddr::V4 { ip: a.0, port: a.1 })
}

/// Whether a list holds what another holds, in order and once.
pub open spec fn sorts(found: Seq<(Ipv4Addr, u16)>, s: Seq<(Ipv4Addr, u16)>) -> bool {
    &&& strictly_sorted(s)
    &&& forall|a: (Ipv4Addr, u16)| #[trigger] s.contains(a) <==> found.contains(a)
}

fn insert_sorted(s: &mut Vec<(Ipv4Addr, u16)>, a: (Ipv4Addr, u16))
    requires
        strictly_sorted(old(s)@),
    ensures
        strictly_sorted(final(s)@),
        forall|x: (Ipv4Addr, u16)| #[trigger]
            final(s)@.contains(x) <==> (old(s)@.contains(x) || x == a),
{
    let ghost before = s@;
    let key: u64 = rank_of(&a);
    let mut i: usize = 0;
    while i < s.len() && rank_of(&s[i]) < key
        invariant
            i <= s@.len(),
            s@ == before,
            key == rank(a),
            forall|j: int| 0 <= j < i ==> rank(#[trigger] s@[j]) < key,
        decreases s.len() - i,
    {
        i = i + 1;
    }
    if i < s.len() && rank_of(&s[i]) == key {
        proof {
            rank_injective(s@[i as int], a);
        }
        return;
    }
    proof {
        if i < s@.len() {
            assert(rank(s@[i as int]) > key);
        }
    }
    s.insert(i, a);
    proof {
        let after = s@;
        assert(after =~= before.insert(i as int, a));
        assert forall|p: int, q: int| 0 <= p < q < after.len() implies rank(#[trigger] after[p])
            < rank(#[trigger] after[q]) by {
            if p < i && q > i {
                assert(before[p] == after[p] && before[q - 1] == after[q]);
            } else if p < i && q < i {
                assert(before[p] == after[p] && before[q] == after[q]);
            } else if p == i {
                assert(before[q - 1] == after[q]);
                if q - 1 > i {
                    assert(rank(before[i as int]) < rank(before[q - 1]));
                }
            } else if p > i {
                assert(before[p - 1] == after[p] && before[q - 1] == after[q]);
            } else {
                assert(before[p] == after[p]);
            }
        }
        assert forall|x: (Ipv4Addr, u16)| #[trigger] after.contains(x) <==> (before.contains(x) || x
            == a) by {
            if before.contains(x) {
                let k = before.index_of(x);
                if k < i {
                    assert(after[k] == x);
                } else {
                    assert(after[k + 1] == x);
                }
            }
            if after.contains(x) {
                let k = after.index_of(x);
                if k < i {
                    assert(before[k] == x);
                } else if k > i {
                    assert(before[k - 1] == x);
                }
            }
            if x == a {
                assert(after[i as int] == x);
            }
        }
    }
}

/// The peers that a lookup found: in order, each once.
pub fn peer_list(found: &Vec<(Ipv4Addr, u16)>) -> (r: Vec<SocketAddr>)
    ensures
        exists|s: Seq<(Ipv4Addr, u16)>| #[trigger] sorts(found@, s) && r@ == socket_addrs(s),
{
    let mut s: Vec<(Ipv4Addr, u16)> = Vec::new();
    let mut i: usize = 0;
    while i < found.len()
        invariant
            i <= found@.len(),
            sorts(found@.take(i as int), s@),
        decreases found.len() - i,
    {
        let ghost before = s@;
        insert_sorted(&mut s, found[i]);
        proof {
            let was = found@.take(i as int);
            let now = found@.take(i + 1);
            assert(now =~= was.push(found@[i as int]));
            assert forall|a: (Ipv4Addr, u16)| #[trigger] s@.contains(a) <==> now.contains(a) by {
                if was.contains(a) {
                    let k = was.index_of(a);
                    assert(now[k] == a);
                }
                if now.contains(a) {
                    let k = now.index_of(a);
                    if k < i {
                        assert(was[k] == a);
                    }
                }
                assert(now[i as int] == found@[i as int]);
                assert(before.contains(a) <==> was.contains(a));
            }
        }
        i = i + 1;
    }
    assert(found@.take(i as int) =~= found@);
    let mut r: Vec<SocketAddr> = Vec::new();
    let mut k: usize = 0;
    while k < s.len()
        invariant
            k <= s@.len(),
            r@ == socket_addrs(s@.take(k as int)),
        decreases s.len() - k,
    {
        r.push(SocketAddr::v4(s[k].0, s[k].1));
        k = k + 1;
        assert(r@ =~= socket_addrs(s@.take(k as int)));
    }
    assert(s@.take(k as int) =~= s@);
    r
}

proof fn lemma_same_sorted(x: Seq<(Ipv4Addr, u16)>, y: Seq<(Ipv4Addr, u16)>)
    requires
        strictly_sorted(x),
        strictly_sorted(y),
        forall|a: (Ipv4Addr, u16)|
            #![trigger x.contains(a)]
            #![trigger y.contains(a)]
            x.contains(a) <==> y.contains(a),
    ensures
        x == y,
    decreases x.len(),
{
    if x.len() == 0 {
        if y.len() > 0 {
            assert(y.contains(y[0]));
        }
        assert(x =~= y);
    } else {
        assert(x.contains(x.last()));
        assert(y.contains(x.last()));
        let j = y.index_of(x.last());
        assert(y.contains(y.last()));
        assert(x.contains(y.last()));
        let i = x.index_of(y.last());
        if j < y.len() - 1 {
            assert(rank(y[j]) < rank(y[y.len() - 1]));
            if i < x.len() - 1 {
                assert(rank(x[i]) < rank(x[x.len() - 1]));
            }
        }
        assert(j == y.len() - 1);
        let x1 = x.drop_last();
        let y1 = y.drop_last();
        assert forall|a: (Ipv4Addr, u16)|
            #![trigger x1.contains(a)]
            #![trigger y1.contains(a)]
            x1.contains(a) <==> y1.contains(a) by {
            if x1.contains(a) {
                let k = x1.index_of(a);
                assert(x[k] == a);
                assert(x.contains(a));
                assert(rank(x[k]) < rank(x[x.len() - 1]));
                let m = y.index_of(a);
                assert(y[m] == a);
                assert(m < y.len() - 1);
                assert(y1[m] == a);
            }
            if y1.contains(a) {
                let k = y1.index_of(a);
                assert(y[k] == a);
                assert(y.contains(a));
                assert(rank(y[k]) < rank(y[y.len() - 1]));
                let m = x.index_of(a);
                assert(x[m] == a);
                assert(m < x.len() - 1);
                assert(x1[m] == a);
            }
        }
        assert forall|p: int, q: int| 0 <= p < q < x1.len() implies rank(#[trigger] x1[p]) < rank(
            #[trigger] x1[q],
        ) by {
            assert(rank(x[p]) < rank(x[q]));
        }
        assert forall|p: int, q: int| 0 <= p < q < y1.len() implies rank(#[trigger] y1[p]) < rank(
            #[trigger] y1[q],
        ) by {
            assert(rank(y[p]) < rank(y[q]));
        }
        lemma_same_sorted(x1, y1);
        assert(x =~= x1.push(x.last()));
        assert(y =~= y1.push(y.last()));
    }
}

/// The list of peers depends on what was found alone, not on the order or on how
/// often it was found.
pub proof fn answers_in_any_order(
    found: Seq<(Ipv4Addr, u16)>,
    again: Seq<(Ipv4Addr, u16)>,
    s: Seq<(Ipv4Addr, u16)>,
    t: Seq<(Ipv4Addr, u16)>,
)
    requires
        forall|a: (Ipv4Addr, u16)| #[trigger] found.contains(a) <==> again.contains(a),
        sorts(found, s),
        sorts(again, t),
    ensures
        s == t,
{
    assert forall|a: (Ipv4Addr, u16)|
        #![trigger s.contains(a)]
        #![trigger t.contains(a)]
        s.contains(a) <==> t.contains(a) by {
        assert(found.contains(a) <==> again.contains(a));
    }
    lemma_same_sorted(s, t);
}


/// Peers are listed by their address, first octet first, and those at one address by
/// their port.
pub proof fn addresses_come_before_ports(a: (Ipv4Addr, u16), b: (Ipv4Addr, u16))
    ensures
        rank(a) < rank(b) <==> (a.0.number() < b.0.number() || (a.0 == b.0 && a.1 < b.1)),
{
    if a.0.number() == b.0.number() {
        crate::net::ipv4_number_injective(a.0, b.0);
    }
}
} // verus!
