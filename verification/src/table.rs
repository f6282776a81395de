//! A table from keys to values: an index of the `dashmap` crate over entries in a
//! vector.
use crate::net::SocketAddr;
use crate::types::PeerId;
use dashmap::DashMap;
use std::hash::RandomState;
use vstd::prelude::*;

verus! {

// ---------------------------------------------------------------------------
// What is trusted of `dashmap`
// ---------------------------------------------------------------------------
/// The hash map of the `dashmap` crate.
#[verifier::external_type_specification]
#[verifier::external_body]
#[verifier::reject_recursive_types(K)]
#[verifier::reject_recursive_types(V)]
#[verifier::reject_recursive_types(S)]
pub struct ExDashMap<K, V, S>(dashmap::DashMap<K, V, S>);

/// What a map from thirty-two bytes to positions holds.
pub uninterp spec fn index_contents(m: DashMap<[u8; 32], usize, RandomState>) -> Map<
    Seq<u8>,
    usize,
>;

/// `DashMap::new`: an empty map.
#[verifier::external_body]
fn index_new() -> (m: DashMap<[u8; 32], usize, RandomState>)
    ensures
        forall|b: Seq<u8>| !index_contents(m).contains_key(b),
{
    DashMap::new()
}

/// `DashMap::insert`: the key has the new position afterwards; all other keys
/// are as before.
#[verifier::external_body]
fn index_insert(m: &mut DashMap<[u8; 32], usize, RandomState>, key: [u8; 32], at: usize)
    ensures
        index_contents(*final(m)) == index_contents(*old(m)).insert(key@, at),
{
    m.insert(key, at);
}

/// `DashMap::remove`: the key is gone afterwards; all other keys are as before.
#[verifier::external_body]
fn index_remove(m: &mut DashMap<[u8; 32], usize, RandomState>, key: &[u8; 32])
    ensures
        index_contents(*final(m)) == index_contents(*old(m)).remove(key@),
{
    m.remove(key);
}

/// `DashMap::get`, with the position copied out.
#[verifier::external_body]
fn index_get(m: &DashMap<[u8; 32], usize, RandomState>, key: &[u8; 32]) -> (r: Option<usize>)
    ensures
        match r {
            Some(at) => index_contents(*m).contains_key(key@) && index_contents(*m)[key@] == at,
            None => !index_contents(*m).contains_key(key@),
        },
{
    m.get(key).map(|e| *e.value())
}

// ---------------------------------------------------------------------------
// Keys
// ---------------------------------------------------------------------------
/// What a table can be keyed by: values that thirty-two bytes tell apart.
pub trait Keyed: Copy {
    /// The bytes of the key.
    spec fn key(&self) -> Seq<u8>;

    /// Gives the bytes of the key.
    fn to_key(&self) -> (k: [u8; 32])
        ensures
            k@ == self.key(),
    ;

    /// The bytes tell keys apart.
    proof fn key_injective(a: Self, b: Self)
        requires
            a.key() == b.key(),
        ensures
            a == b,
    ;
}

impl Keyed for PeerId {
    open spec fn key(&self) -> Seq<u8> {
        self@
    }

    fn to_key(&self) -> (k: [u8; 32]) {
        self.bytes
    }

    proof fn key_injective(a: PeerId, b: PeerId) {
        crate::types::peer_id_by_bytes(a, b);
    }
}

impl Keyed for u64 {
    open spec fn key(&self) -> Seq<u8> {
        crate::text::be32_bytes((*self / 0x1_0000_0000) as u32) + crate::text::be32_bytes(
            (*self % 0x1_0000_0000) as u32,
        ) + Seq::new(24, |i: int| 0u8)
    }

    fn to_key(&self) -> (k: [u8; 32]) {
        let mut out: Vec<u8> = Vec::new();
        crate::text::push_be32(&mut out, (*self / 0x1_0000_0000) as u32);
        crate::text::push_be32(&mut out, (*self % 0x1_0000_0000) as u32);
        crate::text::push_zeros(&mut out, 24);
        assert(out@ =~= self.key());
        let k: [u8; 32] = crate::text::array_32(out.as_slice(), 0);
        assert(k@ =~= out@);
        k
    }

    proof fn key_injective(a: u64, b: u64) {
        let (ah, al) = ((a / 0x1_0000_0000) as u32, (a % 0x1_0000_0000) as u32);
        let (bh, bl) = ((b / 0x1_0000_0000) as u32, (b % 0x1_0000_0000) as u32);
        assert(crate::text::be32_bytes(ah) =~= a.key().subrange(0, 4));
        assert(crate::text::be32_bytes(bh) =~= b.key().subrange(0, 4));
        assert(crate::text::be32_bytes(al) =~= a.key().subrange(4, 8));
        assert(crate::text::be32_bytes(bl) =~= b.key().subrange(4, 8));
        crate::text::be32_round_trip(ah);
        crate::text::be32_round_trip(bh);
        crate::text::be32_round_trip(al);
        crate::text::be32_round_trip(bl);
    }
}

/// Family, octets, port, flow label and scope of a socket address, and zeros up
/// to twenty-seven bytes.
pub open spec fn addr_key(a: SocketAddr) -> Seq<u8> {
    match a {
        SocketAddr::V4 { ip, port } => seq![4u8] + ip.bytes() + crate::text::be16_bytes(port)
            + Seq::new(20, |i: int| 0u8),
        SocketAddr::V6 { ip, port, flowinfo, scope_id } => seq![6u8] + ip.bytes()
            + crate::text::be16_bytes(port) + crate::text::be32_bytes(flowinfo)
            + crate::text::be32_bytes(scope_id),
    }
}

/// Appends the key of a socket address.
pub fn push_addr_key(out: &mut Vec<u8>, a: &SocketAddr)
    ensures
        final(out)@ == old(out)@ + addr_key(*a),
{
    let ghost before = out@;
    match a {
        SocketAddr::V4 { ip, port } => {
            out.push(4);
            crate::codec::encode_ipv4(out, ip);
            crate::text::push_be16(out, *port);
            crate::text::push_zeros(out, 20);
        },
        SocketAddr::V6 { ip, port, flowinfo, scope_id } => {
            out.push(6);
            let octets: [u8; 16] = ip.octets();
            crate::text::push_bytes(out, octets.as_slice());
            crate::text::push_be16(out, *port);
            crate::text::push_be32(out, *flowinfo);
            crate::text::push_be32(out, *scope_id);
        },
    }
    assert(out@ =~= before + addr_key(*a));
}

/// Socket addresses with the same key are the same.
pub proof fn addr_key_injective(a: SocketAddr, b: SocketAddr)
    requires
        addr_key(a) == addr_key(b),
    ensures
        a == b,
{
    let x = addr_key(a);
    let y = addr_key(b);
    assert(x[0] == y[0]);
    match (a, b) {
        (SocketAddr::V4 { ip: i1, port: p1 }, SocketAddr::V4 { ip: i2, port: p2 }) => {
            assert(x[1] == i1.a && x[2] == i1.b && x[3] == i1.c && x[4] == i1.d);
            assert(y[1] == i2.a && y[2] == i2.b && y[3] == i2.c && y[4] == i2.d);
            assert(x[5] == crate::text::be16_bytes(p1)[0] && x[6] == crate::text::be16_bytes(
                p1,
            )[1]);
            assert(y[5] == crate::text::be16_bytes(p2)[0] && y[6] == crate::text::be16_bytes(
                p2,
            )[1]);
            crate::text::be16_round_trip(p1);
            crate::text::be16_round_trip(p2);
        },
        (
            SocketAddr::V6 { ip: i1, port: p1, flowinfo: f1, scope_id: s1 },
            SocketAddr::V6 { ip: i2, port: p2, flowinfo: f2, scope_id: s2 },
        ) => {
            assert forall|k: int| 0 <= k < 16 implies i1.bytes()[k] == i2.bytes()[k] by {
                assert(x[k + 1] == i1.bytes()[k]);
                assert(y[k + 1] == i2.bytes()[k]);
            }
            assert(i1.bytes() =~= i2.bytes());
            crate::net::ipv6_octets_round_trip(i1);
            crate::net::ipv6_octets_round_trip(i2);
            assert forall|k: int| 0 <= k < 2 implies crate::text::be16_bytes(p1)[k]
                == crate::text::be16_bytes(p2)[k] by {
                assert(x[k + 17] == crate::text::be16_bytes(p1)[k]);
                assert(y[k + 17] == crate::text::be16_bytes(p2)[k]);
            }
            assert(crate::text::be16_bytes(p1) =~= crate::text::be16_bytes(p2));
            crate::text::be16_round_trip(p1);
            crate::text::be16_round_trip(p2);
            assert forall|k: int| 0 <= k < 4 implies crate::text::be32_bytes(f1)[k]
                == crate::text::be32_bytes(f2)[k] by {
                assert(x[k + 19] == crate::text::be32_bytes(f1)[k]);
                assert(y[k + 19] == crate::text::be32_bytes(f2)[k]);
            }
            assert(crate::text::be32_bytes(f1) =~= crate::text::be32_bytes(f2));
            crate::text::be32_round_trip(f1);
            crate::text::be32_round_trip(f2);
            assert forall|k: int| 0 <= k < 4 implies crate::text::be32_bytes(s1)[k]
                == crate::text::be32_bytes(s2)[k] by {
                assert(x[k + 23] == crate::text::be32_bytes(s1)[k]);
                assert(y[k + 23] == crate::text::be32_bytes(s2)[k]);
            }
            assert(crate::text::be32_bytes(s1) =~= crate::text::be32_bytes(s2));
            crate::text::be32_round_trip(s1);
            crate::text::be32_round_trip(s2);
        },
        _ => {},
    }
}

impl Keyed for SocketAddr {
    open spec fn key(&self) -> Seq<u8> {
        addr_key(*self) + Seq::new(5, |i: int| 0u8)
    }

    fn to_key(&self) -> (k: [u8; 32]) {
        let mut out: Vec<u8> = Vec::new();
        push_addr_key(&mut out, self);
        crate::text::push_zeros(&mut out, 5);
        assert(out@ =~= self.key());
        let k: [u8; 32] = crate::text::array_32(out.as_slice(), 0);
        assert(k@ =~= out@);
        k
    }

    proof fn key_injective(a: SocketAddr, b: SocketAddr) {
        assert(addr_key(a) =~= a.key().take(27));
        assert(addr_key(b) =~= b.key().take(27));
        addr_key_injective(a, b);
    }
}

// ---------------------------------------------------------------------------
// Table
// ---------------------------------------------------------------------------
/// The map that entries with distinct keys stand for.
pub open spec fn entries_map<K, V>(entries: Seq<(K, V)>) -> Map<K, V> {
    Map::new(
        |k: K| exists|i: int| 0 <= i < entries.len() && (#[trigger] entries[i]).0 == k,
        |k: K|
            entries[choose|i: int| 0 <= i < entries.len() && (#[trigger] entries[i]).0 == k].1,
    )
}

/// Whether no key occurs twice.
pub open spec fn distinct_keys<K, V>(entries: Seq<(K, V)>) -> bool {
    forall|i: int, j: int|
        0 <= i < entries.len() && 0 <= j < entries.len() && (#[trigger] entries[i]).0 == (
        #[trigger] entries[j]).0 ==> i == j
}

/// The order of keys after one is removed: the last takes its place.
pub open spec fn order_without<K>(order: Seq<K>, k: K) -> Seq<K> {
    order.update(order.index_of(k), order.last()).drop_last()
}

/// The keys of entries, in order.
pub open spec fn entry_keys<K, V>(entries: Seq<(K, V)>) -> Seq<K> {
    entries.map_values(|e: (K, V)| e.0)
}

/// What a table holds: the value of each key, and the keys in order.
#[verifier::ext_equal]
#[verifier::reject_recursive_types(K)]
pub ghost struct Rows<K, V> {
    pub map: Map<K, V>,
    pub order: Seq<K>,
}

impl<K, V> Rows<K, V> {
    /// No rows.
    pub open spec fn empty() -> Rows<K, V> {
        Rows { map: Map::empty(), order: Seq::empty() }
    }

    /// Whether there is a row for a key.
    pub open spec fn has(self, k: K) -> bool {
        self.map.contains_key(k)
    }

    /// A row added or replaced: a new key comes last.
    pub open spec fn with(self, k: K, v: V) -> Rows<K, V> {
        Rows {
            map: self.map.insert(k, v),
            order: if self.map.contains_key(k) {
                self.order
            } else {
                self.order.push(k)
            },
        }
    }

    /// A row taken out: the last takes its place.
    pub open spec fn without(self, k: K) -> Rows<K, V> {
        Rows {
            map: self.map.remove(k),
            order: if self.map.contains_key(k) {
                order_without(self.order, k)
            } else {
                self.order
            },
        }
    }

    /// Whether the order lists each key once.
    pub open spec fn ok(self) -> bool {
        &&& self.order.no_duplicates()
        &&& forall|k: K| self.order.contains(k) <==> #[trigger] self.map.contains_key(k)
    }
}

proof fn lemma_entry_at<K, V>(entries: Seq<(K, V)>, i: int)
    requires
        distinct_keys(entries),
        0 <= i < entries.len(),
    ensures
        entries_map(entries).contains_key(entries[i].0),
        entries_map(entries)[entries[i].0] == entries[i].1,
{
    let k = entries[i].0;
    let j = choose|j: int| 0 <= j < entries.len() && (#[trigger] entries[j]).0 == k;
    assert(0 <= j < entries.len() && entries[j].0 == k);
    assert(i == j);
}

proof fn lemma_push<K, V>(entries: Seq<(K, V)>, k: K, v: V)
    requires
        distinct_keys(entries),
        !entries_map(entries).contains_key(k),
    ensures
        distinct_keys(entries.push((k, v))),
        entries_map(entries.push((k, v))) == entries_map(entries).insert(k, v),
{
    let after = entries.push((k, v));
    assert forall|i: int, j: int|
        0 <= i < after.len() && 0 <= j < after.len() && (#[trigger] after[i]).0 == (
        #[trigger] after[j]).0 implies i == j by {
        if i < entries.len() && j == entries.len() {
            assert(entries[i].0 == k);
        } else if j < entries.len() && i == entries.len() {
            assert(entries[j].0 == k);
        } else if i < entries.len() && j < entries.len() {
            assert(entries[i].0 == entries[j].0);
        }
    }
    let m = entries_map(entries).insert(k, v);
    assert forall|i: int| 0 <= i < after.len() implies m.contains_key((#[trigger] after[i]).0)
        && m[after[i].0] == after[i].1 by {
        if i < entries.len() {
            lemma_entry_at(entries, i);
        }
    }
    assert forall|q: K| #[trigger] m.contains_key(q) implies exists|i: int|
        0 <= i < after.len() && (#[trigger] after[i]).0 == q by {
        if q == k {
            assert(after[entries.len() as int].0 == q);
        } else {
            let i = choose|i: int| 0 <= i < entries.len() && (#[trigger] entries[i]).0 == q;
            assert(after[i].0 == q);
        }
    }
    lemma_same_map(after, m);
}

/// Entries stand for a map if they have its keys and its values.
proof fn lemma_same_map<K, V>(entries: Seq<(K, V)>, m: Map<K, V>)
    requires
        distinct_keys(entries),
        forall|i: int|
            0 <= i < entries.len() ==> m.contains_key((#[trigger] entries[i]).0)
                && m[entries[i].0] == entries[i].1,
        forall|k: K| #[trigger]
            m.contains_key(k) ==> exists|i: int| 0 <= i < entries.len() && (#[trigger] entries[i]).0
                == k,
    ensures
        entries_map(entries) == m,
{
    let e = entries_map(entries);
    assert forall|k: K| e.contains_key(k) == m.contains_key(k) by {
        if e.contains_key(k) {
            let i = choose|i: int| 0 <= i < entries.len() && (#[trigger] entries[i]).0 == k;
            assert(m.contains_key(entries[i].0));
        }
    }
    assert forall|k: K| e.contains_key(k) implies e[k] == m[k] by {
        let i = choose|i: int| 0 <= i < entries.len() && (#[trigger] entries[i]).0 == k;
        lemma_entry_at(entries, i);
        assert(m[entries[i].0] == entries[i].1);
    }
    assert(e =~= m);
}

/// Changing the value at a position changes the value of its key alone.
proof fn lemma_update_value<K, V>(before: Seq<(K, V)>, i: int, v: V)
    requires
        distinct_keys(before),
        0 <= i < before.len(),
    ensures
        distinct_keys(before.update(i, (before[i].0, v))),
        entries_map(before.update(i, (before[i].0, v))) == entries_map(before).insert(
            before[i].0,
            v,
        ),
        entry_keys(before.update(i, (before[i].0, v))) == entry_keys(before),
{
    let k = before[i].0;
    let after = before.update(i, (k, v));
    assert(entry_keys(after) =~= entry_keys(before));
    assert forall|a: int, b: int|
        0 <= a < after.len() && 0 <= b < after.len() && (#[trigger] after[a]).0 == (
        #[trigger] after[b]).0 implies a == b by {
        assert(before[a].0 == before[b].0);
    }
    let m = entries_map(before).insert(k, v);
    assert forall|a: int| 0 <= a < after.len() implies m.contains_key((#[trigger] after[a]).0)
        && m[after[a].0] == after[a].1 by {
        lemma_entry_at(before, a);
        if after[a].0 == k {
            assert(before[a].0 == before[i].0);
        }
    }
    assert forall|q: K| #[trigger] m.contains_key(q) implies exists|a: int|
        0 <= a < after.len() && (#[trigger] after[a]).0 == q by {
        if q == k {
            assert(after[i].0 == q);
        } else {
            let a = choose|a: int| 0 <= a < before.len() && (#[trigger] before[a]).0 == q;
            assert(after[a].0 == q);
        }
    }
    lemma_same_map(after, m);
}

/// A table from keys to values. Its entries have an order: each new key comes
/// last, and the last entry takes the place of one that is removed.
pub struct Table<K: Keyed, V> {
    index: DashMap<[u8; 32], usize, RandomState>,
    entries: Vec<(K, V)>,
}

impl<K: Keyed, V> View for Table<K, V> {
    type V = Map<K, V>;

    closed spec fn view(&self) -> Map<K, V> {
        entries_map(self.entries@)
    }
}

impl<K: Keyed, V> Table<K, V> {
    /// The entries in order.
    pub closed spec fn list(&self) -> Seq<(K, V)> {
        self.entries@
    }

    /// The keys in order.
    pub open spec fn order(&self) -> Seq<K> {
        entry_keys(self.list())
    }

    /// What the table holds.
    pub open spec fn rows(&self) -> Rows<K, V> {
        Rows { map: self@, order: self.order() }
    }

    /// Keys are distinct, and the index gives the position of each.
    pub closed spec fn wf(&self) -> bool {
        &&& distinct_keys(self.entries@)
        &&& forall|i: int|
            0 <= i < self.entries@.len() ==> index_contents(self.index).contains_key(
                (#[trigger] self.entries@[i]).0.key(),
            ) && index_contents(self.index)[self.entries@[i].0.key()] == i
        &&& forall|b: Seq<u8>| #[trigger]
            index_contents(self.index).contains_key(b) ==> index_contents(self.index)[b]
                < self.entries@.len() && self.entries@[index_contents(
                self.index,
            )[b] as int].0.key() == b
    }

    /// The list holds each entry of the map once.
    pub proof fn lemma_list(&self)
        requires
            self.wf(),
        ensures
            distinct_keys(self.list()),
            self@ == entries_map(self.list()),
            forall|i: int|
                0 <= i < self.list().len() ==> self@.contains_key((#[trigger] self.list()[i]).0)
                    && self@[self.list()[i].0] == self.list()[i].1,
            self@.dom().finite(),
            self@.dom().len() == self.list().len(),
            self.order().no_duplicates(),
            forall|k: K| self.order().contains(k) <==> self@.contains_key(k),
    {
        assert forall|i: int| 0 <= i < self.list().len() implies self@.contains_key(
            (#[trigger] self.list()[i]).0,
        ) && self@[self.list()[i].0] == self.list()[i].1 by {
            lemma_entry_at(self.entries@, i);
        }
        let ks = self.order();
        assert forall|i: int, j: int|
            0 <= i < ks.len() && 0 <= j < ks.len() && i != j implies ks[i] != ks[j] by {
            assert(ks[i] == self.list()[i].0);
            assert(ks[j] == self.list()[j].0);
        }
        assert(ks.no_duplicates());
        assert forall|k: K| ks.contains(k) <==> self@.contains_key(k) by {
            if ks.contains(k) {
                let i = choose|i: int| 0 <= i < ks.len() && ks[i] == k;
                assert(self.list()[i].0 == k);
            }
            if self@.contains_key(k) {
                let i = choose|i: int|
                    0 <= i < self.list().len() && (#[trigger] self.list()[i]).0 == k;
                assert(ks[i] == k);
            }
        }
        ks.unique_seq_to_set();
        assert(ks.to_set() =~= self@.dom());
    }

    /// An empty table.
    pub fn new() -> (r: Table<K, V>)
        ensures
            r.wf(),
            r@ == Map::<K, V>::empty(),
            r.list() == Seq::<(K, V)>::empty(),
    {
        let r: Table<K, V> = Table { index: index_new(), entries: Vec::new() };
        proof {
            lemma_same_map(r.entries@, Map::<K, V>::empty());
        }
        r
    }

    fn position(&self, k: &K) -> (r: Option<usize>)
        requires
            self.wf(),
        ensures
            match r {
                Some(i) => i < self.entries@.len() && self.entries@[i as int].0 == *k
                    && self@.contains_key(*k) && self@[*k] == self.entries@[i as int].1,
                None => !self@.contains_key(*k),
            },
    {
        let key: [u8; 32] = k.to_key();
        let r: Option<usize> = index_get(&self.index, &key);
        proof {
            match r {
                Some(i) => {
                    K::key_injective(self.entries@[i as int].0, *k);
                    lemma_entry_at(self.entries@, i as int);
                },
                None => {
                    if self@.contains_key(*k) {
                        let i = choose|i: int|
                            0 <= i < self.entries@.len() && (#[trigger] self.entries@[i]).0 == *k;
                        assert(index_contents(self.index).contains_key(self.entries@[i].0.key()));
                    }
                },
            }
        }
        r
    }

    /// Whether a key is in the table.
    pub fn contains(&self, k: &K) -> (r: bool)
        requires
            self.wf(),
        ensures
            r == self@.contains_key(*k),
    {
        self.position(k).is_some()
    }

    /// The value of a key.
    pub fn get(&self, k: &K) -> (r: Option<&V>)
        requires
            self.wf(),
        ensures
            match r {
                Some(v) => self@.contains_key(*k) && self@[*k] == *v,
                None => !self@.contains_key(*k),
            },
    {
        match self.position(k) {
            Some(i) => Some(&self.entries[i].1),
            None => None,
        }
    }

    /// Number of entries.
    pub fn len(&self) -> (r: usize)
        requires
            self.wf(),
        ensures
            r == self.list().len(),
            r == self@.dom().len(),
    {
        proof {
            self.lemma_list();
        }
        self.entries.len()
    }

    /// The entry at a position.
    pub fn entry(&self, i: usize) -> (r: (K, &V))
        requires
            self.wf(),
            i < self.list().len(),
        ensures
            r.0 == self.list()[i as int].0,
            *r.1 == self.list()[i as int].1,
            self@.contains_key(r.0),
            self@[r.0] == *r.1,
    {
        proof {
            lemma_entry_at(self.entries@, i as int);
        }
        (self.entries[i].0, &self.entries[i].1)
    }

    /// The keys in order.
    pub fn keys(&self) -> (r: Vec<K>)
        requires
            self.wf(),
        ensures
            r@ == self.order(),
    {
        let mut r: Vec<K> = Vec::new();
        let mut i: usize = 0;
        while i < self.entries.len()
            invariant
                i <= self.entries@.len(),
                r@ == self.order().take(i as int),
            decreases self.entries.len() - i,
        {
            r.push(self.entries[i].0);
            i = i + 1;
            assert(r@ =~= self.order().take(i as int));
        }
        assert(r@ =~= self.order());
        r
    }

    /// Gives a key a value and hands back the value that it had.
    pub fn insert(&mut self, k: K, v: V) -> (r: Option<V>)
        requires
            old(self).wf(),
        ensures
            final(self).wf(),
            final(self)@ == old(self)@.insert(k, v),
            match r {
                Some(w) => old(self)@.contains_key(k) && old(self)@[k] == w && final(self).order()
                    == old(self).order(),
                None => !old(self)@.contains_key(k) && final(self).order() == old(
                    self,
                ).order().push(k),
            },
    {
        let ghost before = self.entries@;
        match self.position(&k) {
            Some(i) => {
                let mut entry: (K, V) = (k, v);
                core::mem::swap(&mut self.entries[i], &mut entry);
                proof {
                    assert(self.entries@ =~= before.update(i as int, (k, v)));
                    lemma_update_value(before, i as int, v);
                }
                Some(entry.1)
            },
            None => {
                let n: usize = self.entries.len();
                index_insert(&mut self.index, k.to_key(), n);
                self.entries.push((k, v));
                proof {
                    lemma_push(before, k, v);
                    let after = self.entries@;
                    assert(entry_keys(after) =~= entry_keys(before).push(k));
                    assert forall|i: int| 0 <= i < after.len() implies index_contents(
                        self.index,
                    ).contains_key((#[trigger] after[i]).0.key()) && index_contents(
                        self.index,
                    )[after[i].0.key()] == i by {
                        if i < n {
                            if before[i].0.key() == k.key() {
                                K::key_injective(before[i].0, k);
                            }
                        }
                    }
                }
                None
            },
        }
    }

    /// The value of a key, for changing it.
    pub fn get_mut(&mut self, k: &K) -> (r: Option<&mut V>)
        requires
            old(self).wf(),
        ensures
            match r {
                Some(v) => {
                    &&& old(self)@.contains_key(*k)
                    &&& *v == old(self)@[*k]
                    &&& final(self).wf()
                    &&& final(self)@ == old(self)@.insert(*k, *final(v))
                    &&& final(self).order() == old(self).order()
                },
                None => !old(self)@.contains_key(*k) && *final(self) == *old(self),
            },
    {
        let ghost before = self.entries@;
        match self.position(k) {
            Some(i) => {
                let e: &mut (K, V) = &mut self.entries[i];
                let v: &mut V = &mut e.1;
                proof {
                    lemma_update_value(before, i as int, *final(v));
                }
                Some(v)
            },
            None => None,
        }
    }

    /// Removes a key and hands back its value.
    pub fn remove(&mut self, k: &K) -> (r: Option<V>)
        requires
            old(self).wf(),
        ensures
            final(self).wf(),
            final(self)@ == old(self)@.remove(*k),
            match r {
                Some(v) => old(self)@.contains_key(*k) && old(self)@[*k] == v
                    && final(self).order() == order_without(old(self).order(), *k),
                None => !old(self)@.contains_key(*k) && final(self).list() == old(self).list(),
            },
    {
        let ghost before = self.entries@;
        let ghost index_before = index_contents(self.index);
        match self.position(k) {
            Some(i) => {
                let last: usize = self.entries.len() - 1;
                let key: [u8; 32] = k.to_key();
                let moved: [u8; 32] = self.entries[last].0.to_key();
                index_insert(&mut self.index, moved, i);
                index_remove(&mut self.index, &key);
                let entry: (K, V) = self.entries.swap_remove(i);
                proof {
                    let after = self.entries@;
                    let m = entries_map(before).remove(*k);
                    assert(after =~= before.update(i as int, before.last()).drop_last());
                    assert forall|a: int, b: int|
                        0 <= a < after.len() && 0 <= b < after.len() && (#[trigger] after[a]).0 == (
                        #[trigger] after[b]).0 implies a == b by {
                        let a0 = if a == i {
                            last as int
                        } else {
                            a
                        };
                        let b0 = if b == i {
                            last as int
                        } else {
                            b
                        };
                        assert(before[a0].0 == before[b0].0);
                    }
                    assert forall|a: int| 0 <= a < after.len() implies m.contains_key(
                        (#[trigger] after[a]).0,
                    ) && m[after[a].0] == after[a].1 by {
                        let a0 = if a == i {
                            last as int
                        } else {
                            a
                        };
                        assert(after[a] == before[a0]);
                        lemma_entry_at(before, a0);
                        assert(before[i as int].0 == *k);
                        if before[a0].0 == *k {
                            assert(a0 == i);
                        }
                    }
                    assert forall|q: K| #[trigger] m.contains_key(q) implies exists|a: int|
                        0 <= a < after.len() && (#[trigger] after[a]).0 == q by {
                        let a = choose|a: int|
                            0 <= a < before.len() && (#[trigger] before[a]).0 == q;
                        let a1 = if a == last {
                            i as int
                        } else {
                            a
                        };
                        assert(a != i);
                        assert(after[a1].0 == q);
                    }
                    lemma_same_map(after, m);
                    assert(entry_keys(before)[i as int] == *k);
                    let at = entry_keys(before).index_of(*k);
                    assert(entry_keys(before).contains(*k));
                    assert(before[at].0 == *k);
                    assert(at == i);
                    assert(entry_keys(after) =~= order_without(entry_keys(before), *k));
                    let idx = index_contents(self.index);
                    assert(idx == index_before.insert(before[last as int].0.key(), i).remove(
                        k.key(),
                    ));
                    assert forall|a: int| 0 <= a < after.len() implies idx.contains_key(
                        (#[trigger] after[a]).0.key(),
                    ) && idx[after[a].0.key()] == a by {
                        let a0 = if a == i {
                            last as int
                        } else {
                            a
                        };
                        assert(after[a] == before[a0]);
                        if before[a0].0.key() == k.key() {
                            K::key_injective(before[a0].0, *k);
                            assert(before[a0].0 == before[i as int].0);
                        }
                        if before[a0].0.key() == before[last as int].0.key() {
                            K::key_injective(before[a0].0, before[last as int].0);
                        }
                    }
                    assert forall|b: Seq<u8>| #[trigger] idx.contains_key(b) implies idx[b]
                        < after.len() && after[idx[b] as int].0.key() == b by {
                        if b == before[last as int].0.key() {
                            if i == last {
                                assert(before[i as int].0 == *k);
                            }
                        } else {
                            assert(index_before.contains_key(b));
                            let p = index_before[b] as int;
                            assert(before[p].0.key() == b);
                            if p == i {
                                assert(b == k.key());
                            }
                        }
                    }
                }
                Some(entry.1)
            },
            None => {
                assert(self@ =~= old(self)@.remove(*k));
                None
            },
        }
    }

    /// Removes some keys.
    pub fn remove_all(&mut self, ks: &Vec<K>)
        requires
            old(self).wf(),
        ensures
            final(self).wf(),
            final(self)@ == old(self)@.remove_keys(ks@.to_set()),
    {
        let mut i: usize = 0;
        assert(self@ =~= old(self)@.remove_keys(ks@.take(0).to_set()));
        while i < ks.len()
            invariant
                self.wf(),
                i <= ks@.len(),
                self@ == old(self)@.remove_keys(ks@.take(i as int).to_set()),
            decreases ks.len() - i,
        {
            self.remove(&ks[i]);
            proof {
                let done = ks@.take(i as int).to_set();
                let next = ks@.take(i + 1).to_set();
                assert(ks@.take(i + 1) =~= ks@.take(i as int) + seq![ks@[i as int]]);
                Seq::lemma_to_set_insert_commutes(ks@.take(i as int), ks@[i as int]);
                assert(self@ =~= old(self)@.remove_keys(next));
            }
            i = i + 1;
        }
        assert(ks@.take(i as int) =~= ks@);
    }

    /// Takes out all entries.
    pub fn clear(&mut self)
        ensures
            final(self).wf(),
            final(self)@ == Map::<K, V>::empty(),
    {
        *self = Table::new();
    }
}


/// A row that is put in is there with its value, behind the others if its key is new and
/// in its old place if not; a row that is taken out is gone; all other rows stay, with
/// their values, in their order.
pub proof fn rows_change_one_at_a_time<K, V>(t: Rows<K, V>, k: K, v: V, other: K)
    requires
        t.ok(),
        other != k,
    ensures
        t.with(k, v).has(k),
        t.with(k, v).map[k] == v,
        t.with(k, v).has(other) == t.has(other),
        t.has(other) ==> t.with(k, v).map[other] == t.map[other],
        t.with(k, v).order == (if t.has(k) {
            t.order
        } else {
            t.order.push(k)
        }),
        !t.without(k).has(k),
        t.without(k).has(other) == t.has(other),
        t.has(other) ==> t.without(k).map[other] == t.map[other],
        !t.has(k) ==> t.with(k, v).without(k) == t,
{
    if !t.has(k) {
        let grown = t.order.push(k);
        let last = t.order.len() as int;
        assert(grown[last] == k && grown.contains(k));
        assert(!t.order.contains(k));
        let i = grown.index_of(k);
        assert(0 <= i < grown.len() && grown[i] == k);
        if i < last {
            assert(t.order[i] == k);
        }
        assert(order_without(grown, k) =~= t.order);
        assert(t.with(k, v).without(k).map =~= t.map);
    }
}
} // verus!
