//! Network addresses and their text.
use crate::text::{hex_char, join_be32, parse_dec, push_dec, push_text, sub_chars};
use vstd::prelude::*;

verus! {

// ---------------------------------------------------------------------------
// IPv4
// ---------------------------------------------------------------------------
/// An IPv4 address, by its octets.
#[derive(Clone, Copy, Debug, PartialEq, Eq, Structural, Hash, PartialOrd, Ord)]
pub struct Ipv4Addr {
    pub a: u8,
    pub b: u8,
    pub c: u8,
    pub d: u8,
}

impl Ipv4Addr {
    /// The address `a.b.c.d`.
    pub fn new(a: u8, b: u8, c: u8, d: u8) -> (r: Ipv4Addr)
        ensures
            r == (Ipv4Addr { a, b, c, d }),
    {
        Ipv4Addr { a, b, c, d }
    }

    /// `0.0.0.0`.
    pub fn unspecified() -> (r: Ipv4Addr)
        ensures
            r == (Ipv4Addr { a: 0, b: 0, c: 0, d: 0 }),
    {
        Ipv4Addr { a: 0, b: 0, c: 0, d: 0 }
    }

    /// The four octets.
    pub fn octets(&self) -> (r: [u8; 4])
        ensures
            r@ == self.bytes(),
    {
        let r: [u8; 4] = [self.a, self.b, self.c, self.d];
        assert(r@ =~= self.bytes());
        r
    }

    /// The four octets in order.
    pub open spec fn bytes(&self) -> Seq<u8> {
        seq![self.a, self.b, self.c, self.d]
    }

    /// The address as a number, first octet most significant.
    #[verifier::opaque]
    pub open spec fn number(&self) -> u32 {
        crate::text::be32(self.a, self.b, self.c, self.d)
    }

    /// Gives the address as a number, first octet most significant.
    pub fn to_number(&self) -> (r: u32)
        ensures
            r == self.number(),
    {
        proof {
            reveal(Ipv4Addr::number);
        }
        join_be32(self.a, self.b, self.c, self.d)
    }

    /// The address that a number stands for.
    pub open spec fn of_number(n: u32) -> Ipv4Addr {
        Ipv4Addr {
            a: (n / 0x1000000) as u8,
            b: ((n / 0x10000) % 0x100) as u8,
            c: ((n / 0x100) % 0x100) as u8,
            d: (n % 0x100) as u8,
        }
    }

    /// Gives the address that a number stands for.
    pub fn from_number(n: u32) -> (r: Ipv4Addr)
        ensures
            r == Ipv4Addr::of_number(n),
    {
        Ipv4Addr {
            a: (n / 0x1000000) as u8,
            b: ((n / 0x10000) % 0x100) as u8,
            c: ((n / 0x100) % 0x100) as u8,
            d: (n % 0x100) as u8,
        }
    }

    /// The dotted-quad text.
    pub open spec fn text(&self) -> Seq<char> {
        crate::text::dec_text(self.a as nat) + "."@ + crate::text::dec_text(self.b as nat) + "."@
            + crate::text::dec_text(self.c as nat) + "."@ + crate::text::dec_text(self.d as nat)
    }

    /// Appends the dotted-quad text.
    pub fn push_text(&self, s: &mut String)
        ensures
            final(s)@ == old(s)@ + self.text(),
    {
        let ghost before = s@;
        push_dec(s, self.a as u64);
        push_text(s, ".");
        push_dec(s, self.b as u64);
        push_text(s, ".");
        push_dec(s, self.c as u64);
        push_text(s, ".");
        push_dec(s, self.d as u64);
        assert(s@ =~= before + self.text());
    }

    /// Gives the dotted-quad text.
    pub fn to_text(&self) -> (s: String)
        ensures
            s@ == self.text(),
    {
        let mut s: String = String::new();
        self.push_text(&mut s);
        assert(s@ =~= self.text());
        s
    }
}

/// An address and the number that stands for it determine each other.
pub proof fn ipv4_number_round_trip(ip: Ipv4Addr)
    ensures
        Ipv4Addr::of_number(ip.number()) == ip,
{
    reveal(Ipv4Addr::number);
    let n = ip.number() as int;
    assert(n == ip.a * 0x1000000 + ip.b * 0x10000 + ip.c * 0x100 + ip.d);
    assert(n / 0x100 == ip.a * 0x10000 + ip.b * 0x100 + ip.c);
    assert(n / 0x10000 == ip.a * 0x100 + ip.b);
    assert(n / 0x1000000 == ip.a as int);
    assert(n % 0x100 == ip.d as int);
    assert((n / 0x100) % 0x100 == ip.c as int);
    assert((n / 0x10000) % 0x100 == ip.b as int);
}

/// A number and the address that it stands for determine each other.
pub proof fn ipv4_of_number_round_trip(n: u32)
    ensures
        Ipv4Addr::of_number(n).number() == n,
{
    reveal(Ipv4Addr::number);
    let m = n as int;
    assert(m == (m / 0x100) * 0x100 + m % 0x100);
    assert(m / 0x100 == (m / 0x10000) * 0x100 + (m / 0x100) % 0x100);
    assert(m / 0x10000 == (m / 0x1000000) * 0x100 + (m / 0x10000) % 0x100);
}

/// Different addresses stand for different numbers.
pub proof fn ipv4_number_injective(x: Ipv4Addr, y: Ipv4Addr)
    requires
        x.number() == y.number(),
    ensures
        x == y,
{
    ipv4_number_round_trip(x);
    ipv4_number_round_trip(y);
}

/// Whether `part` is an octet in decimal: one to three digits, no leading zero
/// before another digit, at most 255.
pub open spec fn is_octet_text(part: Seq<char>) -> bool {
    &&& crate::text::is_dec(part)
    &&& part.len() <= 3
    &&& (part.len() > 1 ==> part[0] != '0')
    &&& crate::text::dec_value(part) <= 255
}

/// Whether `chars`, cut before and after the positions `i < j < k` of three
/// dots, is a dotted quad.
pub open spec fn is_quad_at(chars: Seq<char>, i: int, j: int, k: int) -> bool {
    &&& 0 <= i < j < k < chars.len()
    &&& chars[i] == '.' && chars[j] == '.' && chars[k] == '.'
    &&& is_octet_text(chars.subrange(0, i))
    &&& is_octet_text(chars.subrange(i + 1, j))
    &&& is_octet_text(chars.subrange(j + 1, k))
    &&& is_octet_text(chars.subrange(k + 1, chars.len() as int))
}

/// The address that a dotted quad with dots at `i`, `j` and `k` stands for.
pub open spec fn quad_value(chars: Seq<char>, i: int, j: int, k: int) -> Ipv4Addr {
    Ipv4Addr {
        a: crate::text::dec_value(chars.subrange(0, i)) as u8,
        b: crate::text::dec_value(chars.subrange(i + 1, j)) as u8,
        c: crate::text::dec_value(chars.subrange(j + 1, k)) as u8,
        d: crate::text::dec_value(chars.subrange(k + 1, chars.len() as int)) as u8,
    }
}

/// The address that a text stands for, if it is a dotted quad.
pub open spec fn ipv4_of(chars: Seq<char>) -> Option<Ipv4Addr> {
    if exists|i: int, j: int, k: int| #[trigger] is_quad_at(chars, i, j, k) {
        let (i, j, k) = choose|i: int, j: int, k: int| #[trigger] is_quad_at(chars, i, j, k);
        Some(quad_value(chars, i, j, k))
    } else {
        None
    }
}

/// Position of the first dot at or after `from`, or the length.
fn next_dot(chars: &[char], from: usize) -> (r: usize)
    requires
        from <= chars@.len(),
    ensures
        from <= r <= chars@.len(),
        forall|m: int| from <= m < r ==> chars@[m] != '.',
        r < chars@.len() ==> chars@[r as int] == '.',
{
    let mut i: usize = from;
    while i < chars.len() && chars[i] != '.'
        invariant
            from <= i <= chars.len(),
            forall|m: int| from <= m < i ==> chars@[m] != '.',
        decreases chars.len() - i,
    {
        i = i + 1;
    }
    i
}

/// Reads an octet in decimal.
fn parse_octet(part: &[char]) -> (r: Option<u8>)
    ensures
        match r {
            Some(n) => is_octet_text(part@) && crate::text::dec_value(part@) == n,
            None => !is_octet_text(part@),
        },
{
    if part.len() == 0 || part.len() > 3 || (part.len() > 1 && part[0] == '0') {
        return None;
    }
    match parse_dec(part, 255) {
        Some(n) => Some(n as u8),
        None => None,
    }
}

/// An octet's text holds no dot.
proof fn lemma_octet_no_dot(part: Seq<char>, m: int)
    requires
        is_octet_text(part),
        0 <= m < part.len(),
    ensures
        part[m] != '.',
{
    assert(crate::text::is_digit(part[m]));
}

/// The dots of a dotted quad are the first, the second and the third dot.
proof fn lemma_quad_dots(chars: Seq<char>, i: int, j: int, k: int, p: int)
    requires
        is_quad_at(chars, i, j, k),
        0 <= p < chars.len(),
        chars[p] == '.',
    ensures
        p == i || p == j || p == k,
{
    if p < i {
        lemma_octet_no_dot(chars.subrange(0, i), p);
    } else if i < p < j {
        lemma_octet_no_dot(chars.subrange(i + 1, j), p - i - 1);
    } else if j < p < k {
        lemma_octet_no_dot(chars.subrange(j + 1, k), p - j - 1);
    } else if p > k {
        lemma_octet_no_dot(chars.subrange(k + 1, chars.len() as int), p - k - 1);
    }
}

/// Reads a dotted quad: four octets in decimal without leading zeros, with dots
/// between them and nothing else.
pub fn parse_ipv4(chars: &[char]) -> (r: Option<Ipv4Addr>)
    ensures
        r == ipv4_of(chars@),
{
    let n: usize = chars.len();
    let i: usize = next_dot(chars, 0);
    proof {
        assert forall|i2: int, j2: int, k2: int| #[trigger] is_quad_at(chars@, i2, j2, k2) implies i
            == i2 && i < n by {
            lemma_quad_dots(chars@, i2, j2, k2, i2);
            if i < n {
                lemma_quad_dots(chars@, i2, j2, k2, i as int);
            }
        }
    }
    if i == n {
        return None;
    }
    let j: usize = next_dot(chars, i + 1);
    proof {
        assert forall|i2: int, j2: int, k2: int| #[trigger] is_quad_at(chars@, i2, j2, k2) implies j
            == j2 && j < n by {
            if j < n {
                lemma_quad_dots(chars@, i2, j2, k2, j as int);
            }
        }
    }
    if j == n {
        return None;
    }
    let k: usize = next_dot(chars, j + 1);
    proof {
        assert forall|i2: int, j2: int, k2: int| #[trigger] is_quad_at(chars@, i2, j2, k2) implies k
            == k2 && k < n by {
            if k < n {
                lemma_quad_dots(chars@, i2, j2, k2, k as int);
            }
        }
    }
    if k == n {
        return None;
    }
    let a = parse_octet(sub_chars(chars, 0, i));
    let b = parse_octet(sub_chars(chars, i + 1, j));
    let c = parse_octet(sub_chars(chars, j + 1, k));
    let d = parse_octet(sub_chars(chars, k + 1, n));
    if let (Some(a), Some(b), Some(c), Some(d)) = (a, b, c, d) {
        let ip: Ipv4Addr = Ipv4Addr { a, b, c, d };
        assert(is_quad_at(chars@, i as int, j as int, k as int));
        assert(ip == quad_value(chars@, i as int, j as int, k as int));
        Some(ip)
    } else {
        None
    }
}

// ---------------------------------------------------------------------------
// IPv6
// ---------------------------------------------------------------------------
/// An IPv6 address, by its eight 16-bit segments.
#[derive(Clone, Copy, Debug, PartialEq, Eq, Structural, Hash, PartialOrd, Ord)]
pub struct Ipv6Addr {
    pub s0: u16,
    pub s1: u16,
    pub s2: u16,
    pub s3: u16,
    pub s4: u16,
    pub s5: u16,
    pub s6: u16,
    pub s7: u16,
}

/// Whether the segments from `start` on, `len` of them, are all zero.
pub open spec fn zero_run(segs: Seq<u16>, start: int, len: int) -> bool {
    &&& 0 <= start
    &&& 0 <= len
    &&& start + len <= segs.len()
    &&& forall|i: int| start <= i < start + len ==> segs[i] == 0
}

/// Whether the run of `len` zero segments at `start` is the first of the longest
/// ones.
pub open spec fn first_longest_zero_run(segs: Seq<u16>, start: int, len: int) -> bool {
    &&& zero_run(segs, start, len)
    &&& forall|s: int, l: int| #[trigger]
        zero_run(segs, s, l) ==> l < len || (l == len && start <= s)
}

/// The hexadecimal text of a number, without leading zeros.
pub open spec fn hex_number_text(n: nat) -> Seq<char>
    decreases n,
{
    if n < 16 {
        seq![crate::text::hex_digit(n as int)]
    } else {
        hex_number_text(n / 16).push(crate::text::hex_digit(n as int % 16))
    }
}

/// Segments in hexadecimal with colons between them.
pub open spec fn segments_text(segs: Seq<u16>) -> Seq<char>
    decreases segs.len(),
{
    if segs.len() == 0 {
        Seq::empty()
    } else if segs.len() == 1 {
        hex_number_text(segs[0] as nat)
    } else {
        segments_text(segs.drop_last()) + ":"@ + hex_number_text(segs.last() as nat)
    }
}

/// The text of an IPv6 address whose first longest run of zero segments starts
/// at `start` and has length `len`: a run of two or more is written `::`.
pub open spec fn ipv6_run_text(segs: Seq<u16>, start: int, len: int) -> Seq<char> {
    if len > 1 {
        segments_text(segs.take(start)) + "::"@ + segments_text(segs.skip(start + len))
    } else {
        segments_text(segs)
    }
}

/// Appends the hexadecimal text of a number.
fn push_hex_number(s: &mut String, n: u16)
    ensures
        final(s)@ == old(s)@ + hex_number_text(n as nat),
    decreases n,
{
    let ghost before = s@;
    if n >= 16 {
        push_hex_number(s, n / 16);
    }
    s.push(hex_char((n % 16) as u8));
    assert(s@ =~= before + hex_number_text(n as nat));
}

/// Appends the segments from `from` up to, not including, `to`.
fn push_segments(s: &mut String, segs: &[u16; 8], from: usize, to: usize)
    requires
        from <= to <= 8,
    ensures
        final(s)@ == old(s)@ + segments_text(segs@.subrange(from as int, to as int)),
{
    let ghost before = s@;
    let mut i: usize = from;
    assert(segs@.subrange(from as int, from as int) =~= Seq::<u16>::empty());
    assert(s@ =~= before + segments_text(segs@.subrange(from as int, from as int)));
    while i < to
        invariant
            from <= i <= to <= 8,
            s@ == before + segments_text(segs@.subrange(from as int, i as int)),
        decreases to - i,
    {
        if i > from {
            push_text(s, ":");
        }
        push_hex_number(s, segs[i]);
        assert(segs@.subrange(from as int, i + 1).drop_last() =~= segs@.subrange(
            from as int,
            i as int,
        ));
        assert(s@ =~= before + segments_text(segs@.subrange(from as int, i + 1)));
        i = i + 1;
    }
}

/// Length of the run of zero segments at `start`.
fn run_length(segs: &[u16; 8], start: usize) -> (len: usize)
    requires
        start < 8,
    ensures
        zero_run(segs@, start as int, len as int),
        forall|l: int| #[trigger] zero_run(segs@, start as int, l) ==> l <= len,
{
    let mut n: usize = 0;
    while start + n < 8 && segs[start + n] == 0
        invariant
            start < 8,
            start + n <= 8,
            zero_run(segs@, start as int, n as int),
        decreases 8 - n,
    {
        n = n + 1;
    }
    assert forall|l: int| #[trigger] zero_run(segs@, start as int, l) implies l <= n by {
        if l > n {
            assert(segs@[start + n] == 0);
        }
    }
    n
}

/// Finds the first of the longest runs of zero segments.
fn longest_run(segs: &[u16; 8]) -> (r: (usize, usize))
    ensures
        first_longest_zero_run(segs@, r.0 as int, r.1 as int),
{
    let mut start: usize = 0;
    let mut len: usize = run_length(segs, 0);
    let mut i: usize = 1;
    while i < 8
        invariant
            1 <= i <= 8,
            start < i,
            zero_run(segs@, start as int, len as int),
            forall|s: int, l: int|
                0 <= s < i && #[trigger] zero_run(segs@, s, l) ==> l < len || (l == len && start
                    <= s),
        decreases 8 - i,
    {
        let l: usize = run_length(segs, i);
        if l > len {
            start = i;
            len = l;
        }
        i = i + 1;
    }
    assert forall|s: int, l: int| #[trigger] zero_run(segs@, s, l) implies l < len || (l == len
        && start <= s) by {
        if s >= 8 {
            assert(zero_run(segs@, 0, 0));
        }
    }
    (start, len)
}

impl Ipv6Addr {
    /// The eight segments in order.
    pub open spec fn segs(&self) -> Seq<u16> {
        seq![self.s0, self.s1, self.s2, self.s3, self.s4, self.s5, self.s6, self.s7]
    }

    /// The sixteen octets in order.
    pub open spec fn bytes(&self) -> Seq<u8> {
        Seq::new(
            16,
            |i: int|
                if i % 2 == 0 {
                    (self.segs()[i / 2] / 256) as u8
                } else {
                    (self.segs()[i / 2] % 256) as u8
                },
        )
    }

    /// Gives the eight segments.
    pub fn segments(&self) -> (r: [u16; 8])
        ensures
            r@ == self.segs(),
    {
        let r: [u16; 8] = [
            self.s0,
            self.s1,
            self.s2,
            self.s3,
            self.s4,
            self.s5,
            self.s6,
            self.s7,
        ];
        assert(r@ =~= self.segs());
        r
    }

    /// Gives the sixteen octets.
    pub fn octets(&self) -> (r: [u8; 16])
        ensures
            r@ == self.bytes(),
    {
        let segs: [u16; 8] = self.segments();
        let mut r: [u8; 16] = [0u8; 16];
        let mut i: usize = 0;
        while i < 8
            invariant
                i <= 8,
                segs@ == self.segs(),
                forall|m: int| 0 <= m < 2 * i ==> #[trigger] r@[m] == self.bytes()[m],
            decreases 8 - i,
        {
            r[2 * i] = (segs[i] / 256) as u8;
            r[2 * i + 1] = (segs[i] % 256) as u8;
            i = i + 1;
        }
        assert(r@ =~= self.bytes());
        r
    }

    /// The address with the given octets.
    pub open spec fn of_bytes(b: Seq<u8>) -> Ipv6Addr {
        Ipv6Addr {
            s0: crate::text::be16(b[0], b[1]),
            s1: crate::text::be16(b[2], b[3]),
            s2: crate::text::be16(b[4], b[5]),
            s3: crate::text::be16(b[6], b[7]),
            s4: crate::text::be16(b[8], b[9]),
            s5: crate::text::be16(b[10], b[11]),
            s6: crate::text::be16(b[12], b[13]),
            s7: crate::text::be16(b[14], b[15]),
        }
    }

    /// Gives the address with the given octets.
    pub fn from_octets(b: &[u8; 16]) -> (r: Ipv6Addr)
        ensures
            r == Ipv6Addr::of_bytes(b@),
    {
        Ipv6Addr {
            s0: crate::text::join_be16(b[0], b[1]),
            s1: crate::text::join_be16(b[2], b[3]),
            s2: crate::text::join_be16(b[4], b[5]),
            s3: crate::text::join_be16(b[6], b[7]),
            s4: crate::text::join_be16(b[8], b[9]),
            s5: crate::text::join_be16(b[10], b[11]),
            s6: crate::text::join_be16(b[12], b[13]),
            s7: crate::text::join_be16(b[14], b[15]),
        }
    }

    /// Whether the address stands for an IPv4 address, `::ffff:a.b.c.d`.
    pub open spec fn is_mapped(&self) -> bool {
        &&& self.s0 == 0 && self.s1 == 0 && self.s2 == 0 && self.s3 == 0 && self.s4 == 0
        &&& self.s5 == 0xffff
    }

    /// The IPv4 address in the last four octets.
    pub open spec fn low_ipv4(&self) -> Ipv4Addr {
        Ipv4Addr {
            a: (self.s6 / 256) as u8,
            b: (self.s6 % 256) as u8,
            c: (self.s7 / 256) as u8,
            d: (self.s7 % 256) as u8,
        }
    }

    /// The text: segments in hexadecimal, the first of the longest runs of two or
    /// more zero segments as `::`, and the last four octets of an address that
    /// stands for an IPv4 address as a dotted quad.
    pub open spec fn text(&self) -> Seq<char> {
        if self.is_mapped() {
            "::ffff:"@ + self.low_ipv4().text()
        } else {
            let run = choose|run: (int, int)|
                #[trigger] first_longest_zero_run(self.segs(), run.0, run.1);
            ipv6_run_text(self.segs(), run.0, run.1)
        }
    }

    /// Appends the text.
    pub fn push_text(&self, s: &mut String)
        ensures
            final(s)@ == old(s)@ + self.text(),
    {
        let ghost before = s@;
        if self.s0 == 0 && self.s1 == 0 && self.s2 == 0 && self.s3 == 0 && self.s4 == 0 && self.s5
            == 0xffff {
            push_text(s, "::ffff:");
            let low: Ipv4Addr = Ipv4Addr {
                a: (self.s6 / 256) as u8,
                b: (self.s6 % 256) as u8,
                c: (self.s7 / 256) as u8,
                d: (self.s7 % 256) as u8,
            };
            low.push_text(s);
            assert(s@ =~= before + self.text());
        } else {
            let segs: [u16; 8] = self.segments();
            let (start, len) = longest_run(&segs);
            proof {
                let run = choose|run: (int, int)|
                    #[trigger] first_longest_zero_run(self.segs(), run.0, run.1);
                assert(first_longest_zero_run(self.segs(), (start as int, len as int).0, (
                    start as int,
                    len as int,
                ).1));
                assert(first_longest_zero_run(self.segs(), run.0, run.1));
                assert(zero_run(self.segs(), run.0, run.1));
                assert(zero_run(self.segs(), start as int, len as int));
                assert(run.0 == start && run.1 == len);
                assert(segs@.subrange(0, start as int) =~= self.segs().take(start as int));
                assert(segs@.subrange(start + len, 8) =~= self.segs().skip(start + len));
                assert(segs@.subrange(0, 8) =~= self.segs());
            }
            if len > 1 {
                push_segments(s, &segs, 0, start);
                push_text(s, "::");
                push_segments(s, &segs, start + len, 8);
            } else {
                push_segments(s, &segs, 0, 8);
            }
            assert(s@ =~= before + self.text());
        }
    }

    /// Gives the text.
    pub fn to_text(&self) -> (s: String)
        ensures
            s@ == self.text(),
    {
        let mut s: String = String::new();
        self.push_text(&mut s);
        assert(s@ =~= self.text());
        s
    }
}

/// An IPv6 address is determined by its octets.
pub proof fn ipv6_octets_round_trip(ip: Ipv6Addr)
    ensures
        ip.bytes().len() == 16,
        Ipv6Addr::of_bytes(ip.bytes()) == ip,
{
    let b = ip.bytes();
    assert(b[0] == (ip.s0 / 256) as u8 && b[1] == (ip.s0 % 256) as u8);
    assert(b[2] == (ip.s1 / 256) as u8 && b[3] == (ip.s1 % 256) as u8);
    assert(b[4] == (ip.s2 / 256) as u8 && b[5] == (ip.s2 % 256) as u8);
    assert(b[6] == (ip.s3 / 256) as u8 && b[7] == (ip.s3 % 256) as u8);
    assert(b[8] == (ip.s4 / 256) as u8 && b[9] == (ip.s4 % 256) as u8);
    assert(b[10] == (ip.s5 / 256) as u8 && b[11] == (ip.s5 % 256) as u8);
    assert(b[12] == (ip.s6 / 256) as u8 && b[13] == (ip.s6 % 256) as u8);
    assert(b[14] == (ip.s7 / 256) as u8 && b[15] == (ip.s7 % 256) as u8);
}

// ---------------------------------------------------------------------------
// Socket addresses
// ---------------------------------------------------------------------------
/// An IP address with a port.
#[allow(inconsistent_fields)]
#[derive(Clone, Copy, Debug, PartialEq, Eq, Structural, Hash)]
pub enum SocketAddr {
    V4 { ip: Ipv4Addr, port: u16 },
    V6 { ip: Ipv6Addr, port: u16, flowinfo: u32, scope_id: u32 },
}

impl SocketAddr {
    /// The socket address of an IPv4 address and a port.
    pub fn v4(ip: Ipv4Addr, port: u16) -> (r: SocketAddr)
        ensures
            r == (SocketAddr::V4 { ip, port }),
    {
        SocketAddr::V4 { ip, port }
    }

    /// The port.
    pub open spec fn port_of(&self) -> u16 {
        match self {
            SocketAddr::V4 { port, .. } => *port,
            SocketAddr::V6 { port, .. } => *port,
        }
    }

    /// Gives the port.
    pub fn port(&self) -> (r: u16)
        ensures
            r == self.port_of(),
    {
        match self {
            SocketAddr::V4 { port, .. } => *port,
            SocketAddr::V6 { port, .. } => *port,
        }
    }

    /// The text: `ip:port`, or `[ip]:port` for IPv6, with a scope that is not
    /// zero after `%` inside the brackets.
    pub open spec fn text(&self) -> Seq<char> {
        match self {
            SocketAddr::V4 { ip, port } => ip.text() + ":"@ + crate::text::dec_text(*port as nat),
            SocketAddr::V6 { ip, port, scope_id, .. } => {
                "["@ + ip.text() + (if *scope_id == 0 {
                    Seq::<char>::empty()
                } else {
                    "%"@ + crate::text::dec_text(*scope_id as nat)
                }) + "]:"@ + crate::text::dec_text(*port as nat)
            },
        }
    }

    /// Appends the text.
    pub fn push_text(&self, s: &mut String)
        ensures
            final(s)@ == old(s)@ + self.text(),
    {
        let ghost before = s@;
        match self {
            SocketAddr::V4 { ip, port } => {
                ip.push_text(s);
                push_text(s, ":");
                push_dec(s, *port as u64);
            },
            SocketAddr::V6 { ip, port, scope_id, .. } => {
                push_text(s, "[");
                ip.push_text(s);
                if *scope_id != 0 {
                    push_text(s, "%");
                    push_dec(s, *scope_id as u64);
                }
                push_text(s, "]:");
                push_dec(s, *port as u64);
            },
        }
        assert(s@ =~= before + self.text());
    }

    /// Gives the text.
    pub fn to_text(&self) -> (s: String)
        ensures
            s@ == self.text(),
    {
        let mut s: String = String::new();
        self.push_text(&mut s);
        assert(s@ =~= self.text());
        s
    }
}


/// The text of a number up to 255 is an octet in decimal.
proof fn lemma_octet(n: u8)
    ensures
        is_octet_text(crate::text::dec_text(n as nat)),
        crate::text::dec_value(crate::text::dec_text(n as nat)) == n,
{
    let t = crate::text::dec_text(n as nat);
    crate::text::dec_round_trip(n as nat);
    crate::text::numbers_are_written_in_decimal(0, n as nat, 0);
    reveal_with_fuel(crate::text::dec_text, 4);
    assert(t.len() <= 3);
    if n == 0 {
        assert(t.len() == 1);
    }
}

/// An address is read back from its text, and only from it.
pub proof fn ipv4_text_round_trip(ip: Ipv4Addr)
    ensures
        ipv4_of(ip.text()) == Some(ip),
{
    reveal_strlit(".");
    let (a, b, c, d) = (
        crate::text::dec_text(ip.a as nat),
        crate::text::dec_text(ip.b as nat),
        crate::text::dec_text(ip.c as nat),
        crate::text::dec_text(ip.d as nat),
    );
    lemma_octet(ip.a);
    lemma_octet(ip.b);
    lemma_octet(ip.c);
    lemma_octet(ip.d);
    let t = ip.text();
    let i = a.len() as int;
    let j = i + 1 + b.len();
    let k = j + 1 + c.len();
    assert(t.subrange(0, i) =~= a);
    assert(t.subrange(i + 1, j) =~= b);
    assert(t.subrange(j + 1, k) =~= c);
    assert(t.subrange(k + 1, t.len() as int) =~= d);
    assert(is_quad_at(t, i, j, k));
    let (x, y, z) = choose|x: int, y: int, z: int| #[trigger] is_quad_at(t, x, y, z);
    lemma_quad_dots(t, i, j, k, x);
    lemma_quad_dots(t, i, j, k, y);
    lemma_quad_dots(t, i, j, k, z);
    assert(x == i && y == j && z == k);
}

/// An address of version 6 is written with its two octets of each group side by side,
/// the first the higher one.
pub proof fn groups_hold_two_octets(ip: Ipv6Addr, i: int)
    requires
        0 <= i < 8,
    ensures
        256 * ip.bytes()[2 * i] + ip.bytes()[2 * i + 1] == ip.segs()[i],
{
    assert((2 * i) / 2 == i && (2 * i + 1) / 2 == i);
    assert((2 * i) % 2 == 0 && (2 * i + 1) % 2 == 1);
    let g = ip.segs()[i];
    assert((g / 256) as u8 == g / 256 && (g % 256) as u8 == g % 256);
}

/// Only one run of zeros is the first of the longest ones.
proof fn lemma_one_longest_run(segs: Seq<u16>, a: int, m: int, b: int, n: int)
    requires
        first_longest_zero_run(segs, a, m),
        first_longest_zero_run(segs, b, n),
    ensures
        a == b && m == n,
{
    assert(zero_run(segs, a, m) && zero_run(segs, b, n));
}

/// In the text of an address of version 6 the longest run of two or more zero groups is
/// left out, the first one if several are as long, and two colons stand for it; the groups
/// before and after it are written in full.
pub proof fn the_longest_run_of_zeros_is_left_out(ip: Ipv6Addr, start: int, len: int)
    requires
        !(ip.s0 == 0 && ip.s1 == 0 && ip.s2 == 0 && ip.s3 == 0 && ip.s4 == 0 && ip.s5 == 0xffff),
        0 <= start,
        2 <= len,
        start + len <= 8,
        forall|i: int| start <= i < start + len ==> ip.segs()[i] == 0,
        forall|s: int, l: int| #[trigger]
            zero_run(ip.segs(), s, l) ==> l < len || (l == len && start <= s),
    ensures
        ip.text() == segments_text(ip.segs().take(start)) + "::"@ + segments_text(
            ip.segs().skip(start + len),
        ),
{
    let segs = ip.segs();
    assert(first_longest_zero_run(segs, start, len));
    let given = (start, len);
    assert(first_longest_zero_run(segs, given.0, given.1));
    let run = choose|run: (int, int)| #[trigger] first_longest_zero_run(segs, run.0, run.1);
    lemma_one_longest_run(segs, start, len, run.0, run.1);
}

/// Groups are written in small hexadecimal digits without leading zeros, with colons
/// between them; an address of version 4 in its version 6 form keeps its dots.
pub proof fn groups_are_written_in_hexadecimal(
    segs: Seq<u16>,
    n: u16,
    m: nat,
    d: nat,
    ip: Ipv6Addr,
    four: Ipv4Addr,
)
    requires
        d < 16,
        m > 0,
    ensures
        segments_text(seq![n]) == hex_number_text(n as nat),
        segs.len() > 0 ==> segments_text(segs.push(n)) == segments_text(segs) + seq![':']
            + hex_number_text(n as nat),
        hex_number_text(d) == seq![crate::text::hex_digit(d as int)],
        hex_number_text(16 * m + d) == hex_number_text(m).push(crate::text::hex_digit(d as int)),
        ip.s0 == 0 && ip.s1 == 0 && ip.s2 == 0 && ip.s3 == 0 && ip.s4 == 0 && ip.s5 == 0xffff
            && 256 * four.a + four.b == ip.s6 && 256 * four.c + four.d == ip.s7 ==> ip.text()
            == "::ffff:"@ + four.text(),
{
    if 256 * four.a + four.b == ip.s6 && 256 * four.c + four.d == ip.s7 {
        assert(ip.s6 / 256 == four.a && ip.s6 % 256 == four.b);
        assert(ip.s7 / 256 == four.c && ip.s7 % 256 == four.d);
        assert(ip.low_ipv4() == four);
    }
    reveal_strlit(":");
    assert(":"@ =~= seq![':']);
    assert(seq![n][0] == n);
    assert(segs.push(n).drop_last() =~= segs);
    assert(segs.push(n).last() == n);
    assert((16 * m + d) / 16 == m && (16 * m + d) % 16 == d);
}

/// A socket address is written as its address, a colon and its port; one of version 6 in
/// square brackets, with its scope behind a percent sign where it has one.
pub proof fn ports_stand_behind_a_colon(a: SocketAddr)
    ensures
        match a {
            SocketAddr::V4 { ip, port } => a.port_of() == port && a.text() == ip.text() + seq![':']
                + crate::text::dec_text(port as nat),
            SocketAddr::V6 { ip, port, scope_id, .. } => a.port_of() == port && a.text() == (
            if scope_id == 0 {
                seq!['['] + ip.text() + seq![']', ':'] + crate::text::dec_text(port as nat)
            } else {
                seq!['['] + ip.text() + seq!['%'] + crate::text::dec_text(scope_id as nat) + seq![
                    ']',
                    ':',
                ] + crate::text::dec_text(port as nat)
            }),
        },
{
    reveal_strlit(":");
    reveal_strlit("[");
    reveal_strlit("]:");
    reveal_strlit("%");
    assert(":"@ =~= seq![':']);
    assert("["@ =~= seq!['[']);
    assert("]:"@ =~= seq![']', ':']);
    assert("%"@ =~= seq!['%']);
    if let SocketAddr::V6 { ip, port, scope_id, .. } = a {
        let p = crate::text::dec_text(port as nat);
        if scope_id == 0 {
            assert(a.text() =~= seq!['['] + ip.text() + seq![']', ':'] + p);
        } else {
            assert(a.text() =~= seq!['['] + ip.text() + seq!['%'] + crate::text::dec_text(
                scope_id as nat,
            ) + seq![']', ':'] + p);
        }
    }
}

} // verus!
