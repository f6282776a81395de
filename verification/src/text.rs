//! Text helpers: characters of a string, decimal and hexadecimal numbers.
use vstd::prelude::*;

verus! {

/// `String::push` appends one character to the end of the string.
pub assume_specification[ String::push ](s: &mut String, c: char)
    ensures
        final(s)@ == old(s)@.push(c),
;

// ---------------------------------------------------------------------------
// Bytes
// ---------------------------------------------------------------------------
/// Compares two byte slices.
pub fn same_bytes(a: &[u8], b: &[u8]) -> (r: bool)
    ensures
        r == (a@ == b@),
{
    if a.len() != b.len() {
        return false;
    }
    let mut i: usize = 0;
    while i < a.len()
        invariant
            i <= a.len(),
            a.len() == b.len(),
            forall|j: int| 0 <= j < i ==> a@[j] == b@[j],
        decreases a.len() - i,
    {
        if a[i] != b[i] {
            return false;
        }
        i = i + 1;
    }
    assert(a@ =~= b@);
    true
}

/// Appends the bytes of a slice.
pub fn push_bytes(out: &mut Vec<u8>, bytes: &[u8])
    ensures
        final(out)@ == old(out)@ + bytes@,
{
    let ghost before = out@;
    let mut i: usize = 0;
    while i < bytes.len()
        invariant
            i <= bytes.len(),
            out@ == before + bytes@.take(i as int),
        decreases bytes.len() - i,
    {
        out.push(bytes[i]);
        i = i + 1;
        assert(bytes@.take(i as int) =~= bytes@.take(i - 1).push(bytes@[i - 1]));
        assert(out@ =~= before + bytes@.take(i as int));
    }
    assert(bytes@.take(i as int) =~= bytes@);
}

/// Appends zero bytes.
pub fn push_zeros(out: &mut Vec<u8>, n: usize)
    ensures
        final(out)@ == old(out)@ + Seq::new(n as nat, |i: int| 0u8),
{
    let mut i: usize = 0;
    while i < n
        invariant
            i <= n,
            out@ == old(out)@ + Seq::new(i as nat, |i: int| 0u8),
        decreases n - i,
    {
        out.push(0);
        i = i + 1;
        assert(out@ =~= old(out)@ + Seq::new(i as nat, |i: int| 0u8));
    }
    assert(out@ =~= old(out)@ + Seq::new(n as nat, |i: int| 0u8));
}

/// Copies a byte slice.
pub fn copy_bytes(bytes: &[u8]) -> (out: Vec<u8>)
    ensures
        out@ == bytes@,
{
    vstd::slice::slice_to_vec(bytes)
}

/// The part of a slice from `from` up to, not including, `to`.
pub fn sub_bytes(bytes: &[u8], from: usize, to: usize) -> (out: &[u8])
    requires
        from <= to <= bytes@.len(),
    ensures
        out@ == bytes@.subrange(from as int, to as int),
{
    vstd::slice::slice_subrange(bytes, from, to)
}

/// Whether `bytes` starts with `prefix`.
pub open spec fn begins_with(bytes: Seq<u8>, prefix: Seq<u8>) -> bool {
    prefix.len() <= bytes.len() && bytes.take(prefix.len() as int) == prefix
}

/// Tests whether a slice starts with a prefix.
pub fn has_prefix(bytes: &[u8], prefix: &[u8]) -> (r: bool)
    ensures
        r == begins_with(bytes@, prefix@),
{
    if bytes.len() < prefix.len() {
        return false;
    }
    let head: &[u8] = sub_bytes(bytes, 0, prefix.len());
    assert(head@ =~= bytes@.take(prefix@.len() as int));
    same_bytes(head, prefix)
}

/// Reads 32 bytes of a slice into an array.
pub fn array_32(bytes: &[u8], at: usize) -> (r: [u8; 32])
    requires
        at + 32 <= bytes@.len(),
    ensures
        r@ == bytes@.subrange(at as int, at + 32),
{
    let mut out: [u8; 32] = [0u8; 32];
    let mut i: usize = 0;
    while i < 32
        invariant
            i <= 32,
            at + 32 <= bytes.len(),
            forall|j: int| 0 <= j < i ==> out@[j] == bytes@[at + j],
        decreases 32 - i,
    {
        out[i] = bytes[at + i];
        i = i + 1;
    }
    assert(out@ =~= bytes@.subrange(at as int, at + 32));
    out
}

/// Reads 20 bytes of a slice into an array.
pub fn array_20(bytes: &[u8], at: usize) -> (r: [u8; 20])
    requires
        at + 20 <= bytes@.len(),
    ensures
        r@ == bytes@.subrange(at as int, at + 20),
{
    let mut out: [u8; 20] = [0u8; 20];
    let mut i: usize = 0;
    while i < 20
        invariant
            i <= 20,
            at + 20 <= bytes.len(),
            forall|j: int| 0 <= j < i ==> out@[j] == bytes@[at + j],
        decreases 20 - i,
    {
        out[i] = bytes[at + i];
        i = i + 1;
    }
    assert(out@ =~= bytes@.subrange(at as int, at + 20));
    out
}

/// Reads 16 bytes of a slice into an array.
pub fn array_16(bytes: &[u8], at: usize) -> (r: [u8; 16])
    requires
        at + 16 <= bytes@.len(),
    ensures
        r@ == bytes@.subrange(at as int, at + 16),
{
    let mut out: [u8; 16] = [0u8; 16];
    let mut i: usize = 0;
    while i < 16
        invariant
            i <= 16,
            at + 16 <= bytes.len(),
            forall|j: int| 0 <= j < i ==> out@[j] == bytes@[at + j],
        decreases 16 - i,
    {
        out[i] = bytes[at + i];
        i = i + 1;
    }
    assert(out@ =~= bytes@.subrange(at as int, at + 16));
    out
}

// ---------------------------------------------------------------------------
// Big-endian numbers
// ---------------------------------------------------------------------------
/// The number that two bytes stand for, most significant first.
pub open spec fn be16(hi: u8, lo: u8) -> u16 {
    (hi as int * 256 + lo as int) as u16
}

/// The number that four bytes stand for, most significant first.
pub open spec fn be32(b0: u8, b1: u8, b2: u8, b3: u8) -> u32 {
    (b0 as int * 0x1000000 + b1 as int * 0x10000 + b2 as int * 0x100 + b3 as int) as u32
}

/// The four bytes of a number, most significant first.
pub open spec fn be32_bytes(n: u32) -> Seq<u8> {
    seq![
        (n / 0x1000000) as u8,
        ((n / 0x10000) % 0x100) as u8,
        ((n / 0x100) % 0x100) as u8,
        (n % 0x100) as u8,
    ]
}

/// The two bytes of a number, most significant first.
pub open spec fn be16_bytes(n: u16) -> Seq<u8> {
    seq![(n / 0x100) as u8, (n % 0x100) as u8]
}

/// Joins two bytes, most significant first.
pub fn join_be16(hi: u8, lo: u8) -> (r: u16)
    ensures
        r == be16(hi, lo),
{
    hi as u16 * 256 + lo as u16
}

/// Joins four bytes, most significant first.
pub fn join_be32(b0: u8, b1: u8, b2: u8, b3: u8) -> (r: u32)
    ensures
        r == be32(b0, b1, b2, b3),
{
    b0 as u32 * 0x1000000 + b1 as u32 * 0x10000 + b2 as u32 * 0x100 + b3 as u32
}

/// Appends the four bytes of a number, most significant first.
pub fn push_be32(out: &mut Vec<u8>, n: u32)
    ensures
        final(out)@ == old(out)@ + be32_bytes(n),
{
    let ghost before = out@;
    out.push((n / 0x1000000) as u8);
    out.push(((n / 0x10000) % 0x100) as u8);
    out.push(((n / 0x100) % 0x100) as u8);
    out.push((n % 0x100) as u8);
    assert(out@ =~= before + be32_bytes(n));
}

/// Appends the two bytes of a number, most significant first.
pub fn push_be16(out: &mut Vec<u8>, n: u16)
    ensures
        final(out)@ == old(out)@ + be16_bytes(n),
{
    let ghost before = out@;
    out.push((n / 0x100) as u8);
    out.push((n % 0x100) as u8);
    assert(out@ =~= before + be16_bytes(n));
}

/// A 32-bit number is read back from the bytes that stand for it.
pub proof fn be32_round_trip(n: u32)
    ensures
        be32_bytes(n).len() == 4,
        be32(be32_bytes(n)[0], be32_bytes(n)[1], be32_bytes(n)[2], be32_bytes(n)[3]) == n,
{
}

/// A 16-bit number is read back from the bytes that stand for it.
pub proof fn be16_round_trip(n: u16)
    ensures
        be16_bytes(n).len() == 2,
        be16(be16_bytes(n)[0], be16_bytes(n)[1]) == n,
{
}

// ---------------------------------------------------------------------------
// Characters
// ---------------------------------------------------------------------------
/// The characters of a string.
pub fn chars_of(s: &str) -> (out: Vec<char>)
    ensures
        out@ == s@,
{
    let mut out: Vec<char> = Vec::new();
    for c in it: s.chars()
        invariant
            it.seq() == s@,
            out@ == it.seq().take(it.index() as int),
    {
        out.push(c);
    }
    assert(out@ =~= s@);
    out
}

/// Appends characters to a string.
pub fn push_chars(s: &mut String, chars: &[char])
    ensures
        final(s)@ == old(s)@ + chars@,
{
    let ghost before = s@;
    let mut i: usize = 0;
    while i < chars.len()
        invariant
            i <= chars.len(),
            s@ == before + chars@.take(i as int),
        decreases chars.len() - i,
    {
        s.push(chars[i]);
        i = i + 1;
        assert(s@ =~= before + chars@.take(i as int));
    }
    assert(chars@.take(i as int) =~= chars@);
}

/// The string made of the given characters.
pub fn string_of(chars: &[char]) -> (s: String)
    ensures
        s@ == chars@,
{
    let mut s: String = String::new();
    push_chars(&mut s, chars);
    assert(s@ =~= chars@);
    s
}

/// Appends a string.
pub fn push_text(s: &mut String, t: &str)
    ensures
        final(s)@ == old(s)@ + t@,
{
    s.append(t)
}

/// The part of `chars` from `from` up to, not including, `to`.
pub fn sub_chars(chars: &[char], from: usize, to: usize) -> (out: &[char])
    requires
        from <= to <= chars@.len(),
    ensures
        out@ == chars@.subrange(from as int, to as int),
{
    vstd::slice::slice_subrange(chars, from, to)
}

/// Compares two character slices.
pub fn same_chars(a: &[char], b: &[char]) -> (r: bool)
    ensures
        r == (a@ == b@),
{
    if a.len() != b.len() {
        return false;
    }
    let mut i: usize = 0;
    while i < a.len()
        invariant
            i <= a.len(),
            a.len() == b.len(),
            forall|j: int| 0 <= j < i ==> a@[j] == b@[j],
        decreases a.len() - i,
    {
        if a[i] != b[i] {
            return false;
        }
        i = i + 1;
    }
    assert(a@ =~= b@);
    true
}

/// Tests whether characters begin with a text.
pub fn starts_with(chars: &[char], prefix: &str) -> (r: bool)
    ensures
        r == prefix@.is_prefix_of(chars@),
{
    let p: Vec<char> = chars_of(prefix);
    if chars.len() < p.len() {
        return false;
    }
    let head: &[char] = sub_chars(chars, 0, p.len());
    same_chars(head, p.as_slice())
}

/// Compares two strings.
pub fn same_text(a: &str, b: &str) -> (r: bool)
    ensures
        r == (a@ == b@),
{
    let x: Vec<char> = chars_of(a);
    let y: Vec<char> = chars_of(b);
    same_chars(x.as_slice(), y.as_slice())
}

// ---------------------------------------------------------------------------
// Hexadecimal
// ---------------------------------------------------------------------------
/// The lower-case hexadecimal digit of `n`.
pub open spec fn hex_digit(n: int) -> char {
    if n < 10 {
        (48 + n) as char
    } else {
        (87 + n) as char
    }
}

/// The value of a hexadecimal digit, given as a byte; either case.
pub open spec fn hex_value(c: u8) -> Option<u8> {
    if 48 <= c <= 57 {
        Some((c - 48) as u8)
    } else if 97 <= c <= 102 {
        Some((c - 87) as u8)
    } else if 65 <= c <= 70 {
        Some((c - 55) as u8)
    } else {
        None
    }
}

/// The lower-case hexadecimal text of some bytes, two digits for each.
pub open spec fn hex_text(bytes: Seq<u8>) -> Seq<char> {
    Seq::new(
        bytes.len() * 2,
        |i: int|
            if i % 2 == 0 {
                hex_digit(bytes[i / 2] as int / 16)
            } else {
                hex_digit(bytes[i / 2] as int % 16)
            },
    )
}

/// Gives the hexadecimal digit of a number below sixteen.
pub fn hex_char(n: u8) -> (c: char)
    requires
        n < 16,
    ensures
        c == hex_digit(n as int),
{
    if n < 10 {
        (48u8 + n) as char
    } else {
        (87u8 + n) as char
    }
}

/// Appends the hexadecimal text of some bytes.
pub fn push_hex(s: &mut String, bytes: &[u8])
    ensures
        final(s)@ == old(s)@ + hex_text(bytes@),
{
    let ghost before = s@;
    let mut i: usize = 0;
    while i < bytes.len()
        invariant
            i <= bytes.len(),
            s@ == before + hex_text(bytes@.take(i as int)),
        decreases bytes.len() - i,
    {
        let b: u8 = bytes[i];
        s.push(hex_char(b / 16));
        s.push(hex_char(b % 16));
        proof {
            let now = bytes@.take(i as int + 1);
            let was = bytes@.take(i as int);
            assert forall|k: int| 0 <= k < hex_text(was).len() implies hex_text(now)[k]
                == hex_text(was)[k] by {
                assert(now[k / 2] == was[k / 2]);
            }
            assert(s@ =~= before + hex_text(now));
        }
        i = i + 1;
    }
    assert(bytes@.take(i as int) =~= bytes@);
}

/// Gives the hexadecimal text of some bytes.
pub fn to_hex(bytes: &[u8]) -> (s: String)
    ensures
        s@ == hex_text(bytes@),
{
    let mut s: String = String::new();
    push_hex(&mut s, bytes);
    assert(s@ =~= hex_text(bytes@));
    s
}

/// The text of the first four bytes at most, in hexadecimal.
pub open spec fn short_hex_text(bytes: Seq<u8>) -> Seq<char> {
    hex_text(bytes.take(if bytes.len() < 4 { bytes.len() as int } else { 4 }))
}

/// Gives the hexadecimal text of the first four bytes at most.
pub fn hex_short(bytes: &[u8]) -> (s: String)
    ensures
        s@ == short_hex_text(bytes@),
{
    let n: usize = if bytes.len() < 4 {
        bytes.len()
    } else {
        4
    };
    let head: &[u8] = sub_bytes(bytes, 0, n);
    assert(head@ =~= bytes@.take(n as int));
    to_hex(head)
}

// ---------------------------------------------------------------------------
// Decimal
// ---------------------------------------------------------------------------
/// The decimal digit of `n`.
pub open spec fn dec_digit(n: int) -> char {
    (48 + n) as char
}

/// The decimal text of a number, without leading zeros.
pub open spec fn dec_text(n: nat) -> Seq<char>
    decreases n,
{
    if n < 10 {
        seq![dec_digit(n as int)]
    } else {
        dec_text(n / 10).push(dec_digit(n as int % 10))
    }
}

/// Appends the decimal text of a number.
pub fn push_dec(s: &mut String, n: u64)
    ensures
        final(s)@ == old(s)@ + dec_text(n as nat),
    decreases n,
{
    let ghost before = s@;
    if n >= 10 {
        push_dec(s, n / 10);
    }
    s.push((48u8 + (n % 10) as u8) as char);
    assert(s@ =~= before + dec_text(n as nat));
}

/// Gives the decimal text of a number.
pub fn to_dec(n: u64) -> (s: String)
    ensures
        s@ == dec_text(n as nat),
{
    let mut s: String = String::new();
    push_dec(&mut s, n);
    assert(s@ =~= dec_text(n as nat));
    s
}

/// Whether a character is a decimal digit.
pub open spec fn is_digit(c: char) -> bool {
    '0' <= c <= '9'
}

/// The number that a run of decimal digits stands for.
pub open spec fn dec_value(digits: Seq<char>) -> nat
    decreases digits.len(),
{
    if digits.len() == 0 {
        0
    } else {
        dec_value(digits.drop_last()) * 10 + (digits.last() as int - 48) as nat
    }
}

/// Whether all characters are decimal digits, and there is at least one.
pub open spec fn is_dec(digits: Seq<char>) -> bool {
    digits.len() > 0 && forall|i: int| 0 <= i < digits.len() ==> is_digit(#[trigger] digits[i])
}

/// Leading digits can only be worth less than the whole.
pub proof fn lemma_dec_value_grows(digits: Seq<char>, n: int)
    requires
        0 <= n <= digits.len(),
    ensures
        dec_value(digits.take(n)) <= dec_value(digits),
    decreases digits.len() - n,
{
    if n < digits.len() {
        lemma_dec_value_grows(digits, n + 1);
        assert(digits.take(n + 1).drop_last() =~= digits.take(n));
    } else {
        assert(digits.take(n) =~= digits);
    }
}

/// Reads a decimal number that may not exceed `max`.
pub fn parse_dec(digits: &[char], max: u64) -> (r: Option<u64>)
    ensures
        match r {
            Some(n) => is_dec(digits@) && dec_value(digits@) == n && n <= max,
            None => !is_dec(digits@) || dec_value(digits@) > max,
        },
{
    if digits.len() == 0 {
        return None;
    }
    let mut n: u64 = 0;
    let mut i: usize = 0;
    while i < digits.len()
        invariant
            i <= digits.len(),
            n <= max,
            n == dec_value(digits@.take(i as int)),
            forall|j: int| 0 <= j < i ==> is_digit(#[trigger] digits@[j]),
        decreases digits.len() - i,
    {
        let c: char = digits[i];
        if !('0' <= c && c <= '9') {
            assert(!is_digit(digits@[i as int]));
            return None;
        }
        let d: u64 = (c as u32 - 48) as u64;
        assert(digits@.take(i as int + 1).drop_last() =~= digits@.take(i as int));
        proof {
            lemma_dec_value_grows(digits@, i as int + 1);
        }
        if d > max || n > max / 10 || n * 10 > max - d {
            assert(dec_value(digits@.take(i as int + 1)) > max) by {
                assert(dec_value(digits@.take(i as int + 1)) == n * 10 + d);
                if n > max / 10 {
                    assert(n * 10 > max);
                }
            }
            return None;
        }
        n = n * 10 + d;
        i = i + 1;
    }
    assert(digits@.take(i as int) =~= digits@);
    Some(n)
}

/// The decimal text of a number consists of digits and stands for the number.
pub proof fn dec_round_trip(n: nat)
    ensures
        is_dec(dec_text(n)),
        dec_value(dec_text(n)) == n,
    decreases n,
{
    if n < 10 {
        assert(dec_text(n).drop_last() =~= Seq::<char>::empty());
        assert(dec_value(Seq::<char>::empty()) == 0);
    } else {
        dec_round_trip(n / 10);
        assert(dec_text(n).drop_last() =~= dec_text(n / 10));
    }
}


/// Numbers of two and four bytes stand with the most significant byte first.
pub proof fn most_significant_byte_stands_first(b0: u8, b1: u8, b2: u8, b3: u8, m: u16, n: u32)
    ensures
        be16(b0, b1) == 256 * b0 + b1,
        be32(b0, b1, b2, b3) == 16777216 * b0 + 65536 * b1 + 256 * b2 + b3,
        be16_bytes(m).len() == 2,
        256 * be16_bytes(m)[0] + be16_bytes(m)[1] == m,
        be32_bytes(n).len() == 4,
        16777216 * be32_bytes(n)[0] + 65536 * be32_bytes(n)[1] + 256 * be32_bytes(n)[2]
            + be32_bytes(n)[3] == n,
{
}

/// Each byte is written in lower case with two digits, the high one first, and a short
/// form shows the first four bytes.
pub proof fn bytes_are_written_with_two_digits(bytes: Seq<u8>, i: int)
    requires
        0 <= i < bytes.len(),
    ensures
        hex_text(bytes).len() == 2 * bytes.len(),
        ({
            let (hi, lo) = (hex_text(bytes)[2 * i], hex_text(bytes)[2 * i + 1]);
            &&& ('0' <= hi <= '9' || 'a' <= hi <= 'f')
            &&& ('0' <= lo <= '9' || 'a' <= lo <= 'f')
            &&& hex_value(hi as u8) matches Some(h) && hex_value(lo as u8) matches Some(l) && 16 * h
                + l == bytes[i]
        }),
        bytes.len() >= 4 ==> short_hex_text(bytes) == hex_text(bytes).take(8),
        bytes.len() < 4 ==> short_hex_text(bytes) == hex_text(bytes),
{
    assert((2 * i) / 2 == i && (2 * i + 1) / 2 == i);
    if bytes.len() >= 4 {
        assert(short_hex_text(bytes) =~= hex_text(bytes).take(8));
    } else {
        assert(bytes.take(bytes.len() as int) =~= bytes);
    }
}

/// Numbers are written in decimal: two numbers have the same text only if they are
/// equal, no text but that of zero begins with a zero, and one more digit at the end
/// makes ten times the number and that digit.
pub proof fn numbers_are_written_in_decimal(m: nat, n: nat, d: nat)
    requires
        d < 10,
    ensures
        dec_text(m) == dec_text(n) ==> m == n,
        n > 0 ==> dec_text(n)[0] != '0',
        n > 0 ==> dec_text(10 * n + d) == dec_text(n).push((48 + d) as char),
        dec_text(d) == seq![(48 + d) as char],
    decreases n,
{
    dec_round_trip(m);
    dec_round_trip(n);
    if n > 0 {
        assert((10 * n + d) / 10 == n && (10 * n + d) % 10 == d);
        if n >= 10 {
            numbers_are_written_in_decimal(m, n / 10, d);
            dec_round_trip(n / 10);
        }
    }
}
} // verus!
