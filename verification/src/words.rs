//! Taking text apart: white space, words, lines, lists and numbers.
use crate::text::{chars_of, is_digit, push_text, same_chars, string_of, sub_chars};
use vstd::prelude::*;

verus! {

// ---------------------------------------------------------------------------
// White space
// ---------------------------------------------------------------------------
/// Whether a character is white space (the Unicode property).
pub open spec fn is_space(c: char) -> bool {
    let n = c as u32;
    ||| 9 <= n <= 13
    ||| n == 32
    ||| n == 0x85
    ||| n == 0xA0
    ||| n == 0x1680
    ||| 0x2000 <= n <= 0x200A
    ||| n == 0x2028
    ||| n == 0x2029
    ||| n == 0x202F
    ||| n == 0x205F
    ||| n == 0x3000
}

/// Tests whether a character is white space.
pub fn is_white(c: char) -> (r: bool)
    ensures
        r == is_space(c),
{
    let n: u32 = c as u32;
    (9 <= n && n <= 13) || n == 32 || n == 0x85 || n == 0xA0 || n == 0x1680 || (0x2000 <= n && n
        <= 0x200A) || n == 0x2028 || n == 0x2029 || n == 0x202F || n == 0x205F || n == 0x3000
}

/// A text without white space at its end.
pub open spec fn trimmed_end(s: Seq<char>) -> Seq<char>
    decreases s.len(),
{
    if s.len() > 0 && is_space(s.last()) {
        trimmed_end(s.drop_last())
    } else {
        s
    }
}

/// A text without white space at its beginning.
pub open spec fn trimmed_start(s: Seq<char>) -> Seq<char>
    decreases s.len(),
{
    if s.len() > 0 && is_space(s[0]) {
        trimmed_start(s.skip(1))
    } else {
        s
    }
}

/// A text without white space at either end.
pub open spec fn trimmed(s: Seq<char>) -> Seq<char> {
    trimmed_end(trimmed_start(s))
}

/// Cuts white space off both ends.
pub fn trim(chars: &[char]) -> (r: &[char])
    ensures
        r@ == trimmed(chars@),
{
    let n: usize = chars.len();
    let mut from: usize = 0;
    assert(chars@.skip(0) =~= chars@);
    while from < n && is_white(chars[from])
        invariant
            from <= n,
            n == chars@.len(),
            trimmed_start(chars@) == trimmed_start(chars@.skip(from as int)),
        decreases n - from,
    {
        assert(chars@.skip(from as int).skip(1) =~= chars@.skip(from + 1));
        from = from + 1;
    }
    let ghost s = chars@.skip(from as int);
    assert(trimmed_start(chars@) == s);
    let mut to: usize = n;
    assert(s.take(n - from) =~= s);
    while to > from && is_white(chars[to - 1])
        invariant
            from <= to <= n,
            n == chars@.len(),
            s == chars@.skip(from as int),
            trimmed_end(s) == trimmed_end(s.take(to - from)),
        decreases to - from,
    {
        assert(s.take(to - from).last() == chars@[to - 1]);
        assert(s.take(to - from).drop_last() =~= s.take(to - 1 - from));
        to = to - 1;
    }
    proof {
        let t = s.take(to - from);
        if to > from {
            assert(t.last() == chars@[to - 1]);
        }
        assert(t =~= chars@.subrange(from as int, to as int));
    }
    sub_chars(chars, from, to)
}

/// Gives a text without white space at either end.
pub fn trim_text(s: &str) -> (r: String)
    ensures
        r@ == trimmed(s@),
{
    let chars: Vec<char> = chars_of(s);
    string_of(trim(chars.as_slice()))
}

proof fn lemma_trimmed_start(s: Seq<char>)
    ensures
        trimmed_start(s).len() > 0 ==> !is_space(trimmed_start(s)[0]),
    decreases s.len(),
{
    if s.len() > 0 && is_space(s[0]) {
        lemma_trimmed_start(s.skip(1));
    }
}

proof fn lemma_trimmed_end(s: Seq<char>)
    ensures
        trimmed_end(s).len() > 0 ==> !is_space(trimmed_end(s).last()),
        trimmed_end(s).len() <= s.len(),
        trimmed_end(s) == s.take(trimmed_end(s).len() as int),
    decreases s.len(),
{
    if s.len() > 0 && is_space(s.last()) {
        lemma_trimmed_end(s.drop_last());
        let n = trimmed_end(s).len() as int;
        assert(s.drop_last().take(n) =~= s.take(n));
    } else {
        assert(s.take(s.len() as int) =~= s);
    }
}

/// A trimmed text neither begins nor ends with white space, and trimming it again
/// changes nothing.
pub proof fn trimming_is_final(s: Seq<char>)
    ensures
        trimmed(s).len() > 0 ==> !is_space(trimmed(s)[0]) && !is_space(trimmed(s).last()),
        trimmed(trimmed(s)) == trimmed(s),
{
    lemma_trimmed_start(s);
    lemma_trimmed_end(trimmed_start(s));
    let t = trimmed(s);
    if t.len() > 0 {
        assert(t[0] == trimmed_start(s)[0]);
    }
}

// ---------------------------------------------------------------------------
// Parts
// ---------------------------------------------------------------------------
/// The parts of a text between separators: one more than there are separators.
pub open spec fn split_parts(s: Seq<char>, sep: char) -> Seq<Seq<char>>
    decreases s.len(),
{
    if s.len() == 0 {
        seq![Seq::empty()]
    } else {
        let before = split_parts(s.drop_last(), sep);
        if s.last() == sep {
            before.push(Seq::empty())
        } else {
            before.update(before.len() - 1, before.last().push(s.last()))
        }
    }
}

/// Texts as character sequences.
pub open spec fn texts(v: Seq<String>) -> Seq<Seq<char>> {
    v.map_values(|t: String| t@)
}

/// Character vectors as character sequences.
pub open spec fn char_seqs(v: Seq<Vec<char>>) -> Seq<Seq<char>> {
    v.map_values(|t: Vec<char>| t@)
}

proof fn lemma_split_nonempty(s: Seq<char>, sep: char)
    ensures
        split_parts(s, sep).len() > 0,
    decreases s.len(),
{
    if s.len() > 0 {
        lemma_split_nonempty(s.drop_last(), sep);
    }
}

/// Splits a text at separators.
pub fn split(chars: &[char], sep: char) -> (r: Vec<Vec<char>>)
    ensures
        char_seqs(r@) == split_parts(chars@, sep),
        r@.len() > 0,
{
    let mut done: Vec<Vec<char>> = Vec::new();
    let mut last: Vec<char> = Vec::new();
    let mut i: usize = 0;
    assert(char_seqs(done@).push(last@) =~= split_parts(chars@.take(0), sep));
    while i < chars.len()
        invariant
            i <= chars@.len(),
            char_seqs(done@).push(last@) == split_parts(chars@.take(i as int), sep),
        decreases chars.len() - i,
    {
        let ghost parts = split_parts(chars@.take(i as int), sep);
        let ghost was = done@;
        let ghost part = last@;
        let c: char = chars[i];
        if c == sep {
            let mut full: Vec<char> = Vec::new();
            core::mem::swap(&mut full, &mut last);
            done.push(full);
            assert(char_seqs(done@) =~= char_seqs(was).push(part));
        } else {
            last.push(c);
        }
        i = i + 1;
        proof {
            assert(chars@.take(i as int).drop_last() =~= chars@.take(i - 1));
            assert(chars@.take(i as int).last() == c);
            assert(char_seqs(done@).push(last@) =~= split_parts(chars@.take(i as int), sep));
        }
    }
    assert(chars@.take(i as int) =~= chars@);
    let ghost was = done@;
    let ghost part = last@;
    done.push(last);
    assert(char_seqs(done@) =~= char_seqs(was).push(part));
    done
}

/// Puts parts together again, with separators between them.
pub open spec fn joined_parts(parts: Seq<Seq<char>>, sep: char) -> Seq<char>
    decreases parts.len(),
{
    if parts.len() == 0 {
        Seq::empty()
    } else if parts.len() == 1 {
        parts[0]
    } else {
        joined_parts(parts.drop_last(), sep).push(sep) + parts.last()
    }
}

/// Splitting loses nothing: the parts with separators between them are the text.
pub proof fn splitting_loses_nothing(s: Seq<char>, sep: char)
    ensures
        split_parts(s, sep).len() > 0,
        joined_parts(split_parts(s, sep), sep) == s,
    decreases s.len(),
{
    if s.len() == 0 {
        assert(joined_parts(split_parts(s, sep), sep) =~= s);
    } else {
        splitting_loses_nothing(s.drop_last(), sep);
        let before = split_parts(s.drop_last(), sep);
        let after = split_parts(s, sep);
        assert(s =~= s.drop_last().push(s.last()));
        if s.last() == sep {
            assert(after.drop_last() =~= before);
            assert(joined_parts(after, sep) =~= s);
        } else {
            assert(after.drop_last() =~= before.drop_last());
            assert(joined_parts(after, sep) =~= s);
        }
    }
}

// ---------------------------------------------------------------------------
// Lines
// ---------------------------------------------------------------------------
/// A line without a carriage return before its end.
pub open spec fn without_return(line: Seq<char>) -> Seq<char> {
    if line.len() > 0 && line.last() == '\r' {
        line.drop_last()
    } else {
        line
    }
}

/// The lines of a text. A line feed ends a line, together with a carriage return
/// before it; what follows the last line feed is a line if it is not empty.
pub open spec fn lines_of(s: Seq<char>) -> Seq<Seq<char>> {
    let parts = split_parts(s, '\n');
    let ended = parts.drop_last().map_values(|l: Seq<char>| without_return(l));
    if parts.last().len() == 0 {
        ended
    } else {
        ended.push(parts.last())
    }
}

/// Splits a text into lines.
pub fn lines(s: &str) -> (r: Vec<String>)
    ensures
        texts(r@) == lines_of(s@),
{
    let chars: Vec<char> = chars_of(s);
    let parts: Vec<Vec<char>> = split(chars.as_slice(), '\n');
    let ghost all = char_seqs(parts@);
    let ghost ended = all.drop_last().map_values(|l: Seq<char>| without_return(l));
    let n: usize = parts.len();
    let mut r: Vec<String> = Vec::new();
    let mut i: usize = 0;
    while i + 1 < n
        invariant
            n == parts@.len(),
            0 < n,
            i <= n - 1,
            all == char_seqs(parts@),
            ended == all.drop_last().map_values(|l: Seq<char>| without_return(l)),
            texts(r@) == ended.take(i as int),
        decreases n - i,
    {
        let part: &Vec<char> = &parts[i];
        let len: usize = part.len();
        let end: usize = if len > 0 && part[len - 1] == '\r' {
            len - 1
        } else {
            len
        };
        let line: String = string_of(sub_chars(part.as_slice(), 0, end));
        proof {
            assert(all[i as int] == part@);
            assert(line@ =~= without_return(part@));
        }
        let ghost was = r@;
        r.push(line);
        i = i + 1;
        assert(texts(r@) =~= texts(was).push(line@));
        assert(texts(r@) =~= ended.take(i as int));
    }
    assert(ended.take(i as int) =~= ended);
    let last: &Vec<char> = &parts[n - 1];
    assert(all.last() == last@);
    if last.len() > 0 {
        let ghost was = r@;
        r.push(string_of(last.as_slice()));
        assert(texts(r@) =~= texts(was).push(last@));
    }
    r
}

// ---------------------------------------------------------------------------
// Words
// ---------------------------------------------------------------------------
/// The words of a text, the last of them possibly still growing.
#[verifier::ext_equal]
pub ghost struct Words {
    pub done: Seq<Seq<char>>,
    pub last: Seq<char>,
}

/// The words of a text up to its end.
pub open spec fn words_scan(s: Seq<char>) -> Words
    decreases s.len(),
{
    if s.len() == 0 {
        Words { done: Seq::empty(), last: Seq::empty() }
    } else {
        let before = words_scan(s.drop_last());
        if !is_space(s.last()) {
            Words { last: before.last.push(s.last()), ..before }
        } else if before.last.len() > 0 {
            Words { done: before.done.push(before.last), last: Seq::empty() }
        } else {
            before
        }
    }
}

/// The words of a text: what stands between white space.
pub open spec fn words_of(s: Seq<char>) -> Seq<Seq<char>> {
    let w = words_scan(s);
    if w.last.len() > 0 {
        w.done.push(w.last)
    } else {
        w.done
    }
}

/// Splits a text into words.
pub fn words(s: &str) -> (r: Vec<Vec<char>>)
    ensures
        char_seqs(r@) == words_of(s@),
{
    let chars: Vec<char> = chars_of(s);
    let mut done: Vec<Vec<char>> = Vec::new();
    let mut last: Vec<char> = Vec::new();
    let mut i: usize = 0;
    assert(char_seqs(done@) =~= Seq::empty());
    assert(last@ =~= Seq::empty());
    while i < chars.len()
        invariant
            i <= chars@.len(),
            char_seqs(done@) == words_scan(chars@.take(i as int)).done,
            last@ == words_scan(chars@.take(i as int)).last,
        decreases chars.len() - i,
    {
        let c: char = chars[i];
        let ghost was = done@;
        let ghost part = last@;
        if !is_white(c) {
            last.push(c);
        } else if last.len() > 0 {
            let mut full: Vec<char> = Vec::new();
            core::mem::swap(&mut full, &mut last);
            done.push(full);
            assert(char_seqs(done@) =~= char_seqs(was).push(part));
            assert(last@ =~= Seq::empty());
        }
        i = i + 1;
        assert(chars@.take(i as int).drop_last() =~= chars@.take(i - 1));
    }
    assert(chars@.take(i as int) =~= chars@);
    if last.len() > 0 {
        let ghost was = done@;
        let ghost part = last@;
        done.push(last);
        assert(char_seqs(done@) =~= char_seqs(was).push(part));
    }
    done
}

// ---------------------------------------------------------------------------
// Parts of a text
// ---------------------------------------------------------------------------
/// Whether a text holds another.
pub open spec fn holds(s: Seq<char>, part: Seq<char>) -> bool {
    exists|i: int| 0 <= i <= s.len() - part.len() && #[trigger] s.subrange(i, i + part.len()) == part
}

/// Tests whether a text holds another.
pub fn contains(chars: &[char], part: &str) -> (r: bool)
    ensures
        r == holds(chars@, part@),
{
    let p: Vec<char> = chars_of(part);
    let n: usize = p.len();
    if chars.len() < n {
        return false;
    }
    if n == 0 {
        assert(chars@.subrange(0int, 0int + part@.len()) =~= part@);
        return true;
    }
    let mut i: usize = 0;
    while i <= chars.len() - n
        invariant
            n == p@.len(),
            0 < n,
            p@ == part@,
            n <= chars.len(),
            i <= chars.len() - n + 1,
            forall|j: int| 0 <= j < i ==> #[trigger] chars@.subrange(j, j + part@.len()) != part@,
        decreases chars.len() - n + 1 - i,
    {
        if same_chars(sub_chars(chars, i, i + n), p.as_slice()) {
            return true;
        }
        i = i + 1;
    }
    false
}

/// A character in lower case, if it is an ASCII letter.
pub open spec fn lower(c: char) -> char {
    if 65 <= c as u32 <= 90 {
        (c as u32 + 32) as char
    } else {
        c
    }
}

/// A text with its ASCII letters in lower case.
pub open spec fn lowered(s: Seq<char>) -> Seq<char> {
    s.map_values(|c: char| lower(c))
}

fn lower_char(c: char) -> (r: char)
    ensures
        r == lower(c),
{
    let n: u32 = c as u32;
    if 65 <= n && n <= 90 {
        (n as u8 + 32) as char
    } else {
        c
    }
}

/// Turns ASCII letters into lower case.
pub fn to_lower(chars: &[char]) -> (r: Vec<char>)
    ensures
        r@ == lowered(chars@),
{
    let mut r: Vec<char> = Vec::new();
    let mut i: usize = 0;
    while i < chars.len()
        invariant
            i <= chars@.len(),
            r@ == lowered(chars@.take(i as int)),
        decreases chars.len() - i,
    {
        r.push(lower_char(chars[i]));
        i = i + 1;
        assert(r@ =~= lowered(chars@.take(i as int)));
    }
    assert(chars@.take(i as int) =~= chars@);
    r
}

/// A character so many times.
pub open spec fn repeated(c: char, n: nat) -> Seq<char> {
    Seq::new(n, |i: int| c)
}

/// Appends a character so many times.
pub fn push_repeated(s: &mut String, c: char, n: usize)
    ensures
        final(s)@ == old(s)@ + repeated(c, n as nat),
{
    let mut i: usize = 0;
    assert(s@ =~= old(s)@ + repeated(c, 0));
    while i < n
        invariant
            i <= n,
            s@ == old(s)@ + repeated(c, i as nat),
        decreases n - i,
    {
        s.push(c);
        i = i + 1;
        assert(s@ =~= old(s)@ + repeated(c, i as nat));
    }
}

/// A text, with spaces behind it up to a width.
pub open spec fn padded(s: Seq<char>, width: nat) -> Seq<char> {
    if s.len() < width {
        s + repeated(' ', (width - s.len()) as nat)
    } else {
        s
    }
}

/// Appends a text, with spaces behind it up to a width.
pub fn push_padded(s: &mut String, t: &str, width: usize)
    ensures
        final(s)@ == old(s)@ + padded(t@, width as nat),
{
    let n: usize = chars_of(t).len();
    push_text(s, t);
    if n < width {
        push_repeated(s, ' ', width - n);
    }
    assert(s@ =~= old(s)@ + padded(t@, width as nat));
}

/// Texts, with another between each two.
pub open spec fn joined(parts: Seq<Seq<char>>, sep: Seq<char>) -> Seq<char>
    decreases parts.len(),
{
    if parts.len() == 0 {
        Seq::empty()
    } else if parts.len() == 1 {
        parts[0]
    } else {
        joined(parts.drop_last(), sep) + sep + parts.last()
    }
}

/// Joins texts, with another between each two.
pub fn join(parts: &[String], sep: &str) -> (s: String)
    ensures
        s@ == joined(texts(parts@), sep@),
{
    let mut s: String = String::new();
    let mut i: usize = 0;
    let ghost all = texts(parts@);
    assert(s@ =~= joined(all.take(0), sep@));
    while i < parts.len()
        invariant
            i <= parts@.len(),
            all == texts(parts@),
            s@ == joined(all.take(i as int), sep@),
        decreases parts.len() - i,
    {
        let ghost before = s@;
        if i > 0 {
            push_text(&mut s, sep);
        }
        push_text(&mut s, parts[i].as_str());
        i = i + 1;
        proof {
            assert(all.take(i as int).drop_last() =~= all.take(i - 1));
            assert(all.take(i as int).last() == parts@[i - 1]@);
            assert(s@ =~= joined(all.take(i as int), sep@));
        }
    }
    assert(all.take(i as int) =~= all);
    s
}

// ---------------------------------------------------------------------------
// Numbers
// ---------------------------------------------------------------------------
/// Why a text is not a number.
#[derive(Clone, Copy, Debug, PartialEq, Eq, Structural)]
pub enum NumberError {
    Empty,
    InvalidDigit,
    TooLarge,
}

impl NumberError {
    /// Gives the message for a reader.
    pub fn to_text(&self) -> (s: &'static str)
        ensures
            s@ == self.text(),
    {
        match self {
            NumberError::Empty => "cannot parse integer from empty string",
            NumberError::InvalidDigit => "invalid digit found in string",
            NumberError::TooLarge => "number too large to fit in target type",
        }
    }

    /// The message for a reader.
    pub open spec fn text(&self) -> Seq<char> {
        match self {
            NumberError::Empty => "cannot parse integer from empty string"@,
            NumberError::InvalidDigit => "invalid digit found in string"@,
            NumberError::TooLarge => "number too large to fit in target type"@,
        }
    }
}

/// The digits of a number: what follows a plus sign, if there is one before
/// something else.
pub open spec fn digits_of(s: Seq<char>) -> Seq<char> {
    if s.len() > 1 && s[0] == '+' {
        s.skip(1)
    } else {
        s
    }
}

/// The number that a text stands for: decimal digits, possibly after a plus sign,
/// up to the largest number of thirty-two bits. Reading goes from left to right
/// and ends at the first trouble.
pub open spec fn number_of(s: Seq<char>) -> Result<u32, NumberError> {
    if s.len() == 0 {
        Err(NumberError::Empty)
    } else {
        number_scan(digits_of(s))
    }
}

/// The number that digits stand for, or the first trouble with them.
pub open spec fn number_scan(s: Seq<char>) -> Result<u32, NumberError>
    decreases s.len(),
{
    if s.len() == 0 {
        Ok(0)
    } else {
        match number_scan(s.drop_last()) {
            Err(e) => Err(e),
            Ok(n) => if !is_digit(s.last()) {
                Err(NumberError::InvalidDigit)
            } else if n * 10 + (s.last() as int - 48) > u32::MAX {
                Err(NumberError::TooLarge)
            } else {
                Ok((n * 10 + (s.last() as int - 48)) as u32)
            },
        }
    }
}

proof fn lemma_scan_error_stays(s: Seq<char>, i: int)
    requires
        0 <= i <= s.len(),
        number_scan(s.take(i)) is Err,
    ensures
        number_scan(s) == number_scan(s.take(i)),
    decreases s.len(),
{
    if i == s.len() {
        assert(s.take(i) =~= s);
    } else {
        assert(s.drop_last().take(i) =~= s.take(i));
        lemma_scan_error_stays(s.drop_last(), i);
    }
}

/// Reads a number.
pub fn parse_u32(chars: &[char]) -> (r: Result<u32, NumberError>)
    ensures
        r == number_of(chars@),
{
    let n: usize = chars.len();
    if n == 0 {
        return Err(NumberError::Empty);
    }
    let start: usize = if n > 1 && chars[0] == '+' {
        1
    } else {
        0
    };
    let ghost s = digits_of(chars@);
    assert(s =~= chars@.skip(start as int));
    let mut value: u32 = 0;
    let mut i: usize = start;
    assert(s.take(0) =~= Seq::empty());
    while i < n
        invariant
            start <= i <= n,
            n == chars@.len(),
            0 < n,
            s == digits_of(chars@),
            s == chars@.skip(start as int),
            number_scan(s.take(i - start)) == Ok::<u32, NumberError>(value),
        decreases n - i,
    {
        let c: char = chars[i];
        proof {
            assert(s.take(i + 1 - start).drop_last() =~= s.take(i - start));
            assert(s.take(i + 1 - start).last() == chars@[i as int]);
        }
        if c < '0' || c > '9' {
            proof {
                lemma_scan_error_stays(s, i + 1 - start);
            }
            return Err(NumberError::InvalidDigit);
        }
        let next: u64 = value as u64 * 10 + (c as u32 - 48) as u64;
        if next > u32::MAX as u64 {
            proof {
                lemma_scan_error_stays(s, i + 1 - start);
            }
            return Err(NumberError::TooLarge);
        }
        value = next as u32;
        i = i + 1;
    }
    assert(s.take(i - start) =~= s);
    Ok(value)
}


/// Trimming takes white space off both ends and nothing else.
pub proof fn trimming_takes_only_space(s: Seq<char>) -> (ends: (Seq<char>, Seq<char>))
    ensures
        s == ends.0 + trimmed(s) + ends.1,
        forall|i: int| 0 <= i < ends.0.len() ==> is_space(#[trigger] ends.0[i]),
        forall|i: int| 0 <= i < ends.1.len() ==> is_space(#[trigger] ends.1[i]),
{
    let front = lemma_start_of(s);
    let back = lemma_end_of(trimmed_start(s));
    assert(s =~= front + trimmed(s) + back);
    (front, back)
}

/// What is trimmed at the start is white space.
proof fn lemma_start_of(s: Seq<char>) -> (front: Seq<char>)
    ensures
        s == front + trimmed_start(s),
        forall|i: int| 0 <= i < front.len() ==> is_space(#[trigger] front[i]),
    decreases s.len(),
{
    if s.len() > 0 && is_space(s[0]) {
        let rest = lemma_start_of(s.skip(1));
        let front = seq![s[0]] + rest;
        assert(s =~= seq![s[0]] + s.skip(1));
        assert(s =~= front + trimmed_start(s));
        front
    } else {
        assert(s =~= Seq::<char>::empty() + s);
        Seq::empty()
    }
}

/// What is trimmed at the end is white space.
proof fn lemma_end_of(s: Seq<char>) -> (back: Seq<char>)
    ensures
        s == trimmed_end(s) + back,
        forall|i: int| 0 <= i < back.len() ==> is_space(#[trigger] back[i]),
    decreases s.len(),
{
    if s.len() > 0 && is_space(s.last()) {
        let rest = lemma_end_of(s.drop_last());
        let back = rest.push(s.last());
        assert(s =~= s.drop_last().push(s.last()));
        assert(s =~= trimmed_end(s) + back);
        back
    } else {
        assert(s =~= s + Seq::<char>::empty());
        Seq::empty()
    }
}

/// No part of a split text holds the separator: with the parts' joining back to the
/// text, this makes them the pieces between the separators.
pub proof fn parts_hold_no_separator(s: Seq<char>, sep: char)
    ensures
        split_parts(s, sep).len() > 0,
        forall|i: int|
            0 <= i < split_parts(s, sep).len() ==> !(#[trigger] split_parts(s, sep)[i]).contains(
                sep,
            ),
    decreases s.len(),
{
    if s.len() > 0 {
        let before = split_parts(s.drop_last(), sep);
        parts_hold_no_separator(s.drop_last(), sep);
        if s.last() != sep {
            let grown = before.last().push(s.last());
            assert(!before[before.len() - 1].contains(sep));
            assert forall|i: int| 0 <= i < grown.len() implies grown[i] != sep by {
                if i < before.last().len() {
                    assert(before.last()[i] == grown[i]);
                }
            }
        }
    }
}

/// Text before a separator is a part of its own, and what follows is split by itself.
pub proof fn splitting_goes_piece_by_piece(a: Seq<char>, sep: char, b: Seq<char>)
    ensures
        split_parts(a.push(sep) + b, sep) == split_parts(a, sep) + split_parts(b, sep),
        !a.contains(sep) ==> split_parts(a, sep) == seq![a],
    decreases a.len() + b.len(),
{
    if !a.contains(sep) {
        lemma_split_one(a, sep);
    }
    lemma_split_nonempty(a, sep);
    if b.len() == 0 {
        assert((a.push(sep) + b).drop_last() =~= a);
        assert((a.push(sep) + b).last() == sep);
        assert(split_parts(b, sep) =~= seq![Seq::<char>::empty()]);
        assert(split_parts(a.push(sep) + b, sep) =~= split_parts(a, sep) + split_parts(b, sep));
    } else {
        let whole = a.push(sep) + b;
        splitting_goes_piece_by_piece(a, sep, b.drop_last());
        lemma_split_nonempty(b.drop_last(), sep);
        assert(whole.drop_last() =~= a.push(sep) + b.drop_last());
        assert(whole.last() == b.last());
        let (left, right) = (split_parts(a, sep), split_parts(b.drop_last(), sep));
        assert((left + right).last() == right.last());
        assert(split_parts(whole, sep) =~= left + split_parts(b, sep));
    }
}

/// A text without the separator is one part.
proof fn lemma_split_one(a: Seq<char>, sep: char)
    requires
        !a.contains(sep),
    ensures
        split_parts(a, sep) == seq![a],
    decreases a.len(),
{
    if a.len() > 0 {
        assert forall|i: int| 0 <= i < a.drop_last().len() implies a.drop_last()[i] != sep by {
            assert(a[i] == a.drop_last()[i]);
        }
        lemma_split_one(a.drop_last(), sep);
        assert(a.last() != sep);
        assert(a =~= a.drop_last().push(a.last()));
        assert(split_parts(a, sep) =~= seq![a]);
    } else {
        assert(a =~= Seq::<char>::empty());
    }
}

/// A line ends at its line feed, a carriage return before that is no part of it, and the
/// lines after it are those of the rest.
pub proof fn lines_end_at_line_feeds(line: Seq<char>, rest: Seq<char>)
    requires
        !line.contains('\n'),
    ensures
        lines_of(line.push('\n') + rest) == seq![
            if line.len() > 0 && line.last() == '\r' {
                line.drop_last()
            } else {
                line
            },
        ] + lines_of(rest),
        lines_of(line) == (if line.len() == 0 {
            Seq::<Seq<char>>::empty()
        } else {
            seq![line]
        }),
{
    let whole = line.push('\n') + rest;
    splitting_goes_piece_by_piece(line, '\n', rest);
    lemma_split_nonempty(rest, '\n');
    let right = split_parts(rest, '\n');
    assert(split_parts(whole, '\n') =~= seq![line] + right);
    assert((seq![line] + right).last() == right.last());
    assert((seq![line] + right).drop_last() =~= seq![line] + right.drop_last());
    assert(lines_of(whole) =~= seq![without_return(line)] + lines_of(rest));
    assert(seq![line].drop_last() =~= Seq::<Seq<char>>::empty());
    assert(lines_of(line) =~= (if line.len() == 0 {
        Seq::<Seq<char>>::empty()
    } else {
        seq![line]
    }));
}

/// White space parts words: a text without any is one word, unless it is empty, and the
/// words of two texts with a space between them are those of the one and then those of
/// the other.
pub proof fn space_parts_words(a: Seq<char>, space: char, b: Seq<char>)
    requires
        is_space(space),
    ensures
        words_of(a.push(space) + b) == words_of(a) + words_of(b),
        (a.len() > 0 && forall|i: int| 0 <= i < a.len() ==> !is_space(#[trigger] a[i]))
            ==> words_of(a) == seq![a],
        words_of(Seq::empty()) == Seq::<Seq<char>>::empty(),
{
    lemma_words_after(a, space, b);
    let (w, v) = (words_scan(a.push(space) + b), words_scan(b));
    assert(words_of(a.push(space) + b) =~= words_of(a) + words_of(b));
    if a.len() > 0 && forall|i: int| 0 <= i < a.len() ==> !is_space(#[trigger] a[i]) {
        lemma_one_word(a);
        assert(words_of(a) =~= seq![a]);
    }
}

/// After a space the scan begins anew.
proof fn lemma_words_after(a: Seq<char>, space: char, b: Seq<char>)
    requires
        is_space(space),
    ensures
        words_scan(a.push(space) + b).done == words_of(a) + words_scan(b).done,
        words_scan(a.push(space) + b).last == words_scan(b).last,
    decreases b.len(),
{
    let whole = a.push(space) + b;
    if b.len() == 0 {
        assert(whole.drop_last() =~= a);
        assert(whole.last() == space);
        assert(words_scan(whole).done =~= words_of(a) + words_scan(b).done);
        assert(words_scan(whole).last =~= words_scan(b).last);
    } else {
        lemma_words_after(a, space, b.drop_last());
        assert(whole.drop_last() =~= a.push(space) + b.drop_last());
        assert(whole.last() == b.last());
        assert(words_scan(whole).done =~= words_of(a) + words_scan(b).done);
        assert(words_scan(whole).last =~= words_scan(b).last);
    }
}

/// Without white space the scan gathers one word.
proof fn lemma_one_word(a: Seq<char>)
    requires
        forall|i: int| 0 <= i < a.len() ==> !is_space(#[trigger] a[i]),
    ensures
        words_scan(a).done.len() == 0,
        words_scan(a).last == a,
    decreases a.len(),
{
    if a.len() > 0 {
        let front = a.drop_last();
        assert forall|i: int| 0 <= i < front.len() implies !is_space(#[trigger] front[i]) by {
            assert(a[i] == front[i]);
        }
        lemma_one_word(front);
        assert(a[a.len() - 1] == a.last());
        assert(a =~= front.push(a.last()));
    } else {
        assert(a =~= Seq::<char>::empty());
    }
}

/// Padding keeps the text, adds blanks behind it and reaches the width; text that is wide
/// enough stays as it is.
pub proof fn padding_adds_blanks_behind(s: Seq<char>, width: nat, i: int)
    requires
        s.len() <= i < padded(s, width).len(),
    ensures
        padded(s, width).take(s.len() as int) == s,
        padded(s, width).len() == (if s.len() < width {
            width
        } else {
            s.len()
        }),
        padded(s, width)[i] == ' ',
{
    assert(padded(s, width).take(s.len() as int) =~= s);
}

/// What lowering does to one character.
proof fn lemma_lower(c: char)
    ensures
        'A' <= c <= 'Z' ==> lower(c) as int == c as int + 32,
        !('A' <= c <= 'Z') ==> lower(c) == c,
        lower(lower(c)) == lower(c),
{
    assert(c as u32 as int == c as int);
}

/// Lowering changes the twenty-six capitals of ASCII to their small letters, each in its
/// place, and nothing else; done twice it changes no more.
pub proof fn lowering_changes_capitals_only(s: Seq<char>, i: int)
    requires
        0 <= i < s.len(),
    ensures
        lowered(s).len() == s.len(),
        'A' <= s[i] <= 'Z' ==> lowered(s)[i] as int - 'a' as int == s[i] as int - 'A' as int,
        !('A' <= s[i] <= 'Z') ==> lowered(s)[i] == s[i],
        lowered(lowered(s)) == lowered(s),
{
    lemma_lower(s[i]);
    assert forall|k: int| 0 <= k < s.len() implies lower(lower(#[trigger] s[k])) == lower(
        s[k],
    ) by {
        lemma_lower(s[k]);
    }
    assert(lowered(lowered(s)) =~= lowered(s));
}

/// A number is read from decimal digits, with a plus before them or not: what comes out
/// is their value, and comes out whenever it fits.
pub proof fn numbers_are_read_in_decimal(s: Seq<char>)
    ensures
        match number_of(s) {
            Ok(n) => crate::text::is_dec(digits_of(s)) && crate::text::dec_value(digits_of(s)) == n,
            Err(NumberError::Empty) => s.len() == 0,
            Err(_) => s.len() > 0 && (!crate::text::is_dec(digits_of(s)) || crate::text::dec_value(
                digits_of(s),
            ) > u32::MAX),
        },
        s.len() > 1 && s[0] == '+' ==> number_of(s) == number_of(s.skip(1)) || s[1] == '+',
{
    if s.len() > 0 {
        lemma_number_scan(digits_of(s));
    }
}

/// What a scan of digits comes to.
proof fn lemma_number_scan(s: Seq<char>)
    ensures
        match number_scan(s) {
            Ok(n) => (forall|i: int| 0 <= i < s.len() ==> is_digit(#[trigger] s[i]))
                && crate::text::dec_value(s) == n,
            Err(e) => e != NumberError::Empty && ((exists|i: int|
                0 <= i < s.len() && !is_digit(#[trigger] s[i])) || crate::text::dec_value(s)
                > u32::MAX),
        },
    decreases s.len(),
{
    if s.len() > 0 {
        let front = s.drop_last();
        lemma_number_scan(front);
        assert(s[s.len() - 1] == s.last());
        match number_scan(front) {
            Ok(n) => {
                assert forall|i: int| 0 <= i < s.len() - 1 implies is_digit(#[trigger] s[i]) by {
                    assert(front[i] == s[i]);
                }
            },
            Err(e) => {
                if exists|i: int| 0 <= i < front.len() && !is_digit(#[trigger] front[i]) {
                    let i = choose|i: int| 0 <= i < front.len() && !is_digit(#[trigger] front[i]);
                    assert(!is_digit(s[i]));
                }
            },
        }
    }
}

/// Parts are joined in order with the separator between them, and only there.
pub proof fn joining_puts_separators_between(parts: Seq<Seq<char>>, part: Seq<char>, sep: Seq<char>)
    ensures
        joined(Seq::empty(), sep).len() == 0,
        joined(seq![part], sep) == part,
        parts.len() > 0 ==> joined(parts.push(part), sep) == joined(parts, sep) + sep + part,
{
    assert(seq![part][0] == part);
    assert(parts.push(part).drop_last() =~= parts);
    assert(parts.push(part).last() == part);
}
} // verus!
