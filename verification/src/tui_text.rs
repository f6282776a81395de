//! Text for the full-screen program: without escape sequences, obscured, or of a
//! time of day.
use crate::text::{chars_of, push_dec, push_text, string_of, sub_chars};
use crate::words::push_repeated;
use vstd::prelude::*;

verus! {

/// The text that bytes make.
pub uninterp spec fn lossy_text(bytes: Seq<u8>) -> Seq<char>;

/// `String::from_utf8_lossy`, which depends on the bytes alone. Bytes that are
/// UTF-8 give the text that they encode. What stands in for other bytes is left
/// unsaid.
#[verifier::external_body]
pub(crate) fn from_utf8_lossy(bytes: &[u8]) -> (s: String)
    ensures
        s@ == lossy_text(bytes@),
        vstd::utf8::valid_utf8(bytes@) ==> vstd::utf8::encode_utf8(s@) == bytes@,
{
    String::from_utf8_lossy(bytes).into_owned()
}

// ---------------------------------------------------------------------------
// Escape sequences
// ---------------------------------------------------------------------------
/// The character that opens an escape sequence.
pub const ESCAPE: char = '\u{1b}';

/// The character that may close an operating system command.
pub const BELL: char = '\u{7}';

/// A letter of ASCII.
pub open spec fn is_letter(c: char) -> bool {
    ('a' <= c && c <= 'z') || ('A' <= c && c <= 'Z')
}

/// Where an operating system command ends, seen from within it: after a bell, or
/// after an escape and the backslash that may follow it, or with the text.
pub open spec fn command_end(s: Seq<char>, i: nat) -> nat
    decreases s.len() - i,
{
    if i >= s.len() {
        s.len()
    } else if s[i as int] == BELL {
        i + 1
    } else if s[i as int] == ESCAPE {
        if i + 1 < s.len() && s[i as int + 1] == '\\' {
            i + 2
        } else {
            i + 1
        }
    } else {
        command_end(s, i + 1)
    }
}

/// Where any other sequence ends, seen from within it: after a letter, or with
/// the text.
pub open spec fn sequence_end(s: Seq<char>, i: nat) -> nat
    decreases s.len() - i,
{
    if i >= s.len() {
        s.len()
    } else if is_letter(s[i as int]) {
        i + 1
    } else {
        sequence_end(s, i + 1)
    }
}

/// Where the sequence that an escape opens ends.
pub open spec fn escape_end(s: Seq<char>, i: nat) -> nat {
    if i + 1 < s.len() && s[i as int + 1] == ']' {
        command_end(s, i + 2)
    } else {
        sequence_end(s, i + 1)
    }
}

proof fn lemma_command_end(s: Seq<char>, i: nat)
    requires
        i <= s.len(),
    ensures
        i <= command_end(s, i) <= s.len(),
    decreases s.len() - i,
{
    if i < s.len() && s[i as int] != BELL && s[i as int] != ESCAPE {
        lemma_command_end(s, i + 1);
    }
}

proof fn lemma_sequence_end(s: Seq<char>, i: nat)
    requires
        i <= s.len(),
    ensures
        i <= sequence_end(s, i) <= s.len(),
    decreases s.len() - i,
{
    if i < s.len() && !is_letter(s[i as int]) {
        lemma_sequence_end(s, i + 1);
    }
}

/// An escape sequence ends within the text, and after its first character.
pub proof fn lemma_escape_end(s: Seq<char>, i: nat)
    requires
        i < s.len(),
    ensures
        i < escape_end(s, i) <= s.len(),
{
    if i + 1 < s.len() && s[i as int + 1] == ']' {
        lemma_command_end(s, i + 2);
    } else {
        lemma_sequence_end(s, i + 1);
    }
}

/// What a text shows from a position on: all of it but the escape sequences.
pub open spec fn shown_from(s: Seq<char>, i: nat) -> Seq<char>
    decreases s.len() - i,
{
    if i >= s.len() {
        Seq::empty()
    } else if s[i as int] != ESCAPE {
        seq![s[i as int]] + shown_from(s, i + 1)
    } else {
        proof {
            lemma_escape_end(s, i);
        }
        shown_from(s, escape_end(s, i))
    }
}

/// What a text shows.
pub open spec fn shown(s: Seq<char>) -> Seq<char> {
    shown_from(s, 0)
}

fn find_command_end(chars: &[char], start: usize) -> (end: usize)
    requires
        start <= chars@.len(),
    ensures
        end == command_end(chars@, start as nat),
        start <= end <= chars@.len(),
{
    let mut i: usize = start;
    while i < chars.len()
        invariant
            start <= i <= chars@.len(),
            command_end(chars@, i as nat) == command_end(chars@, start as nat),
        decreases chars.len() - i,
    {
        if chars[i] == BELL {
            return i + 1;
        }
        if chars[i] == ESCAPE {
            if i + 1 < chars.len() && chars[i + 1] == '\\' {
                return i + 2;
            }
            return i + 1;
        }
        i = i + 1;
    }
    i
}

fn find_sequence_end(chars: &[char], start: usize) -> (end: usize)
    requires
        start <= chars@.len(),
    ensures
        end == sequence_end(chars@, start as nat),
        start <= end <= chars@.len(),
{
    let mut i: usize = start;
    while i < chars.len()
        invariant
            start <= i <= chars@.len(),
            sequence_end(chars@, i as nat) == sequence_end(chars@, start as nat),
        decreases chars.len() - i,
    {
        let c: char = chars[i];
        if ('a' <= c && c <= 'z') || ('A' <= c && c <= 'Z') {
            return i + 1;
        }
        i = i + 1;
    }
    i
}

/// Takes the escape sequences out of a text.
pub fn strip_ansi(s: &str) -> (r: String)
    ensures
        r@ == shown(s@),
{
    let chars: Vec<char> = chars_of(s);
    let mut out: String = String::new();
    let mut i: usize = 0;
    assert(out@ + shown_from(s@, 0) =~= shown(s@));
    while i < chars.len()
        invariant
            i <= chars@.len(),
            chars@ == s@,
            out@ + shown_from(s@, i as nat) == shown(s@),
        decreases chars.len() - i,
    {
        let c: char = chars[i];
        if c != ESCAPE {
            let ghost was = out@;
            out.push(c);
            i = i + 1;
            assert(out@ + shown_from(s@, i as nat) =~= was + (seq![c] + shown_from(s@, i as nat)));
        } else if i + 1 < chars.len() && chars[i + 1] == ']' {
            i = find_command_end(chars.as_slice(), i + 2);
        } else {
            i = find_sequence_end(chars.as_slice(), i + 1);
        }
    }
    assert(out@ + shown_from(s@, i as nat) =~= out@);
    out
}

proof fn lemma_shown_has_no_escape(s: Seq<char>, i: nat)
    ensures
        !shown_from(s, i).contains(ESCAPE),
    decreases s.len() - i,
{
    if i < s.len() {
        if s[i as int] != ESCAPE {
            lemma_shown_has_no_escape(s, i + 1);
            let rest = shown_from(s, i + 1);
            assert forall|k: int| 0 <= k < shown_from(s, i).len() implies shown_from(s, i)[k]
                != ESCAPE by {
                if k > 0 {
                    assert(shown_from(s, i)[k] == rest[k - 1]);
                    assert(rest.contains(rest[k - 1]));
                }
            }
        } else {
            lemma_escape_end(s, i);
            lemma_shown_has_no_escape(s, escape_end(s, i));
        }
    }
}

proof fn lemma_plain_is_shown(s: Seq<char>, i: nat)
    requires
        i <= s.len(),
        !s.contains(ESCAPE),
    ensures
        shown_from(s, i) == s.skip(i as int),
    decreases s.len() - i,
{
    if i < s.len() {
        assert(s.contains(s[i as int]));
        lemma_plain_is_shown(s, i + 1);
        assert(s.skip(i as int) =~= seq![s[i as int]] + s.skip(i as int + 1));
    } else {
        assert(s.skip(i as int) =~= Seq::empty());
    }
}

/// What a text shows holds no escape character.
pub proof fn no_escape_is_shown(s: Seq<char>)
    ensures
        !shown(s).contains(ESCAPE),
{
    lemma_shown_has_no_escape(s, 0);
}

/// A text without the escape character is shown as it is.
pub proof fn plain_text_is_kept(s: Seq<char>)
    requires
        !s.contains(ESCAPE),
    ensures
        shown(s) == s,
{
    lemma_plain_is_shown(s, 0);
    assert(s.skip(0) =~= s);
}

// ---------------------------------------------------------------------------
// Secrets
// ---------------------------------------------------------------------------
/// A secret as it may be shown: up to four characters give as many stars; more
/// give the first two and a star for each but four.
pub open spec fn obscured(s: Seq<char>) -> Seq<char> {
    if s.len() <= 4 {
        crate::words::repeated('*', s.len())
    } else {
        s.take(2) + "…"@ + crate::words::repeated('*', (s.len() - 4) as nat)
    }
}

/// Gives a secret as it may be shown.
pub fn obscure(chars: &[char]) -> (r: String)
    ensures
        r@ == obscured(chars@),
{
    let n: usize = chars.len();
    if n <= 4 {
        let mut r: String = String::new();
        push_repeated(&mut r, '*', n);
        assert(r@ =~= obscured(chars@));
        r
    } else {
        let mut r: String = string_of(sub_chars(chars, 0, 2));
        assert(r@ =~= chars@.take(2));
        push_text(&mut r, "…");
        push_repeated(&mut r, '*', n - 4);
        r
    }
}

/// At most the first two characters of a secret are shown.
pub proof fn only_two_are_shown(a: Seq<char>, b: Seq<char>)
    requires
        a.len() == b.len(),
        a.take(2) == b.take(2) || a.len() <= 4,
    ensures
        obscured(a) == obscured(b),
{
}

// ---------------------------------------------------------------------------
// Time of day
// ---------------------------------------------------------------------------
/// A number with at least two digits.
pub open spec fn two_digits(n: nat) -> Seq<char> {
    if n < 10 {
        "0"@ + crate::text::dec_text(n)
    } else {
        crate::text::dec_text(n)
    }
}

/// A time of day.
pub open spec fn clock_reading(hour: nat, minute: nat, second: nat) -> Seq<char> {
    two_digits(hour) + ":"@ + two_digits(minute) + ":"@ + two_digits(second)
}

fn push_two_digits(s: &mut String, n: u32)
    ensures
        final(s)@ == old(s)@ + two_digits(n as nat),
{
    if n < 10 {
        push_text(s, "0");
    }
    push_dec(s, n as u64);
    assert(s@ =~= old(s)@ + two_digits(n as nat));
}

/// Gives a time of day.
pub fn clock_text(hour: u32, minute: u32, second: u32) -> (s: String)
    ensures
        s@ == clock_reading(hour as nat, minute as nat, second as nat),
{
    let mut s: String = String::new();
    push_two_digits(&mut s, hour);
    assert(s@ =~= two_digits(hour as nat));
    push_text(&mut s, ":");
    push_two_digits(&mut s, minute);
    push_text(&mut s, ":");
    push_two_digits(&mut s, second);
    s
}

/// Gives the time of day so many seconds after the start of a day.
pub fn utc_clock_text(secs: u64) -> (s: String)
    ensures
        s@ == clock_reading(
            ((secs % 86400) / 3600) as nat,
            ((secs % 3600) / 60) as nat,
            (secs % 60) as nat,
        ),
{
    let hour: u64 = (secs % 86400) / 3600;
    let minute: u64 = (secs % 3600) / 60;
    let second: u64 = secs % 60;
    clock_text(hour as u32, minute as u32, second as u32)
}


/// What is shown of a text from some place on depends on nothing before that place.
proof fn lemma_shown_from(s: Seq<char>, i: nat)
    requires
        i <= s.len(),
    ensures
        shown_from(s, i) == shown(s.skip(i as int)),
{
    lemma_shown_shift(s, i, 0);
    assert(s.skip(i as int).len() == s.len() - i);
}

/// What is shown does not depend on where it stands.
proof fn lemma_shown_shift(s: Seq<char>, i: nat, k: nat)
    requires
        i + k <= s.len(),
    ensures
        shown_from(s, i + k) == shown_from(s.skip(i as int), k),
    decreases s.len() - i - k,
{
    let rest = s.skip(i as int);
    if i + k < s.len() {
        assert(rest[k as int] == s[i + k as int]);
        if s[i + k as int] != ESCAPE {
            lemma_shown_shift(s, i, k + 1);
        } else {
            lemma_escape_end(s, i + k);
            lemma_escape_shift(s, i, k);
            lemma_shown_shift(s, i, escape_end(rest, k));
        }
    }
}

/// Where an escape ends does not depend on where it stands.
proof fn lemma_escape_shift(s: Seq<char>, i: nat, k: nat)
    requires
        i + k < s.len(),
    ensures
        escape_end(s, i + k) == i + escape_end(s.skip(i as int), k),
        k < escape_end(s.skip(i as int), k) <= s.len() - i,
{
    let rest = s.skip(i as int);
    lemma_escape_end(rest, k);
    if i + k + 1 < s.len() {
        assert(rest[k as int + 1] == s[i + k as int + 1]);
    }
    if i + k + 1 < s.len() && s[i + k as int + 1] == ']' {
        lemma_command_shift(s, i, k + 2);
    } else {
        lemma_sequence_shift(s, i, k + 1);
    }
}

proof fn lemma_command_shift(s: Seq<char>, i: nat, k: nat)
    requires
        i + k <= s.len(),
    ensures
        command_end(s, i + k) == i + command_end(s.skip(i as int), k),
    decreases s.len() - i - k,
{
    let rest = s.skip(i as int);
    if i + k < s.len() {
        assert(rest[k as int] == s[i + k as int]);
        if i + k + 1 < s.len() {
            assert(rest[k as int + 1] == s[i + k as int + 1]);
        }
        lemma_command_shift(s, i, k + 1);
    }
}

proof fn lemma_sequence_shift(s: Seq<char>, i: nat, k: nat)
    requires
        i + k <= s.len(),
    ensures
        sequence_end(s, i + k) == i + sequence_end(s.skip(i as int), k),
    decreases s.len() - i - k,
{
    let rest = s.skip(i as int);
    if i + k < s.len() {
        assert(rest[k as int] == s[i + k as int]);
        lemma_sequence_shift(s, i, k + 1);
    }
}

/// A sequence runs to its first letter.
proof fn lemma_sequence_run(s: Seq<char>, i: nat, n: nat)
    requires
        i <= n < s.len(),
        is_letter(s[n as int]),
        forall|k: int| i <= k < n ==> !is_letter(#[trigger] s[k]),
    ensures
        sequence_end(s, i) == n + 1,
    decreases n - i,
{
    if i < n {
        assert(!is_letter(s[i as int]));
        lemma_sequence_run(s, i + 1, n);
    }
}

/// A command runs to its first bell.
proof fn lemma_command_run(s: Seq<char>, i: nat, n: nat)
    requires
        i <= n < s.len(),
        s[n as int] == BELL,
        forall|k: int| i <= k < n ==> (#[trigger] s[k]) != BELL && s[k] != ESCAPE,
    ensures
        command_end(s, i) == n + 1,
    decreases n - i,
{
    if i < n {
        assert(s[i as int] != BELL && s[i as int] != ESCAPE);
        lemma_command_run(s, i + 1, n);
    }
}

/// Text without escapes is shown, and what follows it is shown as if it stood alone.
pub proof fn plain_text_comes_first(plain: Seq<char>, rest: Seq<char>)
    requires
        !plain.contains(ESCAPE),
    ensures
        shown(plain + rest) == plain + shown(rest),
    decreases plain.len(),
{
    if plain.len() == 0 {
        assert(plain + rest =~= rest);
        assert(plain + shown(rest) =~= shown(rest));
    } else {
        let more = plain.skip(1);
        assert(plain[0] != ESCAPE);
        assert forall|i: int| 0 <= i < more.len() implies more[i] != ESCAPE by {
            assert(plain[i + 1] == more[i]);
        }
        plain_text_comes_first(more, rest);
        lemma_shown_from(plain + rest, 1);
        assert((plain + rest).skip(1) =~= more + rest);
        assert(shown(plain + rest) =~= seq![plain[0]] + (more + shown(rest)));
        assert(seq![plain[0]] + (more + shown(rest)) =~= plain + shown(rest));
    }
}

/// Of a control sequence, from the escape to the first letter after the mark, nothing is
/// shown, and what follows it is.
pub proof fn sequences_are_left_out(params: Seq<char>, end: char, rest: Seq<char>)
    requires
        is_letter(end),
        forall|i: int| 0 <= i < params.len() ==> !is_letter(#[trigger] params[i]),
    ensures
        shown(seq![ESCAPE, '['] + params.push(end) + rest) == shown(rest),
{
    let s = seq![ESCAPE, '['] + params.push(end) + rest;
    let n = (2 + params.len()) as nat;
    assert(s[0] == ESCAPE && s[1] == '[');
    assert(s[n as int] == end);
    assert forall|k: int| 1 <= k < n implies !is_letter(#[trigger] s[k]) by {
        if k > 1 {
            assert(params[k - 2] == s[k]);
        }
    }
    lemma_sequence_run(s, 1, n);
    lemma_shown_from(s, n + 1);
    assert(s.skip(n as int + 1) =~= rest);
}

/// Of a system command, from the escape to the bell that ends it, nothing is shown, and
/// what follows it is.
pub proof fn commands_are_left_out(body: Seq<char>, rest: Seq<char>)
    requires
        !body.contains(ESCAPE),
        !body.contains(BELL),
    ensures
        shown(seq![ESCAPE, ']'] + body.push(BELL) + rest) == shown(rest),
{
    let s = seq![ESCAPE, ']'] + body.push(BELL) + rest;
    let n = (2 + body.len()) as nat;
    assert(s[0] == ESCAPE && s[1] == ']');
    assert(s[n as int] == BELL);
    assert forall|k: int| 2 <= k < n implies (#[trigger] s[k]) != BELL && s[k] != ESCAPE by {
        assert(body[k - 2] == s[k]);
    }
    lemma_command_run(s, 2, n);
    lemma_shown_from(s, n + 1);
    assert(s.skip(n as int + 1) =~= rest);
}

/// Of a secret of up to four characters nothing is shown but its length, of a longer one
/// the first two characters.
pub proof fn secrets_are_covered(s: Seq<char>, i: int)
    requires
        0 <= i < obscured(s).len(),
    ensures
        s.len() <= 4 ==> obscured(s).len() == s.len() && obscured(s)[i] == '*',
        s.len() > 4 ==> obscured(s).len() == s.len() - 1 && obscured(s)[i] == (if i < 2 {
            s[i]
        } else if i == 2 {
            '…'
        } else {
            '*'
        }),
{
    reveal_strlit("…");
}

/// A time of day is written as eight characters: two digits each for the hour, the minute
/// and the second, with colons between.
pub proof fn times_are_eight_characters(hour: nat, minute: nat, second: nat)
    requires
        hour < 24,
        minute < 60,
        second < 60,
    ensures
        ({
            let t = clock_reading(hour, minute, second);
            &&& t.len() == 8
            &&& t[2] == ':' && t[5] == ':'
            &&& t[0] as int - 48 == hour / 10 && t[1] as int - 48 == hour % 10
            &&& t[3] as int - 48 == minute / 10 && t[4] as int - 48 == minute % 10
            &&& t[6] as int - 48 == second / 10 && t[7] as int - 48 == second % 10
        }),
{
    reveal_strlit(":");
    lemma_two_digits(hour);
    lemma_two_digits(minute);
    lemma_two_digits(second);
}

proof fn lemma_two_digits(n: nat)
    requires
        n < 100,
    ensures
        two_digits(n).len() == 2,
        two_digits(n)[0] as int == 48 + n / 10,
        two_digits(n)[1] as int == 48 + n % 10,
{
    reveal_strlit("0");
    reveal_with_fuel(crate::text::dec_text, 2);
    if n >= 10 {
        assert(n / 10 < 10);
        assert(crate::text::dec_text(n / 10) =~= seq![crate::text::dec_digit((n / 10) as int)]);
    } else {
        assert(crate::text::dec_text(n) =~= seq![crate::text::dec_digit(n as int)]);
    }
}
} // verus!
