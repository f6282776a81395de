//! Finding our own name and address in what other programs print.
use crate::net::{parse_ipv4, SocketAddr};
use crate::reach::is_publicly_routable;
use crate::text::{chars_of, same_chars, starts_with, string_of, sub_chars};
use crate::words::{lines, trim, trim_text, words};
use vstd::prelude::*;

verus! {

/// Our host name: what the `hostname` program printed, without white space
/// around it; nothing if it printed no text.
pub fn local_hostname(printed: Option<&str>) -> (r: String)
    ensures
        r@ == (match printed {
            Some(s) => crate::words::trimmed(s@),
            None => Seq::empty(),
        }),
{
    match printed {
        Some(s) => trim_text(s),
        None => {
            let r: String = String::new();
            assert(r@ =~= Seq::empty());
            r
        },
    }
}

/// The address that a word stands for, if it is one that is reached from
/// anywhere.
pub open spec fn public_addr_of(word: Seq<char>, port: u16) -> Option<SocketAddr> {
    match crate::net::ipv4_of(word) {
        Some(ip) => if crate::reach::is_public_ip(ip) {
            Some(SocketAddr::V4 { ip, port })
        } else {
            None
        },
        None => None,
    }
}

fn public_addr(word: &[char], port: u16) -> (r: Option<SocketAddr>)
    ensures
        r == public_addr_of(word@, port),
{
    match parse_ipv4(word) {
        Some(ip) => {
            let addr: SocketAddr = SocketAddr::v4(ip, port);
            if is_publicly_routable(addr) {
                Some(addr)
            } else {
                None
            }
        },
        None => None,
    }
}

/// Our public address in the answer of a metadata service: the answer is the
/// address.
pub fn addr_in_answer(answer: &str, port: u16) -> (r: Option<SocketAddr>)
    ensures
        r == public_addr_of(crate::words::trimmed(answer@), port),
{
    let chars: Vec<char> = chars_of(answer);
    public_addr(trim(chars.as_slice()), port)
}

/// Whether the word at a position is `src` and the next is a public address.
pub open spec fn src_at(ws: Seq<Seq<char>>, i: int, port: u16) -> bool {
    &&& 0 <= i < ws.len() - 1
    &&& ws[i] == "src"@
    &&& public_addr_of(ws[i + 1], port) is Some
}

/// Our public address in a description of a route: the first one that follows the
/// word `src`.
pub fn addr_in_route(route: &str, port: u16) -> (r: Option<SocketAddr>)
    ensures
        ({
            let ws = crate::words::words_of(route@);
            match r {
                Some(a) => exists|i: int| #[trigger]
                    src_at(ws, i, port) && public_addr_of(ws[i + 1], port) == Some(a) && forall|
                        j: int,
                    |
                        0 <= j < i ==> !#[trigger] src_at(ws, j, port),
                None => forall|i: int| !#[trigger] src_at(ws, i, port),
            }
        }),
{
    let ws: Vec<Vec<char>> = words(route);
    let src: Vec<char> = chars_of("src");
    let ghost all = crate::words::char_seqs(ws@);
    let n: usize = ws.len();
    let mut i: usize = 0;
    while i < n && i + 1 < n
        invariant
            i <= n,
            n == ws@.len(),
            src@ == "src"@,
            all == crate::words::char_seqs(ws@),
            all == crate::words::words_of(route@),
            forall|j: int| 0 <= j < i ==> !#[trigger] src_at(all, j, port),
        decreases n - i,
    {
        assert(all[i as int] == ws@[i as int]@);
        assert(all[i + 1] == ws@[i + 1]@);
        if same_chars(ws[i].as_slice(), src.as_slice()) {
            if let Some(a) = public_addr(ws[i + 1].as_slice(), port) {
                assert(src_at(all, i as int, port));
                return Some(a);
            }
        }
        i = i + 1;
    }
    None
}

/// The interface that a line of a route's description names.
pub open spec fn interface_in(line: Seq<char>) -> Option<Seq<char>> {
    let t = crate::words::trimmed(line);
    if "interface:"@.is_prefix_of(t) {
        Some(crate::words::trimmed(t.skip("interface:"@.len() as int)))
    } else {
        None
    }
}

/// The interfaces that the lines of a route's description name.
pub open spec fn interfaces_in(ls: Seq<Seq<char>>) -> Seq<Seq<char>>
    decreases ls.len(),
{
    if ls.len() == 0 {
        Seq::empty()
    } else {
        let before = interfaces_in(ls.drop_last());
        match interface_in(ls.last()) {
            Some(name) => before.push(name),
            None => before,
        }
    }
}

fn interface_of(line: &str) -> (r: Option<String>)
    ensures
        match r {
            Some(s) => interface_in(line@) == Some(s@),
            None => interface_in(line@) is None,
        },
{
    let chars: Vec<char> = chars_of(line);
    let t: &[char] = trim(chars.as_slice());
    if starts_with(t, "interface:") {
        let n: usize = chars_of("interface:").len();
        let rest: &[char] = sub_chars(t, n, t.len());
        assert(rest@ =~= t@.skip(n as int));
        Some(string_of(trim(rest)))
    } else {
        None
    }
}

/// Reads the interfaces in a description of a route.
pub fn route_interfaces(route: &str) -> (r: Vec<String>)
    ensures
        crate::words::texts(r@) == interfaces_in(crate::words::lines_of(route@)),
{
    let ls: Vec<String> = lines(route);
    let ghost all = crate::words::texts(ls@);
    let mut r: Vec<String> = Vec::new();
    let mut i: usize = 0;
    assert(crate::words::texts(r@) =~= Seq::empty());
    while i < ls.len()
        invariant
            i <= ls@.len(),
            all == crate::words::texts(ls@),
            crate::words::texts(r@) == interfaces_in(all.take(i as int)),
        decreases ls.len() - i,
    {
        proof {
            assert(all.take(i + 1).drop_last() =~= all.take(i as int));
            assert(all.take(i + 1).last() == ls@[i as int]@);
        }
        if let Some(name) = interface_of(ls[i].as_str()) {
            let ghost was = r@;
            r.push(name);
            assert(crate::words::texts(r@) =~= crate::words::texts(was).push(name@));
        }
        i = i + 1;
    }
    assert(all.take(i as int) =~= all);
    r
}

/// No overlay address is ever taken for our public one.
pub proof fn overlay_is_never_public(word: Seq<char>, port: u16)
    requires
        crate::net::ipv4_of(word) matches Some(ip) && crate::overlay::in_overlay_subnet(ip),
    ensures
        public_addr_of(word, port) is None,
{
}


/// A word is taken for our address if it is the text of a public one, with the port that
/// was asked for; the text of any other address is not.
pub proof fn only_public_words_are_taken(ip: crate::net::Ipv4Addr, port: u16)
    ensures
        public_addr_of(ip.text(), port) == (if crate::reach::publicly_routable(
            SocketAddr::V4 { ip, port },
        ) {
            Some(SocketAddr::V4 { ip, port })
        } else {
            None
        }),
{
    crate::net::ipv4_text_round_trip(ip);
}

/// The interfaces of a route are read line by line, in order: a line that names one gives
/// it, any other line gives none.
pub proof fn interfaces_are_read_line_by_line(a: Seq<Seq<char>>, b: Seq<Seq<char>>)
    ensures
        interfaces_in(a + b) == interfaces_in(a) + interfaces_in(b),
        a.len() == 1 ==> match interface_in(a[0]) {
            Some(name) => interfaces_in(a) == seq![name],
            None => interfaces_in(a).len() == 0,
        },
    decreases b.len(),
{
    if a.len() == 1 {
        assert(a.drop_last() =~= Seq::<Seq<char>>::empty());
        assert(interfaces_in(a.drop_last()) =~= Seq::<Seq<char>>::empty());
        assert(a.last() == a[0]);
    }
    if b.len() == 0 {
        assert(a + b =~= a);
        assert(interfaces_in(a + b) =~= interfaces_in(a) + interfaces_in(b));
    } else {
        interfaces_are_read_line_by_line(a, b.drop_last());
        assert((a + b).drop_last() =~= a + b.drop_last());
        assert((a + b).last() == b.last());
        assert(interfaces_in(a + b) =~= interfaces_in(a) + interfaces_in(b));
    }
}

/// A name is read behind the mark `interface:`, without blanks around it; a line that
/// begins otherwise names none.
pub proof fn interfaces_stand_behind_their_mark(line: Seq<char>)
    ensures
        interface_in(line) is Some <==> "interface:"@.is_prefix_of(crate::words::trimmed(line)),
        interface_in(line) matches Some(name) ==> {
            &&& name == crate::words::trimmed(name)
            &&& name == crate::words::trimmed(crate::words::trimmed(line).skip(10))
        },
{
    reveal_strlit("interface:");
    assert("interface:"@.len() == 10);
    let t = crate::words::trimmed(line);
    crate::words::trimming_is_final(t.skip(10));
}
} // verus!
