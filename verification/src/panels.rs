//! What the panels of the full-screen program show, as pieces of styled text.
use crate::rows::{PeerRow, Row};
use crate::text::{chars_of, push_dec, push_text, same_text, string_of, sub_chars};
use crate::tui_text::obscure;
use crate::words::contains;
use vstd::prelude::*;

verus! {

/// A colour.
#[derive(Clone, Copy, Debug, PartialEq, Eq, Structural)]
pub enum Color {
    Black,
    Red,
    Green,
    Yellow,
    Magenta,
    Cyan,
    Gray,
    DarkGray,
    White,
}

/// How text looks.
#[derive(Clone, Copy, Debug, PartialEq, Eq, Structural)]
pub struct Look {
    pub fg: Option<Color>,
    pub bg: Option<Color>,
    pub bold: bool,
}

/// A piece of text that looks the same throughout.
#[derive(Debug, PartialEq, Eq)]
pub struct Piece {
    pub text: String,
    pub look: Look,
}

/// What a [`Piece`] says.
#[verifier::ext_equal]
pub ghost struct Span {
    pub text: Seq<char>,
    pub look: Look,
}

impl View for Piece {
    type V = Span;

    open spec fn view(&self) -> Span {
        Span { text: self.text@, look: self.look }
    }
}

/// What the pieces of a line say.
pub open spec fn spans(line: Seq<Piece>) -> Seq<Span> {
    line.map_values(|p: Piece| p@)
}

/// What some lines say.
pub open spec fn span_lines(lines: Seq<Vec<Piece>>) -> Seq<Seq<Span>> {
    lines.map_values(|l: Vec<Piece>| spans(l@))
}

/// What some items of a list say.
pub open spec fn span_items(items: Seq<Vec<Vec<Piece>>>) -> Seq<Seq<Seq<Span>>> {
    items.map_values(|i: Vec<Vec<Piece>>| span_lines(i@))
}

/// Text as it comes.
pub open spec fn plain() -> Look {
    Look { fg: None, bg: None, bold: false }
}

/// Coloured text.
pub open spec fn tinted(c: Color) -> Look {
    Look { fg: Some(c), bg: None, bold: false }
}

/// Bold coloured text.
pub open spec fn strong(c: Color) -> Look {
    Look { fg: Some(c), bg: None, bold: true }
}

/// Text on a coloured ground.
pub open spec fn ground(fg: Color, bg: Color) -> Look {
    Look { fg: Some(fg), bg: Some(bg), bold: false }
}

/// A piece.
pub open spec fn span(text: Seq<char>, look: Look) -> Span {
    Span { text, look }
}

fn piece(text: &str, look: Look) -> (p: Piece)
    ensures
        p@ == span(text@, look),
{
    Piece { text: text.to_owned(), look }
}

fn tint(c: Color) -> (l: Look)
    ensures
        l == tinted(c),
{
    Look { fg: Some(c), bg: None, bold: false }
}

fn bold(c: Color) -> (l: Look)
    ensures
        l == strong(c),
{
    Look { fg: Some(c), bg: None, bold: true }
}

/// The border of a panel: yellow with the focus.
pub open spec fn border_color(focused: bool) -> Option<Color> {
    if focused {
        Some(Color::Yellow)
    } else {
        None
    }
}

fn border(focused: bool) -> (c: Option<Color>)
    ensures
        c == border_color(focused),
{
    if focused {
        Some(Color::Yellow)
    } else {
        None
    }
}

// ---------------------------------------------------------------------------
// Header
// ---------------------------------------------------------------------------
/// What the daemon is doing, as far as the header shows it.
#[derive(Clone, Copy, Debug, PartialEq, Eq, Structural)]
pub enum Activity {
    Stopped,
    Starting,
    Running,
    Stopping,
}

/// The header.
#[derive(Debug, PartialEq, Eq)]
pub struct Header {
    pub status: Piece,
    pub seed: Vec<Piece>,
    pub seed_border: Option<Color>,
    pub button: Vec<Piece>,
}

/// What the daemon is doing.
pub open spec fn status_span(a: Activity) -> Span {
    match a {
        Activity::Stopped => span(" ● Stopped "@, strong(Color::DarkGray)),
        Activity::Starting => span(" ◎ Starting… "@, strong(Color::Yellow)),
        Activity::Running => span(" ● Running "@, strong(Color::Green)),
        Activity::Stopping => span(" ◎ Stopping… "@, strong(Color::Yellow)),
    }
}

/// The button: it starts a daemon that does not run, and stops one that does.
pub open spec fn button_span(a: Activity) -> Span {
    match a {
        Activity::Stopped | Activity::Stopping => span(
            " Start "@,
            ground(Color::Black, Color::Green),
        ),
        Activity::Running | Activity::Starting => span(" Stop  "@, ground(Color::Black, Color::Red)),
    }
}

/// The seed: with a cursor in it if it has the focus, else obscured, or a hint if
/// there is none.
pub open spec fn seed_span(seed: Seq<char>, cursor: int, focused: bool) -> Span {
    if focused {
        span(seed.insert(cursor, '│'), tinted(Color::Yellow))
    } else if seed.len() == 0 {
        span("─── Tab to focus, type seed, Enter to start ───"@, tinted(Color::Gray))
    } else {
        span(crate::tui_text::obscured(seed), tinted(Color::Gray))
    }
}

/// The overlay address of a daemon that runs, if it is known.
pub open spec fn overlay_span(a: Activity, overlay: Seq<char>) -> Span {
    span(
        if a == Activity::Running && overlay.len() > 0 {
            "  overlay: "@ + overlay
        } else {
            Seq::empty()
        },
        tinted(Color::DarkGray),
    )
}

/// Makes the header.
pub fn header(a: Activity, overlay: &str, seed: &[char], cursor: usize, focused: bool) -> (r: Header)
    requires
        cursor <= seed@.len(),
    ensures
        r.status@ == status_span(a),
        spans(r.seed@) == seq![
            span(" Seed: "@, tinted(Color::Cyan)),
            seed_span(seed@, cursor as int, focused),
            overlay_span(a, overlay@),
        ],
        r.seed_border == border_color(focused),
        spans(r.button@) == seq![button_span(a), span(" [↵]"@, tinted(Color::DarkGray))],
{
    let status: Piece = match a {
        Activity::Stopped => piece(" ● Stopped ", bold(Color::DarkGray)),
        Activity::Starting => piece(" ◎ Starting… ", bold(Color::Yellow)),
        Activity::Running => piece(" ● Running ", bold(Color::Green)),
        Activity::Stopping => piece(" ◎ Stopping… ", bold(Color::Yellow)),
    };
    let start: Look = Look { fg: Some(Color::Black), bg: Some(Color::Green), bold: false };
    let stop: Look = Look { fg: Some(Color::Black), bg: Some(Color::Red), bold: false };
    let label: Piece = match a {
        Activity::Stopped | Activity::Stopping => piece(" Start ", start),
        Activity::Running | Activity::Starting => piece(" Stop  ", stop),
    };
    let shown: Piece = if focused {
        let mut s: String = string_of(sub_chars(seed, 0, cursor));
        s.push('│');
        let rest: String = string_of(sub_chars(seed, cursor, seed.len()));
        push_text(&mut s, rest.as_str());
        assert(s@ =~= seed@.insert(cursor as int, '│'));
        Piece { text: s, look: tint(Color::Yellow) }
    } else if seed.len() == 0 {
        piece("─── Tab to focus, type seed, Enter to start ───", tint(Color::Gray))
    } else {
        Piece { text: obscure(seed), look: tint(Color::Gray) }
    };
    let mut info: String = String::new();
    assert(info@ =~= Seq::empty());
    if a == Activity::Running && !same_text(overlay, "") {
        proof {
            reveal_strlit("");
            assert(overlay@.len() == 0 ==> overlay@ =~= ""@);
        }
        push_text(&mut info, "  overlay: ");
        push_text(&mut info, overlay);
        assert(info@ =~= "  overlay: "@ + overlay@);
    } else {
        proof {
            reveal_strlit("");
        }
    }
    let mut line: Vec<Piece> = Vec::new();
    line.push(piece(" Seed: ", tint(Color::Cyan)));
    line.push(shown);
    line.push(Piece { text: info, look: tint(Color::DarkGray) });
    let mut button: Vec<Piece> = Vec::new();
    button.push(label);
    button.push(piece(" [↵]", tint(Color::DarkGray)));
    let r: Header = Header { status, seed: line, seed_border: border(focused), button };
    proof {
        assert(spans(r.seed@) =~= seq![
            span(" Seed: "@, tinted(Color::Cyan)),
            seed_span(seed@, cursor as int, focused),
            overlay_span(a, overlay@),
        ]);
        assert(spans(r.button@) =~= seq![
            button_span(a),
            span(" [↵]"@, tinted(Color::DarkGray)),
        ]);
    }
    r
}

// ---------------------------------------------------------------------------
// Peers
// ---------------------------------------------------------------------------
/// The panel of peers: an item of some lines for each.
#[derive(Debug, PartialEq, Eq)]
pub struct PeersPanel {
    pub title: String,
    pub border: Option<Color>,
    pub items: Vec<Vec<Vec<Piece>>>,
}

/// A line with a label and a value.
pub open spec fn field_line(label: Seq<char>, value: Seq<char>, c: Color) -> Seq<Span> {
    seq![span(label, tinted(Color::DarkGray)), span(value, tinted(c))]
}

/// A line if there is a value, no line else.
pub open spec fn optional_line(label: Seq<char>, value: Seq<char>, c: Color) -> Seq<Seq<Span>> {
    if value.len() > 0 {
        seq![field_line(label, value, c)]
    } else {
        Seq::empty()
    }
}

/// How a peer is reached.
pub open spec fn connection_label(r: Row) -> Seq<char> {
    if r.connection == "relay"@ && r.relay_via.len() > 0 {
        "relay via "@ + r.relay_via
    } else {
        r.connection
    }
}

/// The colour of how a peer is reached.
pub open spec fn connection_color(r: Row) -> Color {
    if r.connection == "relay"@ {
        Color::Yellow
    } else {
        Color::DarkGray
    }
}

/// The lines for a peer, or for this device.
pub open spec fn row_lines(r: Row) -> Seq<Seq<Span>> {
    if r.is_local {
        seq![
            seq![
                span("  "@, plain()),
                span(r.id_short, strong(Color::Magenta)),
                span(" (you)"@, tinted(Color::DarkGray)),
            ],
            field_line("    overlay  "@, r.overlay, Color::Magenta),
        ] + optional_line("    ipv6     "@, r.overlay_ipv6, Color::Magenta) + optional_line(
            "    hostname "@,
            r.hostname,
            Color::DarkGray,
        )
    } else {
        seq![
            seq![
                span("  "@, plain()),
                span(r.id_short, strong(Color::Cyan)),
                if r.hostname.len() == 0 {
                    span(Seq::empty(), plain())
                } else {
                    span("  "@ + r.hostname, tinted(Color::White))
                },
            ],
            field_line("    overlay  "@, r.overlay, Color::Green),
        ] + optional_line("    ipv6     "@, r.overlay_ipv6, Color::Green) + seq![
            field_line("    conn     "@, connection_label(r), connection_color(r)),
            field_line("    underlay "@, r.underlay, Color::White),
        ]
    }
}

/// The items of the panel; one that says so if there are no peers.
pub open spec fn peer_items(rows: Seq<Row>) -> Seq<Seq<Seq<Span>>> {
    if rows.len() == 0 {
        seq![seq![seq![span("  (no peers connected)"@, tinted(Color::DarkGray))]]]
    } else {
        rows.map_values(|r: Row| row_lines(r))
    }
}

/// The title of the panel.
pub open spec fn peers_title(remote: nat, focused: bool) -> Seq<char> {
    " Peers ("@ + crate::text::dec_text(remote) + (if focused {
        ") [↑↓] "@
    } else {
        ") "@
    })
}

fn field(label: &str, value: &str, c: Color) -> (l: Vec<Piece>)
    ensures
        spans(l@) == field_line(label@, value@, c),
{
    let mut l: Vec<Piece> = Vec::new();
    l.push(piece(label, tint(Color::DarkGray)));
    l.push(piece(value, tint(c)));
    assert(spans(l@) =~= field_line(label@, value@, c));
    l
}

fn is_blank(s: &str) -> (r: bool)
    ensures
        r == (s@.len() == 0),
{
    proof {
        reveal_strlit("");
        assert(s@.len() == 0 ==> s@ =~= ""@);
    }
    same_text(s, "")
}

fn push_line(lines: &mut Vec<Vec<Piece>>, l: Vec<Piece>)
    ensures
        span_lines(final(lines)@) == span_lines(old(lines)@).push(spans(l@)),
{
    lines.push(l);
    assert(span_lines(lines@) =~= span_lines(old(lines)@).push(spans(l@)));
}

fn push_optional(lines: &mut Vec<Vec<Piece>>, label: &str, value: &str, c: Color)
    ensures
        span_lines(final(lines)@) == span_lines(old(lines)@) + optional_line(label@, value@, c),
{
    if !is_blank(value) {
        push_line(lines, field(label, value, c));
    }
    assert(span_lines(lines@) =~= span_lines(old(lines)@) + optional_line(label@, value@, c));
}

fn first_line(id_short: &str, c: Color, last: Piece) -> (l: Vec<Piece>)
    ensures
        spans(l@) == seq![span("  "@, plain()), span(id_short@, strong(c)), last@],
{
    let mut l: Vec<Piece> = Vec::new();
    l.push(piece("  ", Look { fg: None, bg: None, bold: false }));
    l.push(piece(id_short, bold(c)));
    l.push(last);
    assert(spans(l@) =~= seq![span("  "@, plain()), span(id_short@, strong(c)), last@]);
    l
}

fn local_item(p: &PeerRow) -> (r: Vec<Vec<Piece>>)
    requires
        p.is_local,
    ensures
        span_lines(r@) == row_lines(p@),
{
    let mut r: Vec<Vec<Piece>> = Vec::new();
    let you: Piece = piece(" (you)", tint(Color::DarkGray));
    push_line(&mut r, first_line(p.id_short.as_str(), Color::Magenta, you));
    push_line(&mut r, field("    overlay  ", p.overlay.as_str(), Color::Magenta));
    push_optional(&mut r, "    ipv6     ", p.overlay_ipv6.as_str(), Color::Magenta);
    push_optional(&mut r, "    hostname ", p.hostname.as_str(), Color::DarkGray);
    assert(span_lines(r@) =~= row_lines(p@));
    r
}

fn remote_item(p: &PeerRow) -> (r: Vec<Vec<Piece>>)
    requires
        !p.is_local,
    ensures
        span_lines(r@) == row_lines(p@),
{
    let host: Piece = if is_blank(p.hostname.as_str()) {
        Piece { text: String::new(), look: Look { fg: None, bg: None, bold: false } }
    } else {
        let mut s: String = "  ".to_owned();
        push_text(&mut s, p.hostname.as_str());
        Piece { text: s, look: tint(Color::White) }
    };
    assert(host@ =~= if p@.hostname.len() == 0 {
        span(Seq::empty(), plain())
    } else {
        span("  "@ + p@.hostname, tinted(Color::White))
    });
    let mut r: Vec<Vec<Piece>> = Vec::new();
    push_line(&mut r, first_line(p.id_short.as_str(), Color::Cyan, host));
    push_line(&mut r, field("    overlay  ", p.overlay.as_str(), Color::Green));
    push_optional(&mut r, "    ipv6     ", p.overlay_ipv6.as_str(), Color::Green);
    let relayed: bool = same_text(p.connection.as_str(), "relay");
    let color: Color = if relayed {
        Color::Yellow
    } else {
        Color::DarkGray
    };
    let label: String = if relayed && !is_blank(p.relay_via.as_str()) {
        let mut s: String = "relay via ".to_owned();
        push_text(&mut s, p.relay_via.as_str());
        s
    } else {
        p.connection.as_str().to_owned()
    };
    push_line(&mut r, field("    conn     ", label.as_str(), color));
    push_line(&mut r, field("    underlay ", p.underlay.as_str(), Color::White));
    assert(span_lines(r@) =~= row_lines(p@));
    r
}

/// Makes the panel of peers, of which so many are other devices.
pub fn peers_panel(peers: &Vec<PeerRow>, remote: usize, focused: bool) -> (r: PeersPanel)
    ensures
        r.title@ == peers_title(remote as nat, focused),
        r.border == border_color(focused),
        span_items(r.items@) == peer_items(crate::rows::rows_view(peers@)),
{
    let ghost rows = crate::rows::rows_view(peers@);
    let mut title: String = " Peers (".to_owned();
    push_dec(&mut title, remote as u64);
    push_text(
        &mut title,
        if focused {
            ") [↑↓] "
        } else {
            ") "
        },
    );
    let mut items: Vec<Vec<Vec<Piece>>> = Vec::new();
    if peers.len() == 0 {
        let mut line: Vec<Piece> = Vec::new();
        line.push(piece("  (no peers connected)", tint(Color::DarkGray)));
        assert(spans(line@) =~= seq![
            span("  (no peers connected)"@, tinted(Color::DarkGray)),
        ]);
        let mut lines: Vec<Vec<Piece>> = Vec::new();
        lines.push(line);
        assert(span_lines(lines@) =~= seq![spans(line@)]);
        items.push(lines);
        assert(span_items(items@) =~= seq![span_lines(lines@)]);
    } else {
        let ghost all = rows.map_values(|r: Row| row_lines(r));
        let mut i: usize = 0;
        assert(span_items(items@) =~= all.take(0));
        while i < peers.len()
            invariant
                i <= peers@.len(),
                rows == crate::rows::rows_view(peers@),
                all == rows.map_values(|r: Row| row_lines(r)),
                span_items(items@) == all.take(i as int),
            decreases peers.len() - i,
        {
            let p: &PeerRow = &peers[i];
            let item: Vec<Vec<Piece>> = if p.is_local {
                local_item(p)
            } else {
                remote_item(p)
            };
            let ghost was = items@;
            items.push(item);
            proof {
                assert(all[i as int] == span_lines(item@));
                assert(span_items(items@) =~= span_items(was).push(span_lines(item@)));
                assert(all.take(i + 1) =~= all.take(i as int).push(all[i as int]));
            }
            i = i + 1;
        }
        assert(all.take(i as int) =~= all);
    }
    PeersPanel { title, border: border(focused), items }
}

// ---------------------------------------------------------------------------
// Log
// ---------------------------------------------------------------------------
/// The panel of the log: a piece for each line.
#[derive(Debug, PartialEq, Eq)]
pub struct LogPanel {
    pub title: String,
    pub border: Option<Color>,
    pub lines: Vec<Piece>,
}

/// The colour of a line of the log, by the words that it holds.
pub open spec fn line_color(l: Seq<char>) -> Color {
    if crate::words::holds(l, "ERROR"@) || crate::words::holds(l, "error"@) {
        Color::Red
    } else if crate::words::holds(l, "WARN"@) || crate::words::holds(l, "warn"@) {
        Color::Yellow
    } else if crate::words::holds(l, "connected"@) || crate::words::holds(
        l,
        "handshake completed"@,
    ) {
        Color::Green
    } else if crate::words::holds(l, "disconnected"@) || crate::words::holds(l, "Stopped"@) {
        Color::DarkGray
    } else {
        Color::White
    }
}

/// What is seen of a sequence through a window that begins somewhere and has some
/// width.
pub open spec fn window<A>(s: Seq<A>, from: nat, width: nat) -> Seq<A> {
    if from >= s.len() {
        Seq::empty()
    } else if s.len() - from <= width {
        s.skip(from as int)
    } else {
        s.subrange(from as int, (from + width) as int)
    }
}

/// A line of the log as it is shown. The first one is marked in a panel with the
/// focus.
pub open spec fn log_span(l: Seq<char>, column: nat, width: nat, marked: bool) -> Span {
    span(
        window(l, column, width),
        if marked {
            ground(line_color(l), Color::DarkGray)
        } else {
            tinted(line_color(l))
        },
    )
}

/// The lines of the log that are shown.
pub open spec fn log_spans(
    lines: Seq<Seq<char>>,
    row: nat,
    column: nat,
    width: nat,
    height: nat,
    focused: bool,
) -> Seq<Span> {
    window(lines, row, height).map(
        |k: int, l: Seq<char>| log_span(l, column, width, k == 0 && focused),
    )
}

/// The title of the panel.
pub open spec fn log_title(total: nat, row: nat, column: nat, follow: bool, focused: bool) -> Seq<
    char,
> {
    " Log ["@ + crate::text::dec_text(row + 1) + "/"@ + crate::text::dec_text(
        if total == 0 {
            1
        } else {
            total
        },
    ) + "]"@ + (if follow {
        " [follow]"@
    } else {
        ""@
    }) + (if column > 0 {
        " →"@ + crate::text::dec_text(column)
    } else {
        ""@
    }) + (if focused {
        " [↑↓←→ PgUp/Dn End] "@
    } else {
        " "@
    })
}

fn color_of(chars: &[char]) -> (c: Color)
    ensures
        c == line_color(chars@),
{
    if contains(chars, "ERROR") || contains(chars, "error") {
        Color::Red
    } else if contains(chars, "WARN") || contains(chars, "warn") {
        Color::Yellow
    } else if contains(chars, "connected") || contains(chars, "handshake completed") {
        Color::Green
    } else if contains(chars, "disconnected") || contains(chars, "Stopped") {
        Color::DarkGray
    } else {
        Color::White
    }
}

fn visible(chars: &[char], from: usize, width: usize) -> (s: String)
    ensures
        s@ == window(chars@, from as nat, width as nat),
{
    let n: usize = chars.len();
    if from >= n {
        let s: String = String::new();
        assert(s@ =~= Seq::empty());
        s
    } else if n - from <= width {
        let s: String = string_of(sub_chars(chars, from, n));
        assert(s@ =~= chars@.skip(from as int));
        s
    } else {
        string_of(sub_chars(chars, from, from + width))
    }
}

fn log_piece(line: &str, column: usize, width: usize, marked: bool) -> (p: Piece)
    ensures
        p@ == log_span(line@, column as nat, width as nat, marked),
{
    let chars: Vec<char> = chars_of(line);
    let color: Color = color_of(chars.as_slice());
    let bg: Option<Color> = if marked {
        Some(Color::DarkGray)
    } else {
        None
    };
    Piece {
        text: visible(chars.as_slice(), column, width),
        look: Look { fg: Some(color), bg, bold: false },
    }
}

fn title_of_log(total: usize, row: usize, column: usize, follow: bool, focused: bool) -> (s: String)
    requires
        row < usize::MAX,
    ensures
        s@ == log_title(total as nat, row as nat, column as nat, follow, focused),
{
    let mut s: String = " Log [".to_owned();
    push_dec(&mut s, (row + 1) as u64);
    push_text(&mut s, "/");
    let shown: usize = if total == 0 {
        1
    } else {
        total
    };
    push_dec(&mut s, shown as u64);
    push_text(&mut s, "]");
    push_text(
        &mut s,
        if follow {
            " [follow]"
        } else {
            ""
        },
    );
    let mut at: String = "".to_owned();
    if column > 0 {
        at = " →".to_owned();
        push_dec(&mut at, column as u64);
    }
    push_text(&mut s, at.as_str());
    push_text(
        &mut s,
        if focused {
            " [↑↓←→ PgUp/Dn End] "
        } else {
            " "
        },
    );
    s
}

/// Makes the panel of the log for an area of a width and a height, borders
/// counted.
pub fn log_panel(
    log: &Vec<String>,
    row: usize,
    column: usize,
    follow: bool,
    focused: bool,
    width: u16,
    height: u16,
) -> (r: LogPanel)
    requires
        row < usize::MAX,
    ensures
        r.title@ == log_title(log@.len(), row as nat, column as nat, follow, focused),
        r.border == border_color(focused),
        spans(r.lines@) == log_spans(
            crate::words::texts(log@),
            row as nat,
            column as nat,
            inner(width),
            inner(height),
            focused,
        ),
{
    let total: usize = log.len();
    let inner_width: usize = width.saturating_sub(2) as usize;
    let inner_height: usize = height.saturating_sub(2) as usize;
    let ghost texts = crate::words::texts(log@);
    let ghost all = log_spans(
        texts,
        row as nat,
        column as nat,
        inner(width),
        inner(height),
        focused,
    );
    let mut lines: Vec<Piece> = Vec::new();
    let mut i: usize = row;
    assert(spans(lines@) =~= all.take(0));
    while i < total && i - row < inner_height
        invariant
            row <= i,
            i <= total || i == row,
            i - row <= inner_height,
            total == log@.len(),
            inner_width == inner(width),
            inner_height == inner(height),
            texts == crate::words::texts(log@),
            all == log_spans(
                texts,
                row as nat,
                column as nat,
                inner(width),
                inner(height),
                focused,
            ),
            spans(lines@) == all.take(i - row),
        decreases total - i,
    {
        let p: Piece = log_piece(log[i].as_str(), column, inner_width, i == row && focused);
        let ghost was = lines@;
        lines.push(p);
        proof {
            assert(window(texts, row as nat, inner(height))[i - row] == texts[i as int]);
            assert(all[i - row] == p@);
            assert(spans(lines@) =~= spans(was).push(p@));
            assert(all.take(i + 1 - row) =~= all.take(i - row).push(p@));
        }
        i = i + 1;
    }
    assert(all.take(i - row) =~= all);
    LogPanel { title: title_of_log(total, row, column, follow, focused), border: border(focused), lines }
}

/// What is left of an extent within the borders.
pub open spec fn inner(extent: u16) -> nat {
    if extent >= 2 {
        (extent - 2) as nat
    } else {
        0
    }
}


/// A window shows what lies in it, in place, and no more than its width.
pub proof fn windows_show_what_lies_in_them<A>(s: Seq<A>, from: nat, width: nat, k: int)
    requires
        0 <= k < window(s, from, width).len(),
    ensures
        window(s, from, width).len() <= width,
        from + k < s.len(),
        window(s, from, width)[k] == s[from + k],
        window(s, from, width).len() == width || from + window(s, from, width).len() == s.len(),
{
}

/// A window that begins behind the end is empty; any other shows all that there is room
/// for.
pub proof fn windows_are_filled<A>(s: Seq<A>, from: nat, width: nat)
    ensures
        from >= s.len() ==> window(s, from, width).len() == 0,
        from + width <= s.len() ==> window(s, from, width).len() == width,
        from <= s.len() < from + width ==> window(s, from, width).len() == s.len() - from,
{
}

/// The log panel shows the lines from the row on, one below the other, each from the
/// column on; the first is marked while the panel has the focus, and no other is.
pub proof fn the_log_shows_its_lines(
    lines: Seq<Seq<char>>,
    row: nat,
    column: nat,
    width: nat,
    height: nat,
    focused: bool,
    k: int,
)
    requires
        0 <= k < height,
        row + k < lines.len(),
    ensures
        ({
            let shown = log_spans(lines, row, column, width, height, focused);
            &&& k < shown.len() <= height
            &&& shown[k].text == window(lines[row + k], column, width)
            &&& shown[k].look.fg == Some(line_color(lines[row + k]))
            &&& (shown[k].look.bg is Some <==> focused && k == 0)
        }),
{
    let shown = log_spans(lines, row, column, width, height, focused);
    let seen = window(lines, row, height);
    windows_are_filled(lines, row, height);
    assert(k < seen.len());
    windows_show_what_lies_in_them(lines, row, height, k);
    assert(shown.len() == seen.len());
}

/// A line of the log is red if it speaks of an error, whatever else it says, then yellow
/// if it warns, then green if a peer connected, then grey for a stop, and else white.
pub proof fn errors_outrank_warnings(l: Seq<char>)
    ensures
        crate::words::holds(l, "ERROR"@) ==> line_color(l) == Color::Red,
        crate::words::holds(l, "error"@) ==> line_color(l) == Color::Red,
        line_color(l) == Color::Red ==> crate::words::holds(l, "ERROR"@) || crate::words::holds(
            l,
            "error"@,
        ),
        line_color(l) != Color::Red && crate::words::holds(l, "WARN"@) ==> line_color(l)
            == Color::Yellow,
        line_color(l) != Color::Red && crate::words::holds(l, "warn"@) ==> line_color(l)
            == Color::Yellow,
        line_color(l) == Color::Green ==> crate::words::holds(l, "connected"@)
            || crate::words::holds(l, "handshake completed"@),
        line_color(l) != Color::Red && line_color(l) != Color::Yellow && crate::words::holds(
            l,
            "connected"@,
        ) ==> line_color(l) == Color::Green,
        line_color(l) == Color::White ==> !crate::words::holds(l, "Stopped"@)
            && !crate::words::holds(l, "disconnected"@),
{
}

/// The seed is shown with the cursor in its place while it has the focus, and covered up
/// otherwise.
pub proof fn the_seed_is_shown_only_in_focus(seed: Seq<char>, cursor: int)
    requires
        0 <= cursor <= seed.len(),
    ensures
        seed_span(seed, cursor, true).text == seed.take(cursor).push('│') + seed.skip(cursor),
        seed.len() > 0 ==> seed_span(seed, cursor, false).text == crate::tui_text::obscured(seed),
{
    assert(seed_span(seed, cursor, true).text =~= seed.take(cursor).push('│') + seed.skip(cursor));
}

/// The overlay address is shown only while the daemon runs and has one.
pub proof fn the_overlay_is_shown_while_running(a: Activity, overlay: Seq<char>)
    ensures
        a == Activity::Running && overlay.len() > 0 ==> overlay_span(a, overlay).text
            == "  overlay: "@ + overlay,
        a != Activity::Running || overlay.len() == 0 ==> overlay_span(a, overlay).text.len() == 0,
{
}

/// A row names its peer in its first line and the overlay address in its second; a
/// version 6 address, where there is one, follows. The last two lines of another peer say
/// how it is reached, through which relay, and at which address.
pub proof fn rows_name_their_peer(r: Row)
    ensures
        row_lines(r).len() >= 2,
        row_lines(r)[0][1].text == r.id_short,
        row_lines(r)[1][1].text == r.overlay,
        r.overlay_ipv6.len() > 0 ==> row_lines(r).len() > 2 && row_lines(r)[2][1].text
            == r.overlay_ipv6,
        r.is_local ==> row_lines(r)[0][2].text == " (you)"@,
        !r.is_local ==> {
            let n = row_lines(r).len();
            &&& n == (if r.overlay_ipv6.len() > 0 { 5nat } else { 4 })
            &&& row_lines(r)[n - 1][1].text == r.underlay
            &&& row_lines(r)[n - 2][1].text == (if r.connection == "relay"@ && r.relay_via.len()
                > 0 {
                "relay via "@ + r.relay_via
            } else {
                r.connection
            })
            &&& row_lines(r)[0][2].text == (if r.hostname.len() == 0 {
                Seq::<char>::empty()
            } else {
                "  "@ + r.hostname
            })
        },
{
}

/// There is one item for each row, in order, and a single one where there are none.
pub proof fn each_row_is_an_item(rows: Seq<Row>, i: int)
    requires
        0 <= i < rows.len(),
    ensures
        peer_items(rows).len() == rows.len(),
        peer_items(rows)[i] == row_lines(rows[i]),
        peer_items(Seq::empty()).len() == 1,
{
}

/// The title of the log counts lines from one and never names fewer than one.
pub proof fn the_title_counts_from_one(
    total: nat,
    row: nat,
    column: nat,
    follow: bool,
    focused: bool,
)
    ensures
        ({
            let t = log_title(total, row, column, follow, focused);
            let n = if total > 0 { total } else { 1nat };
            &&& (" Log ["@ + crate::text::dec_text(row + 1) + "/"@ + crate::text::dec_text(n)
                + "]"@).is_prefix_of(t)
            &&& follow ==> crate::words::holds(t, " [follow]"@)
            &&& column > 0 ==> crate::words::holds(t, " →"@ + crate::text::dec_text(column))
        }),
{
    let t = log_title(total, row, column, follow, focused);
    let n = if total > 0 { total } else { 1nat };
    let head = " Log ["@ + crate::text::dec_text(row + 1) + "/"@ + crate::text::dec_text(n) + "]"@;
    let mark = if follow { " [follow]"@ } else { ""@ };
    let side = if column > 0 { " →"@ + crate::text::dec_text(column) } else { ""@ };
    let tail = if focused { " [↑↓←→ PgUp/Dn End] "@ } else { " "@ };
    assert(t == head + mark + side + tail);
    assert(head =~= t.subrange(0, head.len() as int));
    let (i, j) = (head.len() as int, (head.len() + mark.len()) as int);
    assert(t.subrange(i, i + mark.len()) =~= mark);
    assert(t.subrange(j, j + side.len()) =~= side);
}
} // verus!
