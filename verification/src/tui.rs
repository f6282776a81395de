//! The full-screen program: what it shows and how it answers keys, files and the
//! daemon. Drawing, reading and running are left to the caller.
use crate::clock::between;
use crate::config::parse_pid;
use crate::panels::{header, log_panel, peers_panel, Activity, Header, LogPanel, PeersPanel};
use crate::rows::{read_peers_file, PeerRow, Row};
use crate::text::{chars_of, push_dec, push_text, string_of};
use crate::tui_text::{from_utf8_lossy, obscure, strip_ansi};
use crate::words::{lines, trim};
use std::time::{Duration, Instant};
use vstd::prelude::*;

verus! {

/// How many lines of the log are kept.
pub const MAX_LOG_LINES: usize = 500;

/// A panel.
#[derive(Clone, Copy, Debug, PartialEq, Eq, Structural)]
pub enum Focus {
    Seed,
    Peers,
    Log,
}

/// What the daemon is doing.
#[derive(Debug, PartialEq, Eq)]
pub enum DaemonState {
    Stopped,
    Starting,
    Running { pid: u32, overlay: String },
    Stopping,
}

/// What a [`DaemonState`] says.
#[verifier::ext_equal]
pub ghost enum Daemon {
    Stopped,
    Starting,
    Running { pid: u32, overlay: Seq<char> },
    Stopping,
}

impl View for DaemonState {
    type V = Daemon;

    open spec fn view(&self) -> Daemon {
        match self {
            DaemonState::Stopped => Daemon::Stopped,
            DaemonState::Starting => Daemon::Starting,
            DaemonState::Running { pid, overlay } => Daemon::Running {
                pid: *pid,
                overlay: overlay@,
            },
            DaemonState::Stopping => Daemon::Stopping,
        }
    }
}

/// A key.
#[derive(Clone, Copy, Debug, PartialEq, Eq)]
pub enum Key {
    Char(char),
    Tab,
    Enter,
    Backspace,
    Left,
    Right,
    Up,
    Down,
    PageUp,
    PageDown,
    Home,
    End,
    Other,
}

/// What a key calls for.
#[derive(Clone, Copy, Debug, PartialEq, Eq, Structural)]
pub enum KeyAction {
    Stay,
    Quit,
    StartDaemon,
    StopDaemon,
}

// ---------------------------------------------------------------------------
// Model
// ---------------------------------------------------------------------------
/// The state of the program.
#[verifier::ext_equal]
pub ghost struct Screen {
    /// Where the daemon keeps its files.
    pub dir: Seq<char>,
    /// The program that the daemon runs.
    pub exe: Seq<char>,
    /// The seed as typed.
    pub seed: Seq<char>,
    /// Position in the seed.
    pub cursor: nat,
    /// The panel with the focus.
    pub focus: Focus,
    /// What the daemon is doing.
    pub daemon: Daemon,
    /// Whether the daemon is a child of this program.
    pub child: bool,
    /// Rows of the panel of peers.
    pub peers: Seq<Row>,
    /// The selected row.
    pub selected: Option<nat>,
    /// The log.
    pub log: Seq<Seq<char>>,
    /// First line shown.
    pub scroll: nat,
    /// First column shown.
    pub column: nat,
    /// Whether the end of the log is followed.
    pub follow: bool,
    /// How much of the daemon's log has been read.
    pub offset: u64,
}

/// Being a row for another device.
pub open spec fn is_remote() -> spec_fn(Row) -> bool {
    |r: Row| !r.is_local
}

/// The number of rows for other devices.
pub open spec fn remote_count(rows: Seq<Row>) -> nat {
    rows.filter(is_remote()).len()
}

/// The line that says that a peer came.
pub open spec fn connected_text(r: Row) -> Seq<char> {
    "Peer connected: "@ + r.id_short + " ("@ + r.overlay + " / "@ + r.underlay + ")"@
}

impl Screen {
    /// What holds of every state: the cursor is within the seed, and the log is
    /// not too long.
    pub open spec fn ok(self) -> bool {
        self.cursor <= self.seed.len() && self.log.len() <= MAX_LOG_LINES
    }

    /// A message logged: the oldest lines go if there are too many, and the view
    /// goes to the end if it follows.
    pub open spec fn logged(self, time: Seq<char>, msg: Seq<char>) -> Screen {
        let all = self.log.push(time + " "@ + msg);
        let kept = if all.len() > MAX_LOG_LINES {
            all.skip(all.len() - MAX_LOG_LINES)
        } else {
            all
        };
        Screen {
            log: kept,
            scroll: if self.follow {
                (kept.len() - 1) as nat
            } else {
                self.scroll
            },
            ..self
        }
    }

    /// Messages logged in turn.
    pub open spec fn logged_all(self, time: Seq<char>, msgs: Seq<Seq<char>>) -> Screen
        decreases msgs.len(),
    {
        if msgs.len() == 0 {
            self
        } else {
            self.logged_all(time, msgs.drop_last()).logged(time, msgs.last())
        }
    }

    /// The last line of the log, or none.
    pub open spec fn log_end(self) -> nat {
        if self.log.len() > 0 {
            (self.log.len() - 1) as nat
        } else {
            0
        }
    }

    /// One step up in a panel.
    pub open spec fn up(self, panel: Focus) -> Screen {
        match panel {
            Focus::Peers => if self.peers.len() == 0 {
                self
            } else {
                Screen {
                    selected: Some(
                        match self.selected {
                            Some(i) => if i > 0 {
                                (i - 1) as nat
                            } else {
                                0
                            },
                            None => 0,
                        },
                    ),
                    ..self
                }
            },
            Focus::Log => Screen {
                follow: false,
                scroll: if self.scroll > 0 {
                    (self.scroll - 1) as nat
                } else {
                    0
                },
                ..self
            },
            Focus::Seed => self,
        }
    }

    /// One step down in a panel. The end of the log is followed from then on.
    pub open spec fn down(self, panel: Focus) -> Screen {
        match panel {
            Focus::Peers => if self.peers.len() == 0 {
                self
            } else {
                Screen {
                    selected: Some(
                        match self.selected {
                            Some(i) => if i + 1 < self.peers.len() {
                                i + 1
                            } else {
                                (self.peers.len() - 1) as nat
                            },
                            None => 0,
                        },
                    ),
                    ..self
                }
            },
            Focus::Log => {
                let to = if self.scroll + 1 < self.log_end() {
                    self.scroll + 1
                } else {
                    self.log_end()
                };
                Screen { scroll: to, follow: self.follow || to >= self.log_end(), ..self }
            },
            Focus::Seed => self,
        }
    }

    /// Steps up in a panel.
    pub open spec fn up_by(self, panel: Focus, n: nat) -> Screen
        decreases n,
    {
        if n == 0 {
            self
        } else {
            self.up_by(panel, (n - 1) as nat).up(panel)
        }
    }

    /// Steps down in a panel.
    pub open spec fn down_by(self, panel: Focus, n: nat) -> Screen
        decreases n,
    {
        if n == 0 {
            self
        } else {
            self.down_by(panel, (n - 1) as nat).down(panel)
        }
    }

    /// The focus on the next panel. A list of peers without a selection gets one.
    pub open spec fn tabbed(self) -> Screen {
        let next = match self.focus {
            Focus::Seed => Focus::Peers,
            Focus::Peers => Focus::Log,
            Focus::Log => Focus::Seed,
        };
        Screen {
            focus: next,
            selected: if next == Focus::Peers && self.selected is None && self.peers.len() > 0 {
                Some(0)
            } else {
                self.selected
            },
            ..self
        }
    }

    /// What starting or stopping the daemon comes to now.
    pub open spec fn toggle(self) -> KeyAction {
        match self.daemon {
            Daemon::Stopped => KeyAction::StartDaemon,
            Daemon::Running { .. } => KeyAction::StopDaemon,
            _ => KeyAction::Stay,
        }
    }

    /// What a key calls for.
    pub open spec fn key_action(self, key: Key, ctrl: bool) -> KeyAction {
        match key {
            Key::Char(c) => if (c == 'c' && ctrl) || (c == 'q' && self.focus != Focus::Seed) {
                KeyAction::Quit
            } else {
                KeyAction::Stay
            },
            Key::Enter => self.toggle(),
            _ => KeyAction::Stay,
        }
    }

    /// The state after a key.
    pub open spec fn keyed(self, key: Key, ctrl: bool) -> Screen {
        match key {
            Key::Char(c) => if c == 'c' && ctrl {
                self
            } else if self.focus == Focus::Seed {
                Screen {
                    seed: self.seed.insert(self.cursor as int, c),
                    cursor: self.cursor + 1,
                    ..self
                }
            } else {
                self
            },
            Key::Tab => self.tabbed(),
            Key::Enter => self,
            Key::Backspace => if self.focus == Focus::Seed && self.cursor > 0 {
                Screen {
                    seed: self.seed.remove(self.cursor - 1),
                    cursor: (self.cursor - 1) as nat,
                    ..self
                }
            } else {
                self
            },
            Key::Left => match self.focus {
                Focus::Seed => Screen {
                    cursor: if self.cursor > 0 {
                        (self.cursor - 1) as nat
                    } else {
                        0
                    },
                    ..self
                },
                Focus::Log => Screen {
                    column: if self.column >= 4 {
                        (self.column - 4) as nat
                    } else {
                        0
                    },
                    ..self
                },
                Focus::Peers => self,
            },
            Key::Right => match self.focus {
                Focus::Seed => Screen {
                    cursor: if self.cursor < self.seed.len() {
                        self.cursor + 1
                    } else {
                        self.seed.len()
                    },
                    ..self
                },
                Focus::Log => Screen {
                    column: if self.column + 4 <= usize::MAX {
                        self.column + 4
                    } else {
                        usize::MAX as nat
                    },
                    ..self
                },
                Focus::Peers => self,
            },
            Key::Up => self.up_by(self.focus, 1),
            Key::Down => self.down_by(self.focus, 1),
            Key::PageUp => self.up_by(self.focus, 10),
            Key::PageDown => self.down_by(self.focus, 10),
            Key::Home => if self.focus == Focus::Log {
                Screen { scroll: 0, column: 0, follow: false, ..self }
            } else {
                self
            },
            Key::End => if self.focus == Focus::Log {
                Screen { scroll: self.log_end(), column: 0, follow: true, ..self }
            } else {
                self
            },
            Key::Other => self,
        }
    }

    /// The seed that the daemon is started with.
    pub open spec fn seed_phrase(self) -> Seq<char> {
        crate::words::trimmed(self.seed)
    }

    /// The state after the daemon was asked to start: it starts if there is a seed
    /// and the user is root.
    pub open spec fn starting(self, root: bool, time: Seq<char>) -> Screen {
        if self.seed_phrase().len() == 0 {
            self.logged(time, "ERROR: seed is empty — type a seed phrase first."@)
        } else if !root {
            self.logged(time, "ERROR: root required for TUN. Run: sudo seednet"@)
        } else {
            Screen {
                daemon: Daemon::Starting,
                ..self.logged(
                    time,
                    "Starting daemon (seed: "@ + crate::tui_text::obscured(self.seed_phrase())
                        + ")…"@,
                )
            }
        }
    }

    /// The state after the daemon was stopped.
    pub open spec fn stopped(self, pid: Option<u32>, time: Seq<char>) -> Screen {
        let told = self.logged(time, "Stopping daemon…"@);
        let sent = match pid {
            Some(p) => told.logged(
                time,
                "Sent SIGTERM to pid "@ + crate::text::dec_text(p as nat),
            ),
            None => told,
        };
        sent.without_daemon().logged(time, "Daemon stopped."@)
    }

    /// The daemon gone: no child, no peers.
    pub open spec fn without_daemon(self) -> Screen {
        Screen { daemon: Daemon::Stopped, child: false, peers: Seq::empty(), ..self }
    }

    /// The state after the process id in its file was read.
    pub open spec fn saw_pid(self, time: Seq<char>, pid: Option<u32>) -> Screen {
        match (self.daemon, pid) {
            (Daemon::Starting, Some(p)) => Screen {
                daemon: Daemon::Running { pid: p, overlay: Seq::empty() },
                ..self.logged(
                    time,
                    "Daemon running (pid "@ + crate::text::dec_text(p as nat) + ")"@,
                )
            },
            (Daemon::Running { .. }, None) => self.logged(
                time,
                "Daemon disappeared."@,
            ).without_daemon(),
            (Daemon::Running { overlay, .. }, Some(p)) => Screen {
                daemon: Daemon::Running { pid: p, overlay },
                ..self
            },
            _ => self,
        }
    }

    /// The overlay address shown with a running daemon.
    pub open spec fn with_overlay(self, local: Option<Row>) -> Screen {
        match (self.daemon, local) {
            (Daemon::Running { pid, .. }, Some(l)) => Screen {
                daemon: Daemon::Running { pid, overlay: l.overlay },
                ..self
            },
            _ => self,
        }
    }

    /// The lines about peers that came or went: one for each that came, or one
    /// for all that went.
    pub open spec fn news(self, remote: Seq<Row>) -> Seq<Seq<char>> {
        let old = remote_count(self.peers);
        if remote.len() > old {
            remote.skip(old as int).map_values(|r: Row| connected_text(r))
        } else if remote.len() < old {
            seq![
                crate::text::dec_text((old - remote.len()) as nat) + " peer(s) disconnected ("@
                    + crate::text::dec_text(old) + " → "@ + crate::text::dec_text(remote.len())
                    + ")"@,
            ]
        } else {
            Seq::empty()
        }
    }

    /// The state after the file that says who is connected was read.
    pub open spec fn refreshed(
        self,
        time: Seq<char>,
        local: Option<Row>,
        remote: Option<Seq<Row>>,
    ) -> Screen {
        let shown = self.with_overlay(local);
        match remote {
            Some(rows) => Screen {
                peers: (match local {
                    Some(l) => seq![l],
                    None => Seq::empty(),
                }) + rows,
                ..shown.logged_all(time, shown.news(rows))
            },
            None => shown,
        }
    }
}

/// What the file that says who is connected says of the peers.
pub open spec fn listed_rows(j: crate::json::Json) -> Option<Seq<Row>> {
    match crate::json::member_of(j, "peers"@) {
        crate::json::Json::List(js) => Some(crate::rows::remote_rows(js)),
        _ => None,
    }
}

/// Not being empty.
pub open spec fn is_something() -> spec_fn(Seq<char>) -> bool {
    |t: Seq<char>| t.len() > 0
}

/// The lines of a text as the log takes them: what they show, without white space
/// around it, if there is anything.
pub open spec fn log_entries(text: Seq<char>) -> Seq<Seq<char>> {
    crate::words::lines_of(crate::tui_text::shown(text)).map_values(
        |l: Seq<char>| crate::words::trimmed(l),
    ).filter(is_something())
}

impl Screen {
    /// The state after the text of the file that says who is connected was read.
    /// A text that is not JSON changes nothing.
    pub open spec fn refreshed_from(self, time: Seq<char>, text: Seq<char>) -> Screen {
        match crate::json::json_parsed(text) {
            Some(j) => self.refreshed(time, crate::rows::local_row(j), listed_rows(j)),
            None => self,
        }
    }

    /// The state after the daemon's log was read from where it was last read up
    /// to. A log that has not grown changes nothing.
    pub open spec fn tailed(self, time: Seq<char>, len: u64, text: Seq<char>) -> Screen {
        if len <= self.offset {
            self
        } else {
            Screen { offset: len, ..self }.logged_all(time, log_entries(text))
        }
    }

    /// The state after a look at the daemon: at its process id, then, if it runs,
    /// at its peers, then at its log. A daemon that has exited is only noted.
    pub open spec fn polled(
        self,
        time: Seq<char>,
        exited: Option<Seq<char>>,
        pid: Option<u32>,
        peers: Option<Seq<char>>,
        log: Option<(u64, Seq<char>)>,
    ) -> Screen {
        match exited {
            Some(status) => self.logged(time, "Daemon exited: "@ + status).without_daemon(),
            None => {
                let looked = self.saw_pid(time, pid);
                let met = match peers {
                    Some(text) => if looked.daemon is Running {
                        looked.refreshed_from(time, text)
                    } else {
                        looked
                    },
                    None => looked,
                };
                match log {
                    Some((len, text)) => met.tailed(time, len, text),
                    None => met,
                }
            },
        }
    }
}

// ---------------------------------------------------------------------------
// The program
// ---------------------------------------------------------------------------
/// The state of the program.
pub struct App {
    state_dir: String,
    exe_path: String,
    seed_input: Vec<char>,
    seed_cursor: usize,
    focus: Focus,
    daemon: DaemonState,
    has_child: bool,
    peers: Vec<PeerRow>,
    selected: Option<usize>,
    log_lines: Vec<String>,
    log_scroll: usize,
    log_col: usize,
    log_follow: bool,
    log_file_offset: u64,
}

impl View for App {
    type V = Screen;

    closed spec fn view(&self) -> Screen {
        Screen {
            dir: self.state_dir@,
            exe: self.exe_path@,
            seed: self.seed_input@,
            cursor: self.seed_cursor as nat,
            focus: self.focus,
            daemon: self.daemon@,
            child: self.has_child,
            peers: crate::rows::rows_view(self.peers@),
            selected: match self.selected {
                Some(i) => Some(i as nat),
                None => None,
            },
            log: crate::words::texts(self.log_lines@),
            scroll: self.log_scroll as nat,
            column: self.log_col as nat,
            follow: self.log_follow,
            offset: self.log_file_offset,
        }
    }
}

impl App {
    /// The program at its start.
    pub fn new(state_dir: String, exe_path: String, time: &str) -> (r: App)
        ensures
            r@.ok(),
            r@ == (Screen {
                dir: state_dir@,
                exe: exe_path@,
                seed: Seq::empty(),
                cursor: 0,
                focus: Focus::Seed,
                daemon: Daemon::Stopped,
                child: false,
                peers: Seq::empty(),
                selected: None,
                log: Seq::empty(),
                scroll: 0,
                column: 0,
                follow: true,
                offset: 0,
            }).logged(time@, "SeedNet TUI ready. Tab to switch focus, Enter or click Start."@),
    {
        let mut r: App = App {
            state_dir,
            exe_path,
            seed_input: Vec::new(),
            seed_cursor: 0,
            focus: Focus::Seed,
            daemon: DaemonState::Stopped,
            has_child: false,
            peers: Vec::new(),
            selected: None,
            log_lines: Vec::new(),
            log_scroll: 0,
            log_col: 0,
            log_follow: true,
            log_file_offset: 0,
        };
        proof {
            assert(r@.peers =~= Seq::empty());
            assert(r@.log =~= Seq::empty());
            assert(r@.seed =~= Seq::empty());
        }
        r.push_log(time, "SeedNet TUI ready. Tab to switch focus, Enter or click Start.");
        r
    }

    /// Logs a message.
    pub fn push_log(&mut self, time: &str, msg: &str)
        requires
            old(self)@.ok(),
        ensures
            final(self)@.ok(),
            final(self)@ == old(self)@.logged(time@, msg@),
    {
        let mut line: String = time.to_owned();
        push_text(&mut line, " ");
        push_text(&mut line, msg);
        let ghost was = self.log_lines@;
        self.log_lines.push(line);
        let ghost all = self.log_lines@;
        assert(crate::words::texts(all) =~= crate::words::texts(was).push(line@));
        let n: usize = self.log_lines.len();
        if n > MAX_LOG_LINES {
            self.log_lines.remove(0);
            assert(crate::words::texts(self.log_lines@) =~= crate::words::texts(all).skip(1));
        }
        if self.log_follow {
            self.log_scroll = self.log_lines.len() - 1;
        }
    }

    fn push_logs(&mut self, time: &str, msgs: &Vec<String>)
        requires
            old(self)@.ok(),
        ensures
            final(self)@.ok(),
            final(self)@ == old(self)@.logged_all(time@, crate::words::texts(msgs@)),
    {
        let ghost all = crate::words::texts(msgs@);
        let mut i: usize = 0;
        while i < msgs.len()
            invariant
                i <= msgs@.len(),
                self@.ok(),
                all == crate::words::texts(msgs@),
                self@ == old(self)@.logged_all(time@, all.take(i as int)),
            decreases msgs.len() - i,
        {
            self.push_log(time, msgs[i].as_str());
            i = i + 1;
            assert(all.take(i as int).drop_last() =~= all.take(i - 1));
            assert(all.take(i as int).last() == msgs@[i - 1]@);
        }
        assert(all.take(i as int) =~= all);
    }

    // -----------------------------------------------------------------------
    // Keys
    // -----------------------------------------------------------------------
    fn scroll_up_panel(&mut self, panel: Focus)
        requires
            old(self)@.ok(),
        ensures
            final(self)@.ok(),
            final(self)@ == old(self)@.up(panel),
    {
        match panel {
            Focus::Peers => {
                if self.peers.len() == 0 {
                    return;
                }
                let i: usize = match self.selected {
                    Some(i) => i.saturating_sub(1),
                    None => 0,
                };
                self.selected = Some(i);
            },
            Focus::Log => {
                self.log_follow = false;
                self.log_scroll = self.log_scroll.saturating_sub(1);
            },
            Focus::Seed => {},
        }
    }

    fn scroll_down_panel(&mut self, panel: Focus)
        requires
            old(self)@.ok(),
        ensures
            final(self)@.ok(),
            final(self)@ == old(self)@.down(panel),
    {
        match panel {
            Focus::Peers => {
                let n: usize = self.peers.len();
                if n == 0 {
                    return;
                }
                let i: usize = match self.selected {
                    Some(i) => if i < n - 1 {
                        i + 1
                    } else {
                        n - 1
                    },
                    None => 0,
                };
                self.selected = Some(i);
            },
            Focus::Log => {
                let max: usize = self.log_lines.len().saturating_sub(1);
                self.log_scroll = if self.log_scroll < max {
                    self.log_scroll + 1
                } else {
                    max
                };
                if self.log_scroll >= max {
                    self.log_follow = true;
                }
            },
            Focus::Seed => {},
        }
    }

    fn scroll_up_by(&mut self, n: u8)
        requires
            old(self)@.ok(),
        ensures
            final(self)@.ok(),
            final(self)@ == old(self)@.up_by(old(self)@.focus, n as nat),
    {
        let panel: Focus = self.focus;
        let mut i: u8 = 0;
        while i < n
            invariant
                i <= n,
                self@.ok(),
                panel == old(self)@.focus,
                self@ == old(self)@.up_by(panel, i as nat),
            decreases n - i,
        {
            self.scroll_up_panel(panel);
            i = i + 1;
        }
    }

    fn scroll_down_by(&mut self, n: u8)
        requires
            old(self)@.ok(),
        ensures
            final(self)@.ok(),
            final(self)@ == old(self)@.down_by(old(self)@.focus, n as nat),
    {
        let panel: Focus = self.focus;
        let mut i: u8 = 0;
        while i < n
            invariant
                i <= n,
                self@.ok(),
                panel == old(self)@.focus,
                self@ == old(self)@.down_by(panel, i as nat),
            decreases n - i,
        {
            self.scroll_down_panel(panel);
            i = i + 1;
        }
    }

    fn tab(&mut self)
        requires
            old(self)@.ok(),
        ensures
            final(self)@.ok(),
            final(self)@ == old(self)@.tabbed(),
    {
        self.focus = match self.focus {
            Focus::Seed => Focus::Peers,
            Focus::Peers => Focus::Log,
            Focus::Log => Focus::Seed,
        };
        if self.focus == Focus::Peers && self.selected.is_none() && self.peers.len() > 0 {
            self.selected = Some(0);
        }
    }

    /// Answers a key.
    pub fn handle_key(&mut self, key: Key, ctrl: bool) -> (r: KeyAction)
        requires
            old(self)@.ok(),
        ensures
            final(self)@.ok(),
            r == old(self)@.key_action(key, ctrl),
            final(self)@ == old(self)@.keyed(key, ctrl),
    {
        match key {
            Key::Char(c) => {
                if c == 'c' && ctrl {
                    return KeyAction::Quit;
                }
                if self.focus == Focus::Seed {
                    self.seed_input.insert(self.seed_cursor, c);
                    let n: usize = self.seed_input.len();
                    assert(self.seed_cursor < n);
                    self.seed_cursor = self.seed_cursor + 1;
                } else if c == 'q' {
                    return KeyAction::Quit;
                }
            },
            Key::Tab => self.tab(),
            Key::Enter => {
                return match &self.daemon {
                    DaemonState::Stopped => KeyAction::StartDaemon,
                    DaemonState::Running { .. } => KeyAction::StopDaemon,
                    _ => KeyAction::Stay,
                };
            },
            Key::Backspace => {
                if self.focus == Focus::Seed && self.seed_cursor > 0 {
                    self.seed_cursor = self.seed_cursor - 1;
                    self.seed_input.remove(self.seed_cursor);
                }
            },
            Key::Left => match self.focus {
                Focus::Seed => {
                    self.seed_cursor = self.seed_cursor.saturating_sub(1);
                },
                Focus::Log => {
                    self.log_col = self.log_col.saturating_sub(4);
                },
                Focus::Peers => {},
            },
            Key::Right => match self.focus {
                Focus::Seed => {
                    if self.seed_cursor < self.seed_input.len() {
                        self.seed_cursor = self.seed_cursor + 1;
                    }
                },
                Focus::Log => {
                    self.log_col = self.log_col.saturating_add(4);
                },
                Focus::Peers => {},
            },
            Key::Up => self.scroll_up_by(1),
            Key::Down => self.scroll_down_by(1),
            Key::PageUp => self.scroll_up_by(10),
            Key::PageDown => self.scroll_down_by(10),
            Key::Home => {
                if self.focus == Focus::Log {
                    self.log_scroll = 0;
                    self.log_col = 0;
                    self.log_follow = false;
                }
            },
            Key::End => {
                if self.focus == Focus::Log {
                    self.log_scroll = self.log_lines.len().saturating_sub(1);
                    self.log_col = 0;
                    self.log_follow = true;
                }
            },
            Key::Other => {},
        }
        KeyAction::Stay
    }
}

/// What came in the way of starting the daemon.
#[derive(Clone, Copy, Debug, PartialEq, Eq, Structural)]
pub enum StartProblem {
    OpenLog,
    CloneLog,
    Spawn,
}

impl StartProblem {
    /// What the log says of it.
    pub open spec fn text(self) -> Seq<char> {
        match self {
            StartProblem::OpenLog => "ERROR opening log: "@,
            StartProblem::CloneLog => "ERROR cloning log fd: "@,
            StartProblem::Spawn => "ERROR spawning daemon: "@,
        }
    }
}

/// What a look at the daemon found.
pub struct Seen {
    /// The exit status, if the daemon is a child that has exited.
    pub exited: Option<String>,
    /// What the file with the process id holds.
    pub pid_file: Option<String>,
    /// What the file that says who is connected holds.
    pub peers_file: Option<String>,
    /// The length of the log, and what stands in it from where it was last read
    /// up to.
    pub log: Option<(u64, Vec<u8>)>,
}

impl Seen {
    /// The exit status.
    pub open spec fn status(&self) -> Option<Seq<char>> {
        match self.exited {
            Some(s) => Some(s@),
            None => None,
        }
    }

    /// The process id.
    pub open spec fn pid(&self) -> Option<u32> {
        match self.pid_file {
            Some(s) => match crate::config::pid_of(s@) {
                Ok(p) => Some(p),
                Err(_) => None,
            },
            None => None,
        }
    }

    /// The text about the peers.
    pub open spec fn peers(&self) -> Option<Seq<char>> {
        match self.peers_file {
            Some(s) => Some(s@),
            None => None,
        }
    }

    /// The length of the log and the text at its end.
    pub open spec fn tail(&self) -> Option<(u64, Seq<char>)> {
        match self.log {
            Some(l) => Some((l.0, crate::tui_text::lossy_text(l.1@))),
            None => None,
        }
    }
}

/// Whether the daemon is to be looked at again: half a second after the last
/// look.
pub fn poll_is_due(last: &Instant, now: &Instant) -> (r: bool)
    ensures
        r == (crate::clock::nanos_between(*now, *last) >= 500_000_000),
{
    let waited: Duration = between(now, last);
    waited.as_nanos() >= 500_000_000
}

fn count_remote(peers: &Vec<PeerRow>) -> (n: usize)
    ensures
        n == remote_count(crate::rows::rows_view(peers@)),
{
    let ghost rows = crate::rows::rows_view(peers@);
    let mut n: usize = 0;
    let mut i: usize = 0;
    proof {
        reveal(Seq::filter);
    }
    while i < peers.len()
        invariant
            i <= peers@.len(),
            n <= i,
            rows == crate::rows::rows_view(peers@),
            n == remote_count(rows.take(i as int)),
        decreases peers.len() - i,
    {
        proof {
            reveal(Seq::filter);
            assert(rows.take(i + 1).drop_last() =~= rows.take(i as int));
            assert(rows.take(i + 1).last() == peers@[i as int]@);
        }
        if !peers[i].is_local {
            n = n + 1;
        }
        i = i + 1;
    }
    assert(rows.take(i as int) =~= rows);
    n
}

fn log_lines_of(text: &str) -> (r: Vec<String>)
    ensures
        crate::words::texts(r@) == log_entries(text@),
{
    let shown: String = strip_ansi(text);
    let all: Vec<String> = lines(shown.as_str());
    let ghost f = is_something();
    let ghost cut = crate::words::texts(all@).map_values(
        |l: Seq<char>| crate::words::trimmed(l),
    );
    let mut r: Vec<String> = Vec::new();
    let mut i: usize = 0;
    proof {
        reveal(Seq::filter);
        assert(crate::words::texts(r@) =~= cut.take(0).filter(f));
    }
    while i < all.len()
        invariant
            i <= all@.len(),
            f == is_something(),
            cut == crate::words::texts(all@).map_values(
                |l: Seq<char>| crate::words::trimmed(l),
            ),
            crate::words::texts(r@) == cut.take(i as int).filter(f),
        decreases all.len() - i,
    {
        let chars: Vec<char> = chars_of(all[i].as_str());
        let line: &[char] = trim(chars.as_slice());
        proof {
            reveal(Seq::filter);
            assert(cut.take(i + 1).drop_last() =~= cut.take(i as int));
            assert(cut.take(i + 1).last() == line@);
        }
        if line.len() > 0 {
            let ghost was = r@;
            r.push(string_of(line));
            assert(crate::words::texts(r@) =~= crate::words::texts(was).push(line@));
        }
        i = i + 1;
    }
    assert(cut.take(i as int) =~= cut);
    r
}

impl App {
    // -----------------------------------------------------------------------
    // The daemon
    // -----------------------------------------------------------------------
    /// Begins to start the daemon. Gives the seed to start it with, if it is to be
    /// started.
    pub fn begin_start(&mut self, root: bool, time: &str) -> (r: Option<String>)
        requires
            old(self)@.ok(),
        ensures
            final(self)@.ok(),
            final(self)@ == old(self)@.starting(root, time@),
            match r {
                Some(seed) => root && seed@ == old(self)@.seed_phrase() && seed@.len() > 0,
                None => !root || old(self)@.seed_phrase().len() == 0,
            },
    {
        let seed: &[char] = trim(self.seed_input.as_slice());
        if seed.len() == 0 {
            self.push_log(time, "ERROR: seed is empty — type a seed phrase first.");
            return None;
        }
        if !root {
            self.push_log(time, "ERROR: root required for TUN. Run: sudo seednet");
            return None;
        }
        let phrase: String = string_of(seed);
        let hidden: String = obscure(seed);
        let mut msg: String = "Starting daemon (seed: ".to_owned();
        push_text(&mut msg, hidden.as_str());
        push_text(&mut msg, ")…");
        self.push_log(time, msg.as_str());
        self.daemon = DaemonState::Starting;
        Some(phrase)
    }

    /// Notes how long the daemon's log is, to be read from there on.
    pub fn set_log_offset(&mut self, len: u64)
        requires
            old(self)@.ok(),
        ensures
            final(self)@.ok(),
            final(self)@ == (Screen { offset: len, ..old(self)@ }),
    {
        self.log_file_offset = len;
    }

    /// The program to run as the daemon, and its arguments.
    pub fn daemon_command(&self, seed: &str) -> (r: (String, Vec<String>))
        ensures
            r.0@ == self@.exe,
            crate::words::texts(r.1@) == seq![
                "-v"@,
                "_daemon"@,
                seed@,
                "--state-dir"@,
                self@.dir,
            ],
    {
        let mut args: Vec<String> = Vec::new();
        args.push("-v".to_owned());
        args.push("_daemon".to_owned());
        args.push(seed.to_owned());
        args.push("--state-dir".to_owned());
        args.push(self.state_dir.as_str().to_owned());
        assert(crate::words::texts(args@) =~= seq![
            "-v"@,
            "_daemon"@,
            seed@,
            "--state-dir"@,
            self@.dir,
        ]);
        (self.exe_path.as_str().to_owned(), args)
    }

    /// Notes that the daemon could not be started.
    pub fn start_failed(&mut self, problem: StartProblem, error: &str, time: &str)
        requires
            old(self)@.ok(),
        ensures
            final(self)@.ok(),
            final(self)@ == (Screen {
                daemon: Daemon::Stopped,
                ..old(self)@.logged(time@, problem.text() + error@)
            }),
    {
        let mut msg: String = match problem {
            StartProblem::OpenLog => "ERROR opening log: ".to_owned(),
            StartProblem::CloneLog => "ERROR cloning log fd: ".to_owned(),
            StartProblem::Spawn => "ERROR spawning daemon: ".to_owned(),
        };
        push_text(&mut msg, error);
        self.push_log(time, msg.as_str());
        self.daemon = DaemonState::Stopped;
    }

    /// Notes that the daemon was started as a child.
    pub fn spawned(&mut self, pid: u32, time: &str)
        requires
            old(self)@.ok(),
        ensures
            final(self)@.ok(),
            final(self)@ == (Screen {
                child: true,
                ..old(self)@.logged(
                    time@,
                    "Daemon spawned (pid "@ + crate::text::dec_text(pid as nat) + ")"@,
                )
            }),
    {
        let mut msg: String = "Daemon spawned (pid ".to_owned();
        push_dec(&mut msg, pid as u64);
        push_text(&mut msg, ")");
        self.push_log(time, msg.as_str());
        self.has_child = true;
    }

    fn forget_daemon(&mut self)
        requires
            old(self)@.ok(),
        ensures
            final(self)@.ok(),
            final(self)@ == old(self)@.without_daemon(),
    {
        self.daemon = DaemonState::Stopped;
        self.has_child = false;
        self.peers = Vec::new();
        assert(self@.peers =~= Seq::empty());
    }

    /// Notes that the daemon was stopped, with the process id that was sent a
    /// signal.
    pub fn stop_daemon(&mut self, pid: Option<u32>, time: &str)
        requires
            old(self)@.ok(),
        ensures
            final(self)@.ok(),
            final(self)@ == old(self)@.stopped(pid, time@),
    {
        self.push_log(time, "Stopping daemon…");
        if let Some(p) = pid {
            let mut msg: String = "Sent SIGTERM to pid ".to_owned();
            push_dec(&mut msg, p as u64);
            self.push_log(time, msg.as_str());
        }
        self.forget_daemon();
        self.push_log(time, "Daemon stopped.");
    }

    fn observe_pid(&mut self, time: &str, pid: Option<u32>)
        requires
            old(self)@.ok(),
        ensures
            final(self)@.ok(),
            final(self)@ == old(self)@.saw_pid(time@, pid),
    {
        let mut was: DaemonState = DaemonState::Stopped;
        std::mem::swap(&mut was, &mut self.daemon);
        match (was, pid) {
            (DaemonState::Starting, Some(p)) => {
                let mut msg: String = "Daemon running (pid ".to_owned();
                push_dec(&mut msg, p as u64);
                push_text(&mut msg, ")");
                self.push_log(time, msg.as_str());
                self.daemon = DaemonState::Running { pid: p, overlay: String::new() };
                assert(self@.daemon =~= Daemon::Running { pid: p, overlay: Seq::empty() });
            },
            (DaemonState::Running { .. }, None) => {
                self.push_log(time, "Daemon disappeared.");
                self.forget_daemon();
            },
            (DaemonState::Running { overlay, .. }, Some(p)) => {
                self.daemon = DaemonState::Running { pid: p, overlay };
            },
            (other, _) => {
                self.daemon = other;
            },
        }
    }

    /// Takes in the text of the file that says who is connected.
    pub fn refresh_peers(&mut self, time: &str, text: &str)
        requires
            old(self)@.ok(),
        ensures
            final(self)@.ok(),
            final(self)@ == old(self)@.refreshed_from(time@, text@),
    {
        let file = match read_peers_file(text) {
            Some(f) => f,
            None => return ,
        };
        let ghost j = crate::json::json_parsed(text@)->Some_0;
        let local: Option<PeerRow> = file.local;
        if let Some(l) = &local {
            if let DaemonState::Running { pid, .. } = &self.daemon {
                let overlay: String = l.overlay.as_str().to_owned();
                self.daemon = DaemonState::Running { pid: *pid, overlay };
            }
        }
        let ghost shown = old(self)@.with_overlay(crate::rows::local_row(j));
        assert(self@ =~= shown);
        let remote: Vec<PeerRow> = match file.peers {
            Some(rows) => rows,
            None => return ,
        };
        let ghost rows = crate::rows::rows_view(remote@);
        let news: Vec<String> = self.news_of(&remote);
        self.push_logs(time, &news);
        let ghost told = shown.logged_all(time@, shown.news(rows));
        assert(self@ == told);
        let mut peers: Vec<PeerRow> = Vec::new();
        if let Some(l) = local {
            peers.push(l);
        }
        let mut remote: Vec<PeerRow> = remote;
        peers.append(&mut remote);
        self.peers = peers;
        proof {
            let first = match crate::rows::local_row(j) {
                Some(l) => seq![l],
                None => Seq::empty(),
            };
            assert(self@.peers =~= first + rows);
            assert(self@ =~= Screen { peers: first + rows, ..told });
        }
    }

    fn news_of(&self, remote: &Vec<PeerRow>) -> (r: Vec<String>)
        ensures
            crate::words::texts(r@) == self@.news(crate::rows::rows_view(remote@)),
    {
        let ghost rows = crate::rows::rows_view(remote@);
        let old_count: usize = count_remote(&self.peers);
        let new_count: usize = remote.len();
        let mut r: Vec<String> = Vec::new();
        if new_count > old_count {
            let mut i: usize = old_count;
            let ghost news = rows.skip(old_count as int).map_values(|r: Row| connected_text(r));
            assert(crate::words::texts(r@) =~= news.take(0));
            while i < remote.len()
                invariant
                    old_count <= i <= remote@.len(),
                    rows == crate::rows::rows_view(remote@),
                    news == rows.skip(old_count as int).map_values(|r: Row| connected_text(r)),
                    crate::words::texts(r@) == news.take(i - old_count),
                decreases remote.len() - i,
            {
                let p: &PeerRow = &remote[i];
                let mut msg: String = "Peer connected: ".to_owned();
                push_text(&mut msg, p.id_short.as_str());
                push_text(&mut msg, " (");
                push_text(&mut msg, p.overlay.as_str());
                push_text(&mut msg, " / ");
                push_text(&mut msg, p.underlay.as_str());
                push_text(&mut msg, ")");
                let ghost was = r@;
                r.push(msg);
                proof {
                    assert(news[i - old_count] == msg@);
                    assert(crate::words::texts(r@) =~= crate::words::texts(was).push(msg@));
                    assert(news.take(i + 1 - old_count) =~= news.take(i - old_count).push(msg@));
                }
                i = i + 1;
            }
            assert(news.take(i - old_count) =~= news);
        } else if new_count < old_count {
            let mut msg: String = String::new();
            push_dec(&mut msg, (old_count - new_count) as u64);
            assert(msg@ =~= crate::text::dec_text((old_count - new_count) as nat));
            push_text(&mut msg, " peer(s) disconnected (");
            push_dec(&mut msg, old_count as u64);
            push_text(&mut msg, " → ");
            push_dec(&mut msg, new_count as u64);
            push_text(&mut msg, ")");
            r.push(msg);
            assert(crate::words::texts(r@) =~= seq![msg@]);
        } else {
            assert(crate::words::texts(r@) =~= Seq::empty());
        }
        r
    }

    /// Takes in the end of the daemon's log.
    pub fn tail_daemon_log(&mut self, time: &str, len: u64, raw: &[u8])
        requires
            old(self)@.ok(),
        ensures
            final(self)@.ok(),
            final(self)@ == old(self)@.tailed(
                time@,
                len,
                crate::tui_text::lossy_text(raw@),
            ),
    {
        if len <= self.log_file_offset {
            return;
        }
        self.log_file_offset = len;
        let text: String = from_utf8_lossy(raw);
        let entries: Vec<String> = log_lines_of(text.as_str());
        self.push_logs(time, &entries);
    }

    /// Takes in what a look at the daemon found.
    pub fn poll(&mut self, time: &str, seen: &Seen)
        requires
            old(self)@.ok(),
        ensures
            final(self)@.ok(),
            final(self)@ == old(self)@.polled(
                time@,
                seen.status(),
                seen.pid(),
                seen.peers(),
                seen.tail(),
            ),
    {
        if let Some(status) = &seen.exited {
            let mut msg: String = "Daemon exited: ".to_owned();
            push_text(&mut msg, status.as_str());
            self.push_log(time, msg.as_str());
            self.forget_daemon();
            return;
        }
        let pid: Option<u32> = match &seen.pid_file {
            Some(s) => match parse_pid(s.as_str()) {
                Ok(p) => Some(p),
                Err(_) => None,
            },
            None => None,
        };
        self.observe_pid(time, pid);
        if self.is_running() {
            if let Some(text) = &seen.peers_file {
                self.refresh_peers(time, text.as_str());
            }
        }
        if let Some(log) = &seen.log {
            self.tail_daemon_log(time, log.0, log.1.as_slice());
        }
    }

    /// Whether the daemon runs.
    pub fn is_running(&self) -> (r: bool)
        ensures
            r == (self@.daemon is Running),
    {
        match &self.daemon {
            DaemonState::Running { .. } => true,
            _ => false,
        }
    }

    /// Whether the daemon is a child of this program.
    pub fn has_child(&self) -> (r: bool)
        ensures
            r == self@.child,
    {
        self.has_child
    }

    /// How much of the daemon's log has been read.
    pub fn log_offset(&self) -> (r: u64)
        ensures
            r == self@.offset,
    {
        self.log_file_offset
    }
}

// ---------------------------------------------------------------------------
// Panels
// ---------------------------------------------------------------------------
impl Screen {
    /// What the header says of the daemon.
    pub open spec fn activity(self) -> Activity {
        match self.daemon {
            Daemon::Stopped => Activity::Stopped,
            Daemon::Starting => Activity::Starting,
            Daemon::Running { .. } => Activity::Running,
            Daemon::Stopping => Activity::Stopping,
        }
    }

    /// The overlay address, if the daemon runs.
    pub open spec fn overlay(self) -> Seq<char> {
        match self.daemon {
            Daemon::Running { overlay, .. } => overlay,
            _ => Seq::empty(),
        }
    }

    /// The view of the log held to the lines that there are.
    pub open spec fn clamped(self) -> Screen {
        Screen {
            scroll: if self.scroll < self.log_end() {
                self.scroll
            } else {
                self.log_end()
            },
            ..self
        }
    }
}

impl App {
    /// The header.
    pub fn render_header(&self) -> (r: Header)
        requires
            self@.ok(),
        ensures
            r.status@ == crate::panels::status_span(self@.activity()),
            crate::panels::spans(r.seed@) == seq![
                crate::panels::span(
                    " Seed: "@,
                    crate::panels::tinted(crate::panels::Color::Cyan),
                ),
                crate::panels::seed_span(
                    self@.seed,
                    self@.cursor as int,
                    self@.focus == Focus::Seed,
                ),
                crate::panels::overlay_span(self@.activity(), self@.overlay()),
            ],
            r.seed_border == crate::panels::border_color(self@.focus == Focus::Seed),
            crate::panels::spans(r.button@) == seq![
                crate::panels::button_span(self@.activity()),
                crate::panels::span(
                    " [↵]"@,
                    crate::panels::tinted(crate::panels::Color::DarkGray),
                ),
            ],
    {
        proof {
            reveal_strlit("");
        }
        let overlay: &str = match &self.daemon {
            DaemonState::Running { overlay, .. } => overlay.as_str(),
            _ => "",
        };
        assert(overlay@ =~= self@.overlay());
        let activity: Activity = match &self.daemon {
            DaemonState::Stopped => Activity::Stopped,
            DaemonState::Starting => Activity::Starting,
            DaemonState::Running { .. } => Activity::Running,
            DaemonState::Stopping => Activity::Stopping,
        };
        header(
            activity,
            overlay,
            self.seed_input.as_slice(),
            self.seed_cursor,
            self.focus == Focus::Seed,
        )
    }

    /// The panel of peers.
    pub fn render_peers(&self) -> (r: PeersPanel)
        ensures
            r.title@ == crate::panels::peers_title(
                remote_count(self@.peers),
                self@.focus == Focus::Peers,
            ),
            r.border == crate::panels::border_color(self@.focus == Focus::Peers),
            crate::panels::span_items(r.items@) == crate::panels::peer_items(self@.peers),
    {
        peers_panel(&self.peers, count_remote(&self.peers), self.focus == Focus::Peers)
    }

    /// The selected row of the panel of peers.
    pub fn selected_peer(&self) -> (r: Option<usize>)
        ensures
            match r {
                Some(i) => self@.selected == Some(i as nat),
                None => self@.selected is None,
            },
    {
        self.selected
    }

    /// The panel of the log, for an area of a width and a height. The view is held
    /// to the lines that there are.
    pub fn render_log(&mut self, width: u16, height: u16) -> (r: LogPanel)
        requires
            old(self)@.ok(),
        ensures
            final(self)@.ok(),
            final(self)@ == old(self)@.clamped(),
            r.title@ == crate::panels::log_title(
                final(self)@.log.len(),
                final(self)@.scroll,
                final(self)@.column,
                final(self)@.follow,
                final(self)@.focus == Focus::Log,
            ),
            r.border == crate::panels::border_color(final(self)@.focus == Focus::Log),
            crate::panels::spans(r.lines@) == crate::panels::log_spans(
                final(self)@.log,
                final(self)@.scroll,
                final(self)@.column,
                crate::panels::inner(width),
                crate::panels::inner(height),
                final(self)@.focus == Focus::Log,
            ),
    {
        let end: usize = self.log_lines.len().saturating_sub(1);
        if self.log_scroll > end {
            self.log_scroll = end;
        }
        log_panel(
            &self.log_lines,
            self.log_scroll,
            self.log_col,
            self.log_follow,
            self.focus == Focus::Log,
            width,
            height,
        )
    }
}

// ---------------------------------------------------------------------------
// Laws
// ---------------------------------------------------------------------------
/// Backspace takes back a character that was typed.
pub proof fn backspace_undoes_typing(s: Screen, c: char, ctrl: bool)
    requires
        s.ok(),
        s.focus == Focus::Seed,
        !(c == 'c' && ctrl),
    ensures
        s.keyed(Key::Char(c), ctrl).keyed(Key::Backspace, false) == s,
{
    let typed = s.keyed(Key::Char(c), ctrl);
    assert(typed.seed.remove(s.cursor as int) =~= s.seed);
    assert(typed.keyed(Key::Backspace, false) =~= s);
}

/// The focus comes round after three tabs, and passes every panel.
pub proof fn tab_goes_round(s: Screen, panel: Focus)
    ensures
        s.tabbed().tabbed().tabbed().focus == s.focus,
        panel == s.focus || panel == s.tabbed().focus || panel == s.tabbed().tabbed().focus,
{
}

/// No key by itself changes the daemon, its peers, or what the log holds; and no
/// key takes the cursor out of the seed.
pub proof fn keys_only_move(s: Screen, key: Key, ctrl: bool)
    requires
        s.ok(),
    ensures
        s.keyed(key, ctrl).ok(),
        s.keyed(key, ctrl).daemon == s.daemon,
        s.keyed(key, ctrl).peers == s.peers,
        s.keyed(key, ctrl).log == s.log,
{
    lemma_scrolling_only_moves(s, s.focus, 1);
    lemma_scrolling_only_moves(s, s.focus, 10);
}

proof fn lemma_scrolling_only_moves(s: Screen, panel: Focus, n: nat)
    ensures
        same_but_view(s, s.up_by(panel, n)),
        same_but_view(s, s.down_by(panel, n)),
    decreases n,
{
    if n > 0 {
        lemma_scrolling_only_moves(s, panel, (n - 1) as nat);
    }
}

/// Being the same but for what the view shows.
pub open spec fn same_but_view(a: Screen, b: Screen) -> bool {
    &&& a.seed == b.seed
    &&& a.cursor == b.cursor
    &&& a.daemon == b.daemon
    &&& a.peers == b.peers
    &&& a.log == b.log
}

/// While the end of the log is followed, every message that is logged is in view.
pub proof fn followed_log_shows_messages(s: Screen, time: Seq<char>, msg: Seq<char>)
    requires
        s.follow,
    ensures
        ({
            let after = s.logged(time, msg);
            after.follow && after.log[after.scroll as int] == time + " "@ + msg
        }),
{
}

/// A daemon that is found to run after it was started is stopped by the button,
/// and one that was stopped is started by it.
pub proof fn button_alternates(s: Screen, time: Seq<char>, pid: u32)
    requires
        s.daemon is Starting,
    ensures
        s.saw_pid(time, Some(pid)).toggle() == KeyAction::StopDaemon,
        s.saw_pid(time, Some(pid)).stopped(Some(pid), time).toggle() == KeyAction::StartDaemon,
{
}


/// While the seed has the focus, a typed character goes in at the cursor and the cursor
/// behind it; what stood before and after it stays, and so does all else on the screen.
pub proof fn typing_goes_in_at_the_cursor(s: Screen, c: char, ctrl: bool)
    requires
        s.ok(),
        s.focus == Focus::Seed,
        !(c == 'c' && ctrl),
    ensures
        ({
            let after = s.keyed(Key::Char(c), ctrl);
            &&& after.seed == s.seed.take(s.cursor as int).push(c) + s.seed.skip(s.cursor as int)
            &&& after.cursor == s.cursor + 1
            &&& after == (Screen { seed: after.seed, cursor: after.cursor, ..s })
            &&& s.key_action(Key::Char(c), ctrl) == KeyAction::Stay
        }),
{
    assert(s.keyed(Key::Char(c), ctrl).seed =~= s.seed.take(s.cursor as int).push(c) + s.seed.skip(
        s.cursor as int,
    ));
}

/// The program ends on control and `c` wherever the focus is, and on `q` wherever nothing
/// can be typed; neither changes the screen, and no other key ends it.
pub proof fn two_keys_quit(s: Screen, key: Key, ctrl: bool)
    ensures
        s.key_action(key, ctrl) == KeyAction::Quit <==> {
            ||| key == Key::Char('c') && ctrl
            ||| key == Key::Char('q') && s.focus != Focus::Seed
        },
        s.key_action(key, ctrl) == KeyAction::Quit ==> s.keyed(key, ctrl) == s,
{
}

/// Enter starts a daemon that is stopped and stops one that runs; while it is on its way
/// up or down the key does nothing, and no other key starts or stops it.
pub proof fn enter_starts_and_stops(s: Screen, key: Key, ctrl: bool)
    ensures
        s.key_action(key, ctrl) == KeyAction::StartDaemon <==> (key == Key::Enter
            && s.daemon is Stopped),
        s.key_action(key, ctrl) == KeyAction::StopDaemon <==> (key == Key::Enter
            && s.daemon is Running),
        s.keyed(Key::Enter, ctrl) == s,
{
}

/// The arrows move the cursor of the seed by one place and never off its ends; they
/// change neither the seed nor anything else.
pub proof fn arrows_move_the_cursor(s: Screen, ctrl: bool)
    requires
        s.ok(),
        s.focus == Focus::Seed,
    ensures
        ({
            let (left, right) = (s.keyed(Key::Left, ctrl), s.keyed(Key::Right, ctrl));
            &&& left == (Screen { cursor: left.cursor, ..s })
            &&& right == (Screen { cursor: right.cursor, ..s })
            &&& s.cursor > 0 ==> left.cursor == s.cursor - 1
            &&& s.cursor == 0 ==> left.cursor == 0
            &&& s.cursor < s.seed.len() ==> right.cursor == s.cursor + 1
            &&& s.cursor == s.seed.len() ==> right.cursor == s.cursor
        }),
{
}

/// Tab takes the focus from the seed to the peers, on to the log and back to the seed,
/// and picks the first peer if none was picked; it changes nothing else.
pub proof fn tab_moves_the_focus(s: Screen, ctrl: bool)
    ensures
        ({
            let after = s.keyed(Key::Tab, ctrl);
            &&& after == (Screen { focus: after.focus, selected: after.selected, ..s })
            &&& s.focus == Focus::Seed ==> after.focus == Focus::Peers
            &&& s.focus == Focus::Peers ==> after.focus == Focus::Log
            &&& s.focus == Focus::Log ==> after.focus == Focus::Seed
            &&& s.selected is Some ==> after.selected == s.selected
            &&& s.selected is None ==> after.selected == (if s.focus == Focus::Seed
                && s.peers.len() > 0 {
                Some(0nat)
            } else {
                None
            })
        }),
{
}

/// In the log, up and down move by one line and the page keys by ten, never past the
/// first or the last line. Going up stops the following; coming to the last line takes
/// it up again.
pub proof fn the_log_scrolls_by_lines_and_pages(s: Screen, ctrl: bool)
    requires
        s.focus == Focus::Log,
        s.log.len() > 0,
        s.scroll < s.log.len(),
    ensures
        ({
            let last = s.log.len() - 1;
            let (up, down) = (s.keyed(Key::Up, ctrl), s.keyed(Key::Down, ctrl));
            let (page_up, page_down) = (s.keyed(Key::PageUp, ctrl), s.keyed(Key::PageDown, ctrl));
            &&& up.scroll == (if s.scroll >= 1 { s.scroll - 1 } else { 0 })
            &&& page_up.scroll == (if s.scroll >= 10 { s.scroll - 10 } else { 0 })
            &&& down.scroll == (if s.scroll + 1 <= last { s.scroll + 1int } else { last })
            &&& page_down.scroll == (if s.scroll + 10 <= last { s.scroll + 10int } else { last })
            &&& !up.follow && !page_up.follow
            &&& down.follow == (s.follow || s.scroll + 1 >= last)
            &&& page_down.follow == (s.follow || s.scroll + 10 >= last)
            &&& up == (Screen { scroll: up.scroll, follow: up.follow, ..s })
            &&& page_up == (Screen { scroll: page_up.scroll, follow: page_up.follow, ..s })
            &&& down == (Screen { scroll: down.scroll, follow: down.follow, ..s })
            &&& page_down == (Screen { scroll: page_down.scroll, follow: page_down.follow, ..s })
        }),
{
    lemma_log_up(s, 1);
    lemma_log_up(s, 10);
    lemma_log_down(s, 1);
    lemma_log_down(s, 10);
}

/// Where going up some lines in the log leads.
proof fn lemma_log_up(s: Screen, n: nat)
    ensures
        s.up_by(Focus::Log, n).scroll == (if s.scroll >= n { s.scroll - n } else { 0 }),
        n > 0 ==> !s.up_by(Focus::Log, n).follow,
        s.up_by(Focus::Log, n) == (Screen {
            scroll: s.up_by(Focus::Log, n).scroll,
            follow: s.up_by(Focus::Log, n).follow,
            ..s
        }),
    decreases n,
{
    if n > 0 {
        lemma_log_up(s, (n - 1) as nat);
    }
}

/// Where going down some lines in the log leads.
proof fn lemma_log_down(s: Screen, n: nat)
    requires
        s.log.len() > 0,
        s.scroll < s.log.len(),
    ensures
        s.down_by(Focus::Log, n).scroll == (if s.scroll + n <= s.log.len() - 1 {
            s.scroll as int + n
        } else {
            s.log.len() - 1
        }),
        s.down_by(Focus::Log, n).follow == (s.follow || (n > 0 && s.scroll + n >= s.log.len() - 1)),
        s.down_by(Focus::Log, n) == (Screen {
            scroll: s.down_by(Focus::Log, n).scroll,
            follow: s.down_by(Focus::Log, n).follow,
            ..s
        }),
    decreases n,
{
    if n > 0 {
        lemma_log_down(s, (n - 1) as nat);
    }
}

/// In the list of peers the same keys move the pick by one peer or ten, never past the
/// first or the last one.
pub proof fn the_pick_moves_by_peers_and_pages(s: Screen, ctrl: bool, i: nat)
    requires
        s.focus == Focus::Peers,
        s.selected == Some(i),
        i < s.peers.len(),
    ensures
        ({
            let last = s.peers.len() - 1;
            &&& s.keyed(Key::Up, ctrl) == (Screen {
                selected: Some((if i >= 1 { i - 1 } else { 0 }) as nat),
                ..s
            })
            &&& s.keyed(Key::PageUp, ctrl) == (Screen {
                selected: Some((if i >= 10 { i - 10 } else { 0 }) as nat),
                ..s
            })
            &&& s.keyed(Key::Down, ctrl) == (Screen {
                selected: Some((if i + 1 <= last { i + 1int } else { last }) as nat),
                ..s
            })
            &&& s.keyed(Key::PageDown, ctrl) == (Screen {
                selected: Some((if i + 10 <= last { i + 10int } else { last }) as nat),
                ..s
            })
        }),
{
    lemma_pick_up(s, i, 1);
    lemma_pick_up(s, i, 10);
    lemma_pick_down(s, i, 1);
    lemma_pick_down(s, i, 10);
}

proof fn lemma_pick_up(s: Screen, i: nat, n: nat)
    requires
        s.selected == Some(i),
        i < s.peers.len(),
    ensures
        s.up_by(Focus::Peers, n) == (Screen {
            selected: Some((if i >= n { i - n } else { 0 }) as nat),
            ..s
        }),
    decreases n,
{
    if n > 0 {
        lemma_pick_up(s, i, (n - 1) as nat);
    }
}

proof fn lemma_pick_down(s: Screen, i: nat, n: nat)
    requires
        s.selected == Some(i),
        i < s.peers.len(),
    ensures
        s.down_by(Focus::Peers, n) == (Screen {
            selected: Some((if i + n < s.peers.len() { i as int + n } else { s.peers.len() - 1 }) as nat),
            ..s
        }),
    decreases n,
{
    if n > 0 {
        lemma_pick_down(s, i, (n - 1) as nat);
    }
}

/// In the log, the side arrows move by four columns and not past the first; Home goes to
/// the first line without following and End to the last one with it, both to the first
/// column.
pub proof fn the_log_has_corners(s: Screen, ctrl: bool)
    requires
        s.focus == Focus::Log,
        s.log.len() > 0,
        s.column + 4 <= usize::MAX,
    ensures
        s.keyed(Key::Right, ctrl) == (Screen { column: s.column + 4, ..s }),
        s.keyed(Key::Right, ctrl).keyed(Key::Left, ctrl) == s,
        s.column < 4 ==> s.keyed(Key::Left, ctrl) == (Screen { column: 0, ..s }),
        s.keyed(Key::Home, ctrl) == (Screen { scroll: 0, column: 0, follow: false, ..s }),
        s.keyed(Key::End, ctrl) == (Screen {
            scroll: (s.log.len() - 1) as nat,
            column: 0,
            follow: true,
            ..s
        }),
{
}

/// A message comes last in the log, behind its time and a blank. Of more than five
/// hundred lines the oldest go. A log that is followed shows its last line; one that is
/// not stays where it is. Nothing else on the screen changes.
pub proof fn messages_come_last(s: Screen, time: Seq<char>, msg: Seq<char>)
    requires
        s.ok(),
    ensures
        ({
            let after = s.logged(time, msg);
            let all = s.log.push(time + seq![' '] + msg);
            &&& after.log.len() == (if s.log.len() < 500 { s.log.len() + 1 } else { 500 })
            &&& after.log == all.skip(all.len() - after.log.len())
            &&& s.follow ==> after.scroll == after.log.len() - 1
            &&& !s.follow ==> after.scroll == s.scroll
            &&& after == (Screen { log: after.log, scroll: after.scroll, ..s })
        }),
{
    reveal_strlit(" ");
    assert(" "@ =~= seq![' ']);
    let all = s.log.push(time + seq![' '] + msg);
    assert(all.skip(0) =~= all);
}

/// Messages that fit are all kept, in order, behind what was logged before.
pub proof fn messages_keep_their_order(s: Screen, time: Seq<char>, msgs: Seq<Seq<char>>, i: int)
    requires
        s.log.len() + msgs.len() <= 500,
        0 <= i < msgs.len(),
    ensures
        ({
            let after = s.logged_all(time, msgs);
            &&& after.log.len() == s.log.len() + msgs.len()
            &&& after.log.take(s.log.len() as int) == s.log
            &&& after.log[s.log.len() + i] == time + seq![' '] + msgs[i]
            &&& after == (Screen { log: after.log, scroll: after.scroll, ..s })
        }),
{
    lemma_logged_all(s, time, msgs);
}

proof fn lemma_logged_all(s: Screen, time: Seq<char>, msgs: Seq<Seq<char>>)
    requires
        s.log.len() + msgs.len() <= 500,
    ensures
        ({
            let after = s.logged_all(time, msgs);
            &&& after.log.len() == s.log.len() + msgs.len()
            &&& after.log.take(s.log.len() as int) == s.log
            &&& forall|i: int|
                0 <= i < msgs.len() ==> after.log[s.log.len() + i] == time + seq![' ']
                    + #[trigger] msgs[i]
            &&& after == (Screen { log: after.log, scroll: after.scroll, ..s })
        }),
    decreases msgs.len(),
{
    reveal_strlit(" ");
    assert(" "@ =~= seq![' ']);
    let after = s.logged_all(time, msgs);
    if msgs.len() == 0 {
        assert(s.log.take(s.log.len() as int) =~= s.log);
    } else {
        let front = msgs.drop_last();
        lemma_logged_all(s, time, front);
        let before = s.logged_all(time, front);
        assert(after.log =~= before.log.push(time + seq![' '] + msgs.last()));
        assert(after.log.take(s.log.len() as int) =~= before.log.take(s.log.len() as int));
        assert forall|i: int| 0 <= i < msgs.len() implies after.log[s.log.len() + i] == time
            + seq![' '] + #[trigger] msgs[i] by {
            if i < front.len() {
                assert(front[i] == msgs[i]);
            }
        }
    }
}

/// Starting takes a seed and the rights of root: without either the daemon stays as it is
/// and an error is logged, with both it is on its way up. The seed itself stays out of
/// the log.
pub proof fn starting_takes_a_seed_and_root(s: Screen, root: bool, time: Seq<char>)
    requires
        s.ok(),
    ensures
        ({
            let after = s.starting(root, time);
            let seed = crate::words::trimmed(s.seed);
            &&& after.daemon == (if root && seed.len() > 0 { Daemon::Starting } else { s.daemon })
            &&& !(root && seed.len() > 0) ==> (time + seq![' '] + "ERROR: "@).is_prefix_of(
                after.log.last(),
            )
            &&& root && seed.len() > 0 ==> after.log.last() == time + seq![' ']
                + "Starting daemon (seed: "@ + crate::tui_text::obscured(seed) + ")…"@
            &&& after == (Screen {
                daemon: after.daemon,
                log: after.log,
                scroll: after.scroll,
                ..s
            })
        }),
{
    reveal_strlit(" ");
    reveal_strlit("ERROR: ");
    reveal_strlit("ERROR: seed is empty — type a seed phrase first.");
    reveal_strlit("ERROR: root required for TUN. Run: sudo seednet");
    assert(" "@ =~= seq![' ']);
    let after = s.starting(root, time);
    let seed = crate::words::trimmed(s.seed);
    let (a, b) = (
        "ERROR: seed is empty — type a seed phrase first."@,
        "ERROR: root required for TUN. Run: sudo seednet"@,
    );
    assert("ERROR: "@ =~= a.take(7));
    assert("ERROR: "@ =~= b.take(7));
    let head = time + seq![' '] + "ERROR: "@;
    if seed.len() == 0 {
        assert(after.log.last() == time + " "@ + a);
        assert(head =~= after.log.last().subrange(0, head.len() as int));
    } else if !root {
        assert(after.log.last() == time + " "@ + b);
        assert(head =~= after.log.last().subrange(0, head.len() as int));
    } else {
        let m = "Starting daemon (seed: "@ + crate::tui_text::obscured(seed) + ")…"@;
        assert(after.log.last() == time + " "@ + m);
        assert(after.log.last() =~= time + seq![' '] + "Starting daemon (seed: "@
            + crate::tui_text::obscured(seed) + ")…"@);
    }
}

/// A daemon that is stopped, that ended or that is no longer to be seen leaves no peers
/// and no child behind, and can be started again.
pub proof fn an_ended_daemon_leaves_nothing(
    s: Screen,
    time: Seq<char>,
    pid: Option<u32>,
    status: Seq<char>,
    peers: Option<Seq<char>>,
    log: Option<(u64, Seq<char>)>,
)
    ensures
        ({
            let stopped = s.stopped(pid, time);
            &&& stopped.daemon is Stopped && !stopped.child && stopped.peers.len() == 0
            &&& stopped.toggle() == KeyAction::StartDaemon
            &&& stopped.seed == s.seed && stopped.focus == s.focus
        }),
        ({
            let ended = s.polled(time, Some(status), pid, peers, log);
            &&& ended.daemon is Stopped && !ended.child && ended.peers.len() == 0
            &&& ended.seed == s.seed && ended.focus == s.focus && ended.offset == s.offset
        }),
        s.daemon is Running ==> {
            let gone = s.saw_pid(time, None);
            gone.daemon is Stopped && !gone.child && gone.peers.len() == 0
        },
{
}

/// A process number turns a daemon on its way up into one that runs, and follows one that
/// runs; it brings none up that was not started, and its absence does not stop one on its
/// way up.
pub proof fn a_started_daemon_is_seen_running(s: Screen, time: Seq<char>, pid: u32)
    ensures
        s.daemon is Starting ==> (s.saw_pid(time, Some(pid)).daemon matches Daemon::Running {
            pid: p,
            ..
        } && p == pid),
        s.daemon matches Daemon::Running { overlay, .. } ==> s.saw_pid(time, Some(pid)) == (Screen {
            daemon: Daemon::Running { pid, overlay },
            ..s
        }),
        !(s.daemon is Starting) && !(s.daemon is Running) ==> s.saw_pid(time, Some(pid)) == s,
        !(s.daemon is Running) ==> s.saw_pid(time, None) == s,
{
}

/// The log of the daemon is read on from where it was read to: a file that has not grown
/// changes nothing, and of one that has grown the new length is kept and the new lines
/// are logged.
pub proof fn only_new_lines_are_logged(s: Screen, time: Seq<char>, len: u64, text: Seq<char>)
    ensures
        len <= s.offset ==> s.tailed(time, len, text) == s,
        len > s.offset ==> {
            let after = s.tailed(time, len, text);
            &&& after.log == s.logged_all(time, log_entries(text)).log
            &&& after.offset == len
            &&& after.daemon == s.daemon && after.peers == s.peers && after.seed == s.seed
        },
{
    if len > s.offset {
        lemma_logging_is_blind(s, time, len, log_entries(text));
    }
}

proof fn lemma_logging_is_blind(s: Screen, time: Seq<char>, len: u64, msgs: Seq<Seq<char>>)
    ensures
        ({
            let after = Screen { offset: len, ..s }.logged_all(time, msgs);
            &&& after == (Screen { offset: len, ..s.logged_all(time, msgs) })
            &&& after.daemon == s.daemon && after.peers == s.peers && after.seed == s.seed
        }),
    decreases msgs.len(),
{
    if msgs.len() > 0 {
        lemma_logging_is_blind(s, time, len, msgs.drop_last());
    }
}

/// No line of the daemon's log that is taken over is blank, or begins or ends with blanks.
pub proof fn logged_lines_are_trimmed(text: Seq<char>, i: int)
    requires
        0 <= i < log_entries(text).len(),
    ensures
        log_entries(text)[i].len() > 0,
        !crate::words::is_space(log_entries(text)[i][0]),
        !crate::words::is_space(log_entries(text)[i].last()),
{
    let trimmed = crate::words::lines_of(crate::tui_text::shown(text)).map_values(
        |l: Seq<char>| crate::words::trimmed(l),
    );
    broadcast use vstd::seq_lib::group_filter_ensures;
    let entry = log_entries(text)[i];
    assert(log_entries(text).contains(entry));
    trimmed.lemma_filter_contains_rev(is_something(), entry);
    assert(trimmed.contains(entry));
    let k = choose|k: int| 0 <= k < trimmed.len() && trimmed[k] == entry;
    crate::words::trimming_is_final(crate::words::lines_of(crate::tui_text::shown(text))[k]);
}

/// How many rows of others there are.
proof fn lemma_all_remote(rows: Seq<Row>)
    requires
        forall|i: int| 0 <= i < rows.len() ==> !(#[trigger] rows[i]).is_local,
    ensures
        rows.filter(is_remote()) == rows,
    decreases rows.len(),
{
    reveal(Seq::filter);
    if rows.len() > 0 {
        assert(rows.drop_last().push(rows.last()) =~= rows);
        assert(!rows[rows.len() - 1].is_local);
        assert forall|i: int| 0 <= i < rows.drop_last().len() implies !(
        #[trigger] rows.drop_last()[i]).is_local by {
            assert(rows[i] == rows.drop_last()[i]);
        }
        lemma_all_remote(rows.drop_last());
    }
}

/// The peers of the file are listed in order behind our own row. Each newcomer is told by
/// name; when some are gone their number is told; the same number is no news.
pub proof fn the_list_follows_the_file(
    s: Screen,
    time: Seq<char>,
    local: Option<Row>,
    old: Seq<Row>,
    rows: Seq<Row>,
)
    requires
        s.daemon is Running,
        s.peers == old,
        forall|i: int| 0 <= i < old.len() ==> !(#[trigger] old[i]).is_local,
        s.log.len() + rows.len() < 500,
    ensures
        ({
            let after = s.refreshed(time, local, Some(rows));
            &&& local matches Some(l) ==> after.peers == seq![l] + rows && (
            after.daemon matches Daemon::Running { overlay, .. } && overlay == l.overlay)
            &&& local is None ==> after.peers == rows && after.daemon == s.daemon
            &&& rows.len() == old.len() ==> after.log == s.log
            &&& rows.len() < old.len() ==> after.log.len() == s.log.len() + 1
            &&& rows.len() > old.len() ==> after.log.len() == s.log.len() + rows.len() - old.len()
            &&& forall|i: int|
                old.len() <= i < rows.len() ==> after.log[s.log.len() + i - old.len()] == time
                    + seq![' '] + connected_text(#[trigger] rows[i])
            &&& s.refreshed(time, local, None).log == s.log
            &&& s.refreshed(time, local, None).peers == s.peers
        }),
{
    lemma_all_remote(old);
    let shown = s.with_overlay(local);
    let news = shown.news(rows);
    assert(remote_count(shown.peers) == old.len());
    lemma_logged_all(shown, time, news);
    let after = s.refreshed(time, local, Some(rows));
    if local is None {
        assert(Seq::<Row>::empty() + rows =~= rows);
    }
    if rows.len() == old.len() {
        assert(after.log =~= s.log);
    }
    assert forall|i: int| old.len() <= i < rows.len() implies after.log[s.log.len() + i
        - old.len()] == time + seq![' '] + connected_text(#[trigger] rows[i]) by {
        assert(news[i - old.len()] == connected_text(rows[i]));
    }
}

/// What the button says is what Enter does, and a daemon on its way up or down keeps the
/// word for where it is going.
pub proof fn the_button_says_what_enter_does(s: Screen)
    ensures
        s.toggle() == KeyAction::StartDaemon ==> crate::panels::button_span(s.activity()).text
            == " Start "@,
        s.toggle() == KeyAction::StopDaemon ==> crate::panels::button_span(s.activity()).text
            == " Stop  "@,
        s.daemon is Starting ==> crate::panels::button_span(s.activity()).text == " Stop  "@,
        s.daemon is Stopping ==> crate::panels::button_span(s.activity()).text == " Start "@,
        s.daemon is Running ==> crate::panels::status_span(s.activity()).text == " ● Running "@,
        s.daemon is Stopped ==> crate::panels::status_span(s.activity()).text == " ● Stopped "@,
{
}

/// Before it is drawn, a log that was scrolled past its end is taken back to its last
/// line; otherwise drawing moves nothing.
pub proof fn drawing_stays_in_the_log(s: Screen)
    ensures
        s.log.len() > 0 ==> s.clamped().scroll < s.log.len(),
        s.scroll < s.log.len() ==> s.clamped() == s,
        s.log.len() > 0 && s.scroll >= s.log.len() ==> s.clamped() == (Screen {
            scroll: (s.log.len() - 1) as nat,
            ..s
        }),
        s.log.len() == 0 ==> s.clamped().scroll == 0,
{
}

/// A poll that finds the daemon alive reads the list of peers only while the daemon runs,
/// and the log only as far as it has grown.
pub proof fn polls_read_what_is_there(
    s: Screen,
    time: Seq<char>,
    pid: Option<u32>,
    peers: Option<Seq<char>>,
    log: Option<(u64, Seq<char>)>,
)
    ensures
        ({
            let after = s.polled(time, None, pid, peers, log);
            let looked = s.saw_pid(time, pid);
            &&& !(looked.daemon is Running) ==> after.peers == looked.peers
            &&& !(looked.daemon is Running) ==> after.daemon == looked.daemon
            &&& log matches Some((len, _)) ==> after.offset == (if len > s.offset {
                len
            } else {
                s.offset
            })
            &&& log is None ==> after.offset == s.offset
            &&& peers is None && log is None ==> after == looked
            &&& looked.daemon is Running && log is None && peers is Some ==> after
                == looked.refreshed_from(time, peers->Some_0)
            &&& after.seed == s.seed && after.cursor == s.cursor && after.focus == s.focus
        }),
{
    let looked = s.saw_pid(time, pid);
    let met = match peers {
        Some(text) => if looked.daemon is Running {
            looked.refreshed_from(time, text)
        } else {
            looked
        },
        None => looked,
    };
    if let Some(text) = peers {
        lemma_refreshing_keeps(looked, time, text);
    }
    if let Some((len, text)) = log {
        lemma_logging_is_blind(met, time, len, log_entries(text));
        lemma_logging_keeps(Screen { offset: len, ..met }, time, log_entries(text));
    }
}

proof fn lemma_logging_keeps(s: Screen, time: Seq<char>, msgs: Seq<Seq<char>>)
    ensures
        s.logged_all(time, msgs) == (Screen {
            log: s.logged_all(time, msgs).log,
            scroll: s.logged_all(time, msgs).scroll,
            ..s
        }),
    decreases msgs.len(),
{
    if msgs.len() > 0 {
        lemma_logging_keeps(s, time, msgs.drop_last());
    }
}

proof fn lemma_refreshing_keeps(s: Screen, time: Seq<char>, text: Seq<char>)
    ensures
        ({
            let after = s.refreshed_from(time, text);
            &&& after.offset == s.offset
            &&& after.seed == s.seed && after.cursor == s.cursor && after.focus == s.focus
        }),
{
    if let Some(j) = crate::json::json_parsed(text) {
        let shown = s.with_overlay(crate::rows::local_row(j));
        if let Some(rows) = listed_rows(j) {
            lemma_logging_keeps(shown, time, shown.news(rows));
        }
    }
}

/// What a file of peers says is shown, and text that is no such file changes nothing.
pub proof fn a_broken_file_changes_nothing(s: Screen, time: Seq<char>, text: Seq<char>)
    ensures
        crate::json::json_parsed(text) is None ==> s.refreshed_from(time, text) == s,
        crate::json::json_parsed(text) matches Some(j) ==> {
            let after = s.refreshed_from(time, text);
            match crate::json::member_of(j, "peers"@) {
                crate::json::Json::List(js) => after.peers == (match crate::rows::local_row(j) {
                    Some(l) => seq![l] + crate::rows::remote_rows(js),
                    None => crate::rows::remote_rows(js),
                }),
                _ => after.peers == s.peers && after.log == s.log,
            }
        },
{
    if let Some(j) = crate::json::json_parsed(text) {
        if let Some(rows) = listed_rows(j) {
            assert(Seq::<Row>::empty() + rows =~= rows);
        }
    }
}
} // verus!
