//! Starting, watching and stopping the background process.
use crate::config::StateDir;
use crate::net::SocketAddr;
use crate::text::{chars_of, push_dec, push_text, to_dec};
use crate::tracker::merge_addrs;
use crate::types::OverlayAddr;
use crate::words::{contains, parse_u32, to_lower, words};
use vstd::prelude::*;

verus! {

/// A text between two others.
fn between(a: &str, b: &str, c: &str) -> (s: String)
    ensures
        s@ == a@ + b@ + c@,
{
    let mut s: String = a.to_owned();
    push_text(&mut s, b);
    push_text(&mut s, c);
    s
}

fn with_number(a: &str, n: u64, c: &str) -> (s: String)
    ensures
        s@ == a@ + crate::text::dec_text(n as nat) + c@,
{
    let mut s: String = a.to_owned();
    push_dec(&mut s, n);
    push_text(&mut s, c);
    s
}

// ---------------------------------------------------------------------------
// up
// ---------------------------------------------------------------------------
/// What `up` finds before it starts anything.
#[derive(Debug, PartialEq, Eq)]
pub enum UpCheck {
    /// The daemon runs; this is said, and nothing is done.
    Running(String),
    /// The file with the process id is stale and has to go first.
    Stale,
    /// Nothing is in the way.
    Clear,
}

/// Whether the daemon can be started, given the process id in its file and
/// whether that process lives.
pub fn check_up(pid: Option<u32>, alive: bool) -> (r: UpCheck)
    ensures
        match pid {
            Some(pid) => if alive {
                r matches UpCheck::Running(m) && m@ == "SeedNet is already running (pid "@
                    + crate::text::dec_text(pid as nat) + ")."@
            } else {
                r is Stale
            },
            None => r is Clear,
        },
{
    match pid {
        Some(pid) => if alive {
            UpCheck::Running(with_number("SeedNet is already running (pid ", pid as u64, ")."))
        } else {
            UpCheck::Stale
        },
        None => UpCheck::Clear,
    }
}

/// The arguments with which `up` runs this program in the background.
pub fn daemon_args(seed: &str, port: u16, state_dir: Option<&str>) -> (r: Vec<String>)
    ensures
        crate::words::texts(r@) == seq![
            "_daemon"@,
            seed@,
            "--port"@,
            crate::text::dec_text(port as nat),
            "-v"@,
        ] + (match state_dir {
            Some(d) => seq!["--state-dir"@, d@],
            None => Seq::empty(),
        }),
{
    let mut r: Vec<String> = Vec::new();
    r.push("_daemon".to_owned());
    r.push(seed.to_owned());
    r.push("--port".to_owned());
    r.push(to_dec(port as u64));
    r.push("-v".to_owned());
    let ghost head = seq![
        "_daemon"@,
        seed@,
        "--port"@,
        crate::text::dec_text(port as nat),
        "-v"@,
    ];
    match state_dir {
        Some(d) => {
            r.push("--state-dir".to_owned());
            r.push(d.to_owned());
            assert(crate::words::texts(r@) =~= head + seq!["--state-dir"@, d@]);
        },
        None => {
            assert(crate::words::texts(r@) =~= head + Seq::empty());
        },
    }
    r
}

/// What a look at a starting daemon calls for.
#[derive(Clone, Copy, Debug, PartialEq, Eq, Structural)]
pub enum StartupStep {
    /// The process has ended.
    Exited,
    /// It has written its process id and lives.
    Ready,
    /// The time is over.
    TimedOut,
    /// Look again in a moment.
    Wait,
}

/// What to do while waiting for the daemon. That the process has ended comes
/// first, then that it is ready, then the time.
pub fn startup_step(exited: bool, pid_alive: bool, past_deadline: bool) -> (r: StartupStep)
    ensures
        r == (if exited {
            StartupStep::Exited
        } else if pid_alive {
            StartupStep::Ready
        } else if past_deadline {
            StartupStep::TimedOut
        } else {
            StartupStep::Wait
        }),
{
    if exited {
        StartupStep::Exited
    } else if pid_alive {
        StartupStep::Ready
    } else if past_deadline {
        StartupStep::TimedOut
    } else {
        StartupStep::Wait
    }
}

/// The log after a message.
pub open spec fn log_text(log_path: Seq<char>, tail: Seq<char>) -> Seq<char> {
    "\nLog ("@ + log_path + "):\n"@ + tail
}

fn push_log(s: &mut String, log_path: &str, tail: &str)
    ensures
        final(s)@ == old(s)@ + log_text(log_path@, tail@),
{
    push_text(s, "\nLog (");
    push_text(s, log_path);
    push_text(s, "):\n");
    push_text(s, tail);
    assert(s@ =~= old(s)@ + log_text(log_path@, tail@));
}

/// The message for a daemon that ended at once.
pub fn exited_message(status: &str, log_path: &str, tail: &str) -> (s: String)
    ensures
        s@ == "SeedNet daemon exited immediately ("@ + status@ + ")"@ + log_text(
            log_path@,
            tail@,
        ),
{
    let mut s: String = between("SeedNet daemon exited immediately (", status, ")");
    push_log(&mut s, log_path, tail);
    s
}

/// The message for a daemon that did not start in time.
pub fn timed_out_message(log_path: &str, tail: &str) -> (s: String)
    ensures
        s@ == "daemon did not start within 5 s"@ + log_text(log_path@, tail@),
{
    let mut s: String = "daemon did not start within 5 s".to_owned();
    push_log(&mut s, log_path, tail);
    s
}

/// What `up` prints for a daemon that has started.
pub fn started_report(pid: u32, overlay: &OverlayAddr, port: u16, log_path: &str) -> (out: Vec<
    String,
>)
    ensures
        crate::words::texts(out@) == seq![
            "SeedNet started  (pid "@ + crate::text::dec_text(pid as nat) + ")"@,
            "  overlay : "@ + overlay.addr.text() + "  (this device)"@,
            "  port    : "@ + crate::text::dec_text(port as nat),
            "  log     : "@ + log_path@,
            Seq::<char>::empty(),
            "  seednet list   — show connected peers"@,
            "  seednet down   — stop"@,
        ],
{
    let mut out: Vec<String> = Vec::new();
    out.push(with_number("SeedNet started  (pid ", pid as u64, ")"));
    out.push(between("  overlay : ", overlay.to_text().as_str(), "  (this device)"));
    out.push(with_number("  port    : ", port as u64, ""));
    out.push(between("  log     : ", log_path, ""));
    out.push(String::new());
    out.push("  seednet list   — show connected peers".to_owned());
    out.push("  seednet down   — stop".to_owned());
    proof {
        reveal_strlit("");
        assert(out@[2]@ =~= "  port    : "@ + crate::text::dec_text(port as nat));
        assert(out@[3]@ =~= "  log     : "@ + log_path@);
    }
    assert(crate::words::texts(out@) =~= seq![
        "SeedNet started  (pid "@ + crate::text::dec_text(pid as nat) + ")"@,
        "  overlay : "@ + overlay.addr.text() + "  (this device)"@,
        "  port    : "@ + crate::text::dec_text(port as nat),
        "  log     : "@ + log_path@,
        Seq::<char>::empty(),
        "  seednet list   — show connected peers"@,
        "  seednet down   — stop"@,
    ]);
    out
}

// ---------------------------------------------------------------------------
// down
// ---------------------------------------------------------------------------
/// What `down` has to do.
#[derive(Debug, PartialEq, Eq)]
pub enum DownPlan {
    /// Say this, signal the process, wait, and clean up.
    Stop(u32, String),
    /// Say this, clean up, and signal orphans.
    CleanUp(String),
    /// Signal orphans.
    Orphans,
}

/// What `down` has to do, given the process id in its file and whether that
/// process lives.
pub fn plan_down(pid: Option<u32>, alive: bool) -> (r: DownPlan)
    ensures
        match pid {
            Some(pid) => if alive {
                r matches DownPlan::Stop(p, m) && p == pid && m@ == "Stopping SeedNet (pid "@
                    + crate::text::dec_text(pid as nat) + ") …"@
            } else {
                r matches DownPlan::CleanUp(m) && m@ == "SeedNet has a stale PID file (pid "@
                    + crate::text::dec_text(pid as nat) + "); cleaning up."@
            },
            None => r is Orphans,
        },
{
    match pid {
        Some(pid) => if alive {
            DownPlan::Stop(pid, with_number("Stopping SeedNet (pid ", pid as u64, ") …"))
        } else {
            DownPlan::CleanUp(
                with_number(
                    "SeedNet has a stale PID file (pid ",
                    pid as u64,
                    "); cleaning up.",
                ),
            )
        },
        None => DownPlan::Orphans,
    }
}

/// What `down` says after it has signalled orphans only.
pub fn orphans_message(killed: usize) -> (s: String)
    ensures
        s@ == (if killed > 0 {
            "Stopped "@ + crate::text::dec_text(killed as nat) + " orphaned SeedNet daemon(s)."@
        } else {
            "SeedNet is not running."@
        }),
{
    if killed > 0 {
        with_number("Stopped ", killed as u64, " orphaned SeedNet daemon(s).")
    } else {
        "SeedNet is not running.".to_owned()
    }
}

/// The process ids among words, without our own.
pub open spec fn pids_in(ws: Seq<Seq<char>>, own: u32) -> Seq<u32>
    decreases ws.len(),
{
    if ws.len() == 0 {
        Seq::empty()
    } else {
        let before = pids_in(ws.drop_last(), own);
        match crate::words::number_of(ws.last()) {
            Ok(pid) => if pid != own {
                before.push(pid)
            } else {
                before
            },
            Err(_) => before,
        }
    }
}

/// Reads the process ids in a listing, without our own.
pub fn orphan_pids(listing: &str, own: u32) -> (r: Vec<u32>)
    ensures
        r@ == pids_in(crate::words::words_of(listing@), own),
{
    let ws: Vec<Vec<char>> = words(listing);
    let ghost all = crate::words::char_seqs(ws@);
    let mut r: Vec<u32> = Vec::new();
    let mut i: usize = 0;
    while i < ws.len()
        invariant
            i <= ws@.len(),
            all == crate::words::char_seqs(ws@),
            r@ == pids_in(all.take(i as int), own),
        decreases ws.len() - i,
    {
        proof {
            assert(all.take(i + 1).drop_last() =~= all.take(i as int));
            assert(all.take(i + 1).last() == ws@[i as int]@);
        }
        if let Ok(pid) = parse_u32(ws[i].as_slice()) {
            if pid != own {
                r.push(pid);
            }
        }
        i = i + 1;
    }
    assert(all.take(i as int) =~= all);
    r
}

// ---------------------------------------------------------------------------
// discover
// ---------------------------------------------------------------------------
/// The peers that lookups have found so far.
pub struct Tally {
    peers: Vec<SocketAddr>,
}

impl View for Tally {
    type V = Seq<SocketAddr>;

    closed spec fn view(&self) -> Seq<SocketAddr> {
        self.peers@
    }
}

impl Tally {
    /// Nothing found yet.
    pub fn new() -> (r: Tally)
        ensures
            r@ == Seq::<SocketAddr>::empty(),
    {
        Tally { peers: Vec::new() }
    }

    /// Adds what a lookup found, and says what it brought.
    pub fn add_batch(&mut self, found: &Vec<SocketAddr>) -> (s: String)
        ensures
            final(self)@ == crate::tracker::merged(old(self)@, found@),
            s@ == "  Lookup: "@ + crate::text::dec_text(found@.len())
                + " peers in this batch ("@ + crate::text::dec_text(
                (final(self)@.len() - old(self)@.len()) as nat,
            ) + " new, "@ + crate::text::dec_text(final(self)@.len()) + " total unique)"@,
    {
        let before: usize = self.peers.len();
        merge_addrs(&mut self.peers, found);
        proof {
            crate::tracker::merging_keeps_all(old(self)@, found@);
        }
        let after: usize = self.peers.len();
        let mut s: String = "  Lookup: ".to_owned();
        push_dec(&mut s, found.len() as u64);
        push_text(&mut s, " peers in this batch (");
        push_dec(&mut s, (after - before) as u64);
        push_text(&mut s, " new, ");
        push_dec(&mut s, after as u64);
        push_text(&mut s, " total unique)");
        s
    }

    /// What is printed at the end.
    pub fn report(&self) -> (out: Vec<String>)
        ensures
            crate::words::texts(out@) == seq![
                "Discovery complete. "@ + crate::text::dec_text(self@.len())
                    + " unique peer(s) found:"@,
            ] + self@.map_values(|a: SocketAddr| "  "@ + a.text()) + (if self@.len() == 0 {
                seq!["  (none — no other devices are currently online with this seed)"@]
            } else {
                Seq::empty()
            }),
    {
        let ghost rows = self@.map_values(|a: SocketAddr| "  "@ + a.text());
        let ghost first = "Discovery complete. "@ + crate::text::dec_text(self@.len())
            + " unique peer(s) found:"@;
        let mut out: Vec<String> = Vec::new();
        out.push(
            with_number("Discovery complete. ", self.peers.len() as u64, " unique peer(s) found:"),
        );
        let mut i: usize = 0;
        assert(crate::words::texts(out@) =~= seq![first] + rows.take(0));
        while i < self.peers.len()
            invariant
                i <= self.peers@.len(),
                rows == self@.map_values(|a: SocketAddr| "  "@ + a.text()),
                crate::words::texts(out@) == seq![first] + rows.take(i as int),
            decreases self.peers.len() - i,
        {
            let mut row: String = "  ".to_owned();
            self.peers[i].push_text(&mut row);
            let ghost was = out@;
            out.push(row);
            i = i + 1;
            proof {
                assert(crate::words::texts(out@) =~= crate::words::texts(was).push(row@));
                assert(crate::words::texts(out@) =~= seq![first] + rows.take(i as int));
            }
        }
        assert(rows.take(i as int) =~= rows);
        if self.peers.len() == 0 {
            let ghost was = out@;
            out.push(
                "  (none — no other devices are currently online with this seed)".to_owned(),
            );
            assert(crate::words::texts(out@) =~= crate::words::texts(was) + seq![
                "  (none — no other devices are currently online with this seed)"@,
            ]);
        } else {
            assert(crate::words::texts(out@) =~= crate::words::texts(out@) + Seq::empty());
        }
        out
    }
}

// ---------------------------------------------------------------------------
// launchd
// ---------------------------------------------------------------------------
/// Label of the boot service.
pub const LAUNCHD_LABEL: &'static str = "fun.oboard.seednet";

/// File of the boot service.
pub const LAUNCHD_PLIST: &'static str = "/Library/LaunchDaemons/fun.oboard.seednet.plist";

/// An argument of the boot service.
pub open spec fn plist_arg(a: Seq<char>) -> Seq<char> {
    "        <string>"@ + a + "</string>\n"@
}

/// The description of the boot service.
pub open spec fn plist_text(
    exe: Seq<char>,
    seed: Seq<char>,
    port: u16,
    state_dir: Seq<char>,
    log: Seq<char>,
) -> Seq<char> {
    PLIST_HEAD@ + "    <key>Label</key>\n    <string>"@ + LAUNCHD_LABEL@
        + "</string>\n    <key>ProgramArguments</key>\n    <array>\n"@ + plist_arg(exe) + plist_arg(
        "_daemon"@,
    ) + plist_arg(seed) + plist_arg("--port"@) + plist_arg(crate::text::dec_text(port as nat))
        + plist_arg("-v"@) + plist_arg("--state-dir"@) + plist_arg(state_dir)
        + "    </array>\n    <key>StandardErrorPath</key>\n    <string>"@ + log
        + "</string>\n</dict>\n</plist>\n"@
}

/// How the description of a boot service begins.
pub const PLIST_HEAD: &'static str =
    "<?xml version=\"1.0\" encoding=\"UTF-8\"?>\n<!DOCTYPE plist PUBLIC \"-//Apple//DTD PLIST 1.0//EN\"\n    \"http://www.apple.com/DTDs/PropertyList-1.0.dtd\">\n<plist version=\"1.0\">\n<dict>\n";

fn push_arg(s: &mut String, a: &str)
    ensures
        final(s)@ == old(s)@ + plist_arg(a@),
{
    push_text(s, "        <string>");
    push_text(s, a);
    push_text(s, "</string>\n");
    assert(s@ =~= old(s)@ + plist_arg(a@));
}

/// Gives the description of the boot service, which runs the daemon with the
/// directory asked for, or else with the usual one.
pub fn launchd_plist(
    exe: &str,
    seed: &str,
    port: u16,
    dir: &StateDir,
    asked: Option<&str>,
    log: &str,
) -> (s: String)
    ensures
        s@ == plist_text(
            exe@,
            seed@,
            port,
            match asked {
                Some(d) => d@,
                None => dir@,
            },
            log@,
        ),
{
    let state_dir: &str = match asked {
        Some(d) => d,
        None => dir.path(),
    };
    let mut s: String = PLIST_HEAD.to_owned();
    push_text(&mut s, "    <key>Label</key>\n    <string>");
    push_text(&mut s, LAUNCHD_LABEL);
    push_text(&mut s, "</string>\n    <key>ProgramArguments</key>\n    <array>\n");
    push_arg(&mut s, exe);
    push_arg(&mut s, "_daemon");
    push_arg(&mut s, seed);
    push_arg(&mut s, "--port");
    push_arg(&mut s, to_dec(port as u64).as_str());
    push_arg(&mut s, "-v");
    push_arg(&mut s, "--state-dir");
    push_arg(&mut s, state_dir);
    push_text(&mut s, "    </array>\n    <key>StandardErrorPath</key>\n    <string>");
    push_text(&mut s, log);
    push_text(&mut s, "</string>\n</dict>\n</plist>\n");
    s
}

/// Whether a failed `bootstrap` means that the service is there already.
pub fn bootstrap_is_done(stderr: &str) -> (r: bool)
    ensures
        r == (crate::words::holds(stderr@, "already"@) || crate::words::holds(stderr@, "exists"@)),
{
    let chars: Vec<char> = chars_of(stderr);
    contains(chars.as_slice(), "already") || contains(chars.as_slice(), "exists")
}

/// Whether a failed `load` means that the service is there already, whatever the
/// case of its letters.
pub fn load_is_done(stderr: &str) -> (r: bool)
    ensures
        r == crate::words::holds(crate::words::lowered(stderr@), "already"@),
{
    let chars: Vec<char> = chars_of(stderr);
    contains(to_lower(chars.as_slice()).as_slice(), "already")
}


/// The processes to stop are the numbers that are listed, in order, but never our own.
pub proof fn we_are_never_our_own_orphan(
    a: Seq<Seq<char>>,
    b: Seq<Seq<char>>,
    pid: u32,
    own: u32,
)
    ensures
        pids_in(a + b, own) == pids_in(a, own) + pids_in(b, own),
        pids_in(seq![crate::text::dec_text(pid as nat)], own) == (if pid == own {
            Seq::<u32>::empty()
        } else {
            seq![pid]
        }),
        !pids_in(a, own).contains(own),
    decreases a.len() + b.len(),
{
    crate::config::pid_round_trip(pid);
    let one = seq![crate::text::dec_text(pid as nat)];
    lemma_own_number(pid);
    assert(one.drop_last() =~= Seq::<Seq<char>>::empty());
    assert(one.last() == crate::text::dec_text(pid as nat));
    assert(pids_in(one.drop_last(), own) =~= Seq::<u32>::empty());
    assert(pids_in(one, own) =~= (if pid == own {
        Seq::<u32>::empty()
    } else {
        seq![pid]
    }));
    if a.len() > 0 {
        we_are_never_our_own_orphan(a.drop_last(), Seq::empty(), pid, own);
    }
    if b.len() == 0 {
        assert(a + b =~= a);
        assert(pids_in(a + b, own) =~= pids_in(a, own) + pids_in(b, own));
    } else {
        we_are_never_our_own_orphan(a, b.drop_last(), pid, own);
        assert((a + b).drop_last() =~= a + b.drop_last());
        assert((a + b).last() == b.last());
        assert(pids_in(a + b, own) =~= pids_in(a, own) + pids_in(b, own));
    }
}

/// The text of a number is read back as that number.
proof fn lemma_own_number(pid: u32)
    ensures
        crate::words::number_of(crate::text::dec_text(pid as nat)) == Ok::<
            u32,
            crate::words::NumberError,
        >(pid),
{
    let s = crate::text::dec_text(pid as nat);
    crate::text::dec_round_trip(pid as nat);
    crate::words::numbers_are_read_in_decimal(s);
    assert(crate::text::is_digit(s[0]));
    assert(crate::words::digits_of(s) == s);
}
} // verus!
