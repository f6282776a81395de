//! What the command line program and the full-screen program say and do.
use seednet::cli::{
    choose_port, identity, list, log_filter, parse_tracker_urls, parse_trackers, parse_transports,
    read_log_tail, short_hex, split_list, status,
};
use seednet::config::{default_state_dir, StateDir};
use seednet::daemon::{
    bootstrap_is_done, check_up, daemon_args, exited_message, launchd_plist, load_is_done,
    orphan_pids, orphans_message, plan_down, started_report, startup_step, timed_out_message,
    DownPlan, StartupStep, Tally, UpCheck,
};
use seednet::derive::{derive_infohash, derive_network_secret, derive_overlay_addr};
use seednet::device::{DeviceKeys, DeviceSeedBytes};
use seednet::net::{Ipv4Addr, SocketAddr};
use seednet::panels::{Color, Look};
use seednet::transport::TransportKind;
use seednet::tui::{poll_is_due, App, Key, KeyAction, Seen, StartProblem};
use seednet::tui_text::{clock_text, obscure, strip_ansi, utc_clock_text};
use seednet::types::{OverlayAddr, Seed};
use seednet::words::{
    contains, join, lines, parse_u32, push_padded, split, to_lower, trim_text, words, NumberError,
};
use std::time::{Duration, Instant};

fn chars(s: &str) -> Vec<char> {
    s.chars().collect()
}

// ---------------------------------------------------------------------------
// Words
// ---------------------------------------------------------------------------
#[test]
fn words_are_those_of_the_standard_library() {
    let samples = [
        "", " ", "a", " a b ", "one\ttwo\r\nthree\n", "\u{a0}x\u{3000}", "a,,b,", "\r", "\n\n",
        "last line without end", "x\r\r\n", "\u{85}mid\u{2028}",
    ];
    for s in samples {
        assert_eq!(trim_text(s), s.trim(), "{s:?}");
        assert_eq!(lines(s), s.lines().collect::<Vec<&str>>(), "{s:?}");
        let mine: Vec<String> = words(s).into_iter().map(|w| w.into_iter().collect()).collect();
        assert_eq!(mine, s.split_whitespace().collect::<Vec<&str>>(), "{s:?}");
        let parts: Vec<String> =
            split(&chars(s), ',').into_iter().map(|w| w.into_iter().collect()).collect();
        assert_eq!(parts, s.split(',').collect::<Vec<&str>>(), "{s:?}");
        for part in ["", "a", "b ", "line", "\n"] {
            assert_eq!(contains(&chars(s), part), s.contains(part), "{s:?} {part:?}");
        }
    }
}

#[test]
fn numbers_are_read_as_by_the_standard_library() {
    for s in ["", "0", "+7", "-1", "42", "4294967295", "4294967296", "x", "1x", "007", "+", " 1"] {
        assert_eq!(parse_u32(&chars(s)).ok(), s.parse::<u32>().ok(), "{s:?}");
        if let Err(e) = s.parse::<u32>() {
            assert_eq!(parse_u32(&chars(s)).unwrap_err().to_text(), e.to_string(), "{s:?}");
        }
    }
    assert_eq!(parse_u32(&[]), Err(NumberError::Empty));
}

#[test]
fn small_words() {
    assert_eq!(to_lower(&chars("AbC-Ä")), chars("abc-Ä"));
    assert_eq!(join(&["a".to_string(), "b".to_string()], ", "), "a, b");
    let mut s = String::new();
    push_padded(&mut s, "ab", 4);
    push_padded(&mut s, "abcdef", 4);
    assert_eq!(s, "ab  abcdef");
}

// ---------------------------------------------------------------------------
// Command line
// ---------------------------------------------------------------------------
#[test]
fn ports_and_filters() {
    assert_eq!(choose_port(None), 4242);
    assert_eq!(choose_port(Some(7)), 7);
    assert_eq!(log_filter(0), "seednet=warn");
    assert_ne!(log_filter(1), log_filter(2));
    assert_eq!(default_state_dir(Some("/root".to_string())).unwrap(), "/root/.seednet");
    assert!(default_state_dir(None).is_err());
}

#[test]
fn transports_on_the_command_line() {
    let (kinds, unknown) = parse_transports(" UDP,tcp, carrier-pigeon ,ws,wss");
    assert_eq!(
        kinds,
        vec![TransportKind::Udp, TransportKind::Tcp, TransportKind::Ws, TransportKind::Wss]
    );
    assert_eq!(unknown, vec!["carrier-pigeon".to_string()]);
}

#[test]
fn trackers_on_the_command_line() {
    assert_eq!(parse_tracker_urls(" udp://a:1 ,, http://b "), vec!["udp://a:1", "http://b"]);
    assert!(parse_tracker_urls("").is_empty());
    let items = split_list("1.2.3.4:5, nonsense");
    assert_eq!(items, vec!["1.2.3.4:5", "nonsense"]);
    let addr = SocketAddr::v4(Ipv4Addr::new(1, 2, 3, 4), 5);
    let (addrs, rejected) = parse_trackers(&items, &vec![Some(addr), None]);
    assert_eq!(addrs, vec![addr]);
    assert_eq!(rejected, vec!["nonsense"]);
}

#[test]
fn hex_and_log_tails() {
    assert_eq!(short_hex(&[0xde, 0xad, 0xbe], 2), "dead");
    assert_eq!(short_hex(&[0xde], 4), "de");
    assert_eq!(read_log_tail(Some("a\nb\nc\n"), 2), "b\nc");
    assert_eq!(read_log_tail(Some("a"), 5), "a");
    assert_eq!(read_log_tail(None, 5), "(log not available)");
}

fn dir() -> StateDir {
    StateDir::new("/s".to_string())
}

#[test]
fn status_lines() {
    let running = status(&dir(), Some(17), true);
    assert!(running.iter().any(|l| l.contains("17")));
    let stopped = status(&dir(), None, false);
    assert_ne!(running, stopped);
}

#[test]
fn listing_peers() {
    assert_eq!(list(false, None).unwrap(), vec!["SeedNet is not running."]);
    assert!(list(true, Some("not json")).is_err());
    let json = r#"{"local":{"id_short":"aaaaaaaa","overlay":"10.88.1.1","hostname":"me"},
        "peers":[{"id_short":"bbbbbbbb","overlay":"10.88.2.2","underlay":"1.2.3.4:5",
        "hostname":"you","connection":"relay","relay_via":"cccccccc","latency_ms":"12"}]}"#;
    let out = list(true, Some(json)).unwrap().join("\n");
    assert!(out.contains("10.88.2.2"));
    assert!(out.contains("you"));
}

#[test]
fn identity_lines_name_the_device() {
    let keys = DeviceKeys::from_seed(DeviceSeedBytes::from_bytes([5; 32]));
    let seed = Seed::from_passphrase("phrase");
    let out = identity(&dir(), &seed, &keys).join("\n");
    assert!(out.contains(&derive_overlay_addr(&keys.peer_id()).to_text()));
    let infohash = derive_infohash(&derive_network_secret(&seed)).to_text();
    assert!(out.contains(&infohash[..8]));
}

// ---------------------------------------------------------------------------
// Daemon
// ---------------------------------------------------------------------------
#[test]
fn bringing_the_daemon_up() {
    assert!(matches!(
        check_up(Some(7), true),
        UpCheck::Running(m) if m.contains("already running (pid 7)")
    ));
    assert!(matches!(check_up(Some(7), false), UpCheck::Stale));
    assert!(matches!(check_up(None, false), UpCheck::Clear));
    let args = daemon_args("phrase", 4242, Some("/s"));
    assert_eq!(&args[..2], &["_daemon", "phrase"]);
    assert!(args.contains(&"4242".to_string()));
    assert!(args.contains(&"/s".to_string()));
    assert!(!daemon_args("phrase", 4242, None).contains(&"/s".to_string()));
}

#[test]
fn waiting_for_the_daemon() {
    assert_eq!(startup_step(true, true, true), StartupStep::Exited);
    assert_eq!(startup_step(false, true, true), StartupStep::Ready);
    assert_eq!(startup_step(false, false, true), StartupStep::TimedOut);
    assert_eq!(startup_step(false, false, false), StartupStep::Wait);
    assert!(exited_message("exit status: 1", "/s/seednet.log", "tail")
        .starts_with("SeedNet daemon exited immediately (exit status: 1)"));
    let late = timed_out_message("/s/seednet.log", "tail");
    assert!(late.starts_with("daemon did not start within 5 s"));
    assert!(late.contains("tail"));
    let overlay = OverlayAddr::new(Ipv4Addr::new(10, 88, 1, 2));
    let report = started_report(9, &overlay, 4242, "/s/seednet.log").join("\n");
    assert!(report.contains("10.88.1.2"));
    assert!(report.contains("4242"));
}

#[test]
fn bringing_the_daemon_down() {
    assert!(matches!(plan_down(Some(7), true), DownPlan::Stop(7, _)));
    assert!(matches!(plan_down(Some(7), false), DownPlan::CleanUp(_)));
    assert!(matches!(plan_down(None, false), DownPlan::Orphans));
    assert_eq!(orphans_message(2), "Stopped 2 orphaned SeedNet daemon(s).");
    assert_ne!(orphans_message(0), orphans_message(1));
    assert_eq!(orphan_pids("12 34\nx 56", 34), vec![12, 56]);
}

#[test]
fn discovery_tally() {
    let a = SocketAddr::v4(Ipv4Addr::new(1, 2, 3, 4), 5);
    let b = SocketAddr::v4(Ipv4Addr::new(1, 2, 3, 4), 6);
    let mut tally = Tally::new();
    assert_eq!(tally.add_batch(&vec![a, b, a]), "  Lookup: 3 peers in this batch (2 new, 2 total unique)");
    tally.add_batch(&vec![a]);
    let report = tally.report();
    assert_eq!(report[0], "Discovery complete. 2 unique peer(s) found:");
    assert_eq!(report.len(), 3);
}

#[test]
fn launch_agent() {
    let text = launchd_plist("/bin/seednet", "phrase", 4242, &dir(), None, "/s/log");
    assert!(text.contains("<string>/s</string>"));
    assert!(text.contains("<string>/s/log</string>"));
    assert!(text.starts_with("<?xml"));
    assert!(text.contains("<string>/bin/seednet</string>"));
    assert!(text.contains("<string>phrase</string>"));
    assert!(text.contains("<string>4242</string>"));
    assert!(bootstrap_is_done("service already loaded"));
    assert!(bootstrap_is_done("File exists"));
    assert!(!bootstrap_is_done("denied"));
    assert!(load_is_done("Already loaded"));
    assert!(!load_is_done("denied"));
}

// ---------------------------------------------------------------------------
// Full-screen program: text
// ---------------------------------------------------------------------------
#[test]
fn escape_sequences_are_taken_out() {
    assert_eq!(strip_ansi("plain"), "plain");
    assert_eq!(strip_ansi("\u{1b}[31mred\u{1b}[0m"), "red");
    assert_eq!(strip_ansi("a\u{1b}]0;title\u{7}b"), "ab");
    assert_eq!(strip_ansi("a\u{1b}]0;title\u{1b}\\b"), "ab");
    assert_eq!(strip_ansi("a\u{1b}]0;title\u{1b}xb"), "axb");
    assert_eq!(strip_ansi("a\u{1b}"), "a");
    assert_eq!(strip_ansi("a\u{1b}[12;3"), "a");
    assert_eq!(strip_ansi("a\u{1b}]never ends"), "a");
}

#[test]
fn seeds_are_obscured() {
    assert_eq!(obscure(&chars("")), "");
    assert_eq!(obscure(&chars("abcd")), "****");
    assert_eq!(obscure(&chars("abcdefg")), "ab…***");
    assert_eq!(obscure(&chars("abxxxxx")), obscure(&chars("abyyyyy")));
}

#[test]
fn times_of_day() {
    assert_eq!(clock_text(1, 2, 33), "01:02:33");
    assert_eq!(utc_clock_text(0), "00:00:00");
    assert_eq!(utc_clock_text(86399), "23:59:59");
    assert_eq!(utc_clock_text(86400 + 3661), "01:01:01");
}

// ---------------------------------------------------------------------------
// Full-screen program: state
// ---------------------------------------------------------------------------
const T: &str = "12:00:00";

fn app() -> App {
    App::new("/s".to_string(), "/bin/seednet".to_string(), T)
}

fn type_text(app: &mut App, s: &str) {
    for c in s.chars() {
        assert_eq!(app.handle_key(Key::Char(c), false), KeyAction::Stay);
    }
}

fn log_texts(app: &mut App) -> Vec<String> {
    app.handle_key(Key::Tab, false);
    app.handle_key(Key::Tab, false);
    app.handle_key(Key::Home, false);
    let texts = app.render_log(1000, 1000).lines.into_iter().map(|p| p.text).collect();
    app.handle_key(Key::End, false);
    app.handle_key(Key::Tab, false);
    texts
}

fn nothing_seen() -> Seen {
    Seen { exited: None, pid_file: None, peers_file: None, log: None }
}

#[test]
fn the_program_starts_with_a_greeting() {
    let mut a = app();
    assert_eq!(
        log_texts(&mut a),
        vec!["12:00:00 SeedNet TUI ready. Tab to switch focus, Enter or click Start."]
    );
    assert!(!a.is_running());
    assert!(!a.has_child());
    assert_eq!(a.log_offset(), 0);
    let h = a.render_header();
    assert_eq!(h.status.text, " ● Stopped ");
    assert_eq!(h.seed[1].text, "│");
    assert_eq!(h.button[0].text, " Start ");
    assert_eq!(h.seed_border, Some(Color::Yellow));
}

#[test]
fn typing_a_seed() {
    let mut a = app();
    type_text(&mut a, "héllo q");
    a.handle_key(Key::Left, false);
    a.handle_key(Key::Left, false);
    a.handle_key(Key::Backspace, false);
    assert_eq!(a.render_header().seed[1].text, "héll│ q");
    for _ in 0..20 {
        a.handle_key(Key::Right, false);
    }
    assert_eq!(a.render_header().seed[1].text, "héll q│");
    for _ in 0..20 {
        a.handle_key(Key::Left, false);
    }
    a.handle_key(Key::Backspace, false);
    assert_eq!(a.render_header().seed[1].text, "│héll q");
    assert_eq!(a.handle_key(Key::Char('c'), true), KeyAction::Quit);
    a.handle_key(Key::Tab, false);
    assert_eq!(a.render_header().seed[1].text, "hé…**");
    assert_eq!(a.handle_key(Key::Char('q'), false), KeyAction::Quit);
    assert_eq!(a.handle_key(Key::Char('x'), false), KeyAction::Stay);
}

#[test]
fn starting_needs_a_seed_and_root() {
    let mut a = app();
    assert_eq!(a.handle_key(Key::Enter, false), KeyAction::StartDaemon);
    assert_eq!(a.begin_start(true, T), None);
    type_text(&mut a, " phrase ");
    assert_eq!(a.begin_start(false, T), None);
    assert_eq!(a.begin_start(true, T), Some("phrase".to_string()));
    let log = log_texts(&mut a);
    assert!(log.last().unwrap().ends_with("Starting daemon (seed: ph…**)…"));
    assert_eq!(a.handle_key(Key::Enter, false), KeyAction::Stay);
    assert_eq!(a.render_header().status.text, " ◎ Starting… ");
    let (program, args) = a.daemon_command("phrase");
    assert_eq!(program, "/bin/seednet");
    assert_eq!(args, ["-v", "_daemon", "phrase", "--state-dir", "/s"]);
    a.start_failed(StartProblem::Spawn, "no", T);
    assert_eq!(a.handle_key(Key::Enter, false), KeyAction::StartDaemon);
}

fn running_app() -> App {
    let mut a = app();
    type_text(&mut a, "phrase");
    a.begin_start(true, T).unwrap();
    a.set_log_offset(10);
    a.spawned(99, T);
    let seen = Seen { pid_file: Some("99\n".to_string()), ..nothing_seen() };
    a.poll(T, &seen);
    a
}

fn peers_json(n: usize) -> String {
    let peers: Vec<String> = (0..n)
        .map(|i| {
            format!(
                r#"{{"id_short":"id{i}","overlay":"10.88.1.{i}","underlay":"1.2.3.4:{i}"}}"#
            )
        })
        .collect();
    format!(
        r#"{{"local":{{"id_short":"me","overlay":"10.88.9.9"}},"peers":[{}]}}"#,
        peers.join(",")
    )
}

fn see_peers(a: &mut App, n: usize) {
    let seen = Seen {
        pid_file: Some("99".to_string()),
        peers_file: Some(peers_json(n)),
        ..nothing_seen()
    };
    a.poll(T, &seen);
}

#[test]
fn a_running_daemon_is_watched() {
    let mut a = running_app();
    assert!(a.is_running());
    assert!(a.has_child());
    assert_eq!(a.handle_key(Key::Enter, false), KeyAction::StopDaemon);
    see_peers(&mut a, 2);
    assert_eq!(a.render_header().seed[2].text, "  overlay: 10.88.9.9");
    let panel = a.render_peers();
    assert_eq!(panel.title, " Peers (2) ");
    assert_eq!(panel.items.len(), 3);
    assert_eq!(panel.items[0][0][2].text, " (you)");
    assert_eq!(panel.items[1][2][1].text, "direct");
    see_peers(&mut a, 1);
    let log = log_texts(&mut a);
    assert!(log.iter().any(|l| l.contains("Peer connected: id1 (10.88.1.1 / 1.2.3.4:1)")));
    assert!(log.iter().any(|l| l.contains("1 peer(s) disconnected (2 → 1)")));
}

#[test]
fn a_daemon_may_disappear_or_exit() {
    let mut a = running_app();
    see_peers(&mut a, 1);
    a.poll(T, &nothing_seen());
    assert!(!a.is_running());
    assert_eq!(a.render_peers().items[0][0][0].text, "  (no peers connected)");
    let mut a = running_app();
    let seen = Seen { exited: Some("exit status: 1".to_string()), ..nothing_seen() };
    a.poll(T, &seen);
    assert!(!a.is_running());
    assert!(!a.has_child());
    assert!(log_texts(&mut a).last().unwrap().ends_with("Daemon exited: exit status: 1"));
}

#[test]
fn stopping_the_daemon() {
    let mut a = running_app();
    a.stop_daemon(Some(99), T);
    assert!(!a.is_running());
    let log = log_texts(&mut a);
    assert!(log.iter().any(|l| l.ends_with("Sent SIGTERM to pid 99")));
    assert!(log.last().unwrap().ends_with("Daemon stopped."));
}

#[test]
fn the_daemon_log_is_taken_in() {
    let mut a = running_app();
    let raw = b"\x1b[32mINFO\x1b[0m hello\n\n   \n\xff bad\n".to_vec();
    let seen = Seen { pid_file: Some("99".to_string()), log: Some((50, raw)), ..nothing_seen() };
    a.poll(T, &seen);
    assert_eq!(a.log_offset(), 50);
    let log = log_texts(&mut a);
    assert_eq!(log[log.len() - 2], "12:00:00 INFO hello");
    assert_eq!(log[log.len() - 1], "12:00:00 \u{fffd} bad");
    let before = log.len();
    a.poll(T, &seen);
    assert_eq!(log_texts(&mut a).len(), before);
}

#[test]
fn the_log_is_bounded_and_followed() {
    let mut a = app();
    for i in 0..600 {
        a.push_log(T, &format!("line {i}"));
    }
    let panel = a.render_log(80, 10);
    assert_eq!(panel.title, " Log [500/500] [follow] ");
    assert_eq!(panel.lines.len(), 1);
    assert_eq!(panel.lines[0].text, "12:00:00 line 599");
    a.handle_key(Key::Tab, false);
    a.handle_key(Key::Tab, false);
    a.handle_key(Key::PageUp, false);
    a.handle_key(Key::Right, false);
    let panel = a.render_log(12, 5);
    assert_eq!(panel.title, " Log [490/500] →4 [↑↓←→ PgUp/Dn End] ");
    assert_eq!(panel.lines.len(), 3);
    assert_eq!(panel.lines[0].text, "0:00 line ");
    assert_eq!(
        panel.lines[0].look,
        Look { fg: Some(Color::White), bg: Some(Color::DarkGray), bold: false }
    );
    assert_eq!(panel.lines[1].look.bg, None);
    a.push_log(T, "one more");
    assert!(a.render_log(12, 5).title.starts_with(" Log [490/500] →4"));
    a.handle_key(Key::Home, false);
    assert!(a.render_log(12, 5).title.starts_with(" Log [1/500] "));
    a.handle_key(Key::Down, false);
    a.handle_key(Key::End, false);
    assert!(a.render_log(12, 5).title.starts_with(" Log [500/500] [follow]"));
}

#[test]
fn log_colours() {
    let mut a = app();
    for text in ["an error", "a WARN", "peer connected", "nothing", "Stopped"] {
        a.push_log(T, text);
    }
    a.handle_key(Key::Tab, false);
    a.handle_key(Key::Tab, false);
    a.handle_key(Key::Home, false);
    let colours: Vec<Option<Color>> =
        a.render_log(80, 20).lines.iter().map(|p| p.look.fg).collect();
    assert_eq!(
        &colours[1..],
        &[
            Some(Color::Red),
            Some(Color::Yellow),
            Some(Color::Green),
            Some(Color::White),
            Some(Color::DarkGray)
        ]
    );
}

#[test]
fn selecting_peers() {
    let mut a = running_app();
    see_peers(&mut a, 2);
    assert_eq!(a.selected_peer(), None);
    a.handle_key(Key::Tab, false);
    assert_eq!(a.selected_peer(), Some(0));
    a.handle_key(Key::Down, false);
    a.handle_key(Key::Down, false);
    a.handle_key(Key::Down, false);
    assert_eq!(a.selected_peer(), Some(2));
    a.handle_key(Key::PageUp, false);
    assert_eq!(a.selected_peer(), Some(0));
    assert_eq!(a.render_peers().title, " Peers (2) [↑↓] ");
    assert_eq!(a.render_peers().border, Some(Color::Yellow));
}

#[test]
fn relayed_peers_are_marked() {
    let mut a = running_app();
    let json = r#"{"peers":[{"id_short":"x","overlay":"o","underlay":"u","hostname":"h",
        "overlay_ipv6":"fd00::1","connection":"relay","relay_via":"r"}]}"#;
    a.refresh_peers(T, json);
    let item = &a.render_peers().items[0];
    assert_eq!(item.len(), 5);
    assert_eq!(item[0][2].text, "  h");
    assert_eq!(item[2][1].text, "fd00::1");
    assert_eq!(item[3][1].text, "relay via r");
    assert_eq!(item[3][1].look.fg, Some(Color::Yellow));
    assert_eq!(item[4][1].text, "u");
    a.refresh_peers(T, "not json");
    assert_eq!(a.render_peers().items.len(), 1);
}

#[test]
fn looks_are_half_a_second_apart() {
    let t = Instant::now();
    assert!(!poll_is_due(&t, &(t + Duration::from_millis(499))));
    assert!(poll_is_due(&t, &(t + Duration::from_millis(500))));
}
