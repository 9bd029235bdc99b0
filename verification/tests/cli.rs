use connectalso::cli::{
    cmd_admin_approve, cmd_admin_peers, cmd_admin_pending, cmd_admin_revoke, cmd_backup, cmd_diag,
    cmd_restore, cmd_start, cmd_status, cmd_stop, daemon_args, fmt_duration, is_confirmed, is_yes,
    pad_right, shorten, start_banner, status_icon, CheckResult, DeviceLine, DiagnosticsResponse,
    PeerDiag, StartEvent, StatusPeer, StatusReply, StatusResponse,
};
use connectalso::text::{is_whitespace, trim};
use connectalso::desktop;
use connectalso::desktop::{fetch_status, fmt_status, status_color, ConnStatus};

fn s(text: &str) -> String {
    text.to_string()
}

#[test]
fn durations_leave_out_leading_units() {
    assert_eq!(fmt_duration(0), "0s");
    assert_eq!(fmt_duration(59), "59s");
    assert_eq!(fmt_duration(60), "1m 0s");
    assert_eq!(fmt_duration(330), "5m 30s");
    assert_eq!(fmt_duration(3600), "1h 0m 0s");
    assert_eq!(fmt_duration(90061), "25h 1m 1s");
}

#[test]
fn statuses_have_icons() {
    assert_eq!(status_icon("ok"), "✓");
    assert_eq!(status_icon("warn"), "⚠");
    assert_eq!(status_icon("error"), "✗");
    assert_eq!(status_icon("OK"), "?");
}

fn status(peers: Vec<StatusPeer>) -> StatusReply {
    StatusReply::Status(StatusResponse {
        device_id: s("550e8400-e29b-41d4-a716-446655440000"),
        virtual_ip: s("100.64.0.1"),
        hostname: s("my-laptop"),
        uptime_secs: 330,
        peer_count: 1,
        peers,
    })
}

fn alice() -> StatusPeer {
    StatusPeer {
        device_id: s("0123456789abcdef0123456789"),
        virtual_ip: s("100.64.0.2"),
        hostname: s("my-nas"),
        path: s("direct"),
    }
}

#[test]
fn the_status_report_lists_the_peers() {
    let head = [
        "ConnectAlso Daemon",
        "  Device ID : 550e8400-e29b-41d4-a716-446655440000",
        "  Virtual IP: 100.64.0.1",
        "  Hostname  : my-laptop",
        "  Uptime    : 5m 30s",
        "  Peers     : 1",
    ];
    assert_eq!(cmd_status(&status(vec![]), true), head);
    let brief = cmd_status(&status(vec![alice()]), false);
    assert_eq!(&brief[..6], &head);
    assert_eq!(
        &brief[6..],
        &[
            "",
            "  PEER                  VIRTUAL IP        HOSTNAME",
            "  ----------------------------------------------------------",
            "  0123456789abcdef0123  100.64.0.2        my-nas",
        ]
    );
    let verbose = cmd_status(&status(vec![alice()]), true);
    assert_eq!(
        &verbose[6..],
        &[
            "",
            "  PEER              VIRTUAL IP        PATH        HOSTNAME",
            "  ----------------------------------------------------------------",
            "  0123456789abcdef  100.64.0.2        direct      my-nas",
        ]
    );
}

#[test]
fn a_missing_daemon_is_reported() {
    assert_eq!(cmd_status(&StatusReply::ServerError, false), ["Daemon error."]);
    let hint = "Daemon not running. Use: connectalso start";
    assert_eq!(cmd_status(&StatusReply::NotRunning, false), [hint]);
    assert_eq!(cmd_diag(&None), [hint]);
    assert_eq!(cmd_stop(true), "Shutdown requested.");
    assert_eq!(cmd_stop(false), "Daemon not running.");
}

fn check(status: &str, latency_ms: Option<u64>) -> CheckResult {
    CheckResult { status: s(status), detail: s("fine"), latency_ms }
}

#[test]
fn the_diagnosis_lists_checks_and_peers() {
    let mut d = DiagnosticsResponse {
        daemon: check("ok", None),
        control: check("ok", Some(12)),
        stun: check("ok", None),
        relay: check("ok", None),
        tun: check("ok", None),
        peers: vec![],
    };
    let line = "─".repeat(52);
    let passed = [
        "ConnectAlso Diagnostics",
        line.as_str(),
        "  ✓ Daemon : fine",
        "  ✓ Control: fine (12ms)",
        "  ✓ STUN   : fine",
        "  ✓ Relay  : fine",
        "  ✓ TUN    : fine",
        "",
        "All checks passed.",
    ];
    assert_eq!(cmd_diag(&Some(d.clone())), passed);
    d.tun.status = s("error");
    d.peers.push(PeerDiag {
        hostname: s("my-nas"),
        virtual_ip: s("100.64.0.2"),
        path: s("relay"),
        reachable: false,
    });
    let failed = cmd_diag(&Some(d));
    assert_eq!(
        &failed[6..],
        &[
            "  ✗ TUN    : fine",
            "",
            "  Peers:",
            "    ✗ my-nas        100.64.0.2        path=relay",
        ]
    );
}

#[test]
fn starting_is_announced() {
    assert_eq!(
        start_banner("http://c", "s:1", "r:2", "me"),
        [
            "ConnectAlso Desktop Alpha",
            "  Control : http://c",
            "  STUN    : s:1",
            "  Relay   : r:2",
            "  Host    : me",
        ]
    );
    assert_eq!(
        daemon_args("http://c", "s:1", "r:2", "me"),
        [
            "--control-url", "http://c", "--stun-server", "s:1", "--relay-server", "r:2",
            "--hostname", "me",
        ]
    );
    let started = cmd_start(StartEvent::Started { pid: 42 }, "u", "h");
    assert_eq!(started, ["Daemon started (PID: 42)."]);
    let running = cmd_start(StartEvent::AlreadyRunning, "u", "h");
    assert_eq!(running, ["", "Daemon already running."]);
    assert_eq!(
        cmd_start(StartEvent::NotFound, "u", "h"),
        [
            "'connectalso-daemon' not found. Run:",
            "  cargo run -p connectalso-daemon -- --control-url u --hostname h",
        ]
    );
}

fn device(id: Option<&str>) -> DeviceLine {
    DeviceLine {
        device_id: id.map(s),
        ipv4: Some(s("100.64.0.2")),
        status: Some(s("pending")),
        hostname: None,
    }
}

#[test]
fn administration_reports_what_happened() {
    assert_eq!(cmd_admin_pending(&vec![]), ["No pending devices."]);
    assert_eq!(
        cmd_admin_pending(&vec![device(Some("abc"))]),
        [
            "Pending devices (1)",
            "  abc  -  100.64.0.2",
            "",
            "Approve: connectalso admin approve <device_id>",
        ]
    );
    let listed = cmd_admin_peers(&vec![device(None)]);
    assert_eq!(listed[0], "All devices (1)");
    assert_eq!(
        listed[1],
        format!("  {:<38}  {:<16}  {:<12}  HOSTNAME", "DEVICE ID", "IP", "STATUS")
    );
    assert_eq!(listed[2], format!("  {:<38}  {:<16}  {:<12}  -", "-", "100.64.0.2", "pending"));
    assert_eq!(cmd_admin_approve("abc", true), "Device abc approved.");
    assert_eq!(
        cmd_admin_approve("abc", false),
        "Approval failed — device not found or already approved."
    );
    assert_eq!(cmd_admin_revoke("abc", true), "Device abc revoked.");
    assert_eq!(cmd_admin_revoke("abc", false), "Revocation failed.");
    assert_eq!(cmd_backup(true, &Some(s("x.backup"))), "Backup created: x.backup");
    assert_eq!(cmd_backup(true, &None), "Backup created: -");
    assert_eq!(cmd_backup(false, &None), "Backup failed.");
    assert_eq!(cmd_restore(true), "Database restored from backup.");
    assert_eq!(cmd_restore(false), "Restore failed.");
}

#[test]
fn only_y_confirms() {
    assert!(is_confirmed("y\n"));
    assert!(is_confirmed("  Y "));
    assert!(!is_confirmed("yes\n"));
    assert!(!is_confirmed("\n"));
    assert!(is_confirmed("\u{a0}\t y\r\n"));
    assert!(!is_confirmed("y y"));
    assert_eq!(trim("  a b\u{3000}"), "a b");
    assert_eq!(trim(" \n"), "");
    assert_eq!(trim("x"), "x");
    for c in '\0'..=char::MAX {
        assert_eq!(is_whitespace(c), c.is_whitespace(), "{c:?}");
    }
    assert!(is_yes("y"));
    assert!(!is_yes("Y"));
}

#[test]
fn columns_are_padded_by_characters() {
    assert_eq!(pad_right("né", 4), "né  ");
    assert_eq!(pad_right("long", 2), "long");
    assert_eq!(shorten("né", 3), "né");
    assert_eq!(shorten("né", 1), "n");
    assert_eq!(shorten("ab", 16), "ab");
}

fn reply(device_id: &str, peer_count: usize, paths: &[&str]) -> Option<desktop::StatusReply> {
    Some(desktop::StatusReply {
        device_id: s(device_id),
        peer_count,
        paths: paths.iter().map(|p| s(p)).collect(),
    })
}

#[test]
fn the_tray_shows_the_best_path() {
    assert_eq!(fetch_status(&None), ConnStatus::Disconnected);
    assert_eq!(fetch_status(&reply("", 3, &["direct"])), ConnStatus::Disconnected);
    assert_eq!(fetch_status(&reply("d", 0, &[])), ConnStatus::Disconnected);
    assert_eq!(fetch_status(&reply("d", 1, &["relay"])), ConnStatus::RelayOnly);
    assert_eq!(fetch_status(&reply("d", 2, &["relay", "direct"])), ConnStatus::Connected);
    assert_eq!(fetch_status(&reply("d", 0, &["direct"])), ConnStatus::Connected);
    assert_eq!(status_color(ConnStatus::Connected), [0x4C, 0xAF, 0x50, 0xFF]);
    assert_eq!(status_color(ConnStatus::RelayOnly), [0xFF, 0x98, 0x00, 0xFF]);
    assert_eq!(status_color(ConnStatus::Disconnected), [0x9E, 0x9E, 0x9E, 0xFF]);
    assert_eq!(fmt_status(ConnStatus::Connected), "Connected (P2P)");
    assert_eq!(fmt_status(ConnStatus::RelayOnly), "Connected (Relay)");
    assert_eq!(fmt_status(ConnStatus::Disconnected), "Disconnected");
}
