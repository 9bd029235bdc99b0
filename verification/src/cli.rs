//! What the command line tool prints.

use vstd::prelude::*;

use crate::text;

verus! {

/// The status of a peer, as the daemon reports it.
#[derive(Debug, Clone)]
pub struct StatusPeer {
    pub device_id: String,
    pub virtual_ip: String,
    pub hostname: String,
    pub path: String,
}

/// The status of the daemon.
#[derive(Debug, Clone)]
pub struct StatusResponse {
    pub device_id: String,
    pub virtual_ip: String,
    pub hostname: String,
    pub uptime_secs: u64,
    pub peer_count: usize,
    pub peers: Vec<StatusPeer>,
}

/// What came of asking the daemon for its status.
#[derive(Debug, Clone)]
pub enum StatusReply {
    /// The daemon replied.
    Status(StatusResponse),
    /// The daemon replied that it failed.
    ServerError,
    /// There was no reply, or a refusal.
    NotRunning,
}

/// The outcome of one check.
#[derive(Debug, Clone)]
pub struct CheckResult {
    pub status: String,
    pub detail: String,
    pub latency_ms: Option<u64>,
}

/// What the diagnosis says of a peer.
#[derive(Debug, Clone)]
pub struct PeerDiag {
    pub hostname: String,
    pub virtual_ip: String,
    pub path: String,
    pub reachable: bool,
}

/// The daemon's diagnosis.
#[derive(Debug, Clone)]
pub struct DiagnosticsResponse {
    pub daemon: CheckResult,
    pub control: CheckResult,
    pub stun: CheckResult,
    pub relay: CheckResult,
    pub tun: CheckResult,
    pub peers: Vec<PeerDiag>,
}

/// A device, as the control service reports it to the administrator. What is
/// missing in the report is missing here.
#[derive(Debug, Clone)]
pub struct DeviceLine {
    pub device_id: Option<String>,
    pub ipv4: Option<String>,
    pub status: Option<String>,
    pub hostname: Option<String>,
}

/// A string `n` times over.
pub open spec fn repeated(s: Seq<char>, n: nat) -> Seq<char>
    decreases n,
{
    if n == 0 {
        Seq::empty()
    } else {
        repeated(s, (n - 1) as nat) + s
    }
}

/// A string with blanks behind it, so that it is `width` characters long at
/// least.
pub open spec fn padded(s: Seq<char>, width: nat) -> Seq<char> {
    if s.len() >= width {
        s
    } else {
        s + repeated(" "@, (width - s.len()) as nat)
    }
}

/// How many bytes of an identifier are shown, if it is cut at `n`.
pub open spec fn shown_bytes(id: Seq<char>, n: nat) -> int {
    let len = vstd::utf8::encode_utf8(id).len();
    if len < n {
        len as int
    } else {
        n as int
    }
}

/// Whether cutting an identifier at `n` bytes leaves its characters whole.
pub open spec fn cuts_cleanly(id: Seq<char>, n: nat) -> bool {
    vstd::utf8::is_char_boundary(vstd::utf8::encode_utf8(id), shown_bytes(id, n))
}

/// An identifier, cut at `n` bytes.
pub open spec fn shortened(id: Seq<char>, n: nat) -> Seq<char> {
    vstd::utf8::decode_utf8(vstd::utf8::encode_utf8(id).subrange(0, shown_bytes(id, n)))
}

/// A time span in hours, minutes and seconds, without leading zero units.
pub open spec fn duration_text(secs: nat) -> Seq<char> {
    let h = secs / 3600;
    let m = (secs % 3600) / 60;
    let s = text::decimal(secs % 60) + "s"@;
    if h > 0 {
        text::decimal(h) + "h "@ + text::decimal(m) + "m "@ + s
    } else if m > 0 {
        text::decimal(m) + "m "@ + s
    } else {
        s
    }
}

/// The sign for a status.
pub open spec fn icon_of(status: Seq<char>) -> Seq<char> {
    if status == "ok"@ {
        "✓"@
    } else if status == "warn"@ {
        "⚠"@
    } else if status == "error"@ {
        "✗"@
    } else {
        "?"@
    }
}

/// What is printed where a value is missing.
pub open spec fn or_dash(value: Option<String>) -> Seq<char> {
    match value {
        Some(v) => v@,
        None => "-"@,
    }
}

/// Four columns, of which the last is not padded.
pub open spec fn four_columns(
    a: Seq<char>,
    wa: nat,
    b: Seq<char>,
    wb: nat,
    c: Seq<char>,
    wc: nat,
    last: Seq<char>,
) -> Seq<char> {
    "  "@ + padded(a, wa) + "  "@ + padded(b, wb) + "  "@ + padded(c, wc) + "  "@ + last
}

/// Three columns, of which the last is not padded.
pub open spec fn three_columns(
    a: Seq<char>,
    wa: nat,
    b: Seq<char>,
    wb: nat,
    last: Seq<char>,
) -> Seq<char> {
    "  "@ + padded(a, wa) + "  "@ + padded(b, wb) + "  "@ + last
}

/// The line for a peer in the status report.
pub open spec fn status_row(p: StatusPeer, verbose: bool) -> Seq<char> {
    if verbose {
        four_columns(
            shortened(p.device_id@, 16),
            16,
            p.virtual_ip@,
            16,
            p.path@,
            10,
            p.hostname@,
        )
    } else {
        three_columns(shortened(p.device_id@, 20), 20, p.virtual_ip@, 16, p.hostname@)
    }
}

/// Where identifiers are cut in the status report.
pub open spec fn id_width(verbose: bool) -> nat {
    if verbose {
        16
    } else {
        20
    }
}

/// The head of the status report.
pub open spec fn status_head(s: StatusResponse) -> Seq<Seq<char>> {
    seq![
        "ConnectAlso Daemon"@,
        "  Device ID : "@ + s.device_id@,
        "  Virtual IP: "@ + s.virtual_ip@,
        "  Hostname  : "@ + s.hostname@,
        "  Uptime    : "@ + duration_text(s.uptime_secs as nat),
        "  Peers     : "@ + text::decimal(s.peer_count as nat),
    ]
}

/// The head of the peer table in the status report.
pub open spec fn table_head(verbose: bool) -> Seq<Seq<char>> {
    if verbose {
        seq![
            Seq::<char>::empty(),
            four_columns("PEER"@, 16, "VIRTUAL IP"@, 16, "PATH"@, 10, "HOSTNAME"@),
            "  "@ + repeated("-"@, 64),
        ]
    } else {
        seq![
            Seq::<char>::empty(),
            three_columns("PEER"@, 20, "VIRTUAL IP"@, 16, "HOSTNAME"@),
            "  "@ + repeated("-"@, 58),
        ]
    }
}

/// The status report.
pub open spec fn status_lines(s: StatusResponse, verbose: bool) -> Seq<Seq<char>> {
    if s.peers@.len() == 0 {
        status_head(s)
    } else {
        status_head(s) + table_head(verbose) + Seq::new(
            s.peers@.len(),
            |i: int| status_row(s.peers@[i], verbose),
        )
    }
}

/// The line for a check in the diagnosis.
pub open spec fn check_row(name: Seq<char>, check: CheckResult) -> Seq<char> {
    "  "@ + icon_of(check.status@) + " "@ + name + ": "@ + check.detail@ + match check.latency_ms {
        Some(ms) => " ("@ + text::decimal(ms as nat) + "ms)"@,
        None => Seq::<char>::empty(),
    }
}

/// The line for a peer in the diagnosis.
pub open spec fn diag_row(p: PeerDiag) -> Seq<char> {
    "    "@ + (if p.reachable {
        "✓"@
    } else {
        "✗"@
    }) + " "@ + padded(p.hostname@, 12) + "  "@ + padded(p.virtual_ip@, 16) + "  path="@ + p.path@
}

/// Whether every check passed.
pub open spec fn all_ok(d: DiagnosticsResponse) -> bool {
    &&& d.daemon.status@ == "ok"@
    &&& d.control.status@ == "ok"@
    &&& d.stun.status@ == "ok"@
    &&& d.relay.status@ == "ok"@
    &&& d.tun.status@ == "ok"@
}

/// The head of the diagnosis, with the checks.
pub open spec fn diag_head(d: DiagnosticsResponse) -> Seq<Seq<char>> {
    seq![
        "ConnectAlso Diagnostics"@,
        repeated("─"@, 52),
        check_row("Daemon "@, d.daemon),
        check_row("Control"@, d.control),
        check_row("STUN   "@, d.stun),
        check_row("Relay  "@, d.relay),
        check_row("TUN    "@, d.tun),
    ]
}

/// The diagnosis.
pub open spec fn diag_lines(d: DiagnosticsResponse) -> Seq<Seq<char>> {
    let peers = if d.peers@.len() == 0 {
        Seq::<Seq<char>>::empty()
    } else {
        seq![Seq::<char>::empty(), "  Peers:"@] + Seq::new(
            d.peers@.len(),
            |i: int| diag_row(d.peers@[i]),
        )
    };
    let verdict = if all_ok(d) {
        seq![Seq::<char>::empty(), "All checks passed."@]
    } else {
        Seq::<Seq<char>>::empty()
    };
    diag_head(d) + peers + verdict
}

/// The line for a device that waits for approval.
pub open spec fn pending_row(d: DeviceLine) -> Seq<char> {
    "  "@ + or_dash(d.device_id) + "  "@ + or_dash(d.hostname) + "  "@ + or_dash(d.ipv4)
}

/// The list of devices that wait for approval.
pub open spec fn pending_lines(pending: Seq<DeviceLine>) -> Seq<Seq<char>> {
    if pending.len() == 0 {
        seq!["No pending devices."@]
    } else {
        seq!["Pending devices ("@ + text::decimal(pending.len()) + ")"@] + Seq::new(
            pending.len(),
            |i: int| pending_row(pending[i]),
        ) + seq![Seq::<char>::empty(), "Approve: connectalso admin approve <device_id>"@]
    }
}

/// The line for a device in the list of all devices.
pub open spec fn device_row(d: DeviceLine) -> Seq<char> {
    four_columns(
        or_dash(d.device_id),
        38,
        or_dash(d.ipv4),
        16,
        or_dash(d.status),
        12,
        or_dash(d.hostname),
    )
}

/// The list of all devices.
pub open spec fn device_lines(devices: Seq<DeviceLine>) -> Seq<Seq<char>> {
    seq![
        "All devices ("@ + text::decimal(devices.len()) + ")"@,
        four_columns("DEVICE ID"@, 38, "IP"@, 16, "STATUS"@, 12, "HOSTNAME"@),
    ] + Seq::new(devices.len(), |i: int| device_row(devices[i]))
}

/// Appends a line.
fn push_line(out: &mut Vec<String>, line: String)
    ensures
        text::texts(final(out)@) == text::texts(old(out)@).push(line@),
{
    out.push(line);
    assert(text::texts(out@) =~= text::texts(old(out)@).push(line@));
}

/// Appends a line that is made of two parts.
fn push_pair(out: &mut Vec<String>, label: &str, value: &str)
    ensures
        text::texts(final(out)@) == text::texts(old(out)@).push(label@ + value@),
{
    let mut line: String = label.to_owned();
    line.append(value);
    push_line(out, line);
}

/// A string `n` times over.
pub fn repeat(s: &str, n: usize) -> (out: String)
    ensures
        out@ == repeated(s@, n as nat),
{
    let mut out: String = String::new();
    let mut i: usize = 0;
    while i < n
        invariant
            i <= n,
            out@ == repeated(s@, i as nat),
        decreases n - i,
    {
        out.append(s);
        i = i + 1;
    }
    out
}

/// A string with blanks behind it, so that it is `width` characters long at
/// least.
pub fn pad_right(s: &str, width: usize) -> (out: String)
    ensures
        out@ == padded(s@, width as nat),
{
    let mut out: String = s.to_owned();
    let len: usize = s.unicode_len();
    if len < width {
        let blanks: String = repeat(" ", width - len);
        out.append(blanks.as_str());
    }
    out
}

/// An identifier, cut at `n` bytes.
pub fn shorten(id: &str, n: usize) -> (out: &str)
    requires
        cuts_cleanly(id@, n as nat),
    ensures
        out@ == shortened(id@, n as nat),
{
    let bytes: &[u8] = id.as_bytes();
    let len: usize = bytes.len();
    let at: usize = if len < n {
        len
    } else {
        n
    };
    let (head, _rest): (&str, &str) = id.split_at(at);
    proof {
        vstd::utf8::encode_utf8_decode_utf8(head@);
    }
    head
}

/// The time span as text.
pub fn fmt_duration(secs: u64) -> (out: String)
    ensures
        out@ == duration_text(secs as nat),
{
    let h: u64 = secs / 3600;
    let m: u64 = (secs % 3600) / 60;
    let mut out: String = String::new();
    if h > 0 {
        text::push_decimal(&mut out, h);
        out.append("h ");
    }
    if h > 0 || m > 0 {
        text::push_decimal(&mut out, m);
        out.append("m ");
    }
    text::push_decimal(&mut out, secs % 60);
    out.append("s");
    assert(out@ =~= duration_text(secs as nat));
    out
}

/// The sign for a status.
pub fn status_icon(status: &str) -> (icon: &'static str)
    ensures
        icon@ == icon_of(status@),
{
    if text::same(status, "ok") {
        "✓"
    } else if text::same(status, "warn") {
        "⚠"
    } else if text::same(status, "error") {
        "✗"
    } else {
        "?"
    }
}

fn value_or_dash(value: &Option<String>) -> (s: &str)
    ensures
        s@ == or_dash(*value),
{
    match value {
        Some(v) => v.as_str(),
        None => "-",
    }
}

fn columns4(
    a: &str,
    wa: usize,
    b: &str,
    wb: usize,
    c: &str,
    wc: usize,
    last: &str,
) -> (line: String)
    ensures
        line@ == four_columns(a@, wa as nat, b@, wb as nat, c@, wc as nat, last@),
{
    let pa: String = pad_right(a, wa);
    let pb: String = pad_right(b, wb);
    let pc: String = pad_right(c, wc);
    let mut line: String = "  ".to_owned();
    line.append(pa.as_str());
    line.append("  ");
    line.append(pb.as_str());
    line.append("  ");
    line.append(pc.as_str());
    line.append("  ");
    line.append(last);
    line
}

fn columns3(a: &str, wa: usize, b: &str, wb: usize, last: &str) -> (line: String)
    ensures
        line@ == three_columns(a@, wa as nat, b@, wb as nat, last@),
{
    let pa: String = pad_right(a, wa);
    let pb: String = pad_right(b, wb);
    let mut line: String = "  ".to_owned();
    line.append(pa.as_str());
    line.append("  ");
    line.append(pb.as_str());
    line.append("  ");
    line.append(last);
    line
}

fn print_row(p: &StatusPeer, verbose: bool) -> (line: String)
    requires
        cuts_cleanly(p.device_id@, id_width(verbose)),
    ensures
        line@ == status_row(*p, verbose),
{
    if verbose {
        columns4(
            shorten(p.device_id.as_str(), 16),
            16,
            p.virtual_ip.as_str(),
            16,
            p.path.as_str(),
            10,
            p.hostname.as_str(),
        )
    } else {
        columns3(
            shorten(p.device_id.as_str(), 20),
            20,
            p.virtual_ip.as_str(),
            16,
            p.hostname.as_str(),
        )
    }
}

/// The status report, or why there is none.
pub fn cmd_status(reply: &StatusReply, verbose: bool) -> (out: Vec<String>)
    requires
        reply matches StatusReply::Status(s) ==> forall|i: int|
            0 <= i < s.peers@.len() ==> cuts_cleanly(
                (#[trigger] s.peers@[i]).device_id@,
                id_width(verbose),
            ),
    ensures
        text::texts(out@) == match reply {
            StatusReply::Status(s) => status_lines(*s, verbose),
            StatusReply::ServerError => seq!["Daemon error."@],
            StatusReply::NotRunning => seq!["Daemon not running. Use: connectalso start"@],
        },
{
    let mut out: Vec<String> = Vec::new();
    assert(text::texts(out@) =~= Seq::empty());
    match reply {
        StatusReply::ServerError => {
            push_line(&mut out, "Daemon error.".to_owned());
            assert(text::texts(out@) =~= seq!["Daemon error."@]);
            out
        },
        StatusReply::NotRunning => {
            push_line(&mut out, "Daemon not running. Use: connectalso start".to_owned());
            assert(text::texts(out@) =~= seq!["Daemon not running. Use: connectalso start"@]);
            out
        },
        StatusReply::Status(s) => {
            let uptime: String = fmt_duration(s.uptime_secs);
            let mut count: String = String::new();
            text::push_decimal(&mut count, s.peer_count as u64);
            assert(count@ =~= text::decimal(s.peer_count as nat));
            push_line(&mut out, "ConnectAlso Daemon".to_owned());
            push_pair(&mut out, "  Device ID : ", s.device_id.as_str());
            push_pair(&mut out, "  Virtual IP: ", s.virtual_ip.as_str());
            push_pair(&mut out, "  Hostname  : ", s.hostname.as_str());
            push_pair(&mut out, "  Uptime    : ", uptime.as_str());
            push_pair(&mut out, "  Peers     : ", count.as_str());
            assert(text::texts(out@) =~= status_head(*s));
            if s.peers.len() == 0 {
                return out;
            }
            push_line(&mut out, String::new());
            if verbose {
                push_line(
                    &mut out,
                    columns4("PEER", 16, "VIRTUAL IP", 16, "PATH", 10, "HOSTNAME"),
                );
                push_pair(&mut out, "  ", repeat("-", 64).as_str());
            } else {
                push_line(&mut out, columns3("PEER", 20, "VIRTUAL IP", 16, "HOSTNAME"));
                push_pair(&mut out, "  ", repeat("-", 58).as_str());
            }
            assert(text::texts(out@) =~= status_head(*s) + table_head(verbose));
            let ghost head = text::texts(out@);
            let ghost rows = Seq::new(
                s.peers@.len(),
                |i: int| status_row(s.peers@[i], verbose),
            );
            let mut i: usize = 0;
            assert(head + rows.subrange(0, 0) =~= head);
            while i < s.peers.len()
                invariant
                    i <= s.peers@.len() == rows.len(),
                    rows == Seq::new(s.peers@.len(), |i: int| status_row(s.peers@[i], verbose)),
                    text::texts(out@) == head + rows.subrange(0, i as int),
                    forall|i: int|
                        0 <= i < s.peers@.len() ==> cuts_cleanly(
                            (#[trigger] s.peers@[i]).device_id@,
                            id_width(verbose),
                        ),
                decreases s.peers@.len() - i,
            {
                assert(cuts_cleanly(s.peers@[i as int].device_id@, id_width(verbose)));
                push_line(&mut out, print_row(&s.peers[i], verbose));
                assert(head + rows.subrange(0, i + 1) =~= (head + rows.subrange(0, i as int)).push(
                    rows[i as int],
                ));
                i = i + 1;
            }
            assert(rows.subrange(0, i as int) =~= rows);
            out
        },
    }
}

fn print_check(name: &str, check: &CheckResult) -> (line: String)
    ensures
        line@ == check_row(name@, *check),
{
    let mut line: String = "  ".to_owned();
    line.append(status_icon(check.status.as_str()));
    line.append(" ");
    line.append(name);
    line.append(": ");
    line.append(check.detail.as_str());
    if let Some(ms) = check.latency_ms {
        line.append(" (");
        text::push_decimal(&mut line, ms);
        line.append("ms)");
    }
    assert(line@ =~= check_row(name@, *check));
    line
}

fn print_peer(p: &PeerDiag) -> (line: String)
    ensures
        line@ == diag_row(*p),
{
    let name: String = pad_right(p.hostname.as_str(), 12);
    let ip: String = pad_right(p.virtual_ip.as_str(), 16);
    let mut line: String = "    ".to_owned();
    line.append(
        if p.reachable {
            "✓"
        } else {
            "✗"
        },
    );
    line.append(" ");
    line.append(name.as_str());
    line.append("  ");
    line.append(ip.as_str());
    line.append("  path=");
    line.append(p.path.as_str());
    line
}

/// The diagnosis, or why there is none.
pub fn cmd_diag(reply: &Option<DiagnosticsResponse>) -> (out: Vec<String>)
    ensures
        text::texts(out@) == match reply {
            Some(d) => diag_lines(*d),
            None => seq!["Daemon not running. Use: connectalso start"@],
        },
{
    let mut out: Vec<String> = Vec::new();
    assert(text::texts(out@) =~= Seq::empty());
    let d: &DiagnosticsResponse = match reply {
        Some(d) => d,
        None => {
            push_line(&mut out, "Daemon not running. Use: connectalso start".to_owned());
            assert(text::texts(out@) =~= seq!["Daemon not running. Use: connectalso start"@]);
            return out;
        },
    };
    push_line(&mut out, "ConnectAlso Diagnostics".to_owned());
    push_line(&mut out, repeat("─", 52));
    push_line(&mut out, print_check("Daemon ", &d.daemon));
    push_line(&mut out, print_check("Control", &d.control));
    push_line(&mut out, print_check("STUN   ", &d.stun));
    push_line(&mut out, print_check("Relay  ", &d.relay));
    push_line(&mut out, print_check("TUN    ", &d.tun));
    assert(text::texts(out@) =~= diag_head(*d));
    let ghost peers = if d.peers@.len() == 0 {
        Seq::<Seq<char>>::empty()
    } else {
        seq![Seq::<char>::empty(), "  Peers:"@] + Seq::new(
            d.peers@.len(),
            |i: int| diag_row(d.peers@[i]),
        )
    };
    if d.peers.len() > 0 {
        push_line(&mut out, String::new());
        push_line(&mut out, "  Peers:".to_owned());
        let ghost head = text::texts(out@);
        let ghost rows = Seq::new(d.peers@.len(), |i: int| diag_row(d.peers@[i]));
        assert(head =~= diag_head(*d) + seq![Seq::<char>::empty(), "  Peers:"@]);
        assert(head + rows.subrange(0, 0) =~= head);
        let mut i: usize = 0;
        while i < d.peers.len()
            invariant
                i <= d.peers@.len() == rows.len(),
                rows == Seq::new(d.peers@.len(), |i: int| diag_row(d.peers@[i])),
                text::texts(out@) == head + rows.subrange(0, i as int),
            decreases d.peers@.len() - i,
        {
            push_line(&mut out, print_peer(&d.peers[i]));
            assert(head + rows.subrange(0, i + 1) =~= (head + rows.subrange(0, i as int)).push(
                rows[i as int],
            ));
            i = i + 1;
        }
        assert(rows.subrange(0, i as int) =~= rows);
        assert(text::texts(out@) =~= diag_head(*d) + peers);
    }
    assert(text::texts(out@) =~= diag_head(*d) + peers);
    if text::same(d.daemon.status.as_str(), "ok") && text::same(d.control.status.as_str(), "ok")
        && text::same(d.stun.status.as_str(), "ok") && text::same(d.relay.status.as_str(), "ok")
        && text::same(d.tun.status.as_str(), "ok") {
        push_line(&mut out, String::new());
        push_line(&mut out, "All checks passed.".to_owned());
    }
    assert(text::texts(out@) =~= diag_lines(*d));
    out
}

/// What is printed before the daemon is started.
pub fn start_banner(control_url: &str, stun_server: &str, relay_server: &str, hostname: &str) -> (out:
    Vec<String>)
    ensures
        text::texts(out@) == seq![
            "ConnectAlso Desktop Alpha"@,
            "  Control : "@ + control_url@,
            "  STUN    : "@ + stun_server@,
            "  Relay   : "@ + relay_server@,
            "  Host    : "@ + hostname@,
        ],
{
    let mut out: Vec<String> = Vec::new();
    assert(text::texts(out@) =~= Seq::empty());
    push_line(&mut out, "ConnectAlso Desktop Alpha".to_owned());
    push_pair(&mut out, "  Control : ", control_url);
    push_pair(&mut out, "  STUN    : ", stun_server);
    push_pair(&mut out, "  Relay   : ", relay_server);
    push_pair(&mut out, "  Host    : ", hostname);
    assert(text::texts(out@) =~= seq![
        "ConnectAlso Desktop Alpha"@,
        "  Control : "@ + control_url@,
        "  STUN    : "@ + stun_server@,
        "  Relay   : "@ + relay_server@,
        "  Host    : "@ + hostname@,
    ]);
    out
}

/// The arguments that the daemon is started with.
pub fn daemon_args(control_url: &str, stun_server: &str, relay_server: &str, hostname: &str) -> (out:
    Vec<String>)
    ensures
        text::texts(out@) == seq![
            "--control-url"@,
            control_url@,
            "--stun-server"@,
            stun_server@,
            "--relay-server"@,
            relay_server@,
            "--hostname"@,
            hostname@,
        ],
{
    let mut out: Vec<String> = Vec::new();
    assert(text::texts(out@) =~= Seq::empty());
    push_line(&mut out, "--control-url".to_owned());
    push_line(&mut out, control_url.to_owned());
    push_line(&mut out, "--stun-server".to_owned());
    push_line(&mut out, stun_server.to_owned());
    push_line(&mut out, "--relay-server".to_owned());
    push_line(&mut out, relay_server.to_owned());
    push_line(&mut out, "--hostname".to_owned());
    push_line(&mut out, hostname.to_owned());
    assert(text::texts(out@) =~= seq![
        "--control-url"@,
        control_url@,
        "--stun-server"@,
        stun_server@,
        "--relay-server"@,
        relay_server@,
        "--hostname"@,
        hostname@,
    ]);
    out
}

/// What came of starting the daemon.
#[derive(Debug, Clone, Copy, PartialEq, Eq, Structural)]
pub enum StartEvent {
    /// A daemon is running already.
    AlreadyRunning,
    /// The daemon was started, with this process number.
    Started { pid: u32 },
    /// The daemon's program was not found.
    NotFound,
}

/// What is printed after trying to start the daemon. The hint that the program
/// was not found goes to the error output.
pub fn cmd_start(event: StartEvent, control_url: &str, hostname: &str) -> (out: Vec<String>)
    ensures
        text::texts(out@) == match event {
            StartEvent::AlreadyRunning => seq![
                Seq::<char>::empty(),
                "Daemon already running."@,
            ],
            StartEvent::Started { pid } => seq![
                "Daemon started (PID: "@ + text::decimal(pid as nat) + ")."@,
            ],
            StartEvent::NotFound => seq![
                "'connectalso-daemon' not found. Run:"@,
                "  cargo run -p connectalso-daemon -- --control-url "@ + control_url@
                    + " --hostname "@ + hostname@,
            ],
        },
{
    let mut out: Vec<String> = Vec::new();
    assert(text::texts(out@) =~= Seq::empty());
    match event {
        StartEvent::AlreadyRunning => {
            push_line(&mut out, String::new());
            push_line(&mut out, "Daemon already running.".to_owned());
            assert(text::texts(out@) =~= seq![Seq::<char>::empty(), "Daemon already running."@]);
        },
        StartEvent::Started { pid } => {
            let mut line: String = "Daemon started (PID: ".to_owned();
            text::push_decimal(&mut line, pid as u64);
            line.append(").");
            push_line(&mut out, line);
            assert(text::texts(out@) =~= seq![
                "Daemon started (PID: "@ + text::decimal(pid as nat) + ")."@,
            ]);
        },
        StartEvent::NotFound => {
            let mut line: String =
                "  cargo run -p connectalso-daemon -- --control-url ".to_owned();
            line.append(control_url);
            line.append(" --hostname ");
            line.append(hostname);
            push_line(&mut out, "'connectalso-daemon' not found. Run:".to_owned());
            push_line(&mut out, line);
            assert(text::texts(out@) =~= seq![
                "'connectalso-daemon' not found. Run:"@,
                "  cargo run -p connectalso-daemon -- --control-url "@ + control_url@
                    + " --hostname "@ + hostname@,
            ]);
        },
    }
    out
}

/// What is printed after asking the daemon to stop.
pub fn cmd_stop(accepted: bool) -> (line: &'static str)
    ensures
        line@ == if accepted {
            "Shutdown requested."@
        } else {
            "Daemon not running."@
        },
{
    if accepted {
        "Shutdown requested."
    } else {
        "Daemon not running."
    }
}

/// The list of devices that wait for approval.
pub fn cmd_admin_pending(pending: &Vec<DeviceLine>) -> (out: Vec<String>)
    ensures
        text::texts(out@) == pending_lines(pending@),
{
    let mut out: Vec<String> = Vec::new();
    assert(text::texts(out@) =~= Seq::empty());
    if pending.len() == 0 {
        push_line(&mut out, "No pending devices.".to_owned());
        assert(text::texts(out@) =~= pending_lines(pending@));
        return out;
    }
    let mut title: String = "Pending devices (".to_owned();
    text::push_decimal(&mut title, pending.len() as u64);
    title.append(")");
    push_line(&mut out, title);
    let ghost head = text::texts(out@);
    let ghost rows = Seq::new(pending@.len(), |i: int| pending_row(pending@[i]));
    assert(head =~= seq!["Pending devices ("@ + text::decimal(pending@.len()) + ")"@]);
    assert(head + rows.subrange(0, 0) =~= head);
    let mut i: usize = 0;
    while i < pending.len()
        invariant
            i <= pending@.len() == rows.len(),
            rows == Seq::new(pending@.len(), |i: int| pending_row(pending@[i])),
            text::texts(out@) == head + rows.subrange(0, i as int),
        decreases pending@.len() - i,
    {
        let mut line: String = "  ".to_owned();
        line.append(value_or_dash(&pending[i].device_id));
        line.append("  ");
        line.append(value_or_dash(&pending[i].hostname));
        line.append("  ");
        line.append(value_or_dash(&pending[i].ipv4));
        push_line(&mut out, line);
        assert(head + rows.subrange(0, i + 1) =~= (head + rows.subrange(0, i as int)).push(
            rows[i as int],
        ));
        i = i + 1;
    }
    assert(rows.subrange(0, i as int) =~= rows);
    push_line(&mut out, String::new());
    push_line(&mut out, "Approve: connectalso admin approve <device_id>".to_owned());
    assert(text::texts(out@) =~= pending_lines(pending@));
    out
}

/// What is printed after asking for an approval.
pub fn cmd_admin_approve(device_id: &str, approved: bool) -> (line: String)
    ensures
        line@ == if approved {
            "Device "@ + device_id@ + " approved."@
        } else {
            "Approval failed — device not found or already approved."@
        },
{
    if approved {
        let mut line: String = "Device ".to_owned();
        line.append(device_id);
        line.append(" approved.");
        line
    } else {
        "Approval failed — device not found or already approved.".to_owned()
    }
}

/// What is printed after asking for a revocation.
pub fn cmd_admin_revoke(device_id: &str, revoked: bool) -> (line: String)
    ensures
        line@ == if revoked {
            "Device "@ + device_id@ + " revoked."@
        } else {
            "Revocation failed."@
        },
{
    if revoked {
        let mut line: String = "Device ".to_owned();
        line.append(device_id);
        line.append(" revoked.");
        line
    } else {
        "Revocation failed.".to_owned()
    }
}

/// The list of all devices.
pub fn cmd_admin_peers(devices: &Vec<DeviceLine>) -> (out: Vec<String>)
    ensures
        text::texts(out@) == device_lines(devices@),
{
    let mut out: Vec<String> = Vec::new();
    assert(text::texts(out@) =~= Seq::empty());
    let mut title: String = "All devices (".to_owned();
    text::push_decimal(&mut title, devices.len() as u64);
    title.append(")");
    push_line(&mut out, title);
    push_line(&mut out, columns4("DEVICE ID", 38, "IP", 16, "STATUS", 12, "HOSTNAME"));
    let ghost head = text::texts(out@);
    let ghost rows = Seq::new(devices@.len(), |i: int| device_row(devices@[i]));
    assert(head =~= seq![
        "All devices ("@ + text::decimal(devices@.len()) + ")"@,
        four_columns("DEVICE ID"@, 38, "IP"@, 16, "STATUS"@, 12, "HOSTNAME"@),
    ]);
    assert(head + rows.subrange(0, 0) =~= head);
    let mut i: usize = 0;
    while i < devices.len()
        invariant
            i <= devices@.len() == rows.len(),
            rows == Seq::new(devices@.len(), |i: int| device_row(devices@[i])),
            text::texts(out@) == head + rows.subrange(0, i as int),
        decreases devices@.len() - i,
    {
        let d: &DeviceLine = &devices[i];
        push_line(
            &mut out,
            columns4(
                value_or_dash(&d.device_id),
                38,
                value_or_dash(&d.ipv4),
                16,
                value_or_dash(&d.status),
                12,
                value_or_dash(&d.hostname),
            ),
        );
        assert(head + rows.subrange(0, i + 1) =~= (head + rows.subrange(0, i as int)).push(
            rows[i as int],
        ));
        i = i + 1;
    }
    assert(rows.subrange(0, i as int) =~= rows);
    out
}

/// What is printed after asking for a backup.
pub fn cmd_backup(success: bool, path: &Option<String>) -> (line: String)
    ensures
        line@ == if success {
            "Backup created: "@ + or_dash(*path)
        } else {
            "Backup failed."@
        },
{
    if success {
        let mut line: String = "Backup created: ".to_owned();
        line.append(value_or_dash(path));
        line
    } else {
        "Backup failed.".to_owned()
    }
}

/// Whether the answer to a question was yes.
pub fn is_confirmed(answer: &str) -> (yes: bool)
    ensures
        yes == (text::lowercase(text::trimmed(answer@)) == "y"@),
{
    let answer: String = text::to_lowercase(text::trim(answer));
    is_yes(answer.as_str())
}

/// Whether an answer, trimmed and in lowercase, says yes.
pub fn is_yes(answer: &str) -> (yes: bool)
    ensures
        yes == (answer@ == "y"@),
{
    text::same(answer, "y")
}

/// What is printed after asking for a restoration.
pub fn cmd_restore(success: bool) -> (line: &'static str)
    ensures
        line@ == if success {
            "Database restored from backup."@
        } else {
            "Restore failed."@
        },
{
    if success {
        "Database restored from backup."
    } else {
        "Restore failed."
    }
}

/// A padded column is at least as wide as it has to be, and shows its value
/// whole.
pub proof fn law_padding_keeps_the_value(s: Seq<char>, width: nat)
    ensures
        padded(s, width).len() == if s.len() >= width {
            s.len()
        } else {
            width
        },
        padded(s, width).subrange(0, s.len() as int) == s,
{
    if s.len() < width {
        lemma_repeated_len((width - s.len()) as nat);
    }
    assert(padded(s, width).subrange(0, s.len() as int) =~= s);
}

proof fn lemma_repeated_len(n: nat)
    ensures
        repeated(" "@, n).len() == n,
    decreases n,
{
    reveal_strlit(" ");
    if n > 0 {
        lemma_repeated_len((n - 1) as nat);
    }
}

proof fn lemma_lowest_char(c: char)
    ensures
        '\0' <= c,
{
}

/// An identifier in ASCII is shown whole if it has at most as many characters as
/// there is room for, and is cut behind them otherwise.
pub proof fn law_long_identifier_is_cut(id: Seq<char>, n: nat)
    requires
        forall|i: int| 0 <= i < id.len() ==> #[trigger] id[i] < '\u{80}',
    ensures
        cuts_cleanly(id, n),
        id.len() <= n ==> shortened(id, n) == id,
        id.len() > n ==> shortened(id, n) == id.subrange(0, n as int),
{
    assert forall|i: int| 0 <= i < id.len() implies '\0' <= #[trigger] id[i] <= '\u{7f}' by {
        assert(id[i] < '\u{80}');
        lemma_lowest_char(id[i]);
    }
    assert(vstd::utf8::is_ascii_chars(id));
    vstd::utf8::is_ascii_chars_encode_utf8(id);
    vstd::utf8::encode_utf8_valid_utf8(id);
    let bytes = vstd::utf8::encode_utf8(id);
    let k = shown_bytes(id, n);
    let front = id.subrange(0, k);
    assert(vstd::utf8::is_ascii_chars(front));
    vstd::utf8::is_ascii_chars_encode_utf8(front);
    vstd::utf8::encode_utf8_decode_utf8(front);
    assert(bytes.subrange(0, k) =~= vstd::utf8::encode_utf8(front)) by {
        assert forall|i: int| 0 <= i < k implies bytes[i] == vstd::utf8::encode_utf8(front)[i] by {
            assert(bytes[i] == id[i] as u8);
            assert(front[i] == id[i]);
        }
    }
    if k == id.len() {
        assert(front =~= id);
    }
    if k < bytes.len() {
        vstd::utf8::is_char_boundary_iff_not_is_continuation_byte(bytes, k);
        assert(bytes[k] == id[k] as u8);
    }
    vstd::utf8::is_char_boundary_start_end_of_seq(bytes);
}

/// A time span is given in hours, minutes and seconds that add up to it, with at
/// most 59 minutes and 59 seconds; leading units of which there are none are left
/// out.
pub proof fn law_duration_adds_up(h: nat, m: nat, s: nat)
    requires
        m < 60,
        s < 60,
    ensures
        ({
            let shown = duration_text(h * 3600 + m * 60 + s);
            let seconds = text::decimal(s) + "s"@;
            &&& h > 0 ==> shown == text::decimal(h) + "h "@ + text::decimal(m) + "m "@ + seconds
            &&& h == 0 && m > 0 ==> shown == text::decimal(m) + "m "@ + seconds
            &&& h == 0 && m == 0 ==> shown == seconds
        }),
{
    let secs = h * 3600 + m * 60 + s;
    assert(secs / 3600 == h);
    assert((secs % 3600) / 60 == m);
    assert(secs % 60 == s);
}

/// Whether a line has the sign of a status at `at`: one sign for each of "ok",
/// "warn" and "error", and a question mark for anything else.
pub open spec fn has_sign(line: Seq<char>, at: int, status: Seq<char>) -> bool {
    &&& (line[at] == '✓') == (status == "ok"@)
    &&& (line[at] == '⚠') == (status == "warn"@)
    &&& (line[at] == '✗') == (status == "error"@)
    &&& (line[at] == '?') == (status != "ok"@ && status != "warn"@ && status != "error"@)
}

/// Whether a line is about a check: its sign, its name, its detail, and how long
/// it took, if that is known.
pub open spec fn is_about(line: Seq<char>, name: Seq<char>, check: CheckResult) -> bool {
    let end = 13 + check.detail@.len() as int;
    &&& line.len() >= end
    &&& has_sign(line, 2, check.status@)
    &&& line.subrange(4, 11) == name
    &&& line.subrange(13, end) == check.detail@
    &&& match check.latency_ms {
        Some(ms) => line.subrange(end, line.len() as int) == " ("@ + text::decimal(ms as nat)
            + "ms)"@,
        None => line.len() == end,
    }
}

proof fn lemma_check_row(name: Seq<char>, check: CheckResult)
    requires
        name.len() == 7,
    ensures
        is_about(check_row(name, check), name, check),
        check_row(name, check)[0] == ' ',
{
    reveal_strlit("  ");
    reveal_strlit(" ");
    reveal_strlit(": ");
    lemma_icons(check.status@);
    let line = check_row(name, check);
    let end = 13 + check.detail@.len() as int;
    assert(line[2] == icon_of(check.status@)[0]);
    assert(line.subrange(4, 11) =~= name);
    assert(line.subrange(13, end) =~= check.detail@);
    if let Some(ms) = check.latency_ms {
        assert(line.subrange(end, line.len() as int) =~= " ("@ + text::decimal(ms as nat)
            + "ms)"@);
    }
}

proof fn lemma_icons(status: Seq<char>)
    ensures
        icon_of(status).len() == 1,
        has_sign(icon_of(status), 0, status),
{
    reveal_strlit("✓");
    reveal_strlit("⚠");
    reveal_strlit("✗");
    reveal_strlit("?");
    reveal_strlit("ok");
    reveal_strlit("warn");
    reveal_strlit("error");
    assert("ok"@.len() == 2 && "warn"@.len() == 4 && "error"@.len() == 5);
}

/// The diagnosis lists the five checks, each in a line of its own with its own
/// sign, name and detail, in this order.
pub proof fn law_diagnosis_lists_every_check(d: DiagnosticsResponse)
    ensures
        diag_lines(d).len() >= 7,
        is_about(diag_lines(d)[2], "Daemon "@, d.daemon),
        is_about(diag_lines(d)[3], "Control"@, d.control),
        is_about(diag_lines(d)[4], "STUN   "@, d.stun),
        is_about(diag_lines(d)[5], "Relay  "@, d.relay),
        is_about(diag_lines(d)[6], "TUN    "@, d.tun),
{
    reveal_strlit("Daemon ");
    reveal_strlit("Control");
    reveal_strlit("STUN   ");
    reveal_strlit("Relay  ");
    reveal_strlit("TUN    ");
    lemma_check_row("Daemon "@, d.daemon);
    lemma_check_row("Control"@, d.control);
    lemma_check_row("STUN   "@, d.stun);
    lemma_check_row("Relay  "@, d.relay);
    lemma_check_row("TUN    "@, d.tun);
}

/// The diagnosis ends with the verdict that all checks passed exactly if the
/// status of each of the five checks is "ok", that is, if the line of each has the
/// sign for it. The verdict stands nowhere else.
pub proof fn law_verdict_only_if_every_check_passed(d: DiagnosticsResponse)
    ensures
        diag_lines(d).last() == "All checks passed."@ <==> {
            &&& d.daemon.status@ == "ok"@
            &&& d.control.status@ == "ok"@
            &&& d.stun.status@ == "ok"@
            &&& d.relay.status@ == "ok"@
            &&& d.tun.status@ == "ok"@
        },
        diag_lines(d).last() == "All checks passed."@ <==> forall|k: int|
            2 <= k < 7 ==> (#[trigger] diag_lines(d)[k])[2] == '✓',
        forall|k: int|
            0 <= k < diag_lines(d).len() - 1 ==> #[trigger] diag_lines(d)[k]
                != "All checks passed."@,
{
    reveal_strlit("All checks passed.");
    reveal_strlit("ConnectAlso Diagnostics");
    reveal_strlit("  Peers:");
    reveal_strlit("    ");
    reveal_strlit("Daemon ");
    reveal_strlit("Control");
    reveal_strlit("STUN   ");
    reveal_strlit("Relay  ");
    reveal_strlit("TUN    ");
    let lines = diag_lines(d);
    let verdict = "All checks passed."@;
    law_diagnosis_lists_every_check(d);
    lemma_check_row("Daemon "@, d.daemon);
    lemma_check_row("Control"@, d.control);
    lemma_check_row("STUN   "@, d.stun);
    lemma_check_row("Relay  "@, d.relay);
    lemma_check_row("TUN    "@, d.tun);
    lemma_rule_len("─"@, 52);
    reveal_strlit("─");
    assert(verdict[0] == 'A' && verdict.len() == 18);
    let n = d.peers@.len() as int;
    assert forall|i: int| 0 <= i < n implies (#[trigger] diag_row(d.peers@[i]))[0] == ' '
        && diag_row(d.peers@[i]).len() > 0 by {}
    let body = if n == 0 {
        7
    } else {
        9 + n
    };
    assert forall|k: int| 0 <= k < body implies #[trigger] lines[k] != verdict by {
        if k == 0 {
            assert(lines[0] == "ConnectAlso Diagnostics"@);
        } else if k == 1 {
            assert(lines[1] == repeated("─"@, 52));
        } else if k < 7 {
            assert(lines[k][0] == ' ');
        } else if k == 7 {
            assert(lines[7].len() == 0);
        } else if k == 8 {
            assert(lines[8] == "  Peers:"@);
        } else {
            assert(lines[k] == diag_row(d.peers@[k - 9]));
        }
    }
    if all_ok(d) {
        assert(lines.len() == body + 2);
        assert(lines[body] == Seq::<char>::empty());
        assert(lines.last() == verdict);
    } else {
        assert(lines.len() == body);
    }
    assert(lines[2][2] == '✓' <==> d.daemon.status@ == "ok"@);
    assert(lines[3][2] == '✓' <==> d.control.status@ == "ok"@);
    assert(lines[4][2] == '✓' <==> d.stun.status@ == "ok"@);
    assert(lines[5][2] == '✓' <==> d.relay.status@ == "ok"@);
    assert(lines[6][2] == '✓' <==> d.tun.status@ == "ok"@);
}

proof fn lemma_rule_len(s: Seq<char>, n: nat)
    ensures
        repeated(s, n).len() == n * s.len(),
    decreases n,
{
    if n > 0 {
        lemma_rule_len(s, (n - 1) as nat);
        assert(n * s.len() == (n - 1) * s.len() + s.len()) by (nonlinear_arith)
            requires
                n > 0,
        ;
    } else {
        assert(0 * s.len() == 0);
    }
}

/// The diagnosis has a line for each peer, in their order: whether it is
/// reachable, its name, its address and the path to it.
pub proof fn law_diagnosis_lists_every_peer(d: DiagnosticsResponse, i: int)
    requires
        0 <= i < d.peers@.len(),
    ensures
        ({
            let p = d.peers@[i];
            let line = diag_lines(d)[9 + i];
            let name_end = 6 + column(p.hostname@, 12);
            &&& diag_lines(d).len() >= 9 + d.peers@.len()
            &&& p.reachable ==> line[4] == '✓'
            &&& !p.reachable ==> line[4] == '✗'
            &&& line.subrange(6, 6 + p.hostname@.len() as int) == p.hostname@
            &&& line.subrange(name_end + 2, name_end + 2 + p.virtual_ip@.len()) == p.virtual_ip@
            &&& line.subrange(line.len() - 5 - p.path@.len(), line.len() as int) == "path="@
                + p.path@
        }),
{
    reveal_strlit("    ");
    reveal_strlit("  ");
    reveal_strlit(" ");
    reveal_strlit("✓");
    reveal_strlit("✗");
    reveal_strlit("  path=");
    reveal_strlit("path=");
    let p = d.peers@[i];
    let line = diag_lines(d)[9 + i];
    assert(line == diag_row(p));
    law_padding_keeps_the_value(p.hostname@, 12);
    law_padding_keeps_the_value(p.virtual_ip@, 16);
    let a = padded(p.hostname@, 12);
    let b = padded(p.virtual_ip@, 16);
    let n = a.len() as int;
    assert(line.subrange(6, 6 + p.hostname@.len() as int) =~= a.subrange(
        0,
        p.hostname@.len() as int,
    ));
    assert(line.subrange(6 + n + 2, 6 + n + 2 + p.virtual_ip@.len()) =~= b.subrange(
        0,
        p.virtual_ip@.len() as int,
    ));
    assert(line.subrange(line.len() - 5 - p.path@.len(), line.len() as int) =~= "path="@ + p.path@);
}

/// The lines of a table: how wide a column is that is `width` wide at least.
pub open spec fn column(value: Seq<char>, width: int) -> int {
    if value.len() >= width {
        value.len() as int
    } else {
        width
    }
}

proof fn lemma_four_columns(
    a: Seq<char>,
    wa: nat,
    b: Seq<char>,
    wb: nat,
    c: Seq<char>,
    wc: nat,
    last: Seq<char>,
)
    ensures
        ({
            let line = four_columns(a, wa, b, wb, c, wc, last);
            let pb = 4 + column(a, wa as int);
            let pc = pb + 2 + column(b, wb as int);
            let pd = pc + 2 + column(c, wc as int);
            &&& line.len() == pd + last.len()
            &&& line.subrange(2, 2 + a.len() as int) == a
            &&& line.subrange(pb, pb + b.len()) == b
            &&& line.subrange(pc, pc + c.len()) == c
            &&& line.subrange(pd, pd + last.len()) == last
        }),
{
    reveal_strlit("  ");
    law_padding_keeps_the_value(a, wa);
    law_padding_keeps_the_value(b, wb);
    law_padding_keeps_the_value(c, wc);
    let line = four_columns(a, wa, b, wb, c, wc, last);
    let pb = 4 + column(a, wa as int);
    let pc = pb + 2 + column(b, wb as int);
    let pd = pc + 2 + column(c, wc as int);
    assert(line.subrange(2, 2 + a.len() as int) =~= padded(a, wa).subrange(0, a.len() as int));
    assert(line.subrange(pb, pb + b.len()) =~= padded(b, wb).subrange(0, b.len() as int));
    assert(line.subrange(pc, pc + c.len()) =~= padded(c, wc).subrange(0, c.len() as int));
    assert(line.subrange(pd, pd + last.len()) =~= last);
}

proof fn lemma_three_columns(
    a: Seq<char>,
    wa: nat,
    b: Seq<char>,
    wb: nat,
    last: Seq<char>,
)
    ensures
        ({
            let line = three_columns(a, wa, b, wb, last);
            let pb = 4 + column(a, wa as int);
            let pc = pb + 2 + column(b, wb as int);
            &&& line.len() == pc + last.len()
            &&& line.subrange(2, 2 + a.len() as int) == a
            &&& line.subrange(pb, pb + b.len()) == b
            &&& line.subrange(pc, pc + last.len()) == last
        }),
{
    reveal_strlit("  ");
    law_padding_keeps_the_value(a, wa);
    law_padding_keeps_the_value(b, wb);
    let line = three_columns(a, wa, b, wb, last);
    let pb = 4 + column(a, wa as int);
    let pc = pb + 2 + column(b, wb as int);
    assert(line.subrange(2, 2 + a.len() as int) =~= padded(a, wa).subrange(0, a.len() as int));
    assert(line.subrange(pb, pb + b.len()) =~= padded(b, wb).subrange(0, b.len() as int));
    assert(line.subrange(pc, pc + last.len()) =~= last);
}

/// The status report says of the daemon what the daemon has replied, and counts
/// the peers that the daemon has counted.
pub proof fn law_status_shows_the_daemon(s: StatusResponse, verbose: bool)
    ensures
        status_lines(s, verbose).len() == if s.peers@.len() == 0 {
            6
        } else {
            9 + s.peers@.len()
        },
        status_lines(s, verbose)[1].subrange(14, 14 + s.device_id@.len() as int) == s.device_id@,
        status_lines(s, verbose)[2].subrange(14, 14 + s.virtual_ip@.len() as int) == s.virtual_ip@,
        status_lines(s, verbose)[3].subrange(14, 14 + s.hostname@.len() as int) == s.hostname@,
        status_lines(s, verbose)[4].skip(14) == duration_text(s.uptime_secs as nat),
        status_lines(s, verbose)[5].skip(14) == text::decimal(s.peer_count as nat),
{
    reveal_strlit("  Device ID : ");
    reveal_strlit("  Virtual IP: ");
    reveal_strlit("  Hostname  : ");
    reveal_strlit("  Uptime    : ");
    reveal_strlit("  Peers     : ");
    let lines = status_lines(s, verbose);
    assert(lines[1] == "  Device ID : "@ + s.device_id@);
    assert(lines[1].subrange(14, 14 + s.device_id@.len() as int) =~= s.device_id@);
    assert(lines[2].subrange(14, 14 + s.virtual_ip@.len() as int) =~= s.virtual_ip@);
    assert(lines[3].subrange(14, 14 + s.hostname@.len() as int) =~= s.hostname@);
    assert(lines[4].skip(14) =~= duration_text(s.uptime_secs as nat));
    assert(lines[5].skip(14) =~= text::decimal(s.peer_count as nat));
}

/// The status report has a line for each peer, in their order, with the peer's
/// own identifier, address and name, and with the path to it if that is asked for.
pub proof fn law_status_lists_every_peer(s: StatusResponse, verbose: bool, i: int)
    requires
        0 <= i < s.peers@.len(),
    ensures
        ({
            let p = s.peers@[i];
            let line = status_lines(s, verbose)[9 + i];
            let id = shortened(
                p.device_id@,
                if verbose {
                    16
                } else {
                    20
                },
            );
            let pb = 4 + column(
                id,
                if verbose {
                    16
                } else {
                    20
                },
            );
            let pc = pb + 2 + column(p.virtual_ip@, 16);
            &&& line.subrange(2, 2 + id.len() as int) == id
            &&& line.subrange(pb, pb + p.virtual_ip@.len()) == p.virtual_ip@
            &&& verbose ==> line.subrange(pc, pc + p.path@.len()) == p.path@
            &&& line.subrange(line.len() - p.hostname@.len(), line.len() as int) == p.hostname@
        }),
{
    let p = s.peers@[i];
    let line = status_lines(s, verbose)[9 + i];
    assert(line == status_row(p, verbose));
    if verbose {
        lemma_four_columns(
            shortened(p.device_id@, 16),
            16,
            p.virtual_ip@,
            16,
            p.path@,
            10,
            p.hostname@,
        );
    } else {
        lemma_three_columns(shortened(p.device_id@, 20), 20, p.virtual_ip@, 16, p.hostname@);
    }
}

/// The list of all devices has a line for each, in their order, with the device's
/// own identifier, address, status and name, and a dash for what is missing.
pub proof fn law_every_device_is_listed(devices: Seq<DeviceLine>, i: int)
    requires
        0 <= i < devices.len(),
    ensures
        ({
            let d = devices[i];
            let line = device_lines(devices)[2 + i];
            let pb = 4 + column(or_dash(d.device_id), 38);
            let pc = pb + 2 + column(or_dash(d.ipv4), 16);
            let pd = pc + 2 + column(or_dash(d.status), 12);
            &&& device_lines(devices).len() == 2 + devices.len()
            &&& line.subrange(2, 2 + or_dash(d.device_id).len() as int) == or_dash(d.device_id)
            &&& line.subrange(pb, pb + or_dash(d.ipv4).len()) == or_dash(d.ipv4)
            &&& line.subrange(pc, pc + or_dash(d.status).len()) == or_dash(d.status)
            &&& line.subrange(pd, line.len() as int) == or_dash(d.hostname)
        }),
{
    let d = devices[i];
    let line = device_lines(devices)[2 + i];
    assert(line == device_row(d));
    lemma_four_columns(
        or_dash(d.device_id),
        38,
        or_dash(d.ipv4),
        16,
        or_dash(d.status),
        12,
        or_dash(d.hostname),
    );
}

/// What is missing is shown as a dash, and what is there as it is.
pub proof fn law_missing_values_are_dashes(value: Option<String>)
    ensures
        value is None ==> or_dash(value) == seq!['-'],
        value matches Some(v) ==> or_dash(value) == v@,
{
    reveal_strlit("-");
    assert("-"@ =~= seq!['-']);
}

/// The list of devices that wait for approval has a line for each, in their
/// order: its identifier, its name and its address.
pub proof fn law_every_pending_device_is_listed(pending: Seq<DeviceLine>, i: int)
    requires
        0 <= i < pending.len(),
    ensures
        ({
            let d = pending[i];
            let line = pending_lines(pending)[1 + i];
            let pb = 4 + or_dash(d.device_id).len() as int;
            let pc = pb + 2 + or_dash(d.hostname).len();
            &&& pending_lines(pending).len() == 3 + pending.len()
            &&& line.subrange(2, 2 + or_dash(d.device_id).len() as int) == or_dash(d.device_id)
            &&& line.subrange(pb, pb + or_dash(d.hostname).len()) == or_dash(d.hostname)
            &&& line.subrange(pc, line.len() as int) == or_dash(d.ipv4)
        }),
{
    reveal_strlit("  ");
    let d = pending[i];
    let line = pending_lines(pending)[1 + i];
    assert(line == pending_row(d));
    let pb = 4 + or_dash(d.device_id).len() as int;
    let pc = pb + 2 + or_dash(d.hostname).len();
    assert(line.subrange(2, 2 + or_dash(d.device_id).len() as int) =~= or_dash(d.device_id));
    assert(line.subrange(pb, pb + or_dash(d.hostname).len()) =~= or_dash(d.hostname));
    assert(line.subrange(pc, line.len() as int) =~= or_dash(d.ipv4));
}

/// An answer is a confirmation exactly if it is the letter Y, in whichever case,
/// with nothing but white space around it.
pub proof fn law_confirmed_by_the_letter_alone(left: Seq<char>, c: char, right: Seq<char>)
    requires
        forall|i: int| 0 <= i < left.len() ==> text::whitespace(#[trigger] left[i]),
        forall|i: int| 0 <= i < right.len() ==> text::whitespace(#[trigger] right[i]),
        !text::whitespace(c),
        c < '\u{80}',
    ensures
        text::lowercase(text::trimmed(left + seq![c] + right)) == "y"@ <==> c == 'y' || c == 'Y',
{
    reveal_strlit("y");
    text::law_trimmed_loses_the_margins(left, seq![c], right);
    assert(text::is_ascii(seq![c]));
    let low = text::lowercase(seq![c]);
    assert(low =~= seq![text::lower_ascii(c)]);
    assert("y"@ =~= seq!['y']);
    if low == "y"@ {
        assert(low[0] == 'y');
    }
}

/// The report of a diagnosis ends with the verdict exactly if every check is "ok".
pub proof fn law_cmd_diag(d: DiagnosticsResponse, out: Vec<String>)
    requires
        call_ensures(cmd_diag, (&Some(d),), out),
    ensures
        out@.len() >= 7,
        out@.last()@ == "All checks passed."@ <==> {
            &&& d.daemon.status@ == "ok"@
            &&& d.control.status@ == "ok"@
            &&& d.stun.status@ == "ok"@
            &&& d.relay.status@ == "ok"@
            &&& d.tun.status@ == "ok"@
        },
        is_about(out@[2]@, "Daemon "@, d.daemon),
        is_about(out@[3]@, "Control"@, d.control),
        is_about(out@[4]@, "STUN   "@, d.stun),
        is_about(out@[5]@, "Relay  "@, d.relay),
        is_about(out@[6]@, "TUN    "@, d.tun),
{
    law_verdict_only_if_every_check_passed(d);
    law_diagnosis_lists_every_check(d);
    let lines = text::texts(out@);
    assert(lines == diag_lines(d));
    assert(lines.last() == out@.last()@);
    assert(lines[2] == out@[2]@ && lines[3] == out@[3]@ && lines[4] == out@[4]@ && lines[5]
        == out@[5]@ && lines[6] == out@[6]@);
}

/// The daemon is started with each setting behind its own option.
pub proof fn law_daemon_args(
    control_url: &str,
    stun_server: &str,
    relay_server: &str,
    hostname: &str,
    out: Vec<String>,
)
    requires
        call_ensures(daemon_args, (control_url, stun_server, relay_server, hostname), out),
    ensures
        out@.len() == 8,
        out@[0]@ == "--control-url"@ && out@[1]@ == control_url@,
        out@[2]@ == "--stun-server"@ && out@[3]@ == stun_server@,
        out@[4]@ == "--relay-server"@ && out@[5]@ == relay_server@,
        out@[6]@ == "--hostname"@ && out@[7]@ == hostname@,
{
    let lines = text::texts(out@);
    assert(lines.len() == 8);
    assert(lines[0] == out@[0]@ && lines[1] == out@[1]@ && lines[2] == out@[2]@ && lines[3]
        == out@[3]@);
    assert(lines[4] == out@[4]@ && lines[5] == out@[5]@ && lines[6] == out@[6]@ && lines[7]
        == out@[7]@);
}

/// The administrator is told which device was approved or revoked, and told
/// otherwise if it was not.
pub proof fn law_admin_is_told_the_device(
    device_id: &str,
    done: bool,
    approved: String,
    revoked: String,
)
    requires
        call_ensures(cmd_admin_approve, (device_id, done), approved),
        call_ensures(cmd_admin_revoke, (device_id, done), revoked),
    ensures
        done ==> approved@.len() == 17 + device_id@.len() && approved@.subrange(
            7,
            7 + device_id@.len() as int,
        ) == device_id@ && approved@.skip(7 + device_id@.len() as int) == " approved."@,
        done ==> revoked@.len() == 16 + device_id@.len() && revoked@.subrange(
            7,
            7 + device_id@.len() as int,
        ) == device_id@ && revoked@.skip(7 + device_id@.len() as int) == " revoked."@,
        !done ==> approved@[0] == 'A' && revoked@[0] == 'R',
{
    reveal_strlit("Device ");
    reveal_strlit(" approved.");
    reveal_strlit(" revoked.");
    reveal_strlit("Approval failed — device not found or already approved.");
    reveal_strlit("Revocation failed.");
    if done {
        assert(approved@.subrange(7, 7 + device_id@.len() as int) =~= device_id@);
        assert(approved@.skip(7 + device_id@.len() as int) =~= " approved."@);
        assert(revoked@.subrange(7, 7 + device_id@.len() as int) =~= device_id@);
        assert(revoked@.skip(7 + device_id@.len() as int) =~= " revoked."@);
    }
}

} // verus!
