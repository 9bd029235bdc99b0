//! What the desktop tray shows.

use vstd::prelude::*;

use crate::text;

verus! {

/// Daemon status response data.
#[derive(Debug, Clone)]
pub struct StatusReply {
    /// Unique device identifier.
    pub device_id: String,
    /// Number of connected peers.
    pub peer_count: usize,
    /// Connection path type of each peer (direct / relay / probing).
    pub paths: Vec<String>,
}

/// Connection status represented by the tray icon.
#[derive(Debug, Clone, Copy, PartialEq, Eq, Structural)]
pub enum ConnStatus {
    /// Direct P2P connection.
    Connected,
    /// Connected via relay only.
    RelayOnly,
    /// Disconnected.
    Disconnected,
}

/// The connection status that the daemon's reply amounts to. A daemon that
/// gives no reply, or has no identifier, is not connected; one direct path is
/// enough to count as connected directly.
pub open spec fn status_of(reply: Option<StatusReply>) -> ConnStatus {
    match reply {
        None => ConnStatus::Disconnected,
        Some(s) => if s.device_id@.len() == 0 {
            ConnStatus::Disconnected
        } else if text::texts(s.paths@).contains("direct"@) {
            ConnStatus::Connected
        } else if s.peer_count > 0 {
            ConnStatus::RelayOnly
        } else {
            ConnStatus::Disconnected
        },
    }
}

/// The connection status that the daemon's reply amounts to.
pub fn fetch_status(reply: &Option<StatusReply>) -> (status: ConnStatus)
    ensures
        status == status_of(*reply),
{
    let s: &StatusReply = match reply {
        Some(s) => s,
        None => {
            return ConnStatus::Disconnected;
        },
    };
    if s.device_id.as_str().is_empty() {
        return ConnStatus::Disconnected;
    }
    let ghost paths = text::texts(s.paths@);
    let mut i: usize = 0;
    while i < s.paths.len()
        invariant
            i <= s.paths@.len(),
            paths == text::texts(s.paths@),
            forall|j: int| 0 <= j < i ==> #[trigger] paths[j] != "direct"@,
            *reply == Some(*s),
            s.device_id@.len() > 0,
        decreases s.paths@.len() - i,
    {
        if text::same(s.paths[i].as_str(), "direct") {
            assert(paths[i as int] == "direct"@);
            return ConnStatus::Connected;
        }
        i = i + 1;
    }
    if s.peer_count > 0 {
        ConnStatus::RelayOnly
    } else {
        ConnStatus::Disconnected
    }
}

/// Return the RGBA color corresponding to the connection status.
///
/// | Status       | Color  |
/// |--------------|--------|
/// | Connected    | Green  |
/// | RelayOnly    | Orange |
/// | Disconnected | Gray   |
pub fn status_color(status: ConnStatus) -> (rgba: [u8; 4])
    ensures
        rgba@ == match status {
            ConnStatus::Connected => seq![0x4Cu8, 0xAFu8, 0x50u8, 0xFFu8],
            ConnStatus::RelayOnly => seq![0xFFu8, 0x98u8, 0x00u8, 0xFFu8],
            ConnStatus::Disconnected => seq![0x9Eu8, 0x9Eu8, 0x9Eu8, 0xFFu8],
        },
{
    let rgba: [u8; 4] = match status {
        ConnStatus::Connected => [0x4C, 0xAF, 0x50, 0xFF],
        ConnStatus::RelayOnly => [0xFF, 0x98, 0x00, 0xFF],
        ConnStatus::Disconnected => [0x9E, 0x9E, 0x9E, 0xFF],
    };
    assert(rgba@ =~= match status {
        ConnStatus::Connected => seq![0x4Cu8, 0xAFu8, 0x50u8, 0xFFu8],
        ConnStatus::RelayOnly => seq![0xFFu8, 0x98u8, 0x00u8, 0xFFu8],
        ConnStatus::Disconnected => seq![0x9Eu8, 0x9Eu8, 0x9Eu8, 0xFFu8],
    });
    rgba
}

/// Convert the connection status to a human-readable label.
pub fn fmt_status(status: ConnStatus) -> (label: &'static str)
    ensures
        label@ == match status {
            ConnStatus::Connected => "Connected (P2P)"@,
            ConnStatus::RelayOnly => "Connected (Relay)"@,
            ConnStatus::Disconnected => "Disconnected"@,
        },
{
    match status {
        ConnStatus::Connected => "Connected (P2P)",
        ConnStatus::RelayOnly => "Connected (Relay)",
        ConnStatus::Disconnected => "Disconnected",
    }
}

/// The tray shows a connection only if the daemon has replied with an identifier:
/// a direct one exactly if the path to some peer is "direct", and otherwise one
/// through the relay exactly if there are peers.
pub proof fn law_tray_shows_the_best_path(s: StatusReply)
    ensures
        status_of(None) == ConnStatus::Disconnected,
        status_of(Some(s)) == ConnStatus::Connected <==> s.device_id@.len() > 0 && exists|i: int|
            0 <= i < s.paths@.len() && (#[trigger] s.paths@[i])@ == "direct"@,
        status_of(Some(s)) == ConnStatus::RelayOnly <==> s.device_id@.len() > 0 && s.peer_count > 0
            && forall|i: int|
            0 <= i < s.paths@.len() ==> (#[trigger] s.paths@[i])@ != "direct"@,
{
    let paths = text::texts(s.paths@);
    if paths.contains("direct"@) {
        let i = choose|i: int| 0 <= i < paths.len() && paths[i] == "direct"@;
        assert(s.paths@[i]@ == "direct"@);
    }
    if exists|i: int| 0 <= i < s.paths@.len() && (#[trigger] s.paths@[i])@ == "direct"@ {
        let i = choose|i: int| 0 <= i < s.paths@.len() && (#[trigger] s.paths@[i])@ == "direct"@;
        assert(paths[i] == "direct"@);
    }
}

} // verus!
