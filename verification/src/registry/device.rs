//! Devices, as the registry stores them and as its callers see them.

use vstd::prelude::*;

use crate::addr;
use crate::addr::Ipv4Addr;
use crate::codec;
use crate::relay_proto::PeerId;

verus! {

/// Length of a device's public key.
pub const PUBLIC_KEY_LEN: usize = 32;

/// Device status.
#[derive(Debug, Clone, Copy, PartialEq, Eq, Structural)]
pub enum DeviceStatus {
    /// Pending approval.
    Pending,
    /// Approved.
    Approved,
    /// Revoked.
    Revoked,
}

impl DeviceStatus {
    /// The status as it is stored.
    pub open spec fn number(self) -> i32 {
        match self {
            DeviceStatus::Pending => 0,
            DeviceStatus::Approved => 1,
            DeviceStatus::Revoked => -1i32,
        }
    }

    /// The status that a stored number stands for: anything unknown is still
    /// to be approved.
    pub open spec fn of_number(v: i32) -> DeviceStatus {
        if v == 1 {
            DeviceStatus::Approved
        } else if v == -1 {
            DeviceStatus::Revoked
        } else {
            DeviceStatus::Pending
        }
    }

    /// Convert device status from database integer.
    pub fn from_i32(v: i32) -> (status: Self)
        ensures
            status == Self::of_number(v),
    {
        match v {
            1 => DeviceStatus::Approved,
            -1 => DeviceStatus::Revoked,
            _ => DeviceStatus::Pending,
        }
    }

    /// The status as a database integer.
    pub fn to_i32(self) -> (v: i32)
        ensures
            v == self.number(),
    {
        match self {
            DeviceStatus::Pending => 0,
            DeviceStatus::Approved => 1,
            DeviceStatus::Revoked => -1,
        }
    }

    /// The status in words.
    pub fn label(self) -> (word: &'static str)
        ensures
            word@ == match self {
                DeviceStatus::Pending => "pending"@,
                DeviceStatus::Approved => "approved"@,
                DeviceStatus::Revoked => "revoked"@,
            },
    {
        match self {
            DeviceStatus::Pending => "pending",
            DeviceStatus::Approved => "approved",
            DeviceStatus::Revoked => "revoked",
        }
    }
}

/// A row of the device table.
#[derive(Debug, Clone)]
pub struct DeviceRow {
    pub device_id: String,
    pub public_key: Vec<u8>,
    pub hostname: String,
    pub ipv4: String,
    pub status: i32,
    pub created_at: i64,
    pub last_seen: i64,
}

/// The contents of a row of the device table.
#[verifier::ext_equal]
pub struct Device {
    pub device_id: Seq<char>,
    pub public_key: Seq<u8>,
    pub hostname: Seq<char>,
    pub ipv4: Seq<char>,
    pub status: i32,
    pub created_at: i64,
    pub last_seen: i64,
}

impl View for DeviceRow {
    type V = Device;

    open spec fn view(&self) -> Device {
        Device {
            device_id: self.device_id@,
            public_key: self.public_key@,
            hostname: self.hostname@,
            ipv4: self.ipv4@,
            status: self.status,
            created_at: self.created_at,
            last_seen: self.last_seen,
        }
    }
}

/// Database record for a registered device.
#[derive(Debug, Clone)]
pub struct DeviceRecord {
    /// Device unique identifier.
    pub device_id: PeerId,
    /// X25519 public key.
    pub public_key: [u8; 32],
    /// Device hostname.
    pub hostname: String,
    /// Assigned virtual IPv4 address.
    pub ipv4: Ipv4Addr,
    /// Device status.
    pub status: DeviceStatus,
    /// Registration timestamp (UNIX seconds).
    pub created_at: i64,
    /// Last seen timestamp (UNIX seconds).
    pub last_seen: i64,
}

/// The contents of a device record.
#[verifier::ext_equal]
pub struct Record {
    pub device_id: PeerId,
    pub public_key: Seq<u8>,
    pub hostname: Seq<char>,
    pub ipv4: Ipv4Addr,
    pub status: DeviceStatus,
    pub created_at: i64,
    pub last_seen: i64,
}

impl View for DeviceRecord {
    type V = Record;

    open spec fn view(&self) -> Record {
        Record {
            device_id: self.device_id,
            public_key: self.public_key@,
            hostname: self.hostname@,
            ipv4: self.ipv4,
            status: self.status,
            created_at: self.created_at,
            last_seen: self.last_seen,
        }
    }
}

impl Device {
    /// The record that a row stands for. An identifier that cannot be read
    /// counts as nil, an address that cannot be read as `0.0.0.0`.
    pub open spec fn record(self) -> Record {
        Record {
            device_id: match PeerId::parsed(self.device_id) {
                Some(id) => id,
                None => PeerId { bits: 0 },
            },
            public_key: self.public_key.subrange(0, PUBLIC_KEY_LEN as int),
            hostname: self.hostname,
            ipv4: match Ipv4Addr::parsed(self.ipv4) {
                Some(ip) => ip,
                None => Ipv4Addr { bits: 0 },
            },
            status: DeviceStatus::of_number(self.status),
            created_at: self.created_at,
            last_seen: self.last_seen,
        }
    }
}

impl Record {
    /// The row that a record is stored as.
    pub open spec fn row(self) -> Device {
        Device {
            device_id: self.device_id.text(),
            public_key: self.public_key,
            hostname: self.hostname,
            ipv4: self.ipv4.text(),
            status: self.status.number(),
            created_at: self.created_at,
            last_seen: self.last_seen,
        }
    }
}

impl DeviceRecord {
    /// The record that a row stands for.
    pub fn from_row(r: &DeviceRow) -> (record: Self)
        requires
            r.public_key@.len() >= PUBLIC_KEY_LEN,
        ensures
            record@ == r@.record(),
            // What was stored of a record is read back the same.
            forall|stored: Record|
                #[trigger] stored.row() == r@ && stored.public_key.len() == PUBLIC_KEY_LEN
                    ==> record@ == stored,
    {
        let mut public_key: [u8; 32] = [0u8; 32];
        let mut i: usize = 0;
        while i < PUBLIC_KEY_LEN
            invariant
                i <= PUBLIC_KEY_LEN <= r.public_key@.len(),
                forall|j: int| 0 <= j < i ==> public_key@[j] == #[trigger] r.public_key@[j],
            decreases PUBLIC_KEY_LEN - i,
        {
            public_key[i] = r.public_key[i];
            i = i + 1;
        }
        assert(public_key@ =~= r.public_key@.subrange(0, PUBLIC_KEY_LEN as int));
        let device_id: PeerId = match PeerId::parse_str(r.device_id.as_str()) {
            Some(id) => id,
            None => PeerId::nil(),
        };
        let ipv4: Ipv4Addr = match Ipv4Addr::parse(r.ipv4.as_str()) {
            Some(ip) => ip,
            None => Ipv4Addr::unspecified(),
        };
        let record = DeviceRecord {
            device_id,
            public_key,
            hostname: r.hostname.clone(),
            ipv4,
            status: DeviceStatus::from_i32(r.status),
            created_at: r.created_at,
            last_seen: r.last_seen,
        };
        proof {
            assert forall|stored: Record|
                #[trigger] stored.row() == r@ && stored.public_key.len()
                    == PUBLIC_KEY_LEN implies record@ == stored by {
                addr::law_text_roundtrip(stored.ipv4);
                assert(stored.device_id.text() == r@.device_id);
                law_status_number_roundtrip(stored.status);
                assert(record@ =~= stored);
            }
        }
        record
    }

    /// The row that a record is stored as, and is read back from.
    pub fn to_row(&self) -> (row: DeviceRow)
        ensures
            row@ == self@.row(),
            row@.record() == self@,
    {
        let public_key: Vec<u8> = codec::copy_range(
            self.public_key.as_slice(),
            0,
            PUBLIC_KEY_LEN,
        );
        assert(public_key@ =~= self.public_key@);
        let device_id: String = self.device_id.to_string();
        proof {
            addr::law_text_roundtrip(self.ipv4);
            law_status_number_roundtrip(self.status);
            assert(self@.row().public_key.subrange(0, PUBLIC_KEY_LEN as int) =~= public_key@);
        }
        DeviceRow {
            device_id,
            public_key,
            hostname: self.hostname.clone(),
            ipv4: self.ipv4.to_string(),
            status: self.status.to_i32(),
            created_at: self.created_at,
            last_seen: self.last_seen,
        }
    }
}

/// Every status is read back as it was stored.
pub proof fn law_status_number_roundtrip(status: DeviceStatus)
    ensures
        DeviceStatus::of_number(status.number()) == status,
{
}

/// What a row says of a device, field by field. Any status number but 1 and -1
/// stands for a device that is still to be approved.
pub proof fn law_record_says_what_the_row_says(d: Device)
    requires
        d.public_key.len() >= 32,
    ensures
        d.record().hostname == d.hostname,
        d.record().created_at == d.created_at,
        d.record().last_seen == d.last_seen,
        d.record().public_key.len() == 32,
        forall|i: int| 0 <= i < 32 ==> #[trigger] d.record().public_key[i] == d.public_key[i],
        d.record().status is Approved <==> d.status == 1,
        d.record().status is Revoked <==> d.status == -1,
        forall|ip: Ipv4Addr| #[trigger] ip.text() == d.ipv4 ==> d.record().ipv4 == ip,
        (forall|ip: Ipv4Addr| #[trigger] ip.text() != d.ipv4) ==> d.record().ipv4.bits == 0,
{
    assert forall|ip: Ipv4Addr| #[trigger] ip.text() == d.ipv4 implies d.record().ipv4 == ip by {
        addr::law_text_roundtrip(ip);
    }
}

/// What a row holds of a record, field by field.
pub proof fn law_row_says_what_the_record_says(r: Record)
    ensures
        r.row().device_id == r.device_id.text(),
        r.row().public_key == r.public_key,
        r.row().hostname == r.hostname,
        r.row().ipv4 == r.ipv4.text(),
        r.row().created_at == r.created_at,
        r.row().last_seen == r.last_seen,
        r.row().status == match r.status {
            DeviceStatus::Pending => 0int,
            DeviceStatus::Approved => 1int,
            DeviceStatus::Revoked => -1int,
        },
{
}

} // verus!
