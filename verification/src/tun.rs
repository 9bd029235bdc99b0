//! The virtual network interface: its configuration, and what is read from it.

use vstd::prelude::*;

use crate::acl;
use crate::addr::Ipv4Addr;
use crate::codec;
use crate::error::IoError;

verus! {

pub const DEFAULT_MTU: u16 = 1500;

/// TUN device operation errors.
#[derive(Debug, Clone)]
pub enum TunError {
    /// Failed to create the TUN device.
    Create(String),
    /// Failed to send a packet through the TUN device.
    Send(IoError),
    /// Failed to receive a packet from the TUN device.
    Recv(IoError),
    /// The receive buffer is too small for the configured MTU.
    BufferTooSmall { need: usize, got: usize },
}

/// Configuration for creating a TUN device.
#[derive(Debug, Clone)]
pub struct TunConfig {
    /// Optional name for the TUN interface.
    pub name: Option<String>,
    /// IPv4 address to assign to the TUN interface.
    pub address: Ipv4Addr,
    /// Subnet mask for the TUN interface.
    pub netmask: Ipv4Addr,
    /// Maximum Transmission Unit (MTU) for the interface.
    pub mtu: u16,
}

impl Default for TunConfig {
    fn default() -> (config: Self)
        ensures
            config.name is None,
            config.address@ == seq![100u8, 64u8, 0u8, 1u8],
            config.netmask@ == seq![255u8, 255u8, 255u8, 0u8],
            config.mtu == DEFAULT_MTU,
    {
        TunConfig {
            name: None,
            address: Ipv4Addr::new(100, 64, 0, 1),
            netmask: Ipv4Addr::new(255, 255, 255, 0),
            mtu: DEFAULT_MTU,
        }
    }
}

impl TunConfig {
    /// Create a new TUN configuration with the given address and netmask.
    pub fn new(address: Ipv4Addr, netmask: Ipv4Addr) -> (config: Self)
        ensures
            config.name is None,
            config.address == address,
            config.netmask == netmask,
            config.mtu == DEFAULT_MTU,
    {
        TunConfig { name: None, address, netmask, mtu: DEFAULT_MTU }
    }

    /// Set the TUN interface name.
    pub fn with_name(self, name: String) -> (config: Self)
        ensures
            config.name == Some(name),
            config.address == self.address,
            config.netmask == self.netmask,
            config.mtu == self.mtu,
    {
        TunConfig {
            name: Some(name),
            address: self.address,
            netmask: self.netmask,
            mtu: self.mtu,
        }
    }

    /// Set the MTU for the TUN interface.
    pub fn with_mtu(self, mtu: u16) -> (config: Self)
        ensures
            config.name == self.name,
            config.address == self.address,
            config.netmask == self.netmask,
            config.mtu == mtu,
    {
        TunConfig { name: self.name, address: self.address, netmask: self.netmask, mtu }
    }
}

/// What is known of a virtual TUN network device.
#[derive(Debug, Clone)]
pub struct TunDevice {
    pub config: TunConfig,
}

impl TunDevice {
    /// A device with the given configuration.
    pub fn create(config: TunConfig) -> (device: Self)
        ensures
            device.config == config,
    {
        TunDevice { config }
    }

    /// Return the configured interface name, or `"tun"` if none was set.
    pub fn name(&self) -> (name: &str)
        ensures
            name@ == match self.config.name {
                Some(n) => n@,
                None => "tun"@,
            },
    {
        match &self.config.name {
            Some(n) => n.as_str(),
            None => "tun",
        }
    }

    /// Return the configured MTU.
    pub fn mtu(&self) -> (mtu: u16)
        ensures
            mtu == self.config.mtu,
    {
        self.config.mtu
    }

    /// Return the assigned IPv4 address.
    pub fn address(&self) -> (address: Ipv4Addr)
        ensures
            address == self.config.address,
    {
        self.config.address
    }

    /// Return the configured subnet mask.
    pub fn netmask(&self) -> (netmask: Ipv4Addr)
        ensures
            netmask == self.config.netmask,
    {
        self.config.netmask
    }

    /// Whether a packet can be received into a buffer of `len` bytes.
    ///
    /// The buffer must be at least as large as the configured MTU.
    pub fn check_buffer(&self, len: usize) -> (r: Result<(), TunError>)
        ensures
            r is Ok <==> len >= self.config.mtu,
            r matches Err(e) ==> e == (TunError::BufferTooSmall {
                need: self.config.mtu as usize,
                got: len,
            }),
    {
        if len < self.config.mtu as usize {
            return Err(TunError::BufferTooSmall { need: self.config.mtu as usize, got: len });
        }
        Ok(())
    }

    /// What receiving a packet into a buffer of `len` bytes comes to, given
    /// what the device said. A buffer that is too small is refused whatever
    /// the device said.
    pub fn recv(&self, len: usize, received: Result<usize, IoError>) -> (r: Result<
        usize,
        TunError,
    >)
        ensures
            len < self.config.mtu ==> r == Err::<usize, TunError>(
                TunError::BufferTooSmall { need: self.config.mtu as usize, got: len },
            ),
            len >= self.config.mtu ==> match received {
                Ok(n) => r == Ok::<usize, TunError>(n),
                Err(e) => r == Err::<usize, TunError>(TunError::Recv(e)),
            },
    {
        match self.check_buffer(len) {
            Ok(_) => match received {
                Ok(n) => Ok(n),
                Err(e) => Err(TunError::Recv(e)),
            },
            Err(e) => Err(e),
        }
    }

    /// What sending a packet comes to, given what the device said.
    pub fn send(&self, sent: Result<usize, IoError>) -> (r: Result<usize, TunError>)
        ensures
            match sent {
                Ok(n) => r == Ok::<usize, TunError>(n),
                Err(e) => r == Err::<usize, TunError>(TunError::Send(e)),
            },
    {
        match sent {
            Ok(n) => Ok(n),
            Err(e) => Err(TunError::Send(e)),
        }
    }
}

/// What is worth noting of a packet.
#[derive(Debug, Clone, Copy, PartialEq, Eq, Structural)]
pub enum PacketNote {
    /// An IPv4 packet.
    Ipv4 { size: usize, src: Ipv4Addr, dst: Ipv4Addr, protocol: u8 },
    /// An IPv6 packet.
    Ipv6 { size: usize },
    /// Anything else, with what stands where the version does.
    Other { size: usize, ip_version: u8 },
}

/// What is worth noting of a packet: nothing of an empty one.
pub open spec fn note_of(packet: Seq<u8>) -> Option<PacketNote> {
    if packet.len() == 0 {
        None
    } else if acl::is_ipv4(packet) {
        Some(
            PacketNote::Ipv4 {
                size: packet.len() as usize,
                src: acl::source_of(packet),
                dst: acl::destination_of(packet),
                protocol: packet[9],
            },
        )
    } else if packet[0] / 16 == 6 {
        Some(PacketNote::Ipv6 { size: packet.len() as usize })
    } else {
        Some(PacketNote::Other { size: packet.len() as usize, ip_version: packet[0] / 16 })
    }
}

/// What is worth noting of a packet.
pub fn log_packet_info(packet: &[u8]) -> (note: Option<PacketNote>)
    ensures
        note == note_of(packet@),
{
    if packet.len() == 0 {
        return None;
    }
    let version: u8 = packet[0] / 16;
    let size: usize = packet.len();
    if packet.len() >= 20 && version == 4 {
        proof {
            codec::lemma_pow256_values();
        }
        let src = Ipv4Addr { bits: codec::read_be(packet, 12, 4) as u32 };
        let dst = Ipv4Addr { bits: codec::read_be(packet, 16, 4) as u32 };
        Some(PacketNote::Ipv4 { size, src, dst, protocol: packet[9] })
    } else if version == 6 {
        Some(PacketNote::Ipv6 { size })
    } else {
        Some(PacketNote::Other { size, ip_version: version })
    }
}

/// What is noted of a packet stands in it: its size, and of an IPv4 packet the
/// addresses behind the twelfth byte and the protocol in the tenth. Whether it is
/// one is told by the upper half of the first byte and by its length.
pub proof fn law_note_says_what_the_packet_says(packet: Seq<u8>)
    requires
        packet.len() <= usize::MAX,
    ensures
        note_of(packet) is None <==> packet.len() == 0,
        note_of(packet) matches Some(note) ==> match note {
            PacketNote::Ipv4 { size, src, dst, protocol } => {
                &&& packet.len() >= 20 && packet[0] / 16 == 4
                &&& size == packet.len()
                &&& src.bits == packet[12] * 0x100_0000 + packet[13] * 0x1_0000 + packet[14] * 0x100
                    + packet[15]
                &&& dst.bits == packet[16] * 0x100_0000 + packet[17] * 0x1_0000 + packet[18] * 0x100
                    + packet[19]
                &&& protocol == packet[9]
            },
            PacketNote::Ipv6 { size } => size == packet.len() && packet[0] / 16 == 6,
            PacketNote::Other { size, ip_version } => {
                &&& size == packet.len()
                &&& ip_version == packet[0] / 16
                &&& ip_version != 6
                &&& ip_version == 4 ==> packet.len() < 20
            },
        },
{
    acl::law_packet_fields(packet);
}

} // verus!
