//! NAT behavior classes, and the check whether there is a NAT at all.

use vstd::prelude::*;

use crate::addr::SocketAddr;
use crate::traversal::stun::StunError;

verus! {

/// NAT behavior classification (RFC 3489 / 5780).
#[derive(Debug, Clone, Copy, PartialEq, Eq, Structural)]
pub enum NatType {
    /// Full Cone: any external host can send packets to the mapped
    /// address once an internal host has created a mapping.
    FullCone,
    /// Restricted Cone: only external hosts that have previously
    /// received a packet from the internal host can send back.
    RestrictedCone,
    /// Port Restricted Cone: like Restricted Cone, but the external
    /// host must also use the same port.
    PortRestrictedCone,
    /// Symmetric: each request to a different destination creates a
    /// new mapping with a potentially different external port.
    Symmetric,
    /// NAT type could not be determined (e.g. no STUN server available).
    Unknown,
    /// No NAT detected (public IP equals local IP).
    Open,
}

impl NatType {
    /// The name of the class, for a human reader.
    pub open spec fn name(self) -> Seq<char> {
        match self {
            NatType::FullCone => "Full Cone"@,
            NatType::RestrictedCone => "Restricted Cone"@,
            NatType::PortRestrictedCone => "Port Restricted Cone"@,
            NatType::Symmetric => "Symmetric"@,
            NatType::Unknown => "Unknown"@,
            NatType::Open => "Open (no NAT)"@,
        }
    }

    /// Whether mappings of this class accept packets from a peer that the
    /// host has sent to.
    pub open spec fn is_punchable(self) -> bool {
        self is FullCone || self is RestrictedCone || self is PortRestrictedCone || self is Open
    }

    /// The name of the class, for a human reader.
    pub fn to_string(&self) -> (s: String)
        ensures
            s@ == self.name(),
    {
        let name: &str = match self {
            NatType::FullCone => "Full Cone",
            NatType::RestrictedCone => "Restricted Cone",
            NatType::PortRestrictedCone => "Port Restricted Cone",
            NatType::Symmetric => "Symmetric",
            NatType::Unknown => "Unknown",
            NatType::Open => "Open (no NAT)",
        };
        name.to_owned()
    }

    /// Whether P2P hole punching is likely to succeed for this NAT type.
    pub fn supports_p2p(&self) -> (yes: bool)
        ensures
            yes == self.is_punchable(),
    {
        match self {
            NatType::FullCone | NatType::RestrictedCone | NatType::PortRestrictedCone
            | NatType::Open => true,
            NatType::Symmetric | NatType::Unknown => false,
        }
    }

    /// Whether a relay is recommended for this NAT type.
    pub fn needs_relay(&self) -> (yes: bool)
        ensures
            yes == (*self is Symmetric || *self is Unknown),
            yes == !self.is_punchable(),
    {
        match self {
            NatType::Symmetric | NatType::Unknown => true,
            _ => false,
        }
    }
}

/// A minimal NAT type detector.
///
/// Full classification (RFC 5780) requires a STUN server with
/// CHANGE-REQUEST support and multiple IP addresses. This detector
/// provides a basic check: whether the local address differs from
/// the STUN-discovered public address.
pub struct NatDetector;

impl NatDetector {
    /// Detect whether the host is behind NAT by comparing the local
    /// socket address with what STUN discovered.
    ///
    /// Returns `NatType::Open` if the addresses match, `NatType::Unknown` if
    /// NAT is detected but the specific type cannot be classified without
    /// CHANGE-REQUEST.
    pub fn detect(local: SocketAddr, discovered: Result<SocketAddr, StunError>) -> (r: Result<
        NatType,
        StunError,
    >)
        ensures
            match discovered {
                Ok(public) => r == Ok::<NatType, StunError>(
                    if local.ip_of() == public.ip_of() && local.port_of() == public.port_of() {
                        NatType::Open
                    } else {
                        NatType::Unknown
                    },
                ),
                Err(e) => r == Err::<NatType, StunError>(e),
            },
    {
        match discovered {
            Ok(public) => if local.ip() == public.ip() && local.port() == public.port() {
                Ok(NatType::Open)
            } else {
                Ok(NatType::Unknown)
            },
            Err(e) => Err(e),
        }
    }
}

/// There is no NAT exactly if the public address and port are the local ones; what
/// kind of NAT there is otherwise is not known. A discovery that failed says
/// nothing.
pub proof fn law_detect(
    local: SocketAddr,
    discovered: Result<SocketAddr, StunError>,
    r: Result<NatType, StunError>,
)
    requires
        call_ensures(NatDetector::detect, (local, discovered), r),
    ensures
        r is Ok <==> discovered is Ok,
        discovered matches Ok(public) ==> {
            &&& local.ip_of() == public.ip_of() && local.port_of() == public.port_of() ==> r == Ok::<
                NatType,
                StunError,
            >(NatType::Open)
            &&& local.ip_of() != public.ip_of() || local.port_of() != public.port_of() ==> r == Ok::<
                NatType,
                StunError,
            >(NatType::Unknown)
        },
        discovered matches Err(e) ==> r == Err::<NatType, StunError>(e),
{
}

/// A relay is needed for exactly those kinds of NAT that cannot be punched
/// through: symmetric ones, and those of which nothing is known.
pub proof fn law_relay_is_needed_where_punching_fails(kind: NatType, p2p: bool, relay: bool)
    requires
        call_ensures(NatType::supports_p2p, (&kind,), p2p),
        call_ensures(NatType::needs_relay, (&kind,), relay),
    ensures
        relay <==> kind == NatType::Symmetric || kind == NatType::Unknown,
        p2p <==> !relay,
{
}

} // verus!
