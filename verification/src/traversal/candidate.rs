//! Connection candidates.

use vstd::prelude::*;

use crate::addr::SocketAddr;

verus! {

/// Type of a connection candidate.
#[derive(Debug, Clone, Copy, PartialEq, Eq, Structural)]
pub enum CandidateType {
    /// A local interface address (behind NAT).
    Host,
    /// Public address discovered via STUN.
    ServerReflexive,
}

/// A connection candidate for a peer.
#[derive(Debug, Clone, Copy, PartialEq, Eq, Structural)]
pub struct Candidate {
    /// The socket address.
    pub addr: SocketAddr,
    /// The type of candidate.
    pub ty: CandidateType,
}

impl Candidate {
    /// Create a host candidate from a local address.
    pub fn host(addr: SocketAddr) -> (c: Self)
        ensures
            c == (Candidate { addr, ty: CandidateType::Host }),
    {
        Candidate { addr, ty: CandidateType::Host }
    }

    /// Create a server-reflexive candidate from a STUN response.
    pub fn server_reflexive(addr: SocketAddr) -> (c: Self)
        ensures
            c == (Candidate { addr, ty: CandidateType::ServerReflexive }),
    {
        Candidate { addr, ty: CandidateType::ServerReflexive }
    }
}

} // verus!
