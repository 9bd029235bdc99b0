//! NAT traversal: address discovery, NAT classification and hole punching.

pub mod candidate;
pub mod nat_type;
pub mod punch;
pub mod stun;
pub mod stun_server;
