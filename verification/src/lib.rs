//! The protocol and decision core of a virtual private network that joins
//! devices behind NAT: frame formats, session encryption, address discovery,
//! relaying, packet filtering, name resolution and the device registry.
//!
//! Nothing here touches a socket, a clock or a database. Each type takes what
//! was received and hands back what is to be sent, so that every rule can be
//! stated as a contract.

pub mod acl;
pub mod addr;
pub mod cli;
pub mod codec;
pub mod desktop;
pub mod dns;
pub mod engine;
pub mod error;
pub mod key_exchange;
pub mod registry;
pub mod relay_proto;
pub mod relay_server;
pub mod text;
pub mod traversal;
pub mod tun;
pub mod tunnel;
