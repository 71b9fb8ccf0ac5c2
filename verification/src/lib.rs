//! Peer discovery on a local network.
//!
//! A responder advertises the addresses it can be reached at; an initiator
//! broadcasts a request carrying a public encryption key and reads back the
//! sealed answers. This crate holds the wire format and the decisions of both
//! sides. Sockets and the sealing itself belong to the caller, who feeds the
//! state machines with what was read and performs what they ask for.

pub mod address;
pub mod discovery;
pub mod endian;
pub mod error;
pub mod interfaces;
pub mod server;
pub mod wire;

pub use crate::address::{IfAddr, Ifv4Addr, Ifv6Addr, IpAddress, SocketAddress};
pub use crate::discovery::{discover_peers, DiscoveryRound};
pub use crate::error::DiscoveryError;
pub use crate::server::{Datagram, DiscoveryServer, FlushAction, FlushEvent, PendingClient};
pub use crate::wire::{DiscoveryMsg, PublicEncryptKey, MAX_DATAGRAM_SIZE};
