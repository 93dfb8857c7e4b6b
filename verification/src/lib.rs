//! Peer-to-peer file transfer core: piece bookkeeping, wire framing, request
//! scheduling, Kademlia routing and the decision logic of the transfer,
//! discovery and bootstrap services, with machine-checked contracts.

pub mod bootstrap;
pub mod digest;
pub mod discovery;
pub mod grid;
pub mod net;
pub mod seq_util;
pub mod transfer;
