//! The Grid mesh: piece presence maps, piece geometry and verification,
//! the wire protocol, the request scheduler and the peer-to-peer sessions.

pub mod bitfield;
pub mod bootstrap_discovery;
pub mod dht;
pub mod hybrid_discovery;
pub mod peer;
pub mod piece_manager;
pub mod protocol;
pub mod providers;
pub mod routing;
pub mod scheduler;
pub mod swarm;
