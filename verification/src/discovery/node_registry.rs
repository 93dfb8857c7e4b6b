//! What is known of the nodes nearby, and which of them may relay.

use vstd::prelude::*;
use crate::bootstrap::stats::{elapsed_ms, elapsed_since, MILLIS_PER_SEC};
use crate::net::SocketAddress;

verus! {

/// A node takes part in relaying only with more bandwidth than this.
pub const RELAY_MIN_BANDWIDTH_MBPS: u64 = 1000;

/// A node not seen for this many seconds is no relay candidate.
pub const RELAY_STALE_SECS: u64 = 30;

/// What a node can do.
#[derive(Clone, Copy, Debug, PartialEq, Eq, Structural)]
pub struct NodeCapabilities {
    pub max_bandwidth_mbps: u64,
    pub available_bandwidth_mbps: u64,
    pub cpu_cores: u32,
    pub can_relay: bool,
}

impl NodeCapabilities {
    /// What is assumed of a node with `cpu_cores` cores.
    pub fn with_cores(cpu_cores: u32) -> (capabilities: Self)
        ensures
            capabilities == (NodeCapabilities {
                max_bandwidth_mbps: 10000,
                available_bandwidth_mbps: 8000,
                cpu_cores,
                can_relay: true,
            }),
    {
        NodeCapabilities {
            max_bandwidth_mbps: 10000,
            available_bandwidth_mbps: 8000,
            cpu_cores,
            can_relay: true,
        }
    }
}

/// A node nearby.
#[derive(Clone, Debug)]
pub struct PeerNode {
    pub id: String,
    pub address: SocketAddress,
    pub capabilities: NodeCapabilities,
    pub last_seen: u64,
    pub latency_ms: u32,
    pub active_streams: u32,
}

impl PeerNode {
    /// How well the node serves as a path: its free bandwidth, less its
    /// latency, less a hundred for every stream it carries.
    pub open spec fn spec_score(&self) -> int {
        self.capabilities.available_bandwidth_mbps - self.latency_ms - self.active_streams * 100
    }

    /// A node that was just seen, with the capabilities assumed of it.
    pub fn new(id: String, address: SocketAddress, cpu_cores: u32, now: u64) -> (node: Self)
        ensures
            node.id@ == id@,
            node.address == address,
            node.capabilities == (NodeCapabilities {
                max_bandwidth_mbps: 10000,
                available_bandwidth_mbps: 8000,
                cpu_cores,
                can_relay: true,
            }),
            node.last_seen == now,
            node.latency_ms == 0,
            node.active_streams == 0,
    {
        PeerNode {
            id,
            address,
            capabilities: NodeCapabilities::with_cores(cpu_cores),
            last_seen: now,
            latency_ms: 0,
            active_streams: 0,
        }
    }

    /// Executable form of [`PeerNode::spec_score`].
    pub fn score(&self) -> (score: i128)
        ensures
            score == self.spec_score(),
    {
        self.capabilities.available_bandwidth_mbps as i128 - self.latency_ms as i128
            - self.active_streams as i128 * 100
    }

    /// Whether the node was last seen more than `timeout_secs` whole
    /// seconds ago.
    pub fn is_stale(&self, timeout_secs: u64, now: u64) -> (stale: bool)
        ensures
            stale == (elapsed_ms(self.last_seen, now) / MILLIS_PER_SEC > timeout_secs),
    {
        elapsed_since(self.last_seen, now) / MILLIS_PER_SEC > timeout_secs
    }

    /// Whether the node may relay at time `now`: it offers to, has more
    /// than 1000 Mbit/s free, and was seen within the last 30 seconds.
    pub fn is_relay_candidate(&self, now: u64) -> (candidate: bool)
        ensures
            candidate == (self.capabilities.can_relay && self.capabilities.available_bandwidth_mbps
                > RELAY_MIN_BANDWIDTH_MBPS && !(elapsed_ms(self.last_seen, now) / MILLIS_PER_SEC
                > RELAY_STALE_SECS)),
    {
        self.capabilities.can_relay && self.capabilities.available_bandwidth_mbps
            > RELAY_MIN_BANDWIDTH_MBPS && !self.is_stale(RELAY_STALE_SECS, now)
    }
}

} // verus!
