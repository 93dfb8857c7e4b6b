//! The relay's sessions: how many there may be, and when they end.

use vstd::prelude::*;
use crate::bootstrap::stats::{bump, bumped, elapsed_ms, elapsed_since, StatsCollector};
use crate::net::SocketAddress;
use crate::seq_util::{lemma_filter_ends, lemma_filter_members, lemma_filter_step};

verus! {

/// A relay session ends this long after it began (5 minutes).
pub const RELAY_SESSION_TTL_MS: u64 = 300_000;

/// One relay session.
#[derive(Clone, Copy, Debug, PartialEq, Eq, Structural)]
pub struct RelaySession {
    pub peer_a: SocketAddress,
    pub peer_b: Option<SocketAddress>,
    pub created_at: u64,
    pub bytes_relayed: u64,
}

/// The sessions of the relay and the most it takes.
#[derive(Debug)]
pub struct RelayServer {
    sessions: Vec<RelaySession>,
    max_sessions: usize,
}

/// Whether a session is younger than its time-to-live.
pub open spec fn session_alive(session: RelaySession, now: u64) -> bool {
    elapsed_ms(session.created_at, now) < RELAY_SESSION_TTL_MS
}

/// The sessions that stay at a cleanup, in their order.
pub open spec fn alive_sessions(sessions: Seq<RelaySession>, now: u64) -> Seq<RelaySession> {
    sessions.filter(|s: RelaySession| session_alive(s, now))
}

/// One less, down to zero.
pub open spec fn lowered(count: u64) -> u64 {
    if count > 0 {
        (count - 1) as u64
    } else {
        0
    }
}

impl View for RelayServer {
    type V = Seq<RelaySession>;

    closed spec fn view(&self) -> Seq<RelaySession> {
        self.sessions@
    }
}

impl RelayServer {
    /// The most sessions that the relay takes.
    pub closed spec fn limit(&self) -> usize {
        self.max_sessions
    }

    /// A relay without sessions that takes up to `max_sessions`.
    pub fn new(max_sessions: usize) -> (relay: Self)
        ensures
            relay@.len() == 0,
            relay.limit() == max_sessions,
    {
        RelayServer { sessions: Vec::new(), max_sessions }
    }

    /// The number of sessions.
    pub fn session_count(&self) -> (n: usize)
        ensures
            n == self@.len(),
    {
        self.sessions.len()
    }

    /// Whether the relay is full.
    pub fn is_at_capacity(&self) -> (full: bool)
        ensures
            full == (self@.len() >= self.limit()),
    {
        self.sessions.len() >= self.max_sessions
    }

    /// Takes in a connection from `peer` at time `now`, unless the relay
    /// is full: a connection that is taken is counted, in all and as
    /// active, and begins a session.
    pub fn accept_connection(&mut self, peer: SocketAddress, now: u64, stats: &mut StatsCollector) -> (taken:
        bool)
        ensures
            final(self).limit() == old(self).limit(),
            taken == (old(self)@.len() < old(self).limit()),
            taken ==> final(self)@ == old(self)@.push(
                RelaySession { peer_a: peer, peer_b: None, created_at: now, bytes_relayed: 0 },
            ) && *final(stats) == (StatsCollector {
                relay_connections: bump(old(stats).relay_connections),
                active_relay_sessions: bump(old(stats).active_relay_sessions),
                ..*old(stats)
            }),
            !taken ==> final(self)@ == old(self)@ && *final(stats) == *old(stats),
    {
        if self.is_at_capacity() {
            return false;
        }
        self.sessions.push(
            RelaySession { peer_a: peer, peer_b: None, created_at: now, bytes_relayed: 0 },
        );
        stats.relay_connections = bumped(stats.relay_connections);
        stats.active_relay_sessions = bumped(stats.active_relay_sessions);
        true
    }

    /// Notes that a relay connection was closed: one session less is active.
    pub fn connection_closed(stats: &mut StatsCollector)
        ensures
            *final(stats) == (StatsCollector {
                active_relay_sessions: lowered(old(stats).active_relay_sessions),
                ..*old(stats)
            }),
    {
        if stats.active_relay_sessions > 0 {
            stats.active_relay_sessions = stats.active_relay_sessions - 1;
        }
    }

    /// Ends the sessions that began five minutes ago or earlier, and says
    /// how many were ended.
    #[verifier::loop_isolation(false)]
    pub fn cleanup_stale_sessions(&mut self, now: u64) -> (removed: usize)
        ensures
            final(self).limit() == old(self).limit(),
            final(self)@ == alive_sessions(old(self)@, now),
            removed == old(self)@.len() - final(self)@.len(),
    {
        let ghost alive = |s: RelaySession| session_alive(s, now);
        let mut kept: Vec<RelaySession> = Vec::new();
        let mut i: usize = 0;
        proof {
            lemma_filter_ends(self.sessions@, alive);
        }
        while i < self.sessions.len()
            invariant
                i <= self.sessions@.len(),
                self.sessions@ == old(self).sessions@,
                self.max_sessions == old(self).max_sessions,
                kept@ == self.sessions@.take(i as int).filter(alive),
                kept@.len() <= i,
            decreases self.sessions@.len() - i,
        {
            proof {
                lemma_filter_step(self.sessions@, alive, i as int);
            }
            let session = self.sessions[i];
            if elapsed_since(session.created_at, now) < RELAY_SESSION_TTL_MS {
                kept.push(session);
            }
            i += 1;
        }
        proof {
            lemma_filter_ends(self.sessions@, alive);
        }
        let removed = self.sessions.len() - kept.len();
        self.sessions = kept;
        removed
    }
}

} // verus!
