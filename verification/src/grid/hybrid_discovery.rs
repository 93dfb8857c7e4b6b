//! Peers found through mDNS and through the DHT, in one cache.
//!
//! A peer that is new to the cache is reported; a peer that is seen
//! again is refreshed, and its mDNS address is kept over one from the
//! DHT; a peer not seen for five minutes is evicted and reported lost.

use vstd::prelude::*;
use crate::bootstrap::dht::{DhtCommand, NODE_ID_PREFIX};
use crate::bootstrap::stats::{elapsed_ms, elapsed_since};
use crate::digest::{hex_prefix, hex_string};
use crate::grid::dht::{InfoHash, NodeId};
use crate::net::SocketAddress;
use crate::seq_util::{first_matching, lemma_filter_ends, lemma_filter_step, lemma_first_matching};

verus! {

/// A peer not seen for this long (5 minutes) is evicted.
pub const PEER_TTL_MS: u64 = 300_000;

/// Time between two looks at the peers that mDNS has found.
pub const MDNS_POLL_INTERVAL_MS: u64 = 5_000;

/// Time between two evictions.
pub const CLEANUP_INTERVAL_MS: u64 = 60_000;

/// How a peer was found.
#[derive(Clone, Copy, Debug, PartialEq, Eq, Structural)]
pub enum DiscoverySource {
    /// On the local network.
    Mdns,
    /// Through the DHT.
    Dht,
    /// Added by hand.
    Manual,
}

/// A peer in the cache.
#[derive(Clone, Debug)]
pub struct DiscoveredPeer {
    pub peer_id: String,
    pub address: SocketAddress,
    pub source: DiscoverySource,
    pub discovered_at: u64,
    pub last_seen: u64,
}

/// A [`DiscoveredPeer`] as a mathematical value.
pub struct DiscoveredPeerView {
    pub peer_id: Seq<char>,
    pub address: SocketAddress,
    pub source: DiscoverySource,
    pub discovered_at: u64,
    pub last_seen: u64,
}

impl View for DiscoveredPeer {
    type V = DiscoveredPeerView;

    open spec fn view(&self) -> DiscoveredPeerView {
        DiscoveredPeerView {
            peer_id: self.peer_id@,
            address: self.address,
            source: self.source,
            discovered_at: self.discovered_at,
            last_seen: self.last_seen,
        }
    }
}

/// News of the DHT.
#[derive(Debug)]
pub enum DhtEvent {
    /// A node was named as holder of a file.
    PeerFound { info_hash: InfoHash, peer_id: NodeId, addr: SocketAddress },
    /// The holders of a file, as one answer named them.
    ProvidersFound { info_hash: InfoHash, providers: Vec<(NodeId, SocketAddress)> },
    /// The DHT is ready.
    Ready,
    /// Something went wrong in the DHT.
    Error { message: String },
}

/// What the discovery reports.
#[derive(Debug)]
pub enum HybridDiscoveryEvent {
    PeerDiscovered(DiscoveredPeer),
    PeerLost(String),
    ProvidersFound { info_hash: InfoHash, providers: Vec<DiscoveredPeer> },
}

/// The peers as mathematical values.
pub open spec fn peer_views(peers: Seq<DiscoveredPeer>) -> Seq<DiscoveredPeerView> {
    Seq::new(peers.len(), |i: int| peers[i]@)
}

/// A [`HybridDiscoveryEvent`] as a mathematical value.
#[verifier::ext_equal]
pub enum HybridDiscoveryEventView {
    PeerDiscovered(DiscoveredPeerView),
    PeerLost(Seq<char>),
    ProvidersFound { info_hash: InfoHash, providers: Seq<DiscoveredPeerView> },
}

impl View for HybridDiscoveryEvent {
    type V = HybridDiscoveryEventView;

    open spec fn view(&self) -> HybridDiscoveryEventView {
        match *self {
            HybridDiscoveryEvent::PeerDiscovered(peer) => HybridDiscoveryEventView::PeerDiscovered(
                peer@,
            ),
            HybridDiscoveryEvent::PeerLost(id) => HybridDiscoveryEventView::PeerLost(id@),
            HybridDiscoveryEvent::ProvidersFound {
                info_hash,
                providers,
            } => HybridDiscoveryEventView::ProvidersFound {
                info_hash,
                providers: peer_views(providers@),
            },
        }
    }
}

/// The events as mathematical values.
pub open spec fn event_views(events: Seq<HybridDiscoveryEvent>) -> Seq<HybridDiscoveryEventView> {
    Seq::new(events.len(), |i: int| events[i]@)
}

/// The position of the peer named `id`, or -1.
pub open spec fn cached_position(peers: Seq<DiscoveredPeerView>, id: Seq<char>) -> int {
    first_matching(peers, |p: DiscoveredPeerView| p.peer_id == id)
}

/// A peer as it enters the cache.
pub open spec fn fresh_peer(
    id: Seq<char>,
    address: SocketAddress,
    source: DiscoverySource,
    now: u64,
) -> DiscoveredPeerView {
    DiscoveredPeerView { peer_id: id, address, source, discovered_at: now, last_seen: now }
}

/// A cached peer after it was seen again: it counts as seen now; a
/// sighting on the local network gives its address and makes it a local
/// peer; a sighting elsewhere gives its address only to a peer that is
/// not local, and never makes a local peer anything else.
pub open spec fn refreshed(
    known: DiscoveredPeerView,
    address: SocketAddress,
    source: DiscoverySource,
    now: u64,
) -> DiscoveredPeerView {
    DiscoveredPeerView {
        last_seen: now,
        address: if source is Mdns || !(known.source is Mdns) {
            address
        } else {
            known.address
        },
        source: if source is Mdns {
            DiscoverySource::Mdns
        } else {
            known.source
        },
        ..known
    }
}

/// The cache after the peer `id` was seen.
pub open spec fn cache_after_sighting(
    peers: Seq<DiscoveredPeerView>,
    id: Seq<char>,
    address: SocketAddress,
    source: DiscoverySource,
    now: u64,
) -> Seq<DiscoveredPeerView> {
    let at = cached_position(peers, id);
    if at >= 0 {
        peers.update(at, refreshed(peers[at], address, source, now))
    } else {
        peers.push(fresh_peer(id, address, source, now))
    }
}

/// The news of a sighting: the peer, where it is new to the cache.
pub open spec fn news_of_sighting(
    peers: Seq<DiscoveredPeerView>,
    id: Seq<char>,
    address: SocketAddress,
    source: DiscoverySource,
    now: u64,
) -> Seq<HybridDiscoveryEventView> {
    if cached_position(peers, id) >= 0 {
        Seq::empty()
    } else {
        seq![HybridDiscoveryEventView::PeerDiscovered(fresh_peer(id, address, source, now))]
    }
}

/// The cache after each of the peers that mDNS has found was seen in turn.
pub open spec fn cache_after_poll(
    peers: Seq<DiscoveredPeerView>,
    found: Seq<(String, SocketAddress)>,
    now: u64,
) -> Seq<DiscoveredPeerView>
    decreases found.len(),
{
    if found.len() == 0 {
        peers
    } else {
        cache_after_sighting(
            cache_after_poll(peers, found.drop_last(), now),
            found.last().0@,
            found.last().1,
            DiscoverySource::Mdns,
            now,
        )
    }
}

/// The news of a look at the peers that mDNS has found.
pub open spec fn news_of_poll(
    peers: Seq<DiscoveredPeerView>,
    found: Seq<(String, SocketAddress)>,
    now: u64,
) -> Seq<HybridDiscoveryEventView>
    decreases found.len(),
{
    if found.len() == 0 {
        Seq::empty()
    } else {
        news_of_poll(peers, found.drop_last(), now) + news_of_sighting(
            cache_after_poll(peers, found.drop_last(), now),
            found.last().0@,
            found.last().1,
            DiscoverySource::Mdns,
            now,
        )
    }
}

/// Whether a cached peer was seen within the time-to-live.
pub open spec fn peer_alive(peer: DiscoveredPeerView, now: u64) -> bool {
    !(elapsed_ms(peer.last_seen, now) > PEER_TTL_MS)
}

/// The peers that stay at an eviction, in their order.
pub open spec fn alive_peers(peers: Seq<DiscoveredPeerView>, now: u64) -> Seq<DiscoveredPeerView> {
    peers.filter(|p: DiscoveredPeerView| peer_alive(p, now))
}

/// The news of an eviction: every peer that goes, in the order of the cache.
pub open spec fn losses(peers: Seq<DiscoveredPeerView>, now: u64) -> Seq<HybridDiscoveryEventView> {
    peers.filter(|p: DiscoveredPeerView| !peer_alive(p, now)).map_values(
        |p: DiscoveredPeerView| HybridDiscoveryEventView::PeerLost(p.peer_id),
    )
}

/// The name of a node in the cache: the hex text of the first eight
/// bytes of its identifier.
pub open spec fn short_name(id: NodeId) -> Seq<char> {
    hex_string(id@.take(NODE_ID_PREFIX as int))
}

/// The providers that the DHT named, as peers found now.
pub open spec fn wrapped_providers(providers: Seq<(NodeId, SocketAddress)>, now: u64) -> Seq<
    DiscoveredPeerView,
> {
    Seq::new(
        providers.len(),
        |k: int| fresh_peer(short_name(providers[k].0), providers[k].1, DiscoverySource::Dht, now),
    )
}

/// The cache of discovered peers.
#[derive(Debug)]
pub struct HybridDiscovery {
    peers: Vec<DiscoveredPeer>,
    bootstrap_nodes: Vec<SocketAddress>,
}

impl HybridDiscovery {
    /// The cached peers, in the order they were found.
    pub closed spec fn peers(&self) -> Seq<DiscoveredPeerView> {
        peer_views(self.peers@)
    }

    /// The bootstrap nodes to enter the DHT through.
    pub closed spec fn bootstrap_nodes(&self) -> Seq<SocketAddress> {
        self.bootstrap_nodes@
    }

    /// An empty cache.
    pub fn new() -> (discovery: Self)
        ensures
            discovery.peers().len() == 0,
            discovery.bootstrap_nodes().len() == 0,
    {
        HybridDiscovery { peers: Vec::new(), bootstrap_nodes: Vec::new() }
    }

    /// Adds a bootstrap node.
    pub fn add_bootstrap_node(&mut self, addr: SocketAddress)
        ensures
            final(self).peers() == old(self).peers(),
            final(self).bootstrap_nodes() == old(self).bootstrap_nodes().push(addr),
    {
        self.bootstrap_nodes.push(addr);
    }

    /// Replaces the bootstrap nodes.
    pub fn set_bootstrap_nodes(&mut self, nodes: Vec<SocketAddress>)
        ensures
            final(self).peers() == old(self).peers(),
            final(self).bootstrap_nodes() == nodes@,
    {
        self.bootstrap_nodes = nodes;
    }

    /// What to ask of the DHT at the start: to enter through each
    /// bootstrap node, in order.
    pub fn start(&self) -> (commands: Vec<DhtCommand>)
        ensures
            commands@.len() == self.bootstrap_nodes().len(),
            forall|k: int|
                0 <= k < commands@.len() ==> #[trigger] commands@[k] == (
                DhtCommand::AddBootstrapNode { addr: self.bootstrap_nodes()[k] }),
    {
        let mut commands: Vec<DhtCommand> = Vec::new();
        let mut i: usize = 0;
        while i < self.bootstrap_nodes.len()
            invariant
                i <= self.bootstrap_nodes@.len(),
                commands@.len() == i,
                forall|k: int|
                    0 <= k < i ==> #[trigger] commands@[k] == (DhtCommand::AddBootstrapNode {
                        addr: self.bootstrap_nodes@[k],
                    }),
            decreases self.bootstrap_nodes@.len() - i,
        {
            commands.push(DhtCommand::AddBootstrapNode { addr: self.bootstrap_nodes[i] });
            i += 1;
        }
        commands
    }

    /// What to ask of the DHT to find the holders of a file.
    pub fn find_providers(&self, info_hash: InfoHash) -> (command: DhtCommand)
        ensures
            command == (DhtCommand::FindProviders { info_hash }),
    {
        DhtCommand::FindProviders { info_hash }
    }

    /// What to ask of the DHT to announce a file.
    pub fn start_providing(&self, info_hash: InfoHash) -> (command: DhtCommand)
        ensures
            command == (DhtCommand::StartProviding { info_hash }),
    {
        DhtCommand::StartProviding { info_hash }
    }

    #[verifier::loop_isolation(false)]
    fn find(&self, id: &String) -> (at: usize)
        ensures
            at <= self.peers().len(),
            at < self.peers().len() ==> cached_position(self.peers(), id@) == at,
            at == self.peers().len() ==> cached_position(self.peers(), id@) == -1,
    {
        proof {
            lemma_first_matching(self.peers(), |p: DiscoveredPeerView| p.peer_id == id@);
        }
        let mut i: usize = 0;
        while i < self.peers.len()
            invariant
                i <= self.peers@.len(),
                forall|k: int| 0 <= k < i ==> (#[trigger] self.peers()[k]).peer_id != id@,
            decreases self.peers@.len() - i,
        {
            if self.peers[i].peer_id == *id {
                assert(self.peers()[i as int].peer_id == id@);
                return i;
            }
            i += 1;
        }
        i
    }

    /// Takes in that the peer `peer_id` was seen at `address` through
    /// `source` at time `now`, and reports it where it is new.
    pub fn sighting(
        &mut self,
        peer_id: String,
        address: SocketAddress,
        source: DiscoverySource,
        now: u64,
        events: &mut Vec<HybridDiscoveryEvent>,
    )
        ensures
            final(self).bootstrap_nodes() == old(self).bootstrap_nodes(),
            final(self).peers() == cache_after_sighting(
                old(self).peers(),
                peer_id@,
                address,
                source,
                now,
            ),
            event_views(final(events)@) == event_views(old(events)@) + news_of_sighting(
                old(self).peers(),
                peer_id@,
                address,
                source,
                now,
            ),
    {
        let at = self.find(&peer_id);
        let ghost before = self.peers();
        if at < self.peers.len() {
            let known = &self.peers[at];
            let entry = DiscoveredPeer {
                peer_id: known.peer_id.clone(),
                address: match (source, known.source) {
                    (DiscoverySource::Mdns, _) => address,
                    (_, DiscoverySource::Mdns) => known.address,
                    _ => address,
                },
                source: match source {
                    DiscoverySource::Mdns => DiscoverySource::Mdns,
                    _ => known.source,
                },
                discovered_at: known.discovered_at,
                last_seen: now,
            };
            proof {
                assert(entry@ == refreshed(before[at as int], address, source, now));
            }
            self.peers.set(at, entry);
            proof {
                assert(self.peers() =~= before.update(at as int, entry@));
                assert(event_views(events@) =~= event_views(old(events)@) + Seq::<
                    HybridDiscoveryEventView,
                >::empty());
            }
        } else {
            let entry = DiscoveredPeer {
                peer_id: peer_id.clone(),
                address,
                source,
                discovered_at: now,
                last_seen: now,
            };
            let event = HybridDiscoveryEvent::PeerDiscovered(
                DiscoveredPeer { peer_id, address, source, discovered_at: now, last_seen: now },
            );
            self.peers.push(entry);
            events.push(event);
            proof {
                assert(self.peers() =~= before.push(entry@));
                assert(event_views(events@) =~= event_views(old(events)@) + seq![event@]);
            }
        }
    }

    /// Takes in the peers that mDNS has found, at time `now`.
    #[verifier::loop_isolation(false)]
    pub fn poll_mdns(&mut self, found: &Vec<(String, SocketAddress)>, now: u64) -> (events: Vec<
        HybridDiscoveryEvent,
    >)
        ensures
            final(self).bootstrap_nodes() == old(self).bootstrap_nodes(),
            final(self).peers() == cache_after_poll(old(self).peers(), found@, now),
            event_views(events@) == news_of_poll(old(self).peers(), found@, now),
    {
        let mut events: Vec<HybridDiscoveryEvent> = Vec::new();
        let mut i: usize = 0;
        proof {
            assert(event_views(events@) =~= news_of_poll(old(self).peers(), found@.take(0), now));
        }
        while i < found.len()
            invariant
                i <= found@.len(),
                self.bootstrap_nodes() == old(self).bootstrap_nodes(),
                self.peers() == cache_after_poll(old(self).peers(), found@.take(i as int), now),
                event_views(events@) == news_of_poll(old(self).peers(), found@.take(i as int), now),
            decreases found@.len() - i,
        {
            proof {
                assert(found@.take(i + 1).drop_last() =~= found@.take(i as int));
                assert(found@.take(i + 1).last() == found@[i as int]);
            }
            let id = found[i].0.clone();
            let address = found[i].1;
            self.sighting(id, address, DiscoverySource::Mdns, now, &mut events);
            i += 1;
        }
        proof {
            assert(found@.take(i as int) =~= found@);
        }
        events
    }

    /// Takes in news of the DHT at time `now`: a node that was named as
    /// holder of a file is seen, under the hex text of the first eight
    /// bytes of its identifier; the holders of a file are passed on as
    /// peers found now; anything else is passed over.
    #[verifier::loop_isolation(false)]
    pub fn handle_dht_event(&mut self, event: DhtEvent, now: u64) -> (events: Vec<
        HybridDiscoveryEvent,
    >)
        ensures
            final(self).bootstrap_nodes() == old(self).bootstrap_nodes(),
            match event {
                DhtEvent::PeerFound { peer_id, addr, .. } => final(self).peers()
                    == cache_after_sighting(
                    old(self).peers(),
                    short_name(peer_id),
                    addr,
                    DiscoverySource::Dht,
                    now,
                ) && event_views(events@) == news_of_sighting(
                    old(self).peers(),
                    short_name(peer_id),
                    addr,
                    DiscoverySource::Dht,
                    now,
                ),
                DhtEvent::ProvidersFound { info_hash, providers } => final(self).peers() == old(
                    self,
                ).peers() && event_views(events@) == seq![
                    HybridDiscoveryEventView::ProvidersFound {
                        info_hash,
                        providers: wrapped_providers(providers@, now),
                    },
                ],
                _ => final(self).peers() == old(self).peers() && events@.len() == 0,
            },
    {
        let mut events: Vec<HybridDiscoveryEvent> = Vec::new();
        match event {
            DhtEvent::PeerFound { info_hash: _, peer_id, addr } => {
                let name = hex_prefix(peer_id.as_slice(), NODE_ID_PREFIX);
                proof {
                    assert(event_views(events@) =~= Seq::<HybridDiscoveryEventView>::empty());
                }
                self.sighting(name, addr, DiscoverySource::Dht, now, &mut events);
                proof {
                    assert(event_views(events@) =~= news_of_sighting(
                        old(self).peers(),
                        short_name(peer_id),
                        addr,
                        DiscoverySource::Dht,
                        now,
                    ));
                }
            },
            DhtEvent::ProvidersFound { info_hash, providers } => {
                let mut wrapped: Vec<DiscoveredPeer> = Vec::new();
                let mut k: usize = 0;
                while k < providers.len()
                    invariant
                        k <= providers@.len(),
                        peer_views(wrapped@) == wrapped_providers(providers@, now).take(k as int),
                    decreases providers@.len() - k,
                {
                    let (id, addr) = providers[k];
                    let peer = DiscoveredPeer {
                        peer_id: hex_prefix(id.as_slice(), NODE_ID_PREFIX),
                        address: addr,
                        source: DiscoverySource::Dht,
                        discovered_at: now,
                        last_seen: now,
                    };
                    let ghost before = peer_views(wrapped@);
                    wrapped.push(peer);
                    proof {
                        assert(peer_views(wrapped@) =~= before.push(peer@));
                        assert(peer_views(wrapped@) =~= wrapped_providers(providers@, now).take(
                            k + 1,
                        ));
                    }
                    k += 1;
                }
                proof {
                    assert(wrapped_providers(providers@, now).take(k as int) =~= wrapped_providers(
                        providers@,
                        now,
                    ));
                }
                let found = HybridDiscoveryEvent::ProvidersFound { info_hash, providers: wrapped };
                events.push(found);
                proof {
                    assert(event_views(events@) =~= seq![found@]);
                }
            },
            DhtEvent::Ready => {},
            DhtEvent::Error { message: _ } => {},
        }
        events
    }

    /// Evicts the peers not seen for five minutes at time `now`, and
    /// reports each as lost.
    #[verifier::loop_isolation(false)]
    pub fn cleanup_stale_peers(&mut self, now: u64) -> (events: Vec<HybridDiscoveryEvent>)
        ensures
            final(self).bootstrap_nodes() == old(self).bootstrap_nodes(),
            final(self).peers() == alive_peers(old(self).peers(), now),
            event_views(events@) == losses(old(self).peers(), now),
    {
        let ghost before = self.peers();
        let ghost alive = |p: DiscoveredPeerView| peer_alive(p, now);
        let ghost gone = |p: DiscoveredPeerView| !peer_alive(p, now);
        let ghost lost = |p: DiscoveredPeerView| HybridDiscoveryEventView::PeerLost(p.peer_id);
        let mut events: Vec<HybridDiscoveryEvent> = Vec::new();
        let mut kept: Vec<DiscoveredPeer> = Vec::new();
        let total = self.peers.len();
        let mut done: usize = 0;
        proof {
            lemma_filter_ends(before, alive);
            lemma_filter_ends(before, gone);
            assert(event_views(events@) =~= before.take(0).filter(gone).map_values(lost));
            assert(peer_views(kept@) =~= before.take(0).filter(alive));
        }
        while done < total
            invariant
                done <= total,
                total == before.len(),
                self.peers@.len() == total - done,
                self.bootstrap_nodes == old(self).bootstrap_nodes,
                forall|k: int|
                    0 <= k < self.peers@.len() ==> (#[trigger] self.peers@[k])@ == before[k + done],
                event_views(events@) == before.take(done as int).filter(gone).map_values(lost),
                peer_views(kept@) == before.take(done as int).filter(alive),
            decreases total - done,
        {
            let peer = self.peers.remove(0);
            proof {
                assert(peer@ == before[done as int]);
                lemma_filter_step(before, alive, done as int);
                lemma_filter_step(before, gone, done as int);
            }
            let ghost kept_before = peer_views(kept@);
            let ghost events_before = event_views(events@);
            if elapsed_since(peer.last_seen, now) > PEER_TTL_MS {
                let event = HybridDiscoveryEvent::PeerLost(peer.peer_id);
                events.push(event);
                proof {
                    assert(event_views(events@) =~= events_before.push(event@));
                    assert(event_views(events@) =~= before.take(done + 1).filter(gone).map_values(
                        lost,
                    ));
                }
            } else {
                kept.push(peer);
                proof {
                    assert(peer_views(kept@) =~= kept_before.push(before[done as int]));
                }
            }
            done += 1;
        }
        self.peers = kept;
        proof {
            assert(before.take(total as int) =~= before);
        }
        events
    }

    /// The cached peers.
    pub fn get_peers(&self) -> (peers: Vec<DiscoveredPeer>)
        ensures
            peer_views(peers@) == self.peers(),
    {
        let mut peers: Vec<DiscoveredPeer> = Vec::new();
        let mut i: usize = 0;
        while i < self.peers.len()
            invariant
                i <= self.peers@.len(),
                peer_views(peers@) == self.peers().take(i as int),
            decreases self.peers@.len() - i,
        {
            let p = &self.peers[i];
            let copy = DiscoveredPeer {
                peer_id: p.peer_id.clone(),
                address: p.address,
                source: p.source,
                discovered_at: p.discovered_at,
                last_seen: p.last_seen,
            };
            let ghost before = peer_views(peers@);
            peers.push(copy);
            proof {
                assert(copy@ == self.peers()[i as int]);
                assert(peer_views(peers@) =~= before.push(copy@));
                assert(peer_views(peers@) =~= self.peers().take(i + 1));
            }
            i += 1;
        }
        proof {
            assert(self.peers().take(i as int) =~= self.peers());
        }
        peers
    }

    /// The number of cached peers.
    pub fn peer_count(&self) -> (n: usize)
        ensures
            n == self.peers().len(),
    {
        self.peers.len()
    }
}

} // verus!
