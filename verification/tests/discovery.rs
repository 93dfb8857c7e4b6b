use ponswarp::bootstrap::dht::DhtCommand;
use ponswarp::discovery::mdns::{
    host_name, instance_name, is_own_service, score_address, select_best_address, service_type,
    DiscoveryService,
};
use ponswarp::discovery::node_registry::{NodeCapabilities, PeerNode};
use ponswarp::grid::hybrid_discovery::{
    DhtEvent, DiscoverySource, HybridDiscovery, HybridDiscoveryEvent,
};
use ponswarp::net::{IpAddress, SocketAddress};

fn v4(a: u8, b: u8, c: u8, d: u8) -> IpAddress {
    IpAddress::V4(a, b, c, d)
}

#[test]
fn instance_names_have_at_most_fifteen_bytes() {
    assert_eq!(service_type(), "_pswp._udp.local.");
    assert_eq!(host_name(), "ponswarp.local.");
    assert_eq!(instance_name("node-1"), "node-1");
    assert_eq!(instance_name("fifteen-bytes-x"), "fifteen-bytes-x");
    assert_eq!(instance_name("a-node-identifier-longer-than-15"), "pswp-836d");
    assert_eq!(instance_name("ééééééé"), "ééééééé");
    assert!(instance_name("éééééééé").starts_with("pswp-"));
    assert_eq!(instance_name(""), "");
}

#[test]
fn addresses_are_ranked() {
    assert_eq!(score_address(&v4(10, 1, 2, 3)), 100);
    assert_eq!(score_address(&v4(172, 16, 0, 1)), 100);
    assert_eq!(score_address(&v4(172, 31, 255, 1)), 100);
    assert_eq!(score_address(&v4(172, 32, 0, 1)), 50);
    assert_eq!(score_address(&v4(192, 168, 1, 1)), 100);
    assert_eq!(score_address(&v4(192, 169, 1, 1)), 50);
    assert_eq!(score_address(&v4(8, 8, 8, 8)), 50);
    assert_eq!(score_address(&v4(127, 0, 0, 1)), 0);
    assert_eq!(score_address(&IpAddress::V6(1)), 0);
    assert_eq!(score_address(&IpAddress::V6(0xfe80 << 112 | 5)), 25);
    let addrs = vec![v4(127, 0, 0, 1), IpAddress::V6(7), v4(8, 8, 8, 8), v4(192, 168, 1, 5), v4(10, 0, 0, 1)];
    assert_eq!(
        select_best_address(&addrs, 5000),
        Some(SocketAddress::new(v4(192, 168, 1, 5), 5000))
    );
    assert_eq!(
        select_best_address(&addrs[..3].to_vec(), 1),
        Some(SocketAddress::new(v4(8, 8, 8, 8), 1))
    );
    assert_eq!(
        select_best_address(&vec![v4(127, 0, 0, 1)], 1),
        Some(SocketAddress::new(v4(127, 0, 0, 1), 1))
    );
    assert_eq!(select_best_address(&vec![], 1), None);
}

#[test]
fn resolved_services_become_peers() {
    let mut service = DiscoveryService::new("node-self".to_string(), 5000);
    assert_eq!(service.announced_name(), "node-self");
    assert!(is_own_service("node-self._pswp._udp.local.", "node-self"));
    assert!(!is_own_service("node-other._pswp._udp.local.", "node-self"));
    let addrs = vec![v4(8, 8, 8, 8), v4(10, 0, 0, 2)];
    assert!(!service.service_resolved("node-self._pswp._udp.local.".to_string(), &addrs, 1, 4, 10));
    assert!(!service.service_resolved("b._pswp._udp.local.".to_string(), &vec![], 1, 4, 10));
    assert!(service.service_resolved("b._pswp._udp.local.".to_string(), &addrs, 5001, 4, 10));
    assert!(service.service_resolved("c._pswp._udp.local.".to_string(), &addrs, 5002, 8, 11));
    assert!(service.service_resolved("b._pswp._udp.local.".to_string(), &addrs[..1].to_vec(), 5003, 4, 12));
    let peers = service.get_peers();
    assert_eq!(peers.len(), 2);
    assert_eq!(peers[0].id, "b._pswp._udp.local.");
    assert_eq!(peers[0].address, SocketAddress::new(v4(8, 8, 8, 8), 5003));
    assert_eq!(peers[0].last_seen, 12);
    assert_eq!(peers[1].address, SocketAddress::new(v4(10, 0, 0, 2), 5002));
    assert_eq!(peers[1].capabilities.cpu_cores, 8);
    assert!(peers[1].capabilities.can_relay);
    service.service_removed("b._pswp._udp.local.");
    service.service_removed("unknown");
    assert_eq!(service.get_peer_count(), 1);
}

fn node(n: u8) -> [u8; 32] {
    let mut id = [0u8; 32];
    id[0] = n;
    id[1] = 0xAB;
    id
}

#[test]
fn hybrid_cache_merges_mdns_and_dht() {
    let mut discovery = HybridDiscovery::new();
    let local = SocketAddress::new(v4(192, 168, 1, 7), 5000);
    let remote = SocketAddress::new(v4(8, 8, 4, 4), 6000);
    let events = discovery.poll_mdns(&vec![("0aab000000000000".to_string(), local), ("peer-b".to_string(), local)], 1_000);
    assert_eq!(events.len(), 2);
    assert!(matches!(&events[0], HybridDiscoveryEvent::PeerDiscovered(p) if p.peer_id == "0aab000000000000" && p.source == DiscoverySource::Mdns && p.discovered_at == 1_000));
    let found = |n: u8, addr| DhtEvent::PeerFound { info_hash: [1; 32], peer_id: node(n), addr };
    assert!(discovery.handle_dht_event(found(0x0a, remote), 2_000).is_empty());
    let events = discovery.handle_dht_event(found(0x0b, remote), 2_000);
    assert!(matches!(&events[..], [HybridDiscoveryEvent::PeerDiscovered(p)] if p.peer_id == "0bab000000000000" && p.source == DiscoverySource::Dht && p.address == remote));
    let peers = discovery.get_peers();
    assert_eq!(peers.len(), 3);
    assert_eq!((peers[0].address, peers[0].source, peers[0].last_seen), (local, DiscoverySource::Mdns, 2_000));
    assert_eq!(peers[0].discovered_at, 1_000);
    let events = discovery.poll_mdns(&vec![("0bab000000000000".to_string(), local)], 3_000);
    assert!(events.is_empty());
    let peers = discovery.get_peers();
    assert_eq!((peers[2].address, peers[2].source, peers[2].last_seen), (local, DiscoverySource::Mdns, 3_000));
    let moved = SocketAddress::new(v4(8, 8, 8, 8), 1);
    assert!(discovery.handle_dht_event(found(0x0b, moved), 4_000).is_empty());
    assert_eq!(discovery.get_peers()[2].address, local);
    assert!(discovery.handle_dht_event(DhtEvent::Ready, 4_000).is_empty());
    assert!(discovery.handle_dht_event(DhtEvent::Error { message: "x".to_string() }, 4_000).is_empty());

    let events = discovery.handle_dht_event(
        DhtEvent::ProvidersFound { info_hash: [2; 32], providers: vec![(node(0x0c), remote), (node(0x0d), moved)] },
        5_000,
    );
    match &events[..] {
        [HybridDiscoveryEvent::ProvidersFound { info_hash, providers }] => {
            assert_eq!(*info_hash, [2; 32]);
            assert_eq!(providers.len(), 2);
            assert_eq!(providers[1].peer_id, "0dab000000000000");
            assert_eq!(providers[1].address, moved);
            assert_eq!(providers[1].last_seen, 5_000);
        }
        other => panic!("unexpected {:?}", other),
    }
    assert_eq!(discovery.peer_count(), 3);

    assert!(discovery.cleanup_stale_peers(301_000).is_empty());
    let events = discovery.cleanup_stale_peers(301_001);
    assert!(matches!(&events[..], [HybridDiscoveryEvent::PeerLost(id)] if id == "peer-b"));
    let events = discovery.cleanup_stale_peers(304_001);
    assert!(matches!(&events[..], [HybridDiscoveryEvent::PeerLost(a), HybridDiscoveryEvent::PeerLost(b)] if a == "0aab000000000000" && b == "0bab000000000000"));
    assert_eq!(discovery.peer_count(), 0);
}

#[test]
fn hybrid_discovery_asks_the_dht() {
    let mut discovery = HybridDiscovery::new();
    let seed = SocketAddress::new(v4(10, 0, 0, 1), 6881);
    let other = SocketAddress::new(v4(10, 0, 0, 2), 6881);
    discovery.add_bootstrap_node(seed);
    discovery.add_bootstrap_node(other);
    let commands = discovery.start();
    assert!(matches!(&commands[..], [DhtCommand::AddBootstrapNode { addr: a }, DhtCommand::AddBootstrapNode { addr: b }] if *a == seed && *b == other));
    discovery.set_bootstrap_nodes(vec![other]);
    assert_eq!(discovery.start().len(), 1);
    assert!(matches!(discovery.find_providers([3; 32]), DhtCommand::FindProviders { info_hash } if info_hash == [3; 32]));
    assert!(matches!(discovery.start_providing([4; 32]), DhtCommand::StartProviding { info_hash } if info_hash == [4; 32]));
}

#[test]
fn relay_candidates_are_scored() {
    let addr = SocketAddress::new(v4(10, 0, 0, 1), 1);
    let mut node = PeerNode::new("n".to_string(), addr, 4, 1_000);
    assert_eq!(node.capabilities, NodeCapabilities::with_cores(4));
    assert_eq!(node.score(), 8000);
    node.latency_ms = 30;
    node.active_streams = 3;
    assert_eq!(node.score(), 7670);
    node.capabilities.available_bandwidth_mbps = 0;
    node.active_streams = u32::MAX;
    assert_eq!(node.score(), -30 - (u32::MAX as i128) * 100);
    node.capabilities.available_bandwidth_mbps = 1001;
    assert!(!node.is_stale(30, 31_999));
    assert!(node.is_stale(30, 32_000));
    assert!(node.is_relay_candidate(31_999));
    assert!(!node.is_relay_candidate(32_000));
    node.capabilities.available_bandwidth_mbps = 1000;
    assert!(!node.is_relay_candidate(1_000));
}
