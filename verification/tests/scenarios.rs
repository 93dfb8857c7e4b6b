use ponswarp::bootstrap::dht::{DhtAction, DhtCommand, DhtMessage, DhtNode};
use ponswarp::bootstrap::relay::RelayServer;
use ponswarp::bootstrap::service::{next_port_to_try, BoundPorts};
use ponswarp::bootstrap::stats::StatsCollector;
use ponswarp::grid::bitfield::Bitfield;
use ponswarp::grid::bootstrap_discovery::{BootstrapDiscovery, BootstrapDiscoveryEvent};
use ponswarp::grid::peer::{Peer, PeerCommand};
use ponswarp::grid::piece_manager::MetadataBuilder;
use ponswarp::grid::protocol::{GridMessage, ENCRYPTION};
use ponswarp::net::{IpAddress, SocketAddress};
use std::collections::{HashSet, VecDeque};

struct Host {
    addr: SocketAddress,
    node: DhtNode,
    stats: StatsCollector,
    found: Vec<DhtAction>,
}

fn host(n: u8, port: u16) -> Host {
    let mut id = [0u8; 32];
    id[0] = n;
    let addr = SocketAddress::new(IpAddress::V4(10, 0, 0, n), port);
    Host { addr, node: DhtNode::new(id, port), stats: StatsCollector::new(0), found: Vec::new() }
}

fn exchange(hosts: &mut Vec<Host>, at: usize, actions: Vec<DhtAction>, now: u64) {
    let mut wire: VecDeque<(usize, Vec<DhtAction>)> = VecDeque::new();
    wire.push_back((at, actions));
    while let Some((from, actions)) = wire.pop_front() {
        for action in actions {
            match action {
                DhtAction::Send { to, message } => {
                    let Some(target) = hosts.iter().position(|h| h.addr == to) else { continue };
                    let from_addr = hosts[from].addr;
                    let h = &mut hosts[target];
                    let replies = h.node.handle_message(message, from_addr, now, &mut h.stats);
                    wire.push_back((target, replies));
                }
                other => hosts[from].found.push(other),
            }
        }
    }
}

#[test]
fn dht_provider_round_trip() {
    let file = [0x5Au8; 32];
    let mut hosts = vec![host(1, 7000), host(2, 7100)];
    let (x, y) = (0, 1);
    let actions = hosts[x].node.handle_command(DhtCommand::StartProviding { info_hash: file }, 1, &mut StatsCollector::new(0));
    assert!(actions.is_empty());
    let seed = hosts[x].addr;
    let mut stats = StatsCollector::new(0);
    let actions = hosts[y].node.handle_command(DhtCommand::AddBootstrapNode { addr: seed }, 2, &mut stats);
    exchange(&mut hosts, y, actions, 2);
    assert_eq!(hosts[y].node.routing_table_size(), 2);
    assert_eq!(hosts[x].node.routing_table_size(), 1);
    let actions = hosts[y].node.handle_command(DhtCommand::FindProviders { info_hash: file }, 3, &mut stats);
    assert!(actions.iter().any(|a| matches!(a, DhtAction::Send { to, message: DhtMessage::GetProviders { .. } } if *to == seed)));
    exchange(&mut hosts, y, actions, 3);
    let x_id = hosts[x].node.node_id();
    let records: Vec<(&[u8; 32], &SocketAddress)> = hosts[y]
        .found
        .iter()
        .filter_map(|a| match a {
            DhtAction::PeerFound { info_hash, peer_id, addr } if *info_hash == file => Some((peer_id, addr)),
            _ => None,
        })
        .collect();
    assert!(records.iter().any(|(id, addr)| **id == x_id && addr.port == 7000));
    assert!(hosts[y].found.iter().any(|a| matches!(a, DhtAction::ProvidersFound { info_hash, providers } if *info_hash == file && providers.len() == 1)));
    assert!(hosts[x].stats.dht_messages_received >= 2);
    assert_eq!(hosts[x].node.mdns_instance_name(), "pswp-01");
}

fn bind_with_fallback(preferred: u16, taken: &mut HashSet<u16>, next_free: &mut u16) -> u16 {
    let mut attempt = 0u8;
    while let Some(port) = next_port_to_try(preferred, attempt) {
        let bound = if port == 0 {
            *next_free += 1;
            *next_free
        } else if taken.contains(&port) {
            attempt += 1;
            continue;
        } else {
            port
        };
        taken.insert(bound);
        return bound;
    }
    panic!("no port");
}

#[test]
fn bootstrap_port_collision() {
    let mut taken: HashSet<u16> = [6881, 6882, 6883].into_iter().collect();
    let mut os_range = 49_151u16;
    let ports = BoundPorts {
        dht_port: bind_with_fallback(6881, &mut taken, &mut os_range),
        quic_port: bind_with_fallback(6882, &mut taken, &mut os_range),
        stats_port: bind_with_fallback(6883, &mut taken, &mut os_range),
    };
    assert_eq!(ports, BoundPorts { dht_port: 6884, quic_port: 6885, stats_port: 6886 });
    for (bound, configured) in [(ports.dht_port, 6881u16), (ports.quic_port, 6882), (ports.stats_port, 6883)] {
        assert!(![6881, 6882, 6883].contains(&bound));
        assert!(bound > configured && bound <= configured + 10);
    }
    let mut crowded: HashSet<u16> = (7000..=7010).collect();
    let bound = bind_with_fallback(7000, &mut crowded, &mut os_range);
    assert_eq!(bound, 49_152);
    let twice = bind_with_fallback(8000, &mut taken, &mut os_range);
    let again = bind_with_fallback(8000, &mut taken, &mut os_range);
    assert_eq!((twice, again), (8000, 8001));
}

#[test]
fn metadata_is_built_piece_by_piece() {
    let data: Vec<u8> = (0u8..10).collect();
    let mut builder = MetadataBuilder::new("ten.bin".to_string(), 10, 4);
    assert_eq!(builder.next_piece_length(), Some(4));
    assert!(!builder.add_piece(&data[0..3]));
    assert!(builder.add_piece(&data[0..4]));
    assert!(builder.add_piece(&data[4..8]));
    assert_eq!(builder.next_piece_length(), Some(2));
    assert!(!builder.add_piece(&data[6..10]));
    assert!(builder.add_piece(&data[8..10]));
    assert_eq!(builder.next_piece_length(), None);
    assert!(!builder.add_piece(&[]));
    let meta = builder.finish().unwrap();
    let whole = ponswarp::grid::piece_manager::FileMetadata::from_bytes("ten.bin".to_string(), &data, 4);
    assert_eq!(meta.info_hash, whole.info_hash);
    assert_eq!(meta.piece_hashes, whole.piece_hashes);
    assert_eq!(meta.merkle_root, whole.merkle_root);
    assert_eq!(meta.total_pieces, 3);
    let unfinished = MetadataBuilder::new("x".to_string(), 10, 4);
    assert!(unfinished.finish().is_none());
    assert!(MetadataBuilder::new("e".to_string(), 0, 4).finish().is_some());
}

#[test]
fn relay_takes_sessions_up_to_its_limit() {
    let mut relay = RelayServer::new(2);
    let mut stats = StatsCollector::new(0);
    let peer = |n: u8| SocketAddress::new(IpAddress::V4(10, 0, 0, n), 1);
    assert!(relay.accept_connection(peer(1), 1_000, &mut stats));
    assert!(relay.accept_connection(peer(2), 2_000, &mut stats));
    assert!(relay.is_at_capacity());
    assert!(!relay.accept_connection(peer(3), 3_000, &mut stats));
    assert_eq!((stats.relay_connections, stats.active_relay_sessions), (2, 2));
    RelayServer::connection_closed(&mut stats);
    assert_eq!(stats.active_relay_sessions, 1);
    assert_eq!(relay.cleanup_stale_sessions(300_999), 0);
    assert_eq!(relay.cleanup_stale_sessions(301_000), 1);
    assert_eq!(relay.cleanup_stale_sessions(302_000), 1);
    assert_eq!(relay.session_count(), 0);
    RelayServer::connection_closed(&mut stats);
    RelayServer::connection_closed(&mut stats);
    assert_eq!(stats.active_relay_sessions, 0);
    assert!(RelayServer::new(0).is_at_capacity());
}

#[test]
fn bootstrap_nodes_come_and_go() {
    let mut discovery = BootstrapDiscovery::new();
    let addrs = vec![IpAddress::V4(127, 0, 0, 1), IpAddress::V4(192, 168, 0, 3)];
    assert!(discovery.service_resolved("a".to_string(), &vec![], 1, 5).is_none());
    let event = discovery.service_resolved("a".to_string(), &addrs, 6881, 10);
    assert!(matches!(event, Some(BootstrapDiscoveryEvent::NodeDiscovered(n)) if n.id == "a" && n.address == SocketAddress::new(IpAddress::V4(192, 168, 0, 3), 6881) && n.discovered_at == 10));
    assert!(discovery.service_resolved("a".to_string(), &addrs[..1].to_vec(), 6882, 20).is_none());
    assert_eq!(discovery.get_addresses(), vec![SocketAddress::new(IpAddress::V4(127, 0, 0, 1), 6882)]);
    assert!(discovery.service_removed("b".to_string()).is_none());
    assert!(matches!(discovery.service_removed("a".to_string()), Some(BootstrapDiscoveryEvent::NodeLost(n)) if n == "a"));
    assert_eq!(discovery.node_count(), 0);
}

#[test]
fn peers_without_shared_extensions_exchange_only_the_minimal_set() {
    let hash = [3u8; 32];
    let mut local = Bitfield::new(4);
    local.mark(0);
    let mut peer = Peer::new("a".to_string(), [1u8; 32], 0);
    let handshake = GridMessage::Handshake {
        protocol_version: 1,
        info_hash: hash,
        peer_id: [2u8; 32],
        extensions: ENCRYPTION,
    };
    peer.handle_message(handshake, &hash, &local, 1).unwrap();
    peer.handle_message(GridMessage::bitfield(vec![0xF0], 4), &hash, &local, 2).unwrap();
    let outcome = peer.handle_command(PeerCommand::SetChoked(false), 3);
    assert!(matches!(outcome.send, Some(GridMessage::Unchoke)));
    let reaction = peer.handle_message(GridMessage::request(1, 0, 4), &hash, &local, 4).unwrap();
    assert!(reaction.replies.is_empty() && reaction.events.is_empty());
    let reaction = peer
        .handle_message(GridMessage::Error { code: 9, message: "x".to_string() }, &hash, &local, 5)
        .unwrap();
    assert!(reaction.events.is_empty());
    assert_eq!(peer.state().last_message_at, 5);
    let error = GridMessage::Error { code: 1, message: "y".to_string() };
    let outcome = peer.handle_command(PeerCommand::SendMessage(error), 6);
    assert!(outcome.send.is_none() && !outcome.close);
    let outcome = peer.handle_command(PeerCommand::SendMessage(GridMessage::Have { piece_index: 1 }), 7);
    assert!(matches!(outcome.send, Some(GridMessage::Have { piece_index: 1 })));
    let reaction = peer.handle_message(GridMessage::request(0, 0, 4), &hash, &local, 8).unwrap();
    assert_eq!(reaction.events.len(), 1);
}
