use ponswarp::bootstrap::dht::{DhtAction, DhtCommand, DhtMessage, DhtNode, PeerDiscoveredEvent};
use ponswarp::bootstrap::stats::StatsCollector;
use ponswarp::grid::dht::{bucket_index, distance_less, same_id, xor_distance, NodeId};
use ponswarp::grid::providers::ProviderStore;
use ponswarp::grid::routing::{closest_nodes, BucketInsert, KBucket, RoutingEntry, RoutingTable};
use ponswarp::net::{IpAddress, SocketAddress};

fn id(first: u8, last: u8) -> NodeId {
    let mut id = [0u8; 32];
    id[0] = first;
    id[31] = last;
    id
}

fn addr(d: u8, port: u16) -> SocketAddress {
    SocketAddress::new(IpAddress::V4(10, 0, 0, d), port)
}

#[test]
fn xor_distance_is_a_metric() {
    let a = id(0x12, 0x34);
    let b = id(0xF0, 0x0F);
    let c = id(0x55, 0xAA);
    assert_eq!(xor_distance(&a, &a), [0u8; 32]);
    assert_eq!(xor_distance(&a, &b), xor_distance(&b, &a));
    let ab = xor_distance(&a, &b);
    assert_eq!(ab[0], 0xE2);
    assert_eq!(ab[31], 0x3B);
    assert_eq!(&ab[1..31], &[0u8; 30][..]);
    let ac = xor_distance(&a, &c);
    let bc = xor_distance(&b, &c);
    for i in 0..32 {
        assert_eq!(ac[i] & !(ab[i] | bc[i]), 0);
    }
    assert!(same_id(&a, &a));
    assert!(!same_id(&a, &b));
}

#[test]
fn distances_compare_as_big_endian_numbers() {
    assert!(distance_less(&id(0, 255), &id(1, 0)));
    assert!(!distance_less(&id(1, 0), &id(0, 255)));
    assert!(distance_less(&id(7, 1), &id(7, 2)));
    assert!(!distance_less(&id(7, 2), &id(7, 2)));
}

#[test]
fn bucket_index_is_the_leading_differing_bit() {
    let zero = [0u8; 32];
    assert_eq!(bucket_index(&zero, &zero), 255);
    assert_eq!(bucket_index(&zero, &id(0x80, 0)), 0);
    assert_eq!(bucket_index(&zero, &id(0x40, 0xFF)), 1);
    assert_eq!(bucket_index(&zero, &id(0x01, 0)), 7);
    assert_eq!(bucket_index(&zero, &id(0, 0x80)), 248);
    assert_eq!(bucket_index(&zero, &id(0, 0x01)), 255);
    let mut mid = [0u8; 32];
    mid[10] = 0x10;
    assert_eq!(bucket_index(&zero, &mid), 83);
    assert_eq!(bucket_index(&id(0xAA, 1), &id(0xAB, 1)), 7);
    for byte in 0..32usize {
        for bit in 0..8usize {
            let mut other = [0xFFu8; 32];
            for k in 0..byte {
                other[k] = 0;
            }
            other[byte] = 0xFF >> bit;
            assert_eq!(bucket_index(&zero, &other), byte * 8 + bit);
        }
    }
}

#[test]
fn bucket_keeps_twenty_and_replaces_only_the_long_unseen() {
    let mut bucket = KBucket::new(20);
    for n in 0..20u8 {
        let entry = RoutingEntry { node_id: id(1, n), addr: addr(n, 1), last_seen: 1_000 + n as u64 };
        assert_eq!(bucket.add(entry, 1_000 + n as u64), BucketInsert::Added);
    }
    assert_eq!(bucket.len(), 20);
    let again = RoutingEntry { node_id: id(1, 3), addr: addr(99, 9), last_seen: 5_000 };
    assert_eq!(bucket.add(again, 5_000), BucketInsert::Refreshed);
    assert_eq!(bucket.get(3).addr, addr(99, 9));
    assert_eq!(bucket.get(3).last_seen, 5_000);
    let newcomer = RoutingEntry { node_id: id(1, 200), addr: addr(200, 1), last_seen: 301_000 };
    assert_eq!(bucket.add(newcomer, 301_000), BucketInsert::Rejected);
    assert_eq!(bucket.len(), 20);
    let newcomer = RoutingEntry { node_id: id(1, 200), addr: addr(200, 1), last_seen: 301_001 };
    assert_eq!(bucket.add(newcomer, 301_001), BucketInsert::Replaced);
    assert_eq!(bucket.len(), 20);
    assert_eq!(bucket.get(0).node_id, id(1, 200));
    assert_eq!(bucket.get(1).node_id, id(1, 1));
    assert_eq!(bucket.purge(901_001), 1);
    assert_eq!(bucket.purge(904_999), 17);
    assert_eq!(bucket.len(), 2);
    assert_eq!(bucket.get(0).node_id, id(1, 200));
    assert_eq!(bucket.get(1).node_id, id(1, 3));
}

#[test]
fn table_finds_the_closest_nodes_nearest_first() {
    let local = [0u8; 32];
    let mut table = RoutingTable::new(local);
    for n in 1..=40u8 {
        assert_eq!(table.add_node(id(n, 0), addr(n, 7000), 10), BucketInsert::Added);
    }
    assert_eq!(table.len(), 40);
    let target = id(16, 0);
    let found = table.find_closest_nodes(&target, 8);
    let ids: Vec<u8> = found.iter().map(|(id, _)| id[0]).collect();
    assert_eq!(ids, vec![16, 17, 18, 19, 20, 21, 22, 23]);
    assert_eq!(found[0].1, addr(16, 7000));
    assert_eq!(table.find_closest_nodes(&target, 100).len(), 40);
    assert_eq!(table.find_closest_nodes(&target, 0).len(), 0);
    let few = closest_nodes(&table.entries(), &id(3, 0), 3);
    assert_eq!(few.iter().map(|(id, _)| id[0]).collect::<Vec<u8>>(), vec![3, 2, 1]);
    assert_eq!(table.first_contacts().len(), 6);
    assert_eq!(table.purge(900_009), 0);
    assert_eq!(table.purge(900_010), 40);
    assert_eq!(table.len(), 0);
}

#[test]
fn providers_are_capped_at_a_hundred_and_expire_after_an_hour() {
    let mut store = ProviderStore::new();
    let file = id(9, 9);
    for n in 0..100u8 {
        store.add_provider(file, id(2, n), addr(n, 7000), 1_000 + n as u64);
    }
    store.add_provider(file, id(2, 5), addr(5, 7005), 2_000);
    assert_eq!(store.provider_count(), 100);
    let listed = store.get_providers(&file, 2_000);
    assert_eq!(listed.len(), 100);
    assert_eq!(listed[99], (id(2, 5), addr(5, 7005)));
    assert_eq!(listed[5].0, id(2, 6));
    store.add_provider(file, id(3, 0), addr(0, 1), 2_500);
    assert_eq!(store.provider_count(), 100);
    let listed = store.get_providers(&file, 2_500);
    assert_eq!(listed[0].0, id(3, 0));
    assert_eq!(listed[1].0, id(2, 5));
    assert_eq!(listed[2].0, id(2, 99));
    assert_eq!(listed[99].0, id(2, 1));
    assert!(listed.iter().all(|(n, _)| *n != id(2, 0)));
    assert_eq!(store.get_providers(&id(1, 1), 2_500).len(), 0);
    assert_eq!(store.get_providers(&file, 3_601_001).len(), 99);
    assert_eq!(store.get_providers(&file, 3_602_500).len(), 0);
    store.add_provider(id(8, 8), id(3, 1), addr(1, 1), 3_600_000);
    assert_eq!(store.file_count(), 2);
    store.purge(3_602_500);
    assert_eq!(store.file_count(), 1);
    assert_eq!(store.provider_count(), 1);
}

fn sends(actions: &[DhtAction]) -> Vec<(&SocketAddress, &DhtMessage)> {
    actions
        .iter()
        .filter_map(|a| match a {
            DhtAction::Send { to, message } => Some((to, message)),
            _ => None,
        })
        .collect()
}

#[test]
fn node_answers_each_message() {
    let me = id(0, 1);
    let mut node = DhtNode::new(me, 7000);
    let mut stats = StatsCollector::new(0);
    let peer = id(0x80, 2);
    let from = addr(2, 6881);

    let actions = node.handle_message(DhtMessage::Ping { sender_id: peer }, from, 10, &mut stats);
    assert_eq!(actions.len(), 2);
    assert!(matches!(&actions[0], DhtAction::PeerDiscovered { node_id, addr } if *node_id == peer && *addr == from));
    assert!(matches!(&actions[1], DhtAction::Send { to, message: DhtMessage::Pong { sender_id } } if *to == from && *sender_id == me));
    assert_eq!(stats.dht_messages_received, 1);
    assert_eq!(stats.nodes_in_routing_table, 1);

    let actions = node.handle_message(DhtMessage::Pong { sender_id: peer }, from, 11, &mut stats);
    assert!(actions.is_empty());

    let actions = node.handle_message(
        DhtMessage::FindNodeResponse {
            sender_id: peer,
            nodes: vec![(id(0x40, 3), addr(3, 1)), (id(0x20, 4), addr(4, 1)), (peer, from)],
        },
        from,
        12,
        &mut stats,
    );
    assert_eq!(actions.len(), 2);
    assert_eq!(stats.nodes_in_routing_table, 3);
    assert_eq!(node.routing_table_size(), 3);

    let actions = node.handle_message(
        DhtMessage::FindNode { sender_id: id(0x10, 5), target: id(0x41, 0) },
        addr(5, 1),
        13,
        &mut stats,
    );
    assert_eq!(actions.len(), 2);
    match &actions[1] {
        DhtAction::Send { to, message: DhtMessage::FindNodeResponse { sender_id, nodes } } => {
            assert_eq!(*to, addr(5, 1));
            assert_eq!(*sender_id, me);
            let order: Vec<u8> = nodes.iter().map(|(n, _)| n[0]).collect();
            assert_eq!(order, vec![0x40, 0x10, 0x20, 0x80]);
        }
        other => panic!("unexpected {:?}", other),
    }

    let file = id(7, 7);
    let actions = node.handle_message(
        DhtMessage::Announce { sender_id: peer, info_hash: file, port: 7000 },
        from,
        14,
        &mut stats,
    );
    assert_eq!(actions.len(), 1);
    assert!(matches!(&actions[0], DhtAction::Send { message: DhtMessage::AnnounceResponse { success: true, .. }, .. }));
    assert_eq!(stats.providers_stored, 1);

    let _ = node.handle_command(DhtCommand::StartProviding { info_hash: file }, 15, &mut stats);
    assert!(node.is_providing(&file));
    let asker = SocketAddress::new(IpAddress::V4(192, 168, 1, 9), 4000);
    let actions = node.handle_message(
        DhtMessage::GetProviders { sender_id: id(0x08, 6), info_hash: file },
        asker,
        16,
        &mut stats,
    );
    match &actions[1] {
        DhtAction::Send { message: DhtMessage::GetProvidersResponse { info_hash, providers, nodes, .. }, .. } => {
            assert_eq!(*info_hash, file);
            assert_eq!(
                providers,
                &vec![
                    (me, SocketAddress::new(IpAddress::V4(192, 168, 1, 9), 7000)),
                    (peer, SocketAddress::new(IpAddress::V4(10, 0, 0, 2), 7000)),
                ]
            );
            assert_eq!(nodes.len(), 5);
        }
        other => panic!("unexpected {:?}", other),
    }

    let actions = node.handle_message(
        DhtMessage::GetProvidersResponse {
            sender_id: peer,
            info_hash: file,
            providers: vec![(id(0x04, 7), addr(7, 7000))],
            nodes: vec![],
        },
        from,
        17,
        &mut stats,
    );
    assert_eq!(actions.len(), 2);
    assert!(matches!(&actions[0], DhtAction::PeerFound { peer_id, .. } if *peer_id == id(0x04, 7)));
    assert!(matches!(&actions[1], DhtAction::ProvidersFound { providers, .. } if providers.len() == 1));
    assert_eq!(stats.dht_messages_received, 7);
}

#[test]
fn node_commands_reach_the_closest_nodes() {
    let me = id(0, 1);
    let mut node = DhtNode::new(me, 7000);
    let mut stats = StatsCollector::new(0);
    let seed = addr(1, 6881);
    let actions = node.handle_command(DhtCommand::AddBootstrapNode { addr: seed }, 1, &mut stats);
    assert!(matches!(&actions[..], [DhtAction::Send { to, message: DhtMessage::FindNode { sender_id, target } }] if *to == seed && *sender_id == me && *target == me));
    for n in 1..=12u8 {
        let _ = node.handle_command(DhtCommand::AddPeer { node_id: id(n, 0), addr: addr(n, 1) }, 2, &mut stats);
    }
    assert_eq!(stats.nodes_in_routing_table, 12);
    let file = id(8, 0);
    let actions = node.handle_command(DhtCommand::FindProviders { info_hash: file }, 3, &mut stats);
    let asked: Vec<u8> = sends(&actions)
        .iter()
        .map(|(to, m)| {
            assert!(matches!(m, DhtMessage::GetProviders { sender_id, info_hash } if *sender_id == me && *info_hash == file));
            match to.ip {
                IpAddress::V4(_, _, _, d) => d,
                _ => 0,
            }
        })
        .collect();
    assert_eq!(asked, vec![8, 9, 10, 11, 12, 1, 2, 3]);
    let actions = node.handle_command(DhtCommand::StartProviding { info_hash: file }, 3, &mut stats);
    assert_eq!(actions.len(), 8);
    assert!(sends(&actions).iter().all(|(_, m)| matches!(m, DhtMessage::Announce { port: 7000, .. })));
    let _ = node.handle_message(DhtMessage::Announce { sender_id: id(9, 0), info_hash: file, port: 1 }, addr(9, 5), 4, &mut stats);
    let actions = node.handle_command(DhtCommand::FindProviders { info_hash: file }, 5, &mut stats);
    assert!(matches!(&actions[..], [DhtAction::ProvidersFound { providers, .. }] if providers == &vec![(id(9, 0), addr(9, 1))]));
    let _ = node.handle_command(DhtCommand::StopProviding { info_hash: file }, 6, &mut stats);
    assert!(!node.is_providing(&file));
    let pings = node.handle_command(DhtCommand::Refresh, 7, &mut stats);
    assert_eq!(pings.len(), 4);
    assert!(sends(&pings).iter().all(|(_, m)| matches!(m, DhtMessage::Ping { .. })));
    let _ = node.handle_command(DhtCommand::Cleanup, 900_004, &mut stats);
    assert_eq!(stats.nodes_in_routing_table, 0);
    let stop = node.handle_command(DhtCommand::Shutdown, 900_005, &mut stats);
    assert!(matches!(&stop[..], [DhtAction::Stop]));
    DhtNode::note_sent(&mut stats);
    assert_eq!(stats.dht_messages_sent, 1);
}

#[test]
fn discovery_events_name_nodes_by_hex_prefix() {
    let mut node_id = [0u8; 32];
    for (i, b) in node_id.iter_mut().enumerate() {
        *b = (i as u8) * 17 + 1;
    }
    let event = PeerDiscoveredEvent::from_dht(&node_id, addr(1, 2));
    assert_eq!(event.node_id, "0112233445566778");
    assert_eq!(event.source, "dht");
    assert_eq!(event.address, addr(1, 2));
}

#[test]
fn random_identifiers_differ() {
    let a = DhtNode::with_random_id(1).node_id();
    let b = DhtNode::with_random_id(1).node_id();
    let c = DhtNode::with_random_id(1).node_id();
    assert!(a != b || b != c);
    assert!(a != [0u8; 32] || b != [0u8; 32]);
}
