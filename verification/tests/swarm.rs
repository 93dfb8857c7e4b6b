use ponswarp::grid::bitfield::Bitfield;
use ponswarp::grid::peer::{Peer, PeerCommand, PeerEvent, PeerFault, PeerTick, SessionPhase};
use ponswarp::grid::piece_manager::{FileMetadata, PieceManager};
use ponswarp::grid::protocol::GridMessage;
use ponswarp::grid::swarm::{Admission, GridSwarm, SwarmAction, SwarmCommand, SwarmEvent};
use std::collections::VecDeque;

fn metadata_of(data: &[u8], piece_size: u32) -> FileMetadata {
    FileMetadata::from_bytes("payload.bin".to_string(), data, piece_size)
}

fn copy_of(meta: &FileMetadata) -> FileMetadata {
    FileMetadata {
        info_hash: meta.info_hash,
        file_name: meta.file_name.clone(),
        file_size: meta.file_size,
        piece_size: meta.piece_size,
        total_pieces: meta.total_pieces,
        piece_hashes: meta.piece_hashes.clone(),
        merkle_root: meta.merkle_root,
    }
}

struct Session {
    remote: usize,
    peer: Peer,
}

struct Node {
    addr: String,
    id: [u8; 32],
    swarm: GridSwarm,
    disk: Vec<u8>,
    sessions: Vec<Session>,
    events: Vec<SwarmEvent>,
    corrupt_pieces: bool,
    served: usize,
}

struct Wire {
    from: usize,
    to: usize,
    message: GridMessage,
}

struct Net {
    nodes: Vec<Node>,
    wire: VecDeque<Wire>,
    now: u64,
}

impl Net {
    fn new() -> Net {
        Net { nodes: Vec::new(), wire: VecDeque::new(), now: 1_000 }
    }

    fn add(&mut self, meta: FileMetadata, disk: Vec<u8>, seeding: bool) -> usize {
        let index = self.nodes.len();
        let mut manager =
            if seeding { PieceManager::new_seeder(meta) } else { PieceManager::new(meta) };
        manager.set_save_path(format!("/node/{}", index));
        let mut id = [0u8; 32];
        id[0] = 0xA0 + index as u8;
        id[7] = 0x01;
        self.nodes.push(Node {
            addr: format!("10.0.0.{}:5000", index + 1),
            id,
            swarm: GridSwarm::new(manager, format!("job-{}", index), self.now),
            disk,
            sessions: Vec::new(),
            events: Vec::new(),
            corrupt_pieces: false,
            served: 0,
        });
        index
    }

    fn connect(&mut self, a: usize, b: usize) {
        let addr_b = self.nodes[b].addr.clone();
        let addr_a = self.nodes[a].addr.clone();
        let actions = self.nodes[a].swarm.handle_command(SwarmCommand::ConnectPeer(addr_b.clone()), self.now);
        assert!(matches!(&actions[..], [SwarmAction::Connect { addr }] if *addr == addr_b));
        for (here, there, there_addr, attempted) in
            [(a, b, addr_b.clone(), true), (b, a, addr_a.clone(), false)]
        {
            let admission = self.nodes[here].swarm.peer_connected(there_addr.clone(), attempted, self.now);
            match admission {
                Admission::Admitted { peer_id } => assert_eq!(peer_id, format!("peer_{}", there_addr)),
                other => panic!("not admitted: {:?}", other),
            }
            let id = self.nodes[here].id;
            let mut peer = Peer::new(there_addr, id, self.now);
            let hash = *self.nodes[here].swarm.piece_manager().info_hash();
            let handshake = peer.open(hash, self.now);
            self.nodes[here].sessions.push(Session { remote: there, peer });
            self.wire.push_back(Wire { from: here, to: there, message: handshake });
        }
    }

    fn perform(&mut self, at: usize, actions: Vec<SwarmAction>) {
        let mut queue: VecDeque<SwarmAction> = actions.into();
        while let Some(action) = queue.pop_front() {
            match action {
                SwarmAction::ToPeer { peer_id, command } => {
                    let node = &mut self.nodes[at];
                    let Some(session) = node.sessions.iter_mut().find(|s| s.peer.peer_id() == peer_id) else {
                        continue;
                    };
                    let remote = session.remote;
                    let outcome = session.peer.handle_command(command, self.now);
                    if let Some(mut message) = outcome.send {
                        if node.corrupt_pieces {
                            if let GridMessage::Piece { data, .. } = &mut message {
                                data[0] ^= 0x01;
                            }
                        }
                        self.wire.push_back(Wire { from: at, to: remote, message });
                    }
                    if outcome.close {
                        let node = &mut self.nodes[at];
                        node.sessions.retain(|s| s.peer.peer_id() != peer_id);
                    }
                }
                SwarmAction::Emit(event) => self.nodes[at].events.push(event),
                SwarmAction::WritePiece { piece_index, span, data } => {
                    let node = &mut self.nodes[at];
                    assert!(span.offset + span.length as u64 <= span.file_size);
                    if node.disk.len() < span.file_size as usize {
                        node.disk.resize(span.file_size as usize, 0);
                    }
                    let start = span.offset as usize;
                    node.disk[start..start + data.len()].copy_from_slice(&data);
                    queue.extend(node.swarm.piece_written(piece_index));
                }
                SwarmAction::ReadPiece { peer_id, piece_index, span } => {
                    let node = &mut self.nodes[at];
                    let start = span.offset as usize;
                    let data = node.disk[start..start + span.length as usize].to_vec();
                    node.served += 1;
                    queue.extend(node.swarm.piece_read(peer_id, piece_index, data));
                }
                SwarmAction::Connect { .. } => panic!("unexpected connect"),
                SwarmAction::Stop => {}
            }
        }
    }

    fn deliver(&mut self) {
        while let Some(Wire { from, to, message }) = self.wire.pop_front() {
            let node = &mut self.nodes[to];
            let hash = *node.swarm.piece_manager().info_hash();
            let bitfield: Bitfield = node.swarm.piece_manager().get_bitfield().clone();
            let Some(session) = node.sessions.iter_mut().find(|s| s.remote == from) else {
                continue;
            };
            match session.peer.handle_message(message, &hash, &bitfield, self.now) {
                Ok(reaction) => {
                    for reply in reaction.replies {
                        self.wire.push_back(Wire { from: to, to: from, message: reply });
                    }
                    for event in reaction.events {
                        let actions = self.nodes[to].swarm.handle_peer_event(event, self.now);
                        self.perform(to, actions);
                    }
                }
                Err(fault) => {
                    let node = &mut self.nodes[to];
                    let at = node.sessions.iter().position(|s| s.remote == from).unwrap();
                    let mut session = node.sessions.remove(at);
                    let event = session.peer.close(format!("{:?}", fault));
                    let actions = node.swarm.handle_peer_event(event, self.now);
                    self.perform(to, actions);
                }
            }
        }
    }

    fn run(&mut self, rounds: usize) {
        for _ in 0..rounds {
            self.deliver();
            for at in 0..self.nodes.len() {
                let actions = self.nodes[at].swarm.schedule_requests(self.now);
                self.perform(at, actions);
            }
            self.deliver();
            self.now += 100;
            if self.nodes.iter().all(|n| n.swarm.is_complete()) {
                break;
            }
        }
    }
}

fn payload(len: usize) -> Vec<u8> {
    (0..len).map(|i| ((i * 31 + i / 7) % 253) as u8).collect()
}

fn completions(node: &Node) -> (usize, u64) {
    let pieces = node.events.iter().filter(|e| matches!(e, SwarmEvent::PieceCompleted(_))).count();
    let done = node.events.iter().filter(|e| matches!(e, SwarmEvent::TransferComplete)).count();
    (pieces, done as u64)
}

#[test]
fn single_peer_single_file_transfer() {
    let data = payload(10 * 1024 * 1024);
    let meta = metadata_of(&data, 1024 * 1024);
    let mut net = Net::new();
    let sender = net.add(copy_of(&meta), data.clone(), true);
    let receiver = net.add(copy_of(&meta), Vec::new(), false);
    net.connect(receiver, sender);
    net.run(50);
    let node = &net.nodes[receiver];
    assert!(node.swarm.is_complete());
    assert_eq!(node.disk, data);
    assert_eq!(node.disk.len(), 10485760);
    assert_eq!(completions(node), (10, 1));
    let status = node.swarm.broadcast_status(net.now);
    assert_eq!(status.completed_pieces, (0..10).collect::<Vec<usize>>());
    assert_eq!(status.total_pieces, 10);
    assert_eq!(status.completed_pieces.len() as f32 / status.total_pieces as f32, 1.0);
    assert_eq!(status.peers.len(), 1);
    assert_eq!(status.peers[0].peer_id, "a000000000000001");
    assert_eq!(status.peers[0].address, "10.0.0.1:5000");
    assert_eq!(status.peers[0].pieces_have, 10);
    assert!(!status.peers[0].is_choked);
    assert_eq!(net.nodes[sender].served, 10);
}

#[test]
fn three_peer_grid_catch_up() {
    let data = payload(5 * 1024 * 1024);
    let meta = metadata_of(&data, 1024 * 1024);
    let mut net = Net::new();
    let a = net.add(copy_of(&meta), data.clone(), true);
    let b = net.add(copy_of(&meta), data.clone(), true);
    let c = net.add(copy_of(&meta), Vec::new(), false);
    net.connect(c, a);
    net.connect(c, b);
    net.connect(a, b);
    net.run(50);
    let node = &net.nodes[c];
    assert!(node.swarm.is_complete());
    assert_eq!(node.disk, data);
    assert_eq!(completions(node), (5, 1));
    let mut pieces: Vec<u32> = node
        .events
        .iter()
        .filter_map(|e| match e {
            SwarmEvent::PieceCompleted(i) => Some(*i),
            _ => None,
        })
        .collect();
    pieces.sort();
    assert_eq!(pieces, vec![0, 1, 2, 3, 4]);
    assert!(net.nodes[a].served >= 1);
    assert!(net.nodes[b].served >= 1);
    assert!(net.nodes[a].served + net.nodes[b].served >= 5);
}

#[test]
fn piece_integrity_enforcement() {
    let data = payload(3 * 4096);
    let meta = metadata_of(&data, 4096);
    let mut net = Net::new();
    let malicious = net.add(copy_of(&meta), data.clone(), true);
    let receiver = net.add(copy_of(&meta), Vec::new(), false);
    net.nodes[malicious].corrupt_pieces = true;
    net.connect(receiver, malicious);
    net.run(5);
    let node = &net.nodes[receiver];
    assert!(!node.swarm.is_complete());
    assert_eq!(completions(node), (0, 0));
    assert_eq!(node.swarm.piece_manager().completed_pieces(), 0);
    assert!(net.nodes[malicious].served >= 3);
    assert!(node.disk.is_empty());

    let legitimate = net.add(copy_of(&meta), data.clone(), true);
    net.connect(receiver, legitimate);
    net.run(400);
    let node = &net.nodes[receiver];
    assert!(node.swarm.is_complete());
    assert_eq!(node.disk, data);
    assert_eq!(completions(node), (3, 1));
    assert!(net.nodes[legitimate].served >= 1);
}

#[test]
fn late_copies_of_a_piece_are_discarded() {
    let data = payload(2 * 64);
    let meta = metadata_of(&data, 64);
    let mut manager = PieceManager::new(copy_of(&meta));
    manager.set_save_path("/x".to_string());
    let mut swarm = GridSwarm::new(manager, "job".to_string(), 0);
    let event = |i: u32, d: &[u8]| PeerEvent::PieceReceived {
        peer_id: "p".to_string(),
        piece_index: i,
        offset: 0,
        data: d.to_vec(),
    };
    let actions = swarm.handle_peer_event(event(0, &data[..64]), 1);
    assert!(matches!(&actions[..], [SwarmAction::WritePiece { piece_index: 0, span, data: d }] if span.offset == 0 && span.length == 64 && span.file_size == 128 && d.len() == 64));
    let actions = swarm.piece_written(0);
    assert!(matches!(&actions[..], [SwarmAction::Emit(SwarmEvent::PieceCompleted(0))]));
    assert!(swarm.handle_peer_event(event(0, &data[..64]), 2).is_empty());
    assert!(swarm.piece_written(0).is_empty());
    assert!(swarm.handle_peer_event(event(1, &data[..64]), 3).is_empty());
    assert!(swarm.handle_peer_event(event(2, &data[..64]), 3).is_empty());
    assert!(swarm.handle_peer_event(event(1, &data[64..127]), 3).is_empty());
    let actions = swarm.handle_peer_event(event(1, &data[64..]), 4);
    assert_eq!(actions.len(), 1);
    let actions = swarm.piece_written(1);
    assert!(matches!(
        &actions[..],
        [SwarmAction::Emit(SwarmEvent::PieceCompleted(1)), SwarmAction::Emit(SwarmEvent::TransferComplete)]
    ));
    assert!(swarm.is_complete());
    assert!(swarm.piece_written(7).is_empty());
}

#[test]
fn swarm_admits_up_to_the_cap_and_deduplicates() {
    let meta = metadata_of(&payload(10), 4);
    let mut swarm = GridSwarm::new(PieceManager::new(meta), "job".to_string(), 0);
    for n in 0..50 {
        let addr = format!("10.1.0.{}:1", n);
        let actions = swarm.handle_command(SwarmCommand::ConnectPeer(addr.clone()), 0);
        if n < 49 {
            assert_eq!(actions.len(), 1);
            assert!(matches!(swarm.peer_connected(addr, true, 0), Admission::Admitted { .. }));
        } else {
            assert_eq!(actions.len(), 1);
        }
    }
    assert_eq!(swarm.peer_count(), 49);
    assert!(swarm.handle_command(SwarmCommand::ConnectPeer("10.9.9.9:1".to_string()), 0).is_empty());
    assert!(matches!(swarm.peer_connected("10.7.7.7:1".to_string(), false, 0), Admission::AtCapacity));
    swarm.connect_failed();
    assert!(swarm.handle_command(SwarmCommand::ConnectPeer("10.1.0.3:1".to_string()), 0).is_empty());
    assert!(matches!(swarm.peer_connected("10.1.0.3:1".to_string(), false, 0), Admission::AlreadyConnected));
    assert!(matches!(swarm.peer_connected("10.7.7.7:1".to_string(), false, 0), Admission::Admitted { .. }));
    assert_eq!(swarm.peer_count(), 50);
    let actions = swarm.handle_command(SwarmCommand::DisconnectPeer("peer_10.1.0.3:1".to_string()), 0);
    assert!(matches!(
        &actions[..],
        [SwarmAction::ToPeer { command: PeerCommand::Disconnect, .. }, SwarmAction::Emit(SwarmEvent::PeerDisconnected(name))] if name == "peer_10.1.0.3:1"
    ));
    assert_eq!(swarm.peer_count(), 49);
    assert!(swarm.handle_command(SwarmCommand::DisconnectPeer("nobody".to_string()), 0).is_empty());
    let have = swarm.handle_command(SwarmCommand::BroadcastHave(2), 0);
    assert_eq!(have.len(), 49);
    assert!(matches!(&swarm.handle_command(SwarmCommand::Stop, 0)[..], [SwarmAction::Stop]));
}

#[test]
fn swarm_serves_unchokes_and_refuses() {
    let data = payload(10);
    let meta = metadata_of(&data, 4);
    let mut manager = PieceManager::new(copy_of(&meta));
    manager.set_source_path("/x".to_string());
    manager.mark_completed(1);
    let mut swarm = GridSwarm::new(manager, "job".to_string(), 0);
    assert!(matches!(swarm.peer_connected("h:1".to_string(), false, 0), Admission::Admitted { .. }));
    let named = PeerEvent::HandshakeComplete {
        peer_id: "0102030405060708".to_string(),
        previous_id: "peer_h:1".to_string(),
        info_hash: meta.info_hash,
    };
    assert!(swarm.handle_peer_event(named, 1).is_empty());
    let name = || "0102030405060708".to_string();
    let interested = PeerEvent::InterestChanged { peer_id: name(), interested: true };
    let actions = swarm.handle_peer_event(interested, 2);
    assert!(matches!(&actions[..], [SwarmAction::ToPeer { peer_id, command: PeerCommand::SetChoked(false) }] if *peer_id == name()));
    let again = PeerEvent::InterestChanged { peer_id: name(), interested: true };
    assert!(swarm.handle_peer_event(again, 3).is_empty());
    let request = |i: u32| PeerEvent::RequestReceived { peer_id: name(), piece_index: i, offset: 0, length: 4 };
    let actions = swarm.handle_peer_event(request(1), 4);
    assert!(matches!(&actions[..], [SwarmAction::ReadPiece { piece_index: 1, span, .. }] if span.offset == 4 && span.length == 4));
    let actions = swarm.handle_peer_event(request(0), 5);
    assert!(matches!(&actions[..], [SwarmAction::ToPeer { command: PeerCommand::SendMessage(GridMessage::Error { code: 1, .. }), .. }]));
    let actions = swarm.handle_peer_event(request(9), 5);
    assert!(matches!(&actions[..], [SwarmAction::ToPeer { command: PeerCommand::SendMessage(GridMessage::Error { .. }), .. }]));
    let actions = swarm.piece_read(name(), 1, data[4..8].to_vec());
    assert!(matches!(&actions[..], [SwarmAction::ToPeer { command: PeerCommand::SendMessage(GridMessage::Piece { piece_index: 1, offset: 0, data: d }), .. }] if d == &data[4..8]));
    assert!(swarm.piece_read("gone".to_string(), 1, vec![1]).is_empty());
    let offers = PeerEvent::BitfieldReceived { peer_id: name(), pieces: vec![0, 1] };
    let actions = swarm.handle_peer_event(offers, 6);
    assert!(matches!(&actions[..], [SwarmAction::ToPeer { command: PeerCommand::SetInterested(true), .. }]));
    let have = PeerEvent::HaveReceived { peer_id: name(), piece_index: 2 };
    assert!(swarm.handle_peer_event(have, 7).is_empty());
    assert_eq!(swarm.scheduler().piece_frequency(2), 1);
    let status = swarm.broadcast_status(2_007);
    assert_eq!(status.peers[0].pieces_have, 3);
    assert!(status.peers[0].is_interested);
    let gone = PeerEvent::Disconnected { peer_id: name(), reason: "bye".to_string() };
    let actions = swarm.handle_peer_event(gone, 8);
    assert!(matches!(&actions[..], [SwarmAction::Emit(SwarmEvent::PeerDisconnected(_))]));
    assert_eq!(swarm.peer_count(), 0);
    assert_eq!(swarm.scheduler().piece_frequency(2), 0);
}

#[test]
fn swarm_refuses_metadata_that_does_not_fit() {
    let meta = metadata_of(&payload(10), 4);
    let mut swarm = GridSwarm::new(PieceManager::new(copy_of(&meta)), "job".to_string(), 0);
    let mut bad = copy_of(&meta);
    bad.total_pieces = 7;
    let actions = swarm.handle_command(
        SwarmCommand::StartSeeding { file_path: "/f".to_string(), metadata: bad },
        0,
    );
    assert!(matches!(&actions[..], [SwarmAction::Emit(SwarmEvent::Error(text))] if text == "invalid metadata"));
    assert!(!swarm.is_complete());
    let actions = swarm.handle_command(
        SwarmCommand::StartSeeding { file_path: "/f".to_string(), metadata: copy_of(&meta) },
        0,
    );
    assert!(actions.is_empty());
    assert!(swarm.is_complete());
    let actions = swarm.handle_command(
        SwarmCommand::StartDownload { metadata: meta, save_path: "/g".to_string() },
        0,
    );
    assert!(actions.is_empty());
    assert!(!swarm.is_complete());
}

#[test]
fn session_follows_the_protocol() {
    let hash = [9u8; 32];
    let mut local = Bitfield::new(10);
    local.mark(2);
    let mut peer = Peer::new("10.0.0.9:1".to_string(), [1u8; 32], 100);
    assert_eq!(peer.peer_id(), "peer_10.0.0.9:1");
    assert_eq!(peer.phase(), SessionPhase::Connected);
    assert!(peer.state().am_choking && peer.state().peer_choking);
    assert!(!peer.state().am_interested && !peer.state().peer_interested);
    assert!(matches!(peer.open(hash, 100), GridMessage::Handshake { protocol_version: 1, .. }));

    let mut remote_id = [0u8; 32];
    remote_id[..8].copy_from_slice(&[0xDE, 0xAD, 0xBE, 0xEF, 0, 1, 2, 0xFF]);
    let reaction = peer
        .handle_message(GridMessage::handshake(hash, remote_id), &hash, &local, 110)
        .unwrap();
    assert_eq!(peer.peer_id(), "deadbeef000102ff");
    assert_eq!(peer.phase(), SessionPhase::Handshaken);
    assert!(matches!(&reaction.events[..], [PeerEvent::HandshakeComplete { peer_id, previous_id, .. }] if peer_id == "deadbeef000102ff" && previous_id == "peer_10.0.0.9:1"));
    assert!(matches!(&reaction.replies[..], [GridMessage::Bitfield { data, length: 10 }] if data == &vec![0x20, 0x00]));

    let reaction = peer.handle_message(GridMessage::KeepAlive, &hash, &local, 111).unwrap();
    assert!(reaction.events.is_empty() && reaction.replies.is_empty());
    let reaction = peer
        .handle_message(GridMessage::bitfield(vec![0b1010_0000, 0b0100_0000], 10), &hash, &local, 120)
        .unwrap();
    assert_eq!(peer.phase(), SessionPhase::Ready);
    assert!(matches!(&reaction.events[..], [PeerEvent::BitfieldReceived { pieces, .. }] if pieces == &vec![0, 2, 9]));
    assert_eq!(peer.state().last_message_at, 120);

    let request = || GridMessage::request(2, 0, 4);
    let reaction = peer.handle_message(request(), &hash, &local, 121).unwrap();
    assert!(reaction.events.is_empty() && reaction.replies.is_empty());
    let outcome = peer.handle_command(PeerCommand::SetChoked(false), 122);
    assert!(matches!(outcome.send, Some(GridMessage::Unchoke)));
    let reaction = peer.handle_message(request(), &hash, &local, 123).unwrap();
    assert!(matches!(&reaction.events[..], [PeerEvent::RequestReceived { piece_index: 2, offset: 0, length: 4, .. }]));
    let reaction = peer.handle_message(GridMessage::request(3, 0, 4), &hash, &local, 124).unwrap();
    assert!(reaction.events.is_empty());
    assert!(matches!(&reaction.replies[..], [GridMessage::Error { code: 1, message }] if message == "piece not held"));

    let reaction = peer.handle_message(GridMessage::Have { piece_index: 5 }, &hash, &local, 125).unwrap();
    assert!(matches!(&reaction.events[..], [PeerEvent::HaveReceived { piece_index: 5, .. }]));
    assert_eq!(peer.state().pieces_have(), 4);
    let reaction = peer.handle_message(GridMessage::piece(0, 0, vec![7; 300]), &hash, &local, 126).unwrap();
    assert!(matches!(&reaction.events[..], [PeerEvent::PieceReceived { piece_index: 0, data, .. }] if data.len() == 300));
    assert_eq!(peer.state().bytes_downloaded, 300);
    assert_eq!(peer.state().download_speed(2_100), 150);
    assert_eq!(peer.state().download_speed(1_099), 300);
    assert_eq!(peer.state().upload_speed(5_000), 0);
    let _ = peer.handle_message(GridMessage::Unchoke, &hash, &local, 127).unwrap();
    assert!(!peer.state().peer_choking);
    let _ = peer.handle_message(GridMessage::Interested, &hash, &local, 128).unwrap();
    assert!(peer.state().peer_interested);

    assert_eq!(
        peer.handle_message(GridMessage::handshake(hash, remote_id), &hash, &local, 130).err(),
        Some(PeerFault::UnexpectedMessage)
    );
    assert_eq!(peer.phase(), SessionPhase::Failed);
    assert_eq!(
        peer.handle_message(GridMessage::KeepAlive, &hash, &local, 131).err(),
        Some(PeerFault::SessionOver)
    );
    assert_eq!(peer.state().last_message_at, 130);
}

#[test]
fn session_refuses_violations() {
    let hash = [9u8; 32];
    let local = Bitfield::new(10);
    let mut peer = Peer::new("a".to_string(), [1u8; 32], 0);
    assert_eq!(
        peer.handle_message(GridMessage::handshake([8u8; 32], [2u8; 32]), &hash, &local, 1).err(),
        Some(PeerFault::InfoHashMismatch)
    );
    let mut peer = Peer::new("a".to_string(), [1u8; 32], 0);
    assert_eq!(
        peer.handle_message(GridMessage::Have { piece_index: 1 }, &hash, &local, 1).err(),
        Some(PeerFault::UnexpectedMessage)
    );
    let mut peer = Peer::new("a".to_string(), [1u8; 32], 0);
    peer.handle_message(GridMessage::handshake(hash, [2u8; 32]), &hash, &local, 1).unwrap();
    assert_eq!(
        peer.handle_message(GridMessage::request(0, 0, 1), &hash, &local, 2).err(),
        Some(PeerFault::UnexpectedMessage)
    );
    let mut peer = Peer::new("a".to_string(), [1u8; 32], 0);
    peer.handle_message(GridMessage::handshake(hash, [2u8; 32]), &hash, &local, 1).unwrap();
    assert_eq!(
        peer.handle_message(GridMessage::bitfield(vec![0xFF], 9), &hash, &local, 2).err(),
        Some(PeerFault::MalformedBitfield)
    );
    assert_eq!(peer.phase(), SessionPhase::Failed);
}

#[test]
fn session_keeps_alive_and_times_out() {
    let mut peer = Peer::new("a".to_string(), [1u8; 32], 1_000);
    assert_eq!(peer.tick(30_999), PeerTick::Idle);
    assert_eq!(peer.tick(31_000), PeerTick::SendKeepAlive);
    assert_eq!(peer.tick(31_001), PeerTick::Idle);
    assert_eq!(peer.tick(61_000), PeerTick::SendKeepAlive);
    assert_eq!(peer.tick(61_001), PeerTick::TimedOut);
    assert_eq!(peer.phase(), SessionPhase::Closed);
    assert_eq!(peer.tick(100_000), PeerTick::Idle);
    let outcome = peer.handle_command(PeerCommand::SendMessage(GridMessage::Choke), 100_000);
    assert!(outcome.send.is_none() && outcome.close);

    let mut peer = Peer::new("a".to_string(), [1u8; 32], 0);
    let outcome = peer.handle_command(PeerCommand::SetInterested(true), 5);
    assert!(matches!(outcome.send, Some(GridMessage::Interested)));
    assert!(peer.state().am_interested);
    let outcome = peer.handle_command(PeerCommand::Disconnect, 6);
    assert!(outcome.close && outcome.send.is_none());
    let event = peer.close("done".to_string());
    assert!(matches!(event, PeerEvent::Disconnected { peer_id, reason } if peer_id == "peer_a" && reason == "done"));
}
