//! The swarm: the peers of one file, what each of their events leads to,
//! which pieces are asked of whom, and what is served.
//!
//! Connections, disk and clock stay outside: the swarm is handed events
//! and the time, and hands back what to do.

use vstd::prelude::*;
use crate::grid::bitfield::{count_set, set_positions, index_list, negated};
use crate::grid::peer::{
    capped_add,
    capped_sum,
    not_held_text,
    provisional_name,
    rate_per_sec,
    rate_since,
    PeerCommand,
    PeerCommandView,
    PeerEvent,
    PeerEventView,
    PeerState,
    PeerStateView,
    ERROR_PIECE_NOT_HELD,
};
use crate::grid::piece_manager::{
    live_requests,
    pieces_of,
    read_check,
    request_position,
    stale_pieces,
    write_check,
    FileMetadata,
    PendingView,
    PieceError,
    PieceManager,
    PieceSpan,
};
use crate::grid::protocol::{GridMessage, GridMessageView};
use crate::grid::scheduler::{
    holder_names,
    names_of,
    is_request_round,
    mode_for,
    PieceRequest,
    ScheduleMode,
    DEFAULT_ENDGAME_THRESHOLD,
    completed_piece,
    endgame_wanted_from,
    marked,
    peer_position,
    peers_with,
    peers_without,
    pieces_with,
    repeered,
    repended,
    Scheduler,
    SchedulerView,
};
use crate::seq_util::{first_matching, lemma_filter_ends, lemma_filter_step, lemma_first_matching};
use vstd::string::StringExecFns;

verus! {

/// Peers that a swarm holds at most, unless set otherwise.
pub const DEFAULT_MAX_PEERS: usize = 50;

/// Requests made in one round of scheduling at most.
pub const REQUESTS_PER_ROUND: usize = 16;

/// Time between two rounds of scheduling.
pub const SCHEDULE_INTERVAL_MS: u64 = 100;

/// Time between two status updates.
pub const STATUS_INTERVAL_MS: u64 = 1000;

/// The code of the error sent for a piece that cannot be read.
pub const ERROR_READ_FAILED: u32 = 2;

/// What the owner of a swarm asks of it.
#[derive(Debug)]
pub enum SwarmCommand {
    /// Connect to the peer at this address.
    ConnectPeer(String),
    /// Drop the peer of this name.
    DisconnectPeer(String),
    /// Tell every peer that a piece is held.
    BroadcastHave(u32),
    /// Ask a peer for a piece.
    RequestPiece { peer_id: String, piece_index: u32 },
    /// Serve the file at `file_path`.
    StartSeeding { file_path: String, metadata: FileMetadata },
    /// Fetch the file to `save_path`.
    StartDownload { metadata: FileMetadata, save_path: String },
    /// Stop the swarm.
    Stop,
}

/// What a swarm reports to its owner.
#[derive(Debug)]
pub enum SwarmEvent {
    PeerConnected(String),
    PeerDisconnected(String),
    PieceCompleted(u32),
    TransferComplete,
    Error(String),
}

/// A [`SwarmEvent`] as a mathematical value.
#[verifier::ext_equal]
pub enum SwarmEventView {
    PeerConnected(Seq<char>),
    PeerDisconnected(Seq<char>),
    PieceCompleted(u32),
    TransferComplete,
    Error(Seq<char>),
}

impl View for SwarmEvent {
    type V = SwarmEventView;

    open spec fn view(&self) -> SwarmEventView {
        match *self {
            SwarmEvent::PeerConnected(name) => SwarmEventView::PeerConnected(name@),
            SwarmEvent::PeerDisconnected(name) => SwarmEventView::PeerDisconnected(name@),
            SwarmEvent::PieceCompleted(piece) => SwarmEventView::PieceCompleted(piece),
            SwarmEvent::TransferComplete => SwarmEventView::TransferComplete,
            SwarmEvent::Error(text) => SwarmEventView::Error(text@),
        }
    }
}

/// What a swarm asks of its owner.
#[derive(Debug)]
pub enum SwarmAction {
    /// Hand a command to the session of a peer.
    ToPeer { peer_id: String, command: PeerCommand },
    /// Report an event.
    Emit(SwarmEvent),
    /// Try to connect to an address; the outcome comes back through
    /// [`GridSwarm::peer_connected`] or [`GridSwarm::connect_failed`].
    Connect { addr: String },
    /// Write verified data of a piece to the file; the outcome comes back
    /// through [`GridSwarm::piece_written`] or
    /// [`GridSwarm::piece_write_failed`].
    WritePiece { piece_index: u32, span: PieceSpan, data: Vec<u8> },
    /// Read a piece from the file for a peer; the data comes back through
    /// [`GridSwarm::piece_read`].
    ReadPiece { peer_id: String, piece_index: u32, span: PieceSpan },
    /// Stop the swarm.
    Stop,
}

/// A [`SwarmAction`] as a mathematical value.
#[verifier::ext_equal]
pub enum SwarmActionView {
    ToPeer { peer_id: Seq<char>, command: PeerCommandView },
    Emit(SwarmEventView),
    Connect { addr: Seq<char> },
    WritePiece { piece_index: u32, span: PieceSpan, data: Seq<u8> },
    ReadPiece { peer_id: Seq<char>, piece_index: u32, span: PieceSpan },
    Stop,
}

impl View for SwarmAction {
    type V = SwarmActionView;

    open spec fn view(&self) -> SwarmActionView {
        match *self {
            SwarmAction::ToPeer { peer_id, command } => SwarmActionView::ToPeer {
                peer_id: peer_id@,
                command: command@,
            },
            SwarmAction::Emit(event) => SwarmActionView::Emit(event@),
            SwarmAction::Connect { addr } => SwarmActionView::Connect { addr: addr@ },
            SwarmAction::WritePiece { piece_index, span, data } => SwarmActionView::WritePiece {
                piece_index,
                span,
                data: data@,
            },
            SwarmAction::ReadPiece { peer_id, piece_index, span } => SwarmActionView::ReadPiece {
                peer_id: peer_id@,
                piece_index,
                span,
            },
            SwarmAction::Stop => SwarmActionView::Stop,
        }
    }
}

/// The actions as mathematical values, in order.
pub open spec fn swarm_action_views(actions: Seq<SwarmAction>) -> Seq<SwarmActionView> {
    Seq::new(actions.len(), |i: int| actions[i]@)
}

/// One peer in a status update.
#[derive(Debug)]
pub struct PeerStatus {
    pub address: String,
    pub peer_id: String,
    pub rtt_ms: Option<u32>,
    pub download_speed: u64,
    pub upload_speed: u64,
    pub pieces_have: usize,
    pub is_choked: bool,
    pub is_interested: bool,
}

/// A status update for the surrounding application. The progress is
/// `completed_pieces.len()` of `total_pieces`.
#[derive(Debug)]
pub struct GridStateUpdate {
    pub job_id: String,
    pub total_pieces: usize,
    pub completed_pieces: Vec<usize>,
    pub peers: Vec<PeerStatus>,
    pub download_speed: u64,
    pub upload_speed: u64,
}

/// News of a peer found, for the surrounding application.
#[derive(Debug)]
pub struct GridPeerDiscovered {
    pub peer_id: String,
    pub address: String,
    /// `"mdns"` or `"dht"`.
    pub source: String,
}

/// The swarm of one file.
#[derive(Debug)]
pub struct GridSwarm {
    peers: Vec<PeerState>,
    piece_manager: PieceManager,
    scheduler: Scheduler,
    max_peers: usize,
    connecting: usize,
    job_id: String,
    started_at: u64,
    total_downloaded: u64,
    total_uploaded: u64,
}

/// A [`GridSwarm`] as a mathematical value.
#[verifier::ext_equal]
pub struct SwarmView {
    /// The connected peers, in the order they connected.
    pub peers: Seq<PeerStateView>,
    pub scheduler: SchedulerView,
    pub metadata: FileMetadata,
    /// For each piece, whether it is held.
    pub held: Seq<bool>,
    /// The requests under way.
    pub pending: Seq<PendingView>,
    pub path: Option<Seq<char>>,
    pub max_peers: usize,
    /// Connection attempts under way.
    pub connecting: usize,
    pub job_id: Seq<char>,
    pub started_at: u64,
    pub total_downloaded: u64,
    pub total_uploaded: u64,
}

impl View for GridSwarm {
    type V = SwarmView;

    closed spec fn view(&self) -> SwarmView {
        SwarmView {
            peers: Seq::new(self.peers@.len(), |i: int| self.peers@[i]@),
            scheduler: self.scheduler@,
            metadata: self.piece_manager.metadata(),
            held: self.piece_manager.held(),
            pending: self.piece_manager.pending(),
            path: self.piece_manager.path(),
            max_peers: self.max_peers,
            connecting: self.connecting,
            job_id: self.job_id@,
            started_at: self.started_at,
            total_downloaded: self.total_downloaded,
            total_uploaded: self.total_uploaded,
        }
    }
}

/// The position of the peer named `name`, or -1.
pub open spec fn entry_position(peers: Seq<PeerStateView>, name: Seq<char>) -> int {
    first_matching(peers, |p: PeerStateView| p.peer_id == name)
}

/// The position of the peer at the address `addr`, or -1.
pub open spec fn address_position(peers: Seq<PeerStateView>, addr: Seq<char>) -> int {
    first_matching(peers, |p: PeerStateView| p.remote_addr == addr)
}

/// The peers without the one named `name`.
pub open spec fn entries_without(peers: Seq<PeerStateView>, name: Seq<char>) -> Seq<PeerStateView> {
    if entry_position(peers, name) >= 0 {
        peers.remove(entry_position(peers, name))
    } else {
        peers
    }
}

/// The same command for every peer, in the order of the peers.
pub open spec fn to_every_peer(peers: Seq<PeerStateView>, command: PeerCommandView) -> Seq<
    SwarmActionView,
> {
    Seq::new(peers.len(), |k: int| SwarmActionView::ToPeer { peer_id: peers[k].peer_id, command })
}

/// A message for one peer.
pub open spec fn message_to(peer_id: Seq<char>, message: GridMessageView) -> SwarmActionView {
    SwarmActionView::ToPeer { peer_id, command: PeerCommandView::SendMessage(message) }
}

/// No two peers have the same name.
pub open spec fn distinct_entries(peers: Seq<PeerStateView>) -> bool {
    forall|i: int, j: int|
        0 <= i < j < peers.len() ==> (#[trigger] peers[i]).peer_id != (#[trigger] peers[j]).peer_id
}

impl SwarmView {
    /// The scheduler and the presence map speak of the same pieces and
    /// agree on what is held; peers and attempts fit under the cap; no two
    /// peers have the same name.
    pub open spec fn consistent(self) -> bool {
        &&& self.scheduler.consistent()
        &&& self.scheduler.total_pieces == self.metadata.total_pieces
        &&& self.scheduler.mine == self.held
        &&& self.held.len() == self.metadata.total_pieces
        &&& self.metadata.geometry_ok()
        &&& self.peers.len() + self.connecting <= self.max_peers
        &&& distinct_entries(self.peers)
    }

    /// Whether the peer named `name` offers a piece that is not held.
    pub open spec fn offers_wanted(self, scheduler: SchedulerView, name: Seq<char>) -> bool {
        peer_position(scheduler.peers, name) >= 0 && exists|i: int|
            0 <= i < scheduler.total_pieces && #[trigger] endgame_wanted_from(
                scheduler,
                peer_position(scheduler.peers, name),
            )[i]
    }
}

/// What the news that a peer holds pieces leads to: the scheduler, now
/// `scheduler`, knows what the peer holds, and a peer that offers a piece
/// not held is told of the interest in it, once.
pub open spec fn interest_taken(
    pre: SwarmView,
    scheduler: SchedulerView,
    peer_id: Seq<char>,
    post: SwarmView,
    actions: Seq<SwarmActionView>,
) -> bool {
    let at = entry_position(pre.peers, peer_id);
    let wants = at >= 0 && !pre.peers[at].am_interested && pre.offers_wanted(scheduler, peer_id);
    &&& post == (SwarmView {
        scheduler,
        peers: if wants {
            pre.peers.update(at, PeerStateView { am_interested: true, ..pre.peers[at] })
        } else {
            pre.peers
        },
        ..pre
    })
    &&& actions == if wants {
        seq![SwarmActionView::ToPeer { peer_id, command: PeerCommandView::SetInterested(true) }]
    } else {
        Seq::empty()
    }
}

/// What an event of a peer session does to the swarm at time `now` and
/// what it makes the swarm ask of its owner.
///
/// A peer that disconnected is forgotten, by the scheduler too. A peer
/// that completed its handshake goes by its new name; if a peer of that
/// name is connected already, the newer connection is dropped. What a
/// peer holds goes to the scheduler, and a peer that offers what is not
/// held is told of the interest. Data of a piece that is already held is
/// discarded; other data is checked against the piece's length and hash,
/// written if it passes, and given back to the scheduler if it fails. A
/// request is served from the file if the piece is held, and answered
/// with an error if not. An interested peer is unchoked.
pub open spec fn peer_event_handled(
    pre: SwarmView,
    event: PeerEventView,
    now: u64,
    post: SwarmView,
    actions: Seq<SwarmActionView>,
) -> bool {
    match event {
        PeerEventView::Disconnected { peer_id, .. } => {
            &&& repeered(
                pre.scheduler,
                peers_without(pre.scheduler.peers, peer_id),
                post.scheduler,
            )
            &&& post == (SwarmView {
                peers: entries_without(pre.peers, peer_id),
                scheduler: post.scheduler,
                ..pre
            })
            &&& actions == seq![SwarmActionView::Emit(SwarmEventView::PeerDisconnected(peer_id))]
        },
        PeerEventView::HandshakeComplete { peer_id, previous_id, .. } => {
            let at = entry_position(pre.peers, previous_id);
            if at < 0 {
                post == pre && actions.len() == 0
            } else if peer_id != previous_id && entry_position(pre.peers, peer_id) >= 0 {
                &&& post == (SwarmView { peers: pre.peers.remove(at), ..pre })
                &&& actions == seq![
                    SwarmActionView::ToPeer {
                        peer_id: previous_id,
                        command: PeerCommandView::Disconnect,
                    },
                ]
            } else {
                &&& post == (SwarmView {
                    peers: pre.peers.update(at, PeerStateView { peer_id, ..pre.peers[at] }),
                    ..pre
                })
                &&& actions.len() == 0
            }
        },
        PeerEventView::BitfieldReceived { peer_id, pieces } => {
            &&& repeered(
                pre.scheduler,
                peers_with(
                    pre.scheduler.peers,
                    peer_id,
                    marked(pieces, pre.scheduler.total_pieces),
                ),
                post.scheduler,
            )
            &&& interest_taken(pre, post.scheduler, peer_id, post, actions)
        },
        PeerEventView::HaveReceived { peer_id, piece_index } => if piece_index
            < pre.scheduler.total_pieces {
            &&& repeered(
                pre.scheduler,
                peers_with(
                    pre.scheduler.peers,
                    peer_id,
                    pieces_with(
                        pre.scheduler.peers,
                        peer_id,
                        piece_index as int,
                        pre.scheduler.total_pieces,
                    ),
                ),
                post.scheduler,
            )
            &&& interest_taken(pre, post.scheduler, peer_id, post, actions)
        } else {
            post == pre && actions.len() == 0
        },
        PeerEventView::PieceReceived { piece_index, data, .. } => {
            let counted = SwarmView {
                total_downloaded: capped_sum(pre.total_downloaded, data.len()),
                ..pre
            };
            if piece_index < pre.held.len() && pre.held[piece_index as int] {
                post == counted && actions.len() == 0
            } else {
                match write_check(pre.metadata, pre.path, piece_index as usize, data) {
                    Ok(span) => {
                        &&& post == counted
                        &&& actions == seq![SwarmActionView::WritePiece { piece_index, span, data }]
                    },
                    Err(_) => {
                        &&& post == (SwarmView {
                            scheduler: repended(pre.scheduler, piece_index as usize, false),
                            pending: if request_position(pre.pending, piece_index as usize) >= 0 {
                                pre.pending.remove(
                                    request_position(pre.pending, piece_index as usize),
                                )
                            } else {
                                pre.pending
                            },
                            ..counted
                        })
                        &&& actions.len() == 0
                    },
                }
            }
        },
        PeerEventView::RequestReceived { peer_id, piece_index, .. } => {
            &&& post == pre
            &&& actions == if entry_position(pre.peers, peer_id) < 0 {
                Seq::empty()
            } else if !(piece_index < pre.held.len() && pre.held[piece_index as int]) {
                seq![
                    message_to(
                        peer_id,
                        GridMessageView::Error {
                            code: ERROR_PIECE_NOT_HELD,
                            message: not_held_text(),
                        },
                    ),
                ]
            } else {
                match read_check(pre.metadata, pre.path, piece_index as usize) {
                    Ok(span) => seq![SwarmActionView::ReadPiece { peer_id, piece_index, span }],
                    Err(_) => seq![
                        message_to(
                            peer_id,
                            GridMessageView::Error {
                                code: ERROR_READ_FAILED,
                                message: "piece cannot be read"@,
                            },
                        ),
                    ],
                }
            }
        },
        PeerEventView::ChokeChanged { peer_id, choked } => {
            let at = entry_position(pre.peers, peer_id);
            &&& post == (SwarmView {
                peers: if at >= 0 {
                    pre.peers.update(at, PeerStateView { peer_choking: choked, ..pre.peers[at] })
                } else {
                    pre.peers
                },
                ..pre
            })
            &&& actions.len() == 0
        },
        PeerEventView::InterestChanged { peer_id, interested } => {
            let at = entry_position(pre.peers, peer_id);
            let unchoke = at >= 0 && interested && pre.peers[at].am_choking;
            &&& post == (SwarmView {
                peers: if at >= 0 {
                    pre.peers.update(
                        at,
                        PeerStateView {
                            peer_interested: interested,
                            am_choking: pre.peers[at].am_choking && !interested,
                            ..pre.peers[at]
                        },
                    )
                } else {
                    pre.peers
                },
                ..pre
            })
            &&& actions == if unchoke {
                seq![
                    SwarmActionView::ToPeer {
                        peer_id,
                        command: PeerCommandView::SetChoked(false),
                    },
                ]
            } else {
                Seq::empty()
            }
        },
        PeerEventView::Error { .. } => post == pre && actions.len() == 0,
    }
}

/// The scheduler of a swarm that has just taken up a file of which it
/// holds `held`: it knows no peer and asks for nothing.
pub open spec fn fresh_scheduler(held: Seq<bool>) -> SchedulerView {
    SchedulerView {
        total_pieces: held.len(),
        frequency: Seq::new(held.len(), |i: int| 0usize),
        mine: held,
        pending: Seq::new(held.len(), |i: int| false),
        peers: Seq::empty(),
        mode: mode_for(count_set(held), held.len(), DEFAULT_ENDGAME_THRESHOLD),
        endgame_threshold: DEFAULT_ENDGAME_THRESHOLD,
    }
}

/// The swarm after it took up the file that `metadata` describes, at
/// `path`, holding all of it or nothing.
pub open spec fn taken_up(
    pre: SwarmView,
    metadata: FileMetadata,
    path: Seq<char>,
    seeding: bool,
) -> SwarmView {
    let held = Seq::new(metadata.total_pieces as nat, |i: int| seeding);
    SwarmView {
        metadata,
        held,
        pending: Seq::empty(),
        path: Some(path),
        scheduler: fresh_scheduler(held),
        ..pre
    }
}

/// Whether metadata can be taken up: the numbers fit together and the
/// pieces can be counted in a presence map.
pub open spec fn usable(metadata: FileMetadata) -> bool {
    metadata.geometry_ok() && metadata.total_pieces <= usize::MAX - 7
}

/// What a command of the owner does to the swarm at time `now` and what
/// it makes the swarm ask of its owner.
///
/// A connection is attempted unless the address is connected already or
/// peers and attempts have reached the cap. A peer that is dropped is
/// told so and forgotten. A piece is asked of a peer that is connected,
/// and noted as asked for. Taking up a file replaces the file at hand,
/// unless its metadata do not fit together.
pub open spec fn command_handled(
    pre: SwarmView,
    command: SwarmCommand,
    now: u64,
    post: SwarmView,
    actions: Seq<SwarmActionView>,
) -> bool {
    match command {
        SwarmCommand::ConnectPeer(addr) => if address_position(pre.peers, addr@) >= 0
            || pre.peers.len() + pre.connecting >= pre.max_peers {
            post == pre && actions.len() == 0
        } else {
            &&& post == (SwarmView { connecting: (pre.connecting + 1) as usize, ..pre })
            &&& actions == seq![SwarmActionView::Connect { addr: addr@ }]
        },
        SwarmCommand::DisconnectPeer(name) => if entry_position(pre.peers, name@) < 0 {
            post == pre && actions.len() == 0
        } else {
            &&& repeered(
                pre.scheduler,
                peers_without(pre.scheduler.peers, name@),
                post.scheduler,
            )
            &&& post == (SwarmView {
                peers: entries_without(pre.peers, name@),
                scheduler: post.scheduler,
                ..pre
            })
            &&& actions == seq![
                SwarmActionView::ToPeer { peer_id: name@, command: PeerCommandView::Disconnect },
                SwarmActionView::Emit(SwarmEventView::PeerDisconnected(name@)),
            ]
        },
        SwarmCommand::BroadcastHave(piece_index) => {
            &&& post == pre
            &&& actions == to_every_peer(
                pre.peers,
                PeerCommandView::SendMessage(GridMessageView::Have { piece_index }),
            )
        },
        SwarmCommand::RequestPiece { peer_id, piece_index } => if entry_position(
            pre.peers,
            peer_id@,
        ) < 0 || piece_index >= pre.metadata.total_pieces {
            post == pre && actions.len() == 0
        } else {
            &&& post == (SwarmView {
                scheduler: repended(pre.scheduler, piece_index as usize, true),
                ..pre
            })
            &&& actions == seq![
                message_to(
                    peer_id@,
                    GridMessageView::Request {
                        piece_index,
                        offset: 0,
                        length: pieces_of(pre.metadata)[piece_index as int].length,
                    },
                ),
            ]
        },
        SwarmCommand::StartSeeding { file_path, metadata } => if usable(metadata) {
            post == taken_up(pre, metadata, file_path@, true) && actions.len() == 0
        } else {
            post == pre && actions == seq![
                SwarmActionView::Emit(SwarmEventView::Error("invalid metadata"@)),
            ]
        },
        SwarmCommand::StartDownload { metadata, save_path } => if usable(metadata) {
            post == taken_up(pre, metadata, save_path@, false) && actions.len() == 0
        } else {
            post == pre && actions == seq![
                SwarmActionView::Emit(SwarmEventView::Error("invalid metadata"@)),
            ]
        },
        SwarmCommand::Stop => post == pre && actions == seq![SwarmActionView::Stop],
    }
}

/// What became of a connection that was offered to the swarm.
#[derive(Debug)]
pub enum Admission {
    /// The peer was taken in under this name.
    Admitted { peer_id: String },
    /// A peer of this name is connected already.
    AlreadyConnected,
    /// The swarm is full.
    AtCapacity,
}

/// What the news that piece `piece_index` is on disk does to the swarm.
/// A piece that was held already changes nothing. Otherwise the piece is
/// held from now on, every peer is told so, the completion is reported,
/// and, where this was the last piece, that of the transfer too.
pub open spec fn written(pre: SwarmView, piece_index: u32, post: SwarmView, actions: Seq<SwarmActionView>) -> bool {
    if piece_index >= pre.held.len() || pre.held[piece_index as int] {
        post == pre && actions.len() == 0
    } else {
        let held = pre.held.update(piece_index as int, true);
        &&& post == (SwarmView {
            held,
            scheduler: completed_piece(pre.scheduler, piece_index as usize),
            pending: if request_position(pre.pending, piece_index as usize) >= 0 {
                pre.pending.remove(request_position(pre.pending, piece_index as usize))
            } else {
                pre.pending
            },
            ..pre
        })
        &&& actions == to_every_peer(
            pre.peers,
            PeerCommandView::SendMessage(GridMessageView::Have { piece_index }),
        ).push(SwarmActionView::Emit(SwarmEventView::PieceCompleted(piece_index))) + (
        if count_set(held) == held.len() {
            seq![SwarmActionView::Emit(SwarmEventView::TransferComplete)]
        } else {
            Seq::empty()
        })
    }
}

/// The scheduler after the requests for `pieces` were dropped.
pub open spec fn unpend_all(scheduler: SchedulerView, pieces: Seq<usize>) -> SchedulerView
    decreases pieces.len(),
{
    if pieces.len() == 0 {
        scheduler
    } else {
        repended(unpend_all(scheduler, pieces.drop_last()), pieces.last(), false)
    }
}

/// Whether a request of the scheduler can be made: its peer is connected,
/// its piece exists and can be named on the wire, and no request for the
/// piece is under way.
pub open spec fn sendable(
    peers: Seq<PeerStateView>,
    metadata: FileMetadata,
    pending: Seq<PendingView>,
    request: PieceRequest,
) -> bool {
    &&& entry_position(peers, request.target_peer@) >= 0
    &&& request.piece_index < metadata.total_pieces
    &&& request.piece_index <= u32::MAX
    &&& request_position(pending, request.piece_index) < 0
}

/// Scheduler, requests under way and actions after one request of the
/// scheduler was made, if it can be made.
pub open spec fn after_request(
    state: (SchedulerView, Seq<PendingView>, Seq<SwarmActionView>),
    peers: Seq<PeerStateView>,
    metadata: FileMetadata,
    request: PieceRequest,
    now: u64,
) -> (SchedulerView, Seq<PendingView>, Seq<SwarmActionView>) {
    if sendable(peers, metadata, state.1, request) {
        (
            repended(state.0, request.piece_index, true),
            state.1.push(
                PendingView {
                    index: request.piece_index,
                    requested_at: now,
                    from_peer: request.target_peer@,
                    received_bytes: 0,
                },
            ),
            state.2.push(
                message_to(
                    request.target_peer@,
                    GridMessageView::Request {
                        piece_index: request.piece_index as u32,
                        offset: 0,
                        length: pieces_of(metadata)[request.piece_index as int].length,
                    },
                ),
            ),
        )
    } else {
        state
    }
}

/// Scheduler, requests under way and actions after each request of a
/// round was made in turn.
pub open spec fn after_round(
    state: (SchedulerView, Seq<PendingView>, Seq<SwarmActionView>),
    peers: Seq<PeerStateView>,
    metadata: FileMetadata,
    round: Seq<PieceRequest>,
    now: u64,
) -> (SchedulerView, Seq<PendingView>, Seq<SwarmActionView>)
    decreases round.len(),
{
    if round.len() == 0 {
        state
    } else {
        after_request(
            after_round(state, peers, metadata, round.drop_last(), now),
            peers,
            metadata,
            round.last(),
            now,
        )
    }
}

/// The holders of a piece that are connected, in their order.
pub open spec fn connected_holders(peers: Seq<PeerStateView>, holders: Seq<Seq<char>>) -> Seq<
    Seq<char>,
> {
    holders.filter(|name: Seq<char>| entry_position(peers, name) >= 0)
}

/// The same request to each of `names`, in order.
pub open spec fn requests_to(names: Seq<Seq<char>>, piece_index: u32, length: u32) -> Seq<
    SwarmActionView,
> {
    Seq::new(
        names.len(),
        |k: int| message_to(names[k], GridMessageView::Request { piece_index, offset: 0, length }),
    )
}

/// Scheduler, requests under way and actions after a piece was asked of
/// every connected peer that holds it; a piece that is asked for already,
/// that no connected peer holds, or that cannot be named on the wire is
/// passed over.
pub open spec fn after_endgame_ask(
    state: (SchedulerView, Seq<PendingView>, Seq<SwarmActionView>),
    peers: Seq<PeerStateView>,
    metadata: FileMetadata,
    piece: usize,
    holders: Seq<Seq<char>>,
    now: u64,
) -> (SchedulerView, Seq<PendingView>, Seq<SwarmActionView>) {
    let connected = connected_holders(peers, holders);
    if piece < metadata.total_pieces && piece <= u32::MAX && request_position(state.1, piece) < 0
        && connected.len() > 0 {
        (
            repended(state.0, piece, true),
            state.1.push(
                PendingView {
                    index: piece,
                    requested_at: now,
                    from_peer: connected[0],
                    received_bytes: 0,
                },
            ),
            state.2 + requests_to(
                connected,
                piece as u32,
                pieces_of(metadata)[piece as int].length,
            ),
        )
    } else {
        state
    }
}

/// Scheduler, requests under way and actions after each of the first
/// `count` pieces not held was asked of its holders in turn.
pub open spec fn after_endgame(
    state: (SchedulerView, Seq<PendingView>, Seq<SwarmActionView>),
    peers: Seq<PeerStateView>,
    metadata: FileMetadata,
    scheduler: SchedulerView,
    count: int,
    now: u64,
) -> (SchedulerView, Seq<PendingView>, Seq<SwarmActionView>)
    decreases count,
{
    if count <= 0 {
        state
    } else {
        let missing = set_positions(negated(scheduler.mine));
        after_endgame_ask(
            after_endgame(state, peers, metadata, scheduler, count - 1, now),
            peers,
            metadata,
            missing[count - 1] as usize,
            holder_names(scheduler.peers, missing[count - 1]),
            now,
        )
    }
}

/// What a round of scheduling at time `now` does: requests that have
/// been under way for too long are given up and their pieces returned to
/// the scheduler. In the end game every piece not held and not asked for
/// is then asked of every connected peer that holds it. Otherwise the
/// scheduler makes a round of at most [`REQUESTS_PER_ROUND`] requests, and
/// each one that can be made is sent to its peer and noted as under way.
pub open spec fn round_scheduled(
    pre: SwarmView,
    now: u64,
    post: SwarmView,
    actions: Seq<SwarmActionView>,
) -> bool {
    let reclaimed = unpend_all(pre.scheduler, stale_pieces(pre.pending, now));
    let live = live_requests(pre.pending, now);
    if reclaimed.mode is Endgame {
        (post.scheduler, post.pending, actions) == after_endgame(
            (reclaimed, live, Seq::<SwarmActionView>::empty()),
            pre.peers,
            pre.metadata,
            reclaimed,
            set_positions(negated(reclaimed.mine)).len() as int,
            now,
        ) && post == (SwarmView { scheduler: post.scheduler, pending: post.pending, ..pre })
    } else {
        round_made(pre, reclaimed, live, now, post, actions)
    }
}

/// What a round of requests of the scheduler does.
pub open spec fn round_made(
    pre: SwarmView,
    reclaimed: SchedulerView,
    live: Seq<PendingView>,
    now: u64,
    post: SwarmView,
    actions: Seq<SwarmActionView>,
) -> bool {
    exists|round: Seq<PieceRequest>|
        #![trigger after_round(
            (reclaimed, live, Seq::<SwarmActionView>::empty()),
            pre.peers,
            pre.metadata,
            round,
            now,
        )]
        is_request_round(reclaimed, REQUESTS_PER_ROUND as nat, round) && (
            post.scheduler,
            post.pending,
            actions,
        ) == after_round(
            (reclaimed, live, Seq::<SwarmActionView>::empty()),
            pre.peers,
            pre.metadata,
            round,
            now,
        ) && post == (SwarmView { scheduler: post.scheduler, pending: post.pending, ..pre })
}

/// One action.
fn one(action: SwarmAction) -> (actions: Vec<SwarmAction>)
    ensures
        swarm_action_views(actions@) == seq![action@],
{
    let mut actions: Vec<SwarmAction> = Vec::new();
    actions.push(action);
    proof {
        assert(swarm_action_views(actions@) =~= seq![action@]);
    }
    actions
}

/// No action.
fn none() -> (actions: Vec<SwarmAction>)
    ensures
        swarm_action_views(actions@) == Seq::<SwarmActionView>::empty(),
{
    let actions: Vec<SwarmAction> = Vec::new();
    proof {
        assert(swarm_action_views(actions@) =~= Seq::<SwarmActionView>::empty());
    }
    actions
}

/// An error message for a peer.
fn error_for(peer_id: String, code: u32, text: &str) -> (action: SwarmAction)
    ensures
        action@ == message_to(peer_id@, GridMessageView::Error { code, message: text@ }),
{
    SwarmAction::ToPeer {
        peer_id,
        command: PeerCommand::SendMessage(GridMessage::Error { code, message: text.to_owned() }),
    }
}

impl GridSwarm {
    /// The state is consistent and every part of it is well formed.
    pub closed spec fn wf(&self) -> bool {
        &&& self@.consistent()
        &&& self.piece_manager.wf()
        &&& self.scheduler.wf()
        &&& forall|i: int| 0 <= i < self.peers@.len() ==> (#[trigger] self.peers@[i]).wf()
    }

    /// A well-formed swarm is consistent.
    pub proof fn lemma_wf(&self)
        ensures
            self.wf() ==> self@.consistent(),
    {
    }

    #[verifier::loop_isolation(false)]
    fn find_entry(&self, name: &String) -> (at: usize)
        ensures
            at <= self@.peers.len(),
            at < self@.peers.len() ==> entry_position(self@.peers, name@) == at
                && self@.peers[at as int].peer_id == name@,
            at == self@.peers.len() ==> entry_position(self@.peers, name@) == -1,
            forall|k: int| 0 <= k < at ==> (#[trigger] self@.peers[k]).peer_id != name@,
    {
        proof {
            lemma_first_matching(self@.peers, |p: PeerStateView| p.peer_id == name@);
        }
        let mut i: usize = 0;
        while i < self.peers.len()
            invariant
                i <= self.peers@.len(),
                forall|k: int| 0 <= k < i ==> (#[trigger] self@.peers[k]).peer_id != name@,
            decreases self.peers@.len() - i,
        {
            if self.peers[i].peer_id == *name {
                assert(self@.peers[i as int].peer_id == name@);
                return i;
            }
            i += 1;
        }
        i
    }

    #[verifier::loop_isolation(false)]
    fn find_address(&self, addr: &String) -> (at: usize)
        ensures
            at <= self@.peers.len(),
            at < self@.peers.len() ==> address_position(self@.peers, addr@) == at,
            at == self@.peers.len() ==> address_position(self@.peers, addr@) == -1,
    {
        proof {
            lemma_first_matching(self@.peers, |p: PeerStateView| p.remote_addr == addr@);
        }
        let mut i: usize = 0;
        while i < self.peers.len()
            invariant
                i <= self.peers@.len(),
                forall|k: int| 0 <= k < i ==> (#[trigger] self@.peers[k]).remote_addr != addr@,
            decreases self.peers@.len() - i,
        {
            if self.peers[i].remote_addr == *addr {
                assert(self@.peers[i as int].remote_addr == addr@);
                return i;
            }
            i += 1;
        }
        i
    }

    /// Forgets the peer at `at`.
    fn drop_entry(&mut self, at: usize)
        requires
            old(self).wf(),
            at < old(self)@.peers.len(),
        ensures
            final(self).wf(),
            final(self)@ == (SwarmView { peers: old(self)@.peers.remove(at as int), ..old(self)@ }),
    {
        let ghost before = self@.peers;
        let _ = self.peers.remove(at);
        proof {
            assert(self@.peers =~= before.remove(at as int));
            assert forall|i: int, j: int| 0 <= i < j < self@.peers.len() implies (
            #[trigger] self@.peers[i]).peer_id != (#[trigger] self@.peers[j]).peer_id by {
                let a = if i < at { i } else { i + 1 };
                let b = if j < at { j } else { j + 1 };
                assert(before[a].peer_id != before[b].peer_id);
            }
        }
    }

    /// Puts `entry` in the place of the peer at `at`.
    fn replace_entry(&mut self, at: usize, entry: PeerState)
        requires
            old(self).wf(),
            at < old(self)@.peers.len(),
            entry.wf(),
            entry@.peer_id == old(self)@.peers[at as int].peer_id || entry_position(
                old(self)@.peers,
                entry@.peer_id,
            ) < 0,
        ensures
            final(self).wf(),
            final(self)@ == (SwarmView {
                peers: old(self)@.peers.update(at as int, entry@),
                ..old(self)@
            }),
    {
        let ghost before = self@.peers;
        proof {
            lemma_first_matching(before, |p: PeerStateView| p.peer_id == entry@.peer_id);
        }
        let _ = self.peers.remove(at);
        self.peers.insert(at, entry);
        proof {
            assert(self@.peers =~= before.update(at as int, entry@));
            assert forall|i: int, j: int| 0 <= i < j < self@.peers.len() implies (
            #[trigger] self@.peers[i]).peer_id != (#[trigger] self@.peers[j]).peer_id by {
                assert(before[i].peer_id != before[j].peer_id);
            }
        }
    }

    /// Takes the peer at `at` out to change it; [`GridSwarm::replace_entry`]
    /// puts it back.
    fn copy_entry(&self, at: usize) -> (entry: PeerState)
        requires
            self.wf(),
            at < self@.peers.len(),
        ensures
            entry.wf(),
            entry@ == self@.peers[at as int],
    {
        let p = &self.peers[at];
        PeerState {
            peer_id: p.peer_id.clone(),
            remote_addr: p.remote_addr.clone(),
            info_hash: p.info_hash,
            bitfield: match &p.bitfield {
                Some(b) => Some(b.clone()),
                None => None,
            },
            am_choking: p.am_choking,
            am_interested: p.am_interested,
            peer_choking: p.peer_choking,
            peer_interested: p.peer_interested,
            connected_at: p.connected_at,
            last_message_at: p.last_message_at,
            bytes_downloaded: p.bytes_downloaded,
            bytes_uploaded: p.bytes_uploaded,
            rtt_ms: p.rtt_ms,
        }
    }

    /// Tells the peer `peer_id` of the interest in its pieces, if it
    /// offers one that is not held and was not told yet.
    fn take_interest(&mut self, peer_id: String) -> (actions: Vec<SwarmAction>)
        requires
            old(self).wf(),
        ensures
            final(self).wf(),
            interest_taken(
                old(self)@,
                old(self)@.scheduler,
                peer_id@,
                final(self)@,
                swarm_action_views(actions@),
            ),
    {
        let at = self.find_entry(&peer_id);
        if at < self.peers.len() && !self.peers[at].am_interested
            && self.scheduler.peer_offers_wanted(peer_id.as_str()) {
            let mut entry = self.copy_entry(at);
            entry.am_interested = true;
            self.replace_entry(at, entry);
            one(SwarmAction::ToPeer { peer_id, command: PeerCommand::SetInterested(true) })
        } else {
            none()
        }
    }

    /// The scheduler for the file of `manager`: it holds what the manager
    /// holds and knows no peer.
    #[verifier::loop_isolation(false)]
    fn scheduler_for(manager: &PieceManager) -> (scheduler: Scheduler)
        requires
            manager.wf(),
        ensures
            scheduler.wf(),
            scheduler@ == fresh_scheduler(manager.held()),
    {
        proof {
            manager.lemma_wf();
        }
        let total = manager.total_pieces();
        let mut scheduler = Scheduler::new(total);
        let bitfield = manager.get_bitfield();
        let ghost held = manager.held();
        let mut i: usize = 0;
        proof {
            assert(scheduler@.mine =~= Seq::new(total as nat, |k: int| k < 0 && held[k]));
            assert(scheduler@.frequency =~= fresh_scheduler(held).frequency);
            assert(scheduler@.pending =~= fresh_scheduler(held).pending);
        }
        while i < total
            invariant
                i <= total,
                scheduler.wf(),
                scheduler@ == (SchedulerView {
                    mine: Seq::new(total as nat, |k: int| k < i && held[k]),
                    mode: scheduler@.mode,
                    ..fresh_scheduler(held)
                }),
            decreases total - i,
        {
            if bitfield.has(i) {
                scheduler.mark_completed(i);
            }
            proof {
                assert(scheduler@.mine =~= Seq::new(total as nat, |k: int| k < i + 1 && held[k]));
                assert(scheduler@.pending =~= Seq::new(total as nat, |k: int| false));
            }
            i += 1;
        }
        proof {
            assert(scheduler@.mine =~= held);
        }
        scheduler.update_mode();
        scheduler
    }

    /// A swarm for the file of `manager`, without peers.
    pub fn new(manager: PieceManager, job_id: String, now: u64) -> (swarm: Self)
        requires
            manager.wf(),
        ensures
            swarm.wf(),
            swarm@ == (SwarmView {
                peers: Seq::empty(),
                scheduler: fresh_scheduler(manager.held()),
                metadata: manager.metadata(),
                held: manager.held(),
                pending: manager.pending(),
                path: manager.path(),
                max_peers: DEFAULT_MAX_PEERS,
                connecting: 0,
                job_id: job_id@,
                started_at: now,
                total_downloaded: 0,
                total_uploaded: 0,
            }),
    {
        let scheduler = GridSwarm::scheduler_for(&manager);
        proof {
            manager.lemma_wf();
            scheduler.lemma_wf();
        }
        let swarm = GridSwarm {
            peers: Vec::new(),
            piece_manager: manager,
            scheduler,
            max_peers: DEFAULT_MAX_PEERS,
            connecting: 0,
            job_id,
            started_at: now,
            total_downloaded: 0,
            total_uploaded: 0,
        };
        proof {
            assert(swarm@.peers =~= Seq::empty());
        }
        swarm
    }

    /// The manager of the file.
    pub fn piece_manager(&self) -> (manager: &PieceManager)
        requires
            self.wf(),
        ensures
            manager.wf(),
            manager.metadata() == self@.metadata,
            manager.held() == self@.held,
            manager.pending() == self@.pending,
            manager.path() == self@.path,
    {
        &self.piece_manager
    }

    /// The scheduler.
    pub fn scheduler(&self) -> (scheduler: &Scheduler)
        requires
            self.wf(),
        ensures
            scheduler.wf(),
            scheduler@ == self@.scheduler,
    {
        &self.scheduler
    }

    /// The number of connected peers.
    pub fn peer_count(&self) -> (n: usize)
        ensures
            n == self@.peers.len(),
    {
        self.peers.len()
    }

    /// Whether every piece is held.
    pub fn is_complete(&self) -> (complete: bool)
        requires
            self.wf(),
        ensures
            complete == (count_set(self@.held) == self@.held.len()),
    {
        self.piece_manager.is_complete()
    }

    /// The same message for every peer.
    #[verifier::loop_isolation(false)]
    fn broadcast_have(&self, piece_index: u32) -> (actions: Vec<SwarmAction>)
        ensures
            swarm_action_views(actions@) == to_every_peer(
                self@.peers,
                PeerCommandView::SendMessage(GridMessageView::Have { piece_index }),
            ),
    {
        let mut actions: Vec<SwarmAction> = Vec::new();
        let ghost command = PeerCommandView::SendMessage(GridMessageView::Have { piece_index });
        let mut i: usize = 0;
        proof {
            assert(swarm_action_views(actions@) =~= to_every_peer(self@.peers.take(0), command));
        }
        while i < self.peers.len()
            invariant
                i <= self.peers@.len(),
                swarm_action_views(actions@) == to_every_peer(self@.peers.take(i as int), command),
            decreases self.peers@.len() - i,
        {
            let action = SwarmAction::ToPeer {
                peer_id: self.peers[i].peer_id.clone(),
                command: PeerCommand::SendMessage(GridMessage::Have { piece_index }),
            };
            let ghost before = swarm_action_views(actions@);
            actions.push(action);
            proof {
                assert(self@.peers[i as int].peer_id == self.peers@[i as int].peer_id@);
                assert(action@ == SwarmActionView::ToPeer {
                    peer_id: self@.peers[i as int].peer_id,
                    command,
                });
                assert(swarm_action_views(actions@) =~= before.push(action@));
                assert(swarm_action_views(actions@) =~= to_every_peer(
                    self@.peers.take(i + 1),
                    command,
                ));
            }
            i += 1;
        }
        proof {
            assert(self@.peers.take(i as int) =~= self@.peers);
        }
        actions
    }

    /// Takes up a file.
    fn take_up(&mut self, metadata: FileMetadata, path: String, seeding: bool)
        requires
            old(self).wf(),
            usable(metadata),
        ensures
            final(self).wf(),
            final(self)@ == taken_up(old(self)@, metadata, path@, seeding),
    {
        let mut manager = if seeding {
            PieceManager::new_seeder(metadata)
        } else {
            PieceManager::new(metadata)
        };
        manager.set_source_path(path);
        let scheduler = GridSwarm::scheduler_for(&manager);
        proof {
            manager.lemma_wf();
            scheduler.lemma_wf();
            assert(manager.pending() =~= Seq::empty());
        }
        self.piece_manager = manager;
        self.scheduler = scheduler;
    }

    /// Carries out one command of the owner at time `now`.
    pub fn handle_command(&mut self, command: SwarmCommand, now: u64) -> (actions: Vec<SwarmAction>)
        requires
            old(self).wf(),
        ensures
            final(self).wf(),
            command_handled(old(self)@, command, now, final(self)@, swarm_action_views(actions@)),
    {
        match command {
            SwarmCommand::ConnectPeer(addr) => {
                let at = self.find_address(&addr);
                if at < self.peers.len() || self.max_peers - self.peers.len() <= self.connecting {
                    none()
                } else {
                    self.connecting = self.connecting + 1;
                    one(SwarmAction::Connect { addr })
                }
            },
            SwarmCommand::DisconnectPeer(name) => {
                let at = self.find_entry(&name);
                if at >= self.peers.len() {
                    return none();
                }
                self.drop_entry(at);
                self.scheduler.remove_peer(name.as_str());
                proof {
                    self.scheduler.lemma_wf();
                }
                let mut actions: Vec<SwarmAction> = Vec::new();
                let first = SwarmAction::ToPeer {
                    peer_id: name.clone(),
                    command: PeerCommand::Disconnect,
                };
                let second = SwarmAction::Emit(SwarmEvent::PeerDisconnected(name));
                actions.push(first);
                actions.push(second);
                proof {
                    assert(swarm_action_views(actions@) =~= seq![first@, second@]);
                }
                actions
            },
            SwarmCommand::BroadcastHave(piece_index) => self.broadcast_have(piece_index),
            SwarmCommand::RequestPiece { peer_id, piece_index } => {
                let at = self.find_entry(&peer_id);
                if at >= self.peers.len() {
                    return none();
                }
                match self.piece_manager.get_piece_info(piece_index as usize) {
                    None => none(),
                    Some(piece) => {
                        self.scheduler.mark_pending(piece_index as usize);
                        proof {
                            self.scheduler.lemma_wf();
                        }
                        one(
                            SwarmAction::ToPeer {
                                peer_id,
                                command: PeerCommand::SendMessage(
                                    GridMessage::request(piece_index, 0, piece.length),
                                ),
                            },
                        )
                    },
                }
            },
            SwarmCommand::StartSeeding { file_path, metadata } => {
                if metadata.has_valid_geometry() && metadata.total_pieces <= usize::MAX - 7 {
                    self.take_up(metadata, file_path, true);
                    none()
                } else {
                    one(SwarmAction::Emit(SwarmEvent::Error("invalid metadata".to_owned())))
                }
            },
            SwarmCommand::StartDownload { metadata, save_path } => {
                if metadata.has_valid_geometry() && metadata.total_pieces <= usize::MAX - 7 {
                    self.take_up(metadata, save_path, false);
                    none()
                } else {
                    one(SwarmAction::Emit(SwarmEvent::Error("invalid metadata".to_owned())))
                }
            },
            SwarmCommand::Stop => one(SwarmAction::Stop),
        }
    }

    /// Takes in a connection that was made or accepted, from the address
    /// `addr` at time `now`. `attempted` says that the connection was
    /// asked for by [`SwarmAction::Connect`]: its attempt then ends here.
    /// The peer goes by `peer_` and its address until its handshake.
    pub fn peer_connected(&mut self, addr: String, attempted: bool, now: u64) -> (admission:
        Admission)
        requires
            old(self).wf(),
        ensures
            final(self).wf(),
            ({
                let pre = old(self)@;
                let attempts = if attempted && pre.connecting > 0 {
                    (pre.connecting - 1) as usize
                } else {
                    pre.connecting
                };
                let name = provisional_name(addr@);
                if entry_position(pre.peers, name) >= 0 {
                    admission is AlreadyConnected && final(self)@ == (SwarmView {
                        connecting: attempts,
                        ..pre
                    })
                } else if pre.peers.len() + attempts >= pre.max_peers {
                    admission is AtCapacity && final(self)@ == (SwarmView {
                        connecting: attempts,
                        ..pre
                    })
                } else {
                    &&& admission matches Admission::Admitted { peer_id } && peer_id@ == name
                    &&& final(self)@ == (SwarmView {
                        connecting: attempts,
                        peers: pre.peers.push(
                            PeerStateView {
                                peer_id: name,
                                remote_addr: addr@,
                                info_hash: None,
                                bitfield: None,
                                am_choking: true,
                                am_interested: false,
                                peer_choking: true,
                                peer_interested: false,
                                connected_at: now,
                                last_message_at: now,
                                bytes_downloaded: 0,
                                bytes_uploaded: 0,
                                rtt_ms: None,
                            },
                        ),
                        ..pre
                    })
                }
            }),
    {
        if attempted && self.connecting > 0 {
            self.connecting = self.connecting - 1;
        }
        let mut name = "peer_".to_owned();
        name.append(addr.as_str());
        let at = self.find_entry(&name);
        if at < self.peers.len() {
            return Admission::AlreadyConnected;
        }
        if self.max_peers - self.peers.len() <= self.connecting {
            return Admission::AtCapacity;
        }
        let ghost before = self@.peers;
        let entry = PeerState::new(name.clone(), addr, now);
        self.peers.push(entry);
        proof {
            assert(self@.peers =~= before.push(entry@));
            assert forall|i: int, j: int| 0 <= i < j < self@.peers.len() implies (
            #[trigger] self@.peers[i]).peer_id != (#[trigger] self@.peers[j]).peer_id by {
                if j < before.len() {
                    assert(before[i].peer_id != before[j].peer_id);
                }
            }
        }
        Admission::Admitted { peer_id: name }
    }

    /// Notes that a connection attempt came to nothing.
    pub fn connect_failed(&mut self)
        requires
            old(self).wf(),
        ensures
            final(self).wf(),
            final(self)@ == (SwarmView {
                connecting: if old(self)@.connecting > 0 {
                    (old(self)@.connecting - 1) as usize
                } else {
                    0
                },
                ..old(self)@
            }),
    {
        if self.connecting > 0 {
            self.connecting = self.connecting - 1;
        }
    }

    /// Takes in the news that the data of piece `piece_index` is on disk.
    pub fn piece_written(&mut self, piece_index: u32) -> (actions: Vec<SwarmAction>)
        requires
            old(self).wf(),
        ensures
            final(self).wf(),
            written(old(self)@, piece_index, final(self)@, swarm_action_views(actions@)),
    {
        let index = piece_index as usize;
        proof {
            self.piece_manager.lemma_wf();
        }
        if index >= self.piece_manager.total_pieces() || self.piece_manager.get_bitfield().has(
            index,
        ) {
            return none();
        }
        self.piece_manager.mark_completed(index);
        self.piece_manager.complete_request(index);
        self.scheduler.mark_completed(index);
        proof {
            self.scheduler.lemma_wf();
            self.piece_manager.lemma_wf();
        }
        let mut actions = self.broadcast_have(piece_index);
        let ghost told = swarm_action_views(actions@);
        let done = SwarmAction::Emit(SwarmEvent::PieceCompleted(piece_index));
        actions.push(done);
        proof {
            assert(swarm_action_views(actions@) =~= told.push(done@));
        }
        if self.piece_manager.is_complete() {
            let ghost so_far = swarm_action_views(actions@);
            let all = SwarmAction::Emit(SwarmEvent::TransferComplete);
            actions.push(all);
            proof {
                assert(swarm_action_views(actions@) =~= so_far + seq![all@]);
            }
        } else {
            proof {
                assert(swarm_action_views(actions@) =~= swarm_action_views(actions@) + Seq::<
                    SwarmActionView,
                >::empty());
            }
        }
        actions
    }

    /// Takes in the news that the data of piece `piece_index` could not be
    /// written: the piece may be asked for anew.
    pub fn piece_write_failed(&mut self, piece_index: u32)
        requires
            old(self).wf(),
        ensures
            final(self).wf(),
            final(self)@ == (SwarmView {
                scheduler: repended(old(self)@.scheduler, piece_index as usize, false),
                pending: if request_position(old(self)@.pending, piece_index as usize) >= 0 {
                    old(self)@.pending.remove(
                        request_position(old(self)@.pending, piece_index as usize),
                    )
                } else {
                    old(self)@.pending
                },
                ..old(self)@
            }),
    {
        self.scheduler.unmark_pending(piece_index as usize);
        self.piece_manager.complete_request(piece_index as usize);
        proof {
            self.scheduler.lemma_wf();
            self.piece_manager.lemma_wf();
        }
    }

    /// Takes in the data of piece `piece_index` that was read for the peer
    /// `peer_id`, and sends it on if the peer is still connected.
    pub fn piece_read(&mut self, peer_id: String, piece_index: u32, data: Vec<u8>) -> (actions: Vec<
        SwarmAction,
    >)
        requires
            old(self).wf(),
        ensures
            final(self).wf(),
            if entry_position(old(self)@.peers, peer_id@) >= 0 {
                &&& final(self)@ == (SwarmView {
                    total_uploaded: capped_sum(old(self)@.total_uploaded, data@.len()),
                    ..old(self)@
                })
                &&& swarm_action_views(actions@) == seq![
                    message_to(
                        peer_id@,
                        GridMessageView::Piece { piece_index, offset: 0, data: data@ },
                    ),
                ]
            } else {
                final(self)@ == old(self)@ && actions@.len() == 0
            },
    {
        let at = self.find_entry(&peer_id);
        if at >= self.peers.len() {
            return Vec::new();
        }
        self.total_uploaded = capped_add(self.total_uploaded, data.len());
        one(
            SwarmAction::ToPeer {
                peer_id,
                command: PeerCommand::SendMessage(GridMessage::piece(piece_index, 0, data)),
            },
        )
    }

    /// Makes one round of scheduling at time `now`.
    #[verifier::loop_isolation(false)]
    pub fn schedule_requests(&mut self, now: u64) -> (actions: Vec<SwarmAction>)
        requires
            old(self).wf(),
        ensures
            final(self).wf(),
            round_scheduled(old(self)@, now, final(self)@, swarm_action_views(actions@)),
    {
        let ghost pre = self@;
        let stale = self.piece_manager.cleanup_stale_requests(now);
        let ghost manager = self.piece_manager;
        let mut k: usize = 0;
        while k < stale.len()
            invariant
                k <= stale@.len(),
                self.scheduler.wf(),
                self.scheduler@ == unpend_all(pre.scheduler, stale@.take(k as int)),
                self.scheduler@.mine == pre.scheduler.mine,
                self.scheduler@.total_pieces == pre.scheduler.total_pieces,
                self.piece_manager == manager,
                self.peers == old(self).peers,
                self.max_peers == old(self).max_peers,
                self.connecting == old(self).connecting,
                self.job_id == old(self).job_id,
                self.started_at == old(self).started_at,
                self.total_downloaded == old(self).total_downloaded,
                self.total_uploaded == old(self).total_uploaded,
            decreases stale@.len() - k,
        {
            proof {
                assert(stale@.take(k + 1).drop_last() =~= stale@.take(k as int));
            }
            self.scheduler.unmark_pending(stale[k]);
            k += 1;
        }
        proof {
            assert(stale@.take(k as int) =~= stale@);
            self.piece_manager.lemma_wf();
        }
        let ghost reclaimed = self.scheduler@;
        let ghost live = self.piece_manager.pending();
        let ghost start = (reclaimed, live, Seq::<SwarmActionView>::empty());
        let mut actions: Vec<SwarmAction> = Vec::new();
        proof {
            assert(swarm_action_views(actions@) =~= Seq::<SwarmActionView>::empty());
        }
        if self.scheduler.mode() == ScheduleMode::Endgame {
            let asks = self.scheduler.endgame_requests();
            let ghost missing = set_positions(negated(reclaimed.mine));
            let mut a: usize = 0;
            while a < asks.len()
                invariant
                    a <= asks@.len(),
                    asks@.len() == missing.len(),
                    forall|k: int|
                        0 <= k < asks@.len() ==> (#[trigger] asks@[k]).0 == missing[k] && names_of(
                            asks@[k].1@,
                        ) == holder_names(reclaimed.peers, missing[k]),
                    self.scheduler.wf(),
                    self.piece_manager.wf(),
                    self.scheduler@.mine == pre.scheduler.mine,
                    self.scheduler@.total_pieces == pre.scheduler.total_pieces,
                    self.piece_manager.metadata() == pre.metadata,
                    self.piece_manager.held() == pre.held,
                    self.piece_manager.path() == pre.path,
                    self@.peers == pre.peers,
                    self.peers == old(self).peers,
                    self.max_peers == old(self).max_peers,
                    self.connecting == old(self).connecting,
                    self.job_id == old(self).job_id,
                    self.started_at == old(self).started_at,
                    self.total_downloaded == old(self).total_downloaded,
                    self.total_uploaded == old(self).total_uploaded,
                    (self.scheduler@, self.piece_manager.pending(), swarm_action_views(actions@))
                        == after_endgame(start, pre.peers, pre.metadata, reclaimed, a as int, now),
                decreases asks@.len() - a,
            {
                let piece = asks[a].0;
                let holders = &asks[a].1;
                let ghost names = names_of(holders@);
                let ghost is_connected = |name: Seq<char>| entry_position(pre.peers, name) >= 0;
                let mut connected: Vec<String> = Vec::new();
                let mut h: usize = 0;
                proof {
                    lemma_filter_ends(names, is_connected);
                    assert(names_of(connected@) =~= names.take(0).filter(is_connected));
                }
                while h < holders.len()
                    invariant
                        h <= holders@.len(),
                        names == names_of(holders@),
                        self@.peers == pre.peers,
                        names_of(connected@) == names.take(h as int).filter(is_connected),
                    decreases holders@.len() - h,
                {
                    proof {
                        lemma_filter_step(names, is_connected, h as int);
                    }
                    let at = self.find_entry(&holders[h]);
                    if at < self.peers.len() {
                        let ghost before = names_of(connected@);
                        connected.push(holders[h].clone());
                        proof {
                            assert(names_of(connected@) =~= before.push(names[h as int]));
                        }
                    }
                    h += 1;
                }
                proof {
                    assert(names.take(h as int) =~= names);
                    assert(names_of(connected@) == connected_holders(pre.peers, names));
                }
                if connected.len() > 0 && piece <= u32::MAX as usize {
                    match self.piece_manager.get_piece_info(piece) {
                        Some(info) => {
                            if self.piece_manager.request_piece(piece, connected[0].as_str(), now) {
                                self.scheduler.mark_pending(piece);
                                let ghost base = swarm_action_views(actions@);
                                let ghost goal = requests_to(
                                    names_of(connected@),
                                    piece as u32,
                                    info.length,
                                );
                                let mut c: usize = 0;
                                proof {
                                    assert(swarm_action_views(actions@) =~= base + goal.take(0));
                                }
                                while c < connected.len()
                                    invariant
                                        c <= connected@.len(),
                                        goal == requests_to(
                                            names_of(connected@),
                                            piece as u32,
                                            info.length,
                                        ),
                                        swarm_action_views(actions@) == base + goal.take(c as int),
                                    decreases connected@.len() - c,
                                {
                                    let action = SwarmAction::ToPeer {
                                        peer_id: connected[c].clone(),
                                        command: PeerCommand::SendMessage(
                                            GridMessage::request(piece as u32, 0, info.length),
                                        ),
                                    };
                                    let ghost so_far = swarm_action_views(actions@);
                                    actions.push(action);
                                    proof {
                                        assert(action@ == goal[c as int]);
                                        assert(swarm_action_views(actions@) =~= so_far.push(
                                            action@,
                                        ));
                                        assert(swarm_action_views(actions@) =~= base + goal.take(
                                            c + 1,
                                        ));
                                    }
                                    c += 1;
                                }
                                proof {
                                    assert(goal.take(c as int) =~= goal);
                                }
                            }
                        },
                        None => {},
                    }
                }
                a += 1;
            }
            proof {
                self.scheduler.lemma_wf();
                self.piece_manager.lemma_wf();
            }
            return actions;
        }
        let requests = self.scheduler.generate_requests(REQUESTS_PER_ROUND);
        let mut r: usize = 0;
        while r < requests.len()
            invariant
                r <= requests@.len(),
                self.scheduler.wf(),
                self.piece_manager.wf(),
                self.scheduler@.mine == pre.scheduler.mine,
                self.scheduler@.total_pieces == pre.scheduler.total_pieces,
                self.piece_manager.metadata() == pre.metadata,
                self.piece_manager.held() == pre.held,
                self.piece_manager.path() == pre.path,
                self@.peers == pre.peers,
                self.peers == old(self).peers,
                self.max_peers == old(self).max_peers,
                self.connecting == old(self).connecting,
                self.job_id == old(self).job_id,
                self.started_at == old(self).started_at,
                self.total_downloaded == old(self).total_downloaded,
                self.total_uploaded == old(self).total_uploaded,
                (self.scheduler@, self.piece_manager.pending(), swarm_action_views(actions@))
                    == after_round(start, pre.peers, pre.metadata, requests@.take(r as int), now),
            decreases requests@.len() - r,
        {
            proof {
                assert(requests@.take(r + 1).drop_last() =~= requests@.take(r as int));
                assert(requests@.take(r + 1).last() == requests@[r as int]);
            }
            let piece = requests[r].piece_index;
            let name = requests[r].target_peer.clone();
            let at = self.find_entry(&name);
            if at < self.peers.len() && piece <= u32::MAX as usize {
                match self.piece_manager.get_piece_info(piece) {
                    Some(info) => {
                        if self.piece_manager.request_piece(piece, name.as_str(), now) {
                            self.scheduler.mark_pending(piece);
                            let action = SwarmAction::ToPeer {
                                peer_id: name,
                                command: PeerCommand::SendMessage(
                                    GridMessage::request(piece as u32, 0, info.length),
                                ),
                            };
                            let ghost before = swarm_action_views(actions@);
                            actions.push(action);
                            proof {
                                assert(swarm_action_views(actions@) =~= before.push(action@));
                            }
                        }
                    },
                    None => {},
                }
            }
            r += 1;
        }
        proof {
            assert(requests@.take(r as int) =~= requests@);
            self.scheduler.lemma_wf();
            self.piece_manager.lemma_wf();
            assert(is_request_round(reclaimed, REQUESTS_PER_ROUND as nat, requests@));
            assert((self@.scheduler, self@.pending, swarm_action_views(actions@)) == after_round(
                start,
                pre.peers,
                pre.metadata,
                requests@,
                now,
            ));
        }
        actions
    }

    /// The status of the swarm at time `now`.
    #[verifier::loop_isolation(false)]
    pub fn broadcast_status(&self, now: u64) -> (update: GridStateUpdate)
        requires
            self.wf(),
        ensures
            update.job_id@ == self@.job_id,
            update.total_pieces == self@.metadata.total_pieces,
            index_list(update.completed_pieces@) == set_positions(self@.held),
            update.download_speed == rate_per_sec(self@.total_downloaded, self@.started_at, now),
            update.upload_speed == rate_per_sec(self@.total_uploaded, self@.started_at, now),
            update.peers@.len() == self@.peers.len(),
            forall|k: int|
                0 <= k < update.peers@.len() ==> {
                    let status = #[trigger] update.peers@[k];
                    let peer = self@.peers[k];
                    &&& status.address@ == peer.remote_addr
                    &&& status.peer_id@ == peer.peer_id
                    &&& status.rtt_ms == peer.rtt_ms
                    &&& status.download_speed == rate_per_sec(
                        peer.bytes_downloaded,
                        peer.connected_at,
                        now,
                    )
                    &&& status.upload_speed == rate_per_sec(
                        peer.bytes_uploaded,
                        peer.connected_at,
                        now,
                    )
                    &&& status.pieces_have == if peer_position(
                        self@.scheduler.peers,
                        peer.peer_id,
                    ) >= 0 {
                        count_set(
                            self@.scheduler.peers[peer_position(
                                self@.scheduler.peers,
                                peer.peer_id,
                            )].1,
                        )
                    } else {
                        0
                    }
                    &&& status.is_choked == peer.peer_choking
                    &&& status.is_interested == peer.peer_interested
                },
    {
        let mut peers: Vec<PeerStatus> = Vec::new();
        let mut i: usize = 0;
        while i < self.peers.len()
            invariant
                i <= self.peers@.len(),
                peers@.len() == i,
                forall|k: int|
                    0 <= k < i ==> {
                        let status = #[trigger] peers@[k];
                        let peer = self@.peers[k];
                        &&& status.address@ == peer.remote_addr
                        &&& status.peer_id@ == peer.peer_id
                        &&& status.rtt_ms == peer.rtt_ms
                        &&& status.download_speed == rate_per_sec(
                            peer.bytes_downloaded,
                            peer.connected_at,
                            now,
                        )
                        &&& status.upload_speed == rate_per_sec(
                            peer.bytes_uploaded,
                            peer.connected_at,
                            now,
                        )
                        &&& status.pieces_have == if peer_position(
                            self@.scheduler.peers,
                            peer.peer_id,
                        ) >= 0 {
                            count_set(
                                self@.scheduler.peers[peer_position(
                                    self@.scheduler.peers,
                                    peer.peer_id,
                                )].1,
                            )
                        } else {
                            0
                        }
                        &&& status.is_choked == peer.peer_choking
                        &&& status.is_interested == peer.peer_interested
                    },
            decreases self.peers@.len() - i,
        {
            let p = &self.peers[i];
            proof {
                assert(self@.peers[i as int] == p@);
            }
            let status = PeerStatus {
                address: p.remote_addr.clone(),
                peer_id: p.peer_id.clone(),
                rtt_ms: p.rtt_ms,
                download_speed: p.download_speed(now),
                upload_speed: p.upload_speed(now),
                pieces_have: self.scheduler.peer_piece_count(p.peer_id.as_str()),
                is_choked: p.peer_choking,
                is_interested: p.peer_interested,
            };
            peers.push(status);
            i += 1;
        }
        GridStateUpdate {
            job_id: self.job_id.clone(),
            total_pieces: self.piece_manager.total_pieces(),
            completed_pieces: self.piece_manager.get_bitfield().available_pieces(),
            peers,
            download_speed: rate_since(self.total_downloaded, self.started_at, now),
            upload_speed: rate_since(self.total_uploaded, self.started_at, now),
        }
    }

    /// Takes in one event of a peer session at time `now`.
    pub fn handle_peer_event(&mut self, event: PeerEvent, now: u64) -> (actions: Vec<SwarmAction>)
        requires
            old(self).wf(),
        ensures
            final(self).wf(),
            peer_event_handled(
                old(self)@,
                event@,
                now,
                final(self)@,
                swarm_action_views(actions@),
            ),
    {
        let ghost pre = self@;
        let ghost ev = event@;
        match event {
            PeerEvent::Disconnected { peer_id, reason: _ } => {
                let at = self.find_entry(&peer_id);
                if at < self.peers.len() {
                    self.drop_entry(at);
                }
                self.scheduler.remove_peer(peer_id.as_str());
                proof {
                    self.scheduler.lemma_wf();
                }
                one(SwarmAction::Emit(SwarmEvent::PeerDisconnected(peer_id)))
            },
            PeerEvent::HandshakeComplete { peer_id, previous_id, info_hash: _ } => {
                let at = self.find_entry(&previous_id);
                if at >= self.peers.len() {
                    return none();
                }
                let other = self.find_entry(&peer_id);
                let renamed = !(peer_id == previous_id);
                if renamed && other < self.peers.len() {
                    self.drop_entry(at);
                    one(SwarmAction::ToPeer { peer_id: previous_id, command: PeerCommand::Disconnect })
                } else {
                    let mut entry = self.copy_entry(at);
                    entry.peer_id = peer_id;
                    self.replace_entry(at, entry);
                    none()
                }
            },
            PeerEvent::BitfieldReceived { peer_id, pieces } => {
                self.scheduler.set_peer_bitfield(peer_id.as_str(), pieces);
                proof {
                    self.scheduler.lemma_wf();
                }
                self.take_interest(peer_id)
            },
            PeerEvent::HaveReceived { peer_id, piece_index } => {
                if (piece_index as usize) < self.scheduler.total_pieces() {
                    self.scheduler.peer_has_piece(peer_id.as_str(), piece_index as usize);
                    proof {
                        self.scheduler.lemma_wf();
                        let expected = peers_with(
                            pre.scheduler.peers,
                            peer_id@,
                            pieces_with(
                                pre.scheduler.peers,
                                peer_id@,
                                piece_index as int,
                                pre.scheduler.total_pieces,
                            ),
                        );
                        assert(self@.scheduler.peers =~~= expected);
                    }
                    self.take_interest(peer_id)
                } else {
                    none()
                }
            },
            PeerEvent::PieceReceived { peer_id: _, piece_index, offset: _, data } => {
                self.total_downloaded = capped_add(self.total_downloaded, data.len());
                let index = piece_index as usize;
                if self.piece_manager.get_bitfield().has(index) {
                    return none();
                }
                match self.piece_manager.check_write(index, data.as_slice()) {
                    Ok(span) => one(SwarmAction::WritePiece { piece_index, span, data }),
                    Err(_) => {
                        self.scheduler.unmark_pending(index);
                        self.piece_manager.complete_request(index);
                        proof {
                            self.scheduler.lemma_wf();
                            self.piece_manager.lemma_wf();
                        }
                        none()
                    },
                }
            },
            PeerEvent::RequestReceived { peer_id, piece_index, offset: _, length: _ } => {
                let at = self.find_entry(&peer_id);
                if at >= self.peers.len() {
                    return none();
                }
                let index = piece_index as usize;
                if !self.piece_manager.get_bitfield().has(index) {
                    return one(error_for(peer_id, ERROR_PIECE_NOT_HELD, "piece not held"));
                }
                match self.piece_manager.check_read(index) {
                    Ok(span) => one(SwarmAction::ReadPiece { peer_id, piece_index, span }),
                    Err(_) => one(error_for(peer_id, ERROR_READ_FAILED, "piece cannot be read")),
                }
            },
            PeerEvent::ChokeChanged { peer_id, choked } => {
                let at = self.find_entry(&peer_id);
                if at < self.peers.len() {
                    let mut entry = self.copy_entry(at);
                    entry.peer_choking = choked;
                    self.replace_entry(at, entry);
                }
                none()
            },
            PeerEvent::InterestChanged { peer_id, interested } => {
                let at = self.find_entry(&peer_id);
                if at >= self.peers.len() {
                    return none();
                }
                let mut entry = self.copy_entry(at);
                let unchoke = interested && entry.am_choking;
                entry.peer_interested = interested;
                entry.am_choking = entry.am_choking && !interested;
                self.replace_entry(at, entry);
                if unchoke {
                    one(SwarmAction::ToPeer { peer_id, command: PeerCommand::SetChoked(false) })
                } else {
                    none()
                }
            },
            PeerEvent::Error { peer_id: _, message: _ } => none(),
        }
    }
}

} // verus!
