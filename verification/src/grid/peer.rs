//! One peer session: what each inbound message and each command does to
//! the session, what it reports, and what it answers.
//!
//! A session starts connected, is handshaken once the peer has named the
//! same file, and is ready once the peer has sent its bitfield. A
//! protocol violation fails it; either side may close it.

use vstd::prelude::*;
use vstd::string::StringExecFns;
use crate::bootstrap::stats::{elapsed_ms, elapsed_since, MILLIS_PER_SEC};
use crate::digest::{hex_prefix, hex_string};
use crate::grid::bitfield::{bytes_needed, set_positions, wire_bits, Bitfield};
use crate::grid::dht::same_id;
use crate::grid::protocol::{GridMessage, GridMessageView, OFFERED_EXTENSIONS};

verus! {

/// A keep-alive is due after this long without sending (30 seconds).
pub const KEEPALIVE_INTERVAL_MS: u64 = 30_000;

/// A peer that sent nothing for this long (two keep-alive intervals) is
/// given up.
pub const IDLE_TIMEOUT_MS: u64 = 60_000;

/// Bytes of a peer's identifier that name it, as hex text.
pub const PEER_ID_PREFIX: usize = 8;

/// The code of the error sent for a request of a piece that is not held.
pub const ERROR_PIECE_NOT_HELD: u32 = 1;

/// What the owner of a session asks of it.
#[derive(Debug)]
pub enum PeerCommand {
    /// Send a message.
    SendMessage(GridMessage),
    /// Close the session.
    Disconnect,
    /// Choke or unchoke the peer.
    SetChoked(bool),
    /// Tell the peer whether its pieces are wanted.
    SetInterested(bool),
}

/// A [`PeerCommand`] as a mathematical value.
#[verifier::ext_equal]
pub enum PeerCommandView {
    SendMessage(GridMessageView),
    Disconnect,
    SetChoked(bool),
    SetInterested(bool),
}

impl View for PeerCommand {
    type V = PeerCommandView;

    open spec fn view(&self) -> PeerCommandView {
        match *self {
            PeerCommand::SendMessage(message) => PeerCommandView::SendMessage(message@),
            PeerCommand::Disconnect => PeerCommandView::Disconnect,
            PeerCommand::SetChoked(choked) => PeerCommandView::SetChoked(choked),
            PeerCommand::SetInterested(interested) => PeerCommandView::SetInterested(interested),
        }
    }
}

/// What a session reports to its owner.
#[derive(Debug)]
pub enum PeerEvent {
    Disconnected { peer_id: String, reason: String },
    /// The peer named the same file; it is known as `peer_id` from now on
    /// and was known as `previous_id` until now.
    HandshakeComplete { peer_id: String, previous_id: String, info_hash: [u8; 32] },
    BitfieldReceived { peer_id: String, pieces: Vec<usize> },
    HaveReceived { peer_id: String, piece_index: u32 },
    PieceReceived { peer_id: String, piece_index: u32, offset: u32, data: Vec<u8> },
    RequestReceived { peer_id: String, piece_index: u32, offset: u32, length: u32 },
    ChokeChanged { peer_id: String, choked: bool },
    InterestChanged { peer_id: String, interested: bool },
    Error { peer_id: String, message: String },
}

/// A [`PeerEvent`] as a mathematical value.
#[verifier::ext_equal]
pub enum PeerEventView {
    Disconnected { peer_id: Seq<char>, reason: Seq<char> },
    HandshakeComplete { peer_id: Seq<char>, previous_id: Seq<char>, info_hash: [u8; 32] },
    BitfieldReceived { peer_id: Seq<char>, pieces: Seq<usize> },
    HaveReceived { peer_id: Seq<char>, piece_index: u32 },
    PieceReceived { peer_id: Seq<char>, piece_index: u32, offset: u32, data: Seq<u8> },
    RequestReceived { peer_id: Seq<char>, piece_index: u32, offset: u32, length: u32 },
    ChokeChanged { peer_id: Seq<char>, choked: bool },
    InterestChanged { peer_id: Seq<char>, interested: bool },
    Error { peer_id: Seq<char>, message: Seq<char> },
}

impl View for PeerEvent {
    type V = PeerEventView;

    open spec fn view(&self) -> PeerEventView {
        match *self {
            PeerEvent::Disconnected { peer_id, reason } => PeerEventView::Disconnected {
                peer_id: peer_id@,
                reason: reason@,
            },
            PeerEvent::HandshakeComplete {
                peer_id,
                previous_id,
                info_hash,
            } => PeerEventView::HandshakeComplete {
                peer_id: peer_id@,
                previous_id: previous_id@,
                info_hash,
            },
            PeerEvent::BitfieldReceived { peer_id, pieces } => PeerEventView::BitfieldReceived {
                peer_id: peer_id@,
                pieces: pieces@,
            },
            PeerEvent::HaveReceived { peer_id, piece_index } => PeerEventView::HaveReceived {
                peer_id: peer_id@,
                piece_index,
            },
            PeerEvent::PieceReceived {
                peer_id,
                piece_index,
                offset,
                data,
            } => PeerEventView::PieceReceived { peer_id: peer_id@, piece_index, offset, data: data@ },
            PeerEvent::RequestReceived {
                peer_id,
                piece_index,
                offset,
                length,
            } => PeerEventView::RequestReceived { peer_id: peer_id@, piece_index, offset, length },
            PeerEvent::ChokeChanged { peer_id, choked } => PeerEventView::ChokeChanged {
                peer_id: peer_id@,
                choked,
            },
            PeerEvent::InterestChanged { peer_id, interested } => PeerEventView::InterestChanged {
                peer_id: peer_id@,
                interested,
            },
            PeerEvent::Error { peer_id, message } => PeerEventView::Error {
                peer_id: peer_id@,
                message: message@,
            },
        }
    }
}

/// What is known of one peer. Times are readings of a monotonic clock in
/// milliseconds.
#[derive(Debug)]
pub struct PeerState {
    pub peer_id: String,
    pub remote_addr: String,
    pub info_hash: Option<[u8; 32]>,
    pub bitfield: Option<Bitfield>,
    /// This side does not serve the peer's requests.
    pub am_choking: bool,
    /// This side wants pieces of the peer.
    pub am_interested: bool,
    /// The peer does not serve this side's requests.
    pub peer_choking: bool,
    /// The peer wants pieces of this side.
    pub peer_interested: bool,
    pub connected_at: u64,
    pub last_message_at: u64,
    pub bytes_downloaded: u64,
    pub bytes_uploaded: u64,
    pub rtt_ms: Option<u32>,
}

/// A [`PeerState`] as a mathematical value.
#[verifier::ext_equal]
pub struct PeerStateView {
    pub peer_id: Seq<char>,
    pub remote_addr: Seq<char>,
    pub info_hash: Option<[u8; 32]>,
    pub bitfield: Option<Seq<bool>>,
    pub am_choking: bool,
    pub am_interested: bool,
    pub peer_choking: bool,
    pub peer_interested: bool,
    pub connected_at: u64,
    pub last_message_at: u64,
    pub bytes_downloaded: u64,
    pub bytes_uploaded: u64,
    pub rtt_ms: Option<u32>,
}

impl View for PeerState {
    type V = PeerStateView;

    open spec fn view(&self) -> PeerStateView {
        PeerStateView {
            peer_id: self.peer_id@,
            remote_addr: self.remote_addr@,
            info_hash: self.info_hash,
            bitfield: match self.bitfield {
                Some(b) => Some(b@),
                None => None,
            },
            am_choking: self.am_choking,
            am_interested: self.am_interested,
            peer_choking: self.peer_choking,
            peer_interested: self.peer_interested,
            connected_at: self.connected_at,
            last_message_at: self.last_message_at,
            bytes_downloaded: self.bytes_downloaded,
            bytes_uploaded: self.bytes_uploaded,
            rtt_ms: self.rtt_ms,
        }
    }
}

/// Bytes per second over the time since `since`, counted in whole seconds
/// and as one second at least.
pub open spec fn rate_per_sec(bytes: u64, since: u64, now: u64) -> u64 {
    let secs = elapsed_ms(since, now) / MILLIS_PER_SEC;
    if secs < 1 {
        bytes
    } else {
        (bytes / secs) as u64
    }
}

/// Executable form of [`rate_per_sec`].
pub fn rate_since(bytes: u64, since: u64, now: u64) -> (rate: u64)
    ensures
        rate == rate_per_sec(bytes, since, now),
{
    let secs = elapsed_since(since, now) / MILLIS_PER_SEC;
    if secs < 1 {
        bytes
    } else {
        bytes / secs
    }
}

/// `a + b`, stopping at the largest value.
pub open spec fn capped_sum(a: u64, b: nat) -> u64 {
    if a + b > u64::MAX {
        u64::MAX
    } else {
        (a + b) as u64
    }
}

/// Executable form of [`capped_sum`].
pub fn capped_add(a: u64, b: usize) -> (sum: u64)
    ensures
        sum == capped_sum(a, b as nat),
{
    let room = u64::MAX - a;
    if b as u128 > room as u128 {
        u64::MAX
    } else {
        a + b as u64
    }
}

impl PeerState {
    /// The presence map of the peer, where there is one, is well formed.
    pub open spec fn wf(&self) -> bool {
        match self.bitfield {
            Some(b) => b.wf(),
            None => true,
        }
    }

    /// What is known of a peer that has just connected at time `now`:
    /// both sides choke and neither is interested.
    pub fn new(peer_id: String, remote_addr: String, now: u64) -> (state: Self)
        ensures
            state.wf(),
            state@ == (PeerStateView {
                peer_id: peer_id@,
                remote_addr: remote_addr@,
                info_hash: None,
                bitfield: None,
                am_choking: true,
                am_interested: false,
                peer_choking: true,
                peer_interested: false,
                connected_at: now,
                last_message_at: now,
                bytes_downloaded: 0,
                bytes_uploaded: 0,
                rtt_ms: None,
            }),
    {
        PeerState {
            peer_id,
            remote_addr,
            info_hash: None,
            bitfield: None,
            am_choking: true,
            am_interested: false,
            peer_choking: true,
            peer_interested: false,
            connected_at: now,
            last_message_at: now,
            bytes_downloaded: 0,
            bytes_uploaded: 0,
            rtt_ms: None,
        }
    }

    /// Bytes per second received since the peer connected.
    pub fn download_speed(&self, now: u64) -> (rate: u64)
        ensures
            rate == rate_per_sec(self.bytes_downloaded, self.connected_at, now),
    {
        rate_since(self.bytes_downloaded, self.connected_at, now)
    }

    /// Bytes per second sent since the peer connected.
    pub fn upload_speed(&self, now: u64) -> (rate: u64)
        ensures
            rate == rate_per_sec(self.bytes_uploaded, self.connected_at, now),
    {
        rate_since(self.bytes_uploaded, self.connected_at, now)
    }

    /// The number of pieces that the peer is known to hold.
    pub fn pieces_have(&self) -> (n: usize)
        requires
            self.wf(),
        ensures
            n == match self@.bitfield {
                Some(bits) => crate::grid::bitfield::count_set(bits),
                None => 0,
            },
    {
        match &self.bitfield {
            Some(b) => b.count_ones(),
            None => 0,
        }
    }
}

/// How far a session has come.
#[derive(Clone, Copy, Debug, PartialEq, Eq, Structural)]
pub enum SessionPhase {
    /// The connection stands; the peer has not named the file yet.
    Connected,
    /// The peer has named the same file; its bitfield is due.
    Handshaken,
    /// The peer's bitfield is known: pieces may be asked for and served.
    Ready,
    /// The peer broke the protocol.
    Failed,
    /// The session was closed.
    Closed,
}

/// How a peer broke the protocol, or why a message is not taken.
#[derive(Clone, Copy, Debug, PartialEq, Eq, Structural)]
pub enum PeerFault {
    /// The peer named another file.
    InfoHashMismatch,
    /// The message may not come at this point of the session.
    UnexpectedMessage,
    /// The bitfield has fewer bytes than its length demands.
    MalformedBitfield,
    /// The session has failed or was closed.
    SessionOver,
}

/// What taking in a message leads to: events for the owner and messages
/// for the peer.
#[derive(Debug)]
pub struct PeerReaction {
    pub events: Vec<PeerEvent>,
    pub replies: Vec<GridMessage>,
}

/// A [`PeerReaction`] as a mathematical value.
#[verifier::ext_equal]
pub struct ReactionView {
    pub events: Seq<PeerEventView>,
    pub replies: Seq<GridMessageView>,
}

impl View for PeerReaction {
    type V = ReactionView;

    open spec fn view(&self) -> ReactionView {
        ReactionView {
            events: Seq::new(self.events@.len(), |i: int| self.events@[i]@),
            replies: Seq::new(self.replies@.len(), |i: int| self.replies@[i]@),
        }
    }
}

/// The outcome of taking in a message, as a mathematical value.
pub open spec fn outcome_view(outcome: Result<PeerReaction, PeerFault>) -> Result<
    ReactionView,
    PeerFault,
> {
    match outcome {
        Ok(reaction) => Ok(reaction@),
        Err(fault) => Err(fault),
    }
}

/// One peer session.
#[derive(Debug)]
pub struct Peer {
    state: PeerState,
    phase: SessionPhase,
    my_peer_id: [u8; 32],
    last_sent_at: u64,
    remote_extensions: u64,
}

/// A [`Peer`] as a mathematical value.
#[verifier::ext_equal]
pub struct PeerView {
    pub state: PeerStateView,
    pub phase: SessionPhase,
    pub my_peer_id: [u8; 32],
    pub last_sent_at: u64,
    /// The extensions that the peer offered in its handshake.
    pub remote_extensions: u64,
}

impl PeerView {
    /// Whether a message may pass between the two sides: peers that share
    /// no extension keep to the minimal set.
    pub open spec fn allows(self, message: GridMessageView) -> bool {
        OFFERED_EXTENSIONS & self.remote_extensions != 0 || message.is_minimal()
    }
}

impl View for Peer {
    type V = PeerView;

    closed spec fn view(&self) -> PeerView {
        PeerView {
            state: self.state@,
            phase: self.phase,
            my_peer_id: self.my_peer_id,
            last_sent_at: self.last_sent_at,
            remote_extensions: self.remote_extensions,
        }
    }
}

/// No events and no replies.
pub open spec fn nothing() -> ReactionView {
    ReactionView { events: Seq::empty(), replies: Seq::empty() }
}

/// One event and no reply.
pub open spec fn reporting(event: PeerEventView) -> ReactionView {
    ReactionView { events: seq![event], replies: Seq::empty() }
}

/// The pieces that a presence map marks, as machine indices in growing order.
pub open spec fn held_pieces(bits: Seq<bool>) -> Seq<usize> {
    Seq::new(set_positions(bits).len(), |k: int| set_positions(bits)[k] as usize)
}

/// The name that a session gives a peer before the handshake.
pub open spec fn provisional_name(remote_addr: Seq<char>) -> Seq<char> {
    "peer_"@ + remote_addr
}

/// The text of the error sent for a request of a piece that is not held.
pub open spec fn not_held_text() -> Seq<char> {
    "piece not held"@
}

/// The session after it failed.
pub open spec fn failed(pre: PeerView, now: u64) -> PeerView {
    PeerView {
        state: PeerStateView { last_message_at: now, ..pre.state },
        phase: SessionPhase::Failed,
        ..pre
    }
}

/// What taking in the bitfield of a peer does.
pub open spec fn bitfield_received(pre: PeerView, data: Seq<u8>, length: usize, now: u64) -> (
    PeerView,
    Result<ReactionView, PeerFault>,
) {
    if data.len() < bytes_needed(length as int) {
        (failed(pre, now), Err(PeerFault::MalformedBitfield))
    } else {
        let bits = wire_bits(data, length as nat);
        (
            PeerView {
                state: PeerStateView {
                    last_message_at: now,
                    bitfield: Some(bits),
                    ..pre.state
                },
                phase: SessionPhase::Ready,
                ..pre
            },
            Ok(
                reporting(
                    PeerEventView::BitfieldReceived {
                        peer_id: pre.state.peer_id,
                        pieces: held_pieces(bits),
                    },
                ),
            ),
        )
    }
}

/// What taking in `message` at time `now` does to a session and what it
/// leads to. `local_hash` names the file of this side, `local_wire` and
/// `local_held` are its presence map as bytes and as bits.
///
/// A session that is over takes nothing. Before the handshake only a
/// handshake for the same file is taken; it names the peer by the hex
/// text of the first eight bytes of its identifier and is answered with
/// this side's bitfield. After the handshake the bitfield is due; a
/// keep-alive may come first. In a ready session a request is dropped
/// while the peer is choked, answered with an error where the piece is
/// not held, and reported otherwise; pieces, haves and changes of choke
/// and interest are noted and reported. Between peers that share no
/// extension, a message outside the minimal set is neither taken nor sent.
pub open spec fn received(
    pre: PeerView,
    message: GridMessageView,
    local_hash: [u8; 32],
    local_wire: Seq<u8>,
    local_held: Seq<bool>,
    now: u64,
) -> (PeerView, Result<ReactionView, PeerFault>) {
    let touched = PeerView { state: PeerStateView { last_message_at: now, ..pre.state }, ..pre };
    let name = pre.state.peer_id;
    match pre.phase {
        SessionPhase::Failed => (pre, Err(PeerFault::SessionOver)),
        SessionPhase::Closed => (pre, Err(PeerFault::SessionOver)),
        SessionPhase::Connected => match message {
            GridMessageView::Handshake { info_hash, peer_id, extensions, .. } => if info_hash@
                != local_hash@ {
                (failed(pre, now), Err(PeerFault::InfoHashMismatch))
            } else {
                let named = hex_string(peer_id@.take(PEER_ID_PREFIX as int));
                (
                    PeerView {
                        state: PeerStateView {
                            last_message_at: now,
                            peer_id: named,
                            info_hash: Some(info_hash),
                            ..pre.state
                        },
                        phase: SessionPhase::Handshaken,
                        remote_extensions: extensions,
                        ..pre
                    },
                    Ok(
                        ReactionView {
                            events: seq![
                                PeerEventView::HandshakeComplete {
                                    peer_id: named,
                                    previous_id: name,
                                    info_hash,
                                },
                            ],
                            replies: seq![
                                GridMessageView::Bitfield {
                                    data: local_wire,
                                    length: local_held.len() as usize,
                                },
                            ],
                        },
                    ),
                )
            },
            _ => (failed(pre, now), Err(PeerFault::UnexpectedMessage)),
        },
        SessionPhase::Handshaken => match message {
            GridMessageView::Bitfield { data, length } => bitfield_received(pre, data, length, now),
            GridMessageView::KeepAlive => (touched, Ok(nothing())),
            _ => (failed(pre, now), Err(PeerFault::UnexpectedMessage)),
        },
        SessionPhase::Ready => if !pre.allows(message) {
            (touched, Ok(nothing()))
        } else {
            received_when_ready(pre, message, local_held, now)
        },
    }
}

/// What a ready session does with a message that may pass.
pub open spec fn received_when_ready(
    pre: PeerView,
    message: GridMessageView,
    local_held: Seq<bool>,
    now: u64,
) -> (PeerView, Result<ReactionView, PeerFault>) {
    let touched = PeerView { state: PeerStateView { last_message_at: now, ..pre.state }, ..pre };
    let name = pre.state.peer_id;
    match message {
        GridMessageView::Handshake { .. } => (
            failed(pre, now),
            Err(PeerFault::UnexpectedMessage),
        ),
        GridMessageView::Bitfield { data, length } => bitfield_received(pre, data, length, now),
        GridMessageView::Have { piece_index } => (
            PeerView {
                state: PeerStateView {
                    last_message_at: now,
                    bitfield: match pre.state.bitfield {
                        Some(bits) => Some(
                            if piece_index < bits.len() {
                                bits.update(piece_index as int, true)
                            } else {
                                bits
                            },
                        ),
                        None => None,
                    },
                    ..pre.state
                },
                ..pre
            },
            Ok(reporting(PeerEventView::HaveReceived { peer_id: name, piece_index })),
        ),
        GridMessageView::Request { piece_index, offset, length } => if pre.state.am_choking {
            (touched, Ok(nothing()))
        } else if !(piece_index < local_held.len() && local_held[piece_index as int]) {
            (
                touched,
                Ok(
                    ReactionView {
                        events: Seq::empty(),
                        replies: if OFFERED_EXTENSIONS & pre.remote_extensions != 0 {
                            seq![
                                GridMessageView::Error {
                                    code: ERROR_PIECE_NOT_HELD,
                                    message: not_held_text(),
                                },
                            ]
                        } else {
                            Seq::empty()
                        },
                    },
                ),
            )
        } else {
            (
                touched,
                Ok(
                    reporting(
                        PeerEventView::RequestReceived {
                            peer_id: name,
                            piece_index,
                            offset,
                            length,
                        },
                    ),
                ),
            )
        },
        GridMessageView::Piece { piece_index, offset, data } => (
            PeerView {
                state: PeerStateView {
                    last_message_at: now,
                    bytes_downloaded: capped_sum(pre.state.bytes_downloaded, data.len()),
                    ..pre.state
                },
                ..pre
            },
            Ok(
                reporting(
                    PeerEventView::PieceReceived { peer_id: name, piece_index, offset, data },
                ),
            ),
        ),
        GridMessageView::Choke => (
            PeerView {
                state: PeerStateView { last_message_at: now, peer_choking: true, ..pre.state },
                ..pre
            },
            Ok(reporting(PeerEventView::ChokeChanged { peer_id: name, choked: true })),
        ),
        GridMessageView::Unchoke => (
            PeerView {
                state: PeerStateView { last_message_at: now, peer_choking: false, ..pre.state },
                ..pre
            },
            Ok(reporting(PeerEventView::ChokeChanged { peer_id: name, choked: false })),
        ),
        GridMessageView::Interested => (
            PeerView {
                state: PeerStateView {
                    last_message_at: now,
                    peer_interested: true,
                    ..pre.state
                },
                ..pre
            },
            Ok(reporting(PeerEventView::InterestChanged { peer_id: name, interested: true })),
        ),
        GridMessageView::NotInterested => (
            PeerView {
                state: PeerStateView {
                    last_message_at: now,
                    peer_interested: false,
                    ..pre.state
                },
                ..pre
            },
            Ok(reporting(PeerEventView::InterestChanged { peer_id: name, interested: false })),
        ),
        GridMessageView::Error { message, .. } => (
            touched,
            Ok(reporting(PeerEventView::Error { peer_id: name, message })),
        ),
        _ => (touched, Ok(nothing())),
    }
}

/// A reaction that reports one event.
fn report(event: PeerEvent) -> (reaction: PeerReaction)
    ensures
        reaction@ == reporting(event@),
{
    let mut events: Vec<PeerEvent> = Vec::new();
    events.push(event);
    let reaction = PeerReaction { events, replies: Vec::new() };
    proof {
        assert(reaction@.events =~= seq![event@]);
        assert(reaction@.replies =~= Seq::<GridMessageView>::empty());
    }
    reaction
}

/// A reaction that reports nothing and answers nothing.
fn silence() -> (reaction: PeerReaction)
    ensures
        reaction@ == nothing(),
{
    let reaction = PeerReaction { events: Vec::new(), replies: Vec::new() };
    proof {
        assert(reaction@.events =~= Seq::<PeerEventView>::empty());
        assert(reaction@.replies =~= Seq::<GridMessageView>::empty());
    }
    reaction
}

/// What carrying out a command leads to.
#[derive(Debug)]
pub struct CommandOutcome {
    /// The message to send to the peer, if any.
    pub send: Option<GridMessage>,
    /// Whether the connection is to be closed.
    pub close: bool,
}

/// What is due when the clock is looked at.
#[derive(Clone, Copy, Debug, PartialEq, Eq, Structural)]
pub enum PeerTick {
    /// Nothing is due.
    Idle,
    /// Nothing was sent for a keep-alive interval: send a keep-alive.
    SendKeepAlive,
    /// The peer was silent for too long: the session is closed.
    TimedOut,
}

/// What carrying out `command` at time `now` does to a session, which
/// message it sends, and whether it closes the connection.
pub open spec fn commanded(pre: PeerView, command: PeerCommand, now: u64) -> (
    PeerView,
    Option<GridMessageView>,
    bool,
) {
    if pre.phase is Failed || pre.phase is Closed {
        (pre, None, true)
    } else {
        match command {
            PeerCommand::SendMessage(message) => if pre.allows(message@) {
                (PeerView { last_sent_at: now, ..pre }, Some(message@), false)
            } else {
                (pre, None, false)
            },
            PeerCommand::Disconnect => (
                PeerView { phase: SessionPhase::Closed, ..pre },
                None,
                true,
            ),
            PeerCommand::SetChoked(choked) => (
                PeerView {
                    state: PeerStateView { am_choking: choked, ..pre.state },
                    last_sent_at: now,
                    ..pre
                },
                Some(if choked { GridMessageView::Choke } else { GridMessageView::Unchoke }),
                false,
            ),
            PeerCommand::SetInterested(interested) => (
                PeerView {
                    state: PeerStateView { am_interested: interested, ..pre.state },
                    last_sent_at: now,
                    ..pre
                },
                Some(
                    if interested {
                        GridMessageView::Interested
                    } else {
                        GridMessageView::NotInterested
                    },
                ),
                false,
            ),
        }
    }
}

/// What looking at the clock at time `now` does to a session and what is due.
pub open spec fn ticked(pre: PeerView, now: u64) -> (PeerView, PeerTick) {
    if pre.phase is Failed || pre.phase is Closed {
        (pre, PeerTick::Idle)
    } else if elapsed_ms(pre.state.last_message_at, now) > IDLE_TIMEOUT_MS {
        (PeerView { phase: SessionPhase::Closed, ..pre }, PeerTick::TimedOut)
    } else if elapsed_ms(pre.last_sent_at, now) >= KEEPALIVE_INTERVAL_MS {
        (PeerView { last_sent_at: now, ..pre }, PeerTick::SendKeepAlive)
    } else {
        (pre, PeerTick::Idle)
    }
}

impl Peer {
    /// The presence map of the peer, where there is one, is well formed.
    pub closed spec fn wf(&self) -> bool {
        self.state.wf()
    }

    /// The session with the peer at `remote_addr` that has just connected.
    pub fn new(remote_addr: String, my_peer_id: [u8; 32], now: u64) -> (peer: Self)
        ensures
            peer.wf(),
            peer@ == (PeerView {
                state: PeerStateView {
                    peer_id: provisional_name(remote_addr@),
                    remote_addr: remote_addr@,
                    info_hash: None,
                    bitfield: None,
                    am_choking: true,
                    am_interested: false,
                    peer_choking: true,
                    peer_interested: false,
                    connected_at: now,
                    last_message_at: now,
                    bytes_downloaded: 0,
                    bytes_uploaded: 0,
                    rtt_ms: None,
                },
                phase: SessionPhase::Connected,
                my_peer_id,
                last_sent_at: now,
                remote_extensions: 0,
            }),
    {
        let mut peer_id = "peer_".to_owned();
        peer_id.append(remote_addr.as_str());
        Peer {
            state: PeerState::new(peer_id, remote_addr, now),
            phase: SessionPhase::Connected,
            my_peer_id,
            last_sent_at: now,
            remote_extensions: 0,
        }
    }

    /// The name of the peer.
    pub fn peer_id(&self) -> (name: &str)
        ensures
            name@ == self@.state.peer_id,
    {
        self.state.peer_id.as_str()
    }

    /// What is known of the peer.
    pub fn state(&self) -> (state: &PeerState)
        requires
            self.wf(),
        ensures
            state.wf(),
            state@ == self@.state,
    {
        &self.state
    }

    /// How far the session has come.
    pub fn phase(&self) -> (phase: SessionPhase)
        ensures
            phase == self@.phase,
    {
        self.phase
    }

    /// The handshake that opens the session from this side, for the file
    /// `local_hash`.
    pub fn open(&mut self, local_hash: [u8; 32], now: u64) -> (handshake: GridMessage)
        requires
            old(self).wf(),
        ensures
            final(self).wf(),
            final(self)@ == (PeerView { last_sent_at: now, ..old(self)@ }),
            handshake@ == (GridMessageView::Handshake {
                protocol_version: crate::grid::protocol::PROTOCOL_VERSION,
                info_hash: local_hash,
                peer_id: old(self)@.my_peer_id,
                extensions: crate::grid::protocol::OFFERED_EXTENSIONS,
            }),
    {
        self.last_sent_at = now;
        GridMessage::handshake(local_hash, self.my_peer_id)
    }

    fn fail(&mut self, now: u64)
        requires
            old(self).wf(),
        ensures
            final(self).wf(),
            final(self)@ == failed(old(self)@, now),
    {
        self.state.last_message_at = now;
        self.phase = SessionPhase::Failed;
    }

    fn take_bitfield(&mut self, data: Vec<u8>, length: usize, now: u64) -> (outcome: Result<
        PeerReaction,
        PeerFault,
    >)
        requires
            old(self).wf(),
        ensures
            final(self).wf(),
            (final(self)@, outcome_view(outcome)) == bitfield_received(
                old(self)@,
                data@,
                length,
                now,
            ),
    {
        match Bitfield::try_from_bytes(data, length) {
            None => {
                self.fail(now);
                Err(PeerFault::MalformedBitfield)
            },
            Some(bitfield) => {
                let pieces = bitfield.available_pieces();
                proof {
                    crate::grid::bitfield::lemma_set_positions(bitfield@);
                    assert(pieces@ =~= held_pieces(bitfield@)) by {
                        assert(crate::grid::bitfield::index_list(pieces@).len() == pieces@.len());
                        assert forall|k: int| 0 <= k < pieces@.len() implies pieces@[k]
                            == held_pieces(bitfield@)[k] by {
                            assert(crate::grid::bitfield::index_list(pieces@)[k] == pieces@[k]);
                        }
                    }
                }
                let event = PeerEvent::BitfieldReceived {
                    peer_id: self.state.peer_id.clone(),
                    pieces,
                };
                self.state.bitfield = Some(bitfield);
                self.state.last_message_at = now;
                self.phase = SessionPhase::Ready;
                Ok(report(event))
            },
        }
    }

    /// Takes in one message of the peer at time `now`. `local_hash` names
    /// the file of this side and `local` is its presence map.
    pub fn handle_message(
        &mut self,
        message: GridMessage,
        local_hash: &[u8; 32],
        local: &Bitfield,
        now: u64,
    ) -> (outcome: Result<PeerReaction, PeerFault>)
        requires
            old(self).wf(),
            local.wf(),
        ensures
            final(self).wf(),
            (final(self)@, outcome_view(outcome)) == received(
                old(self)@,
                message@,
                *local_hash,
                local.wire(),
                local@,
                now,
            ),
    {
        match self.phase {
            SessionPhase::Failed => {
                return Err(PeerFault::SessionOver);
            },
            SessionPhase::Closed => {
                return Err(PeerFault::SessionOver);
            },
            SessionPhase::Connected => match message {
                GridMessage::Handshake { protocol_version: _, info_hash, peer_id, extensions } => {
                    if !same_id(&info_hash, local_hash) {
                        self.fail(now);
                        return Err(PeerFault::InfoHashMismatch);
                    }
                    let named = hex_prefix(peer_id.as_slice(), PEER_ID_PREFIX);
                    let event = PeerEvent::HandshakeComplete {
                        peer_id: named.clone(),
                        previous_id: self.state.peer_id.clone(),
                        info_hash,
                    };
                    self.state.peer_id = named;
                    self.state.info_hash = Some(info_hash);
                    self.state.last_message_at = now;
                    self.phase = SessionPhase::Handshaken;
                    self.remote_extensions = extensions;
                    let mut wire: Vec<u8> = Vec::new();
                    let bytes = local.as_bytes();
                    let mut i: usize = 0;
                    while i < bytes.len()
                        invariant
                            i <= bytes@.len(),
                            wire@ == bytes@.take(i as int),
                        decreases bytes@.len() - i,
                    {
                        wire.push(bytes[i]);
                        proof {
                            assert(wire@ =~= bytes@.take(i + 1));
                        }
                        i += 1;
                    }
                    proof {
                        assert(bytes@.take(i as int) =~= bytes@);
                    }
                    let mut reaction = report(event);
                    let reply = GridMessage::bitfield(wire, local.len());
                    reaction.replies.push(reply);
                    proof {
                        assert(reaction@.replies =~= seq![reply@]);
                        assert(reaction@.events =~= seq![event@]);
                    }
                    Ok(reaction)
                },
                _ => {
                    self.fail(now);
                    Err(PeerFault::UnexpectedMessage)
                },
            },
            SessionPhase::Handshaken => match message {
                GridMessage::Bitfield { data, length } => self.take_bitfield(data, length, now),
                GridMessage::KeepAlive => {
                    self.state.last_message_at = now;
                    Ok(silence())
                },
                _ => {
                    self.fail(now);
                    Err(PeerFault::UnexpectedMessage)
                },
            },
            SessionPhase::Ready => if !message.allowed_between(
                OFFERED_EXTENSIONS,
                self.remote_extensions,
            ) {
                self.state.last_message_at = now;
                Ok(silence())
            } else {
                self.take_when_ready(message, local, now)
            },
        }
    }

    fn take_when_ready(&mut self, message: GridMessage, local: &Bitfield, now: u64) -> (outcome:
        Result<PeerReaction, PeerFault>)
        requires
            old(self).wf(),
            local.wf(),
        ensures
            final(self).wf(),
            (final(self)@, outcome_view(outcome)) == received_when_ready(
                old(self)@,
                message@,
                local@,
                now,
            ),
    {
        match message {
            GridMessage::Handshake { .. } => {
                self.fail(now);
                Err(PeerFault::UnexpectedMessage)
            },
            GridMessage::Bitfield { data, length } => self.take_bitfield(data, length, now),
            GridMessage::Have { piece_index } => {
                match &mut self.state.bitfield {
                    Some(bitfield) => {
                        bitfield.mark(piece_index as usize);
                    },
                    None => {},
                }
                self.state.last_message_at = now;
                Ok(
                    report(
                        PeerEvent::HaveReceived {
                            peer_id: self.state.peer_id.clone(),
                            piece_index,
                        },
                    ),
                )
            },
            GridMessage::Request { piece_index, offset, length } => {
                self.state.last_message_at = now;
                if self.state.am_choking {
                    Ok(silence())
                } else if !local.has(piece_index as usize) {
                    let mut reaction = silence();
                    if OFFERED_EXTENSIONS & self.remote_extensions != 0 {
                        let reply = GridMessage::Error {
                            code: ERROR_PIECE_NOT_HELD,
                            message: "piece not held".to_owned(),
                        };
                        reaction.replies.push(reply);
                        proof {
                            assert(reaction@.replies =~= seq![reply@]);
                            assert(reaction@.events =~= Seq::<PeerEventView>::empty());
                        }
                    }
                    Ok(reaction)
                } else {
                    Ok(
                        report(
                            PeerEvent::RequestReceived {
                                peer_id: self.state.peer_id.clone(),
                                piece_index,
                                offset,
                                length,
                            },
                        ),
                    )
                }
            },
            GridMessage::Piece { piece_index, offset, data } => {
                self.state.last_message_at = now;
                self.state.bytes_downloaded = capped_add(
                    self.state.bytes_downloaded,
                    data.len(),
                );
                Ok(
                    report(
                        PeerEvent::PieceReceived {
                            peer_id: self.state.peer_id.clone(),
                            piece_index,
                            offset,
                            data,
                        },
                    ),
                )
            },
            GridMessage::Choke => {
                self.state.last_message_at = now;
                self.state.peer_choking = true;
                Ok(
                    report(
                        PeerEvent::ChokeChanged {
                            peer_id: self.state.peer_id.clone(),
                            choked: true,
                        },
                    ),
                )
            },
            GridMessage::Unchoke => {
                self.state.last_message_at = now;
                self.state.peer_choking = false;
                Ok(
                    report(
                        PeerEvent::ChokeChanged {
                            peer_id: self.state.peer_id.clone(),
                            choked: false,
                        },
                    ),
                )
            },
            GridMessage::Interested => {
                self.state.last_message_at = now;
                self.state.peer_interested = true;
                Ok(
                    report(
                        PeerEvent::InterestChanged {
                            peer_id: self.state.peer_id.clone(),
                            interested: true,
                        },
                    ),
                )
            },
            GridMessage::NotInterested => {
                self.state.last_message_at = now;
                self.state.peer_interested = false;
                Ok(
                    report(
                        PeerEvent::InterestChanged {
                            peer_id: self.state.peer_id.clone(),
                            interested: false,
                        },
                    ),
                )
            },
            GridMessage::Error { code: _, message } => {
                self.state.last_message_at = now;
                Ok(report(PeerEvent::Error { peer_id: self.state.peer_id.clone(), message }))
            },
            _ => {
                self.state.last_message_at = now;
                Ok(silence())
            },
        }
    }

    /// Carries out one command of the owner at time `now`.
    pub fn handle_command(&mut self, command: PeerCommand, now: u64) -> (outcome: CommandOutcome)
        requires
            old(self).wf(),
        ensures
            final(self).wf(),
            (
                final(self)@,
                match outcome.send {
                    Some(message) => Some(message@),
                    None => None,
                },
                outcome.close,
            ) == commanded(old(self)@, command, now),
    {
        match self.phase {
            SessionPhase::Failed => {
                return CommandOutcome { send: None, close: true };
            },
            SessionPhase::Closed => {
                return CommandOutcome { send: None, close: true };
            },
            _ => {},
        }
        match command {
            PeerCommand::SendMessage(message) => {
                if message.allowed_between(OFFERED_EXTENSIONS, self.remote_extensions) {
                    self.last_sent_at = now;
                    CommandOutcome { send: Some(message), close: false }
                } else {
                    CommandOutcome { send: None, close: false }
                }
            },
            PeerCommand::Disconnect => {
                self.phase = SessionPhase::Closed;
                CommandOutcome { send: None, close: true }
            },
            PeerCommand::SetChoked(choked) => {
                self.state.am_choking = choked;
                self.last_sent_at = now;
                let message = if choked { GridMessage::Choke } else { GridMessage::Unchoke };
                CommandOutcome { send: Some(message), close: false }
            },
            PeerCommand::SetInterested(interested) => {
                self.state.am_interested = interested;
                self.last_sent_at = now;
                let message = if interested {
                    GridMessage::Interested
                } else {
                    GridMessage::NotInterested
                };
                CommandOutcome { send: Some(message), close: false }
            },
        }
    }

    /// Looks at the clock: closes the session of a peer that was silent
    /// for two keep-alive intervals, and asks for a keep-alive after one
    /// interval without sending.
    pub fn tick(&mut self, now: u64) -> (due: PeerTick)
        requires
            old(self).wf(),
        ensures
            final(self).wf(),
            (final(self)@, due) == ticked(old(self)@, now),
    {
        match self.phase {
            SessionPhase::Failed => {
                return PeerTick::Idle;
            },
            SessionPhase::Closed => {
                return PeerTick::Idle;
            },
            _ => {},
        }
        if elapsed_since(self.state.last_message_at, now) > IDLE_TIMEOUT_MS {
            self.phase = SessionPhase::Closed;
            PeerTick::TimedOut
        } else if elapsed_since(self.last_sent_at, now) >= KEEPALIVE_INTERVAL_MS {
            self.last_sent_at = now;
            PeerTick::SendKeepAlive
        } else {
            PeerTick::Idle
        }
    }

    /// Closes the session and gives the event that says so.
    pub fn close(&mut self, reason: String) -> (event: PeerEvent)
        requires
            old(self).wf(),
        ensures
            final(self).wf(),
            final(self)@ == (PeerView { phase: SessionPhase::Closed, ..old(self)@ }),
            event@ == (PeerEventView::Disconnected {
                peer_id: old(self)@.state.peer_id,
                reason: reason@,
            }),
    {
        self.phase = SessionPhase::Closed;
        PeerEvent::Disconnected { peer_id: self.state.peer_id.clone(), reason }
    }
}

} // verus!
