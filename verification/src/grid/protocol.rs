//! The Grid wire protocol: the messages that peers exchange and the
//! frames that carry them.
//!
//! A frame is a 4-byte little-endian payload length followed by the
//! payload. A receiver refuses a length above [`MAX_MESSAGE_SIZE`].

use vstd::prelude::*;
use vstd::bytes::{
    lemma_auto_spec_u32_to_from_le_bytes,
    spec_u32_from_le_bytes,
    spec_u32_to_le_bytes,
    u32_from_le_bytes,
    u32_to_le_bytes,
};

verus! {

/// The version of the protocol that a handshake names.
pub const PROTOCOL_VERSION: u32 = 1;

/// The longest payload that a receiver takes: 10 MiB.
pub const MAX_MESSAGE_SIZE: usize = 10485760;

/// Bytes of the length prefix of a frame.
pub const FRAME_HEADER_SIZE: usize = 4;

/// Extension bit: fast extension.
pub const FAST_EXTENSION: u64 = 1;

/// Extension bit: the peer takes part in the DHT.
pub const DHT: u64 = 2;

/// Extension bit: payload encryption.
pub const ENCRYPTION: u64 = 4;

/// Extension bit: metadata can be asked of the peer.
pub const METADATA_EXCHANGE: u64 = 8;

/// The extensions that this implementation offers in its handshake.
pub const OFFERED_EXTENSIONS: u64 = 11;

/// One message between two peers.
#[derive(Debug)]
pub enum GridMessage {
    /// Opens a session: names the file and the sender.
    Handshake { protocol_version: u32, info_hash: [u8; 32], peer_id: [u8; 32], extensions: u64 },
    /// All the pieces that the sender holds.
    Bitfield { data: Vec<u8>, length: usize },
    /// One more piece that the sender holds.
    Have { piece_index: u32 },
    /// Asks for data of a piece.
    Request { piece_index: u32, offset: u32, length: u32 },
    /// Data of a piece.
    Piece { piece_index: u32, offset: u32, data: Vec<u8> },
    /// Takes a request back.
    Cancel { piece_index: u32, offset: u32, length: u32 },
    KeepAlive,
    /// The sender will not serve requests.
    Choke,
    /// The sender will serve requests.
    Unchoke,
    /// The sender wants pieces of the receiver.
    Interested,
    /// The sender wants nothing of the receiver.
    NotInterested,
    /// Asks for the metadata of a file.
    MetadataRequest { info_hash: [u8; 32] },
    /// The metadata of a file.
    MetadataResponse {
        info_hash: [u8; 32],
        file_name: String,
        file_size: u64,
        piece_size: u32,
        total_pieces: usize,
        piece_hashes: Vec<[u8; 32]>,
    },
    /// Something went wrong at the sender.
    Error { code: u32, message: String },
}

/// A [`GridMessage`] as a mathematical value.
#[verifier::ext_equal]
pub enum GridMessageView {
    Handshake { protocol_version: u32, info_hash: [u8; 32], peer_id: [u8; 32], extensions: u64 },
    Bitfield { data: Seq<u8>, length: usize },
    Have { piece_index: u32 },
    Request { piece_index: u32, offset: u32, length: u32 },
    Piece { piece_index: u32, offset: u32, data: Seq<u8> },
    Cancel { piece_index: u32, offset: u32, length: u32 },
    KeepAlive,
    Choke,
    Unchoke,
    Interested,
    NotInterested,
    MetadataRequest { info_hash: [u8; 32] },
    MetadataResponse {
        info_hash: [u8; 32],
        file_name: Seq<char>,
        file_size: u64,
        piece_size: u32,
        total_pieces: usize,
        piece_hashes: Seq<[u8; 32]>,
    },
    Error { code: u32, message: Seq<char> },
}

impl View for GridMessage {
    type V = GridMessageView;

    open spec fn view(&self) -> GridMessageView {
        match *self {
            GridMessage::Handshake {
                protocol_version,
                info_hash,
                peer_id,
                extensions,
            } => GridMessageView::Handshake { protocol_version, info_hash, peer_id, extensions },
            GridMessage::Bitfield { data, length } => GridMessageView::Bitfield {
                data: data@,
                length,
            },
            GridMessage::Have { piece_index } => GridMessageView::Have { piece_index },
            GridMessage::Request { piece_index, offset, length } => GridMessageView::Request {
                piece_index,
                offset,
                length,
            },
            GridMessage::Piece { piece_index, offset, data } => GridMessageView::Piece {
                piece_index,
                offset,
                data: data@,
            },
            GridMessage::Cancel { piece_index, offset, length } => GridMessageView::Cancel {
                piece_index,
                offset,
                length,
            },
            GridMessage::KeepAlive => GridMessageView::KeepAlive,
            GridMessage::Choke => GridMessageView::Choke,
            GridMessage::Unchoke => GridMessageView::Unchoke,
            GridMessage::Interested => GridMessageView::Interested,
            GridMessage::NotInterested => GridMessageView::NotInterested,
            GridMessage::MetadataRequest { info_hash } => GridMessageView::MetadataRequest {
                info_hash,
            },
            GridMessage::MetadataResponse {
                info_hash,
                file_name,
                file_size,
                piece_size,
                total_pieces,
                piece_hashes,
            } => GridMessageView::MetadataResponse {
                info_hash,
                file_name: file_name@,
                file_size,
                piece_size,
                total_pieces,
                piece_hashes: piece_hashes@,
            },
            GridMessage::Error { code, message } => GridMessageView::Error {
                code,
                message: message@,
            },
        }
    }
}

impl GridMessageView {
    /// Whether the message belongs to the minimal set that every peer
    /// understands: handshake, bitfield, have, request, piece, choke and
    /// unchoke, interested and not interested, keep-alive.
    pub open spec fn is_minimal(self) -> bool {
        match self {
            GridMessageView::Handshake { .. } => true,
            GridMessageView::Bitfield { .. } => true,
            GridMessageView::Have { .. } => true,
            GridMessageView::Request { .. } => true,
            GridMessageView::Piece { .. } => true,
            GridMessageView::KeepAlive => true,
            GridMessageView::Choke => true,
            GridMessageView::Unchoke => true,
            GridMessageView::Interested => true,
            GridMessageView::NotInterested => true,
            _ => false,
        }
    }
}

impl GridMessage {
    /// The name of the message's kind.
    pub fn kind_name(&self) -> (name: &'static str)
        ensures
            name@ == match self@ {
                GridMessageView::Handshake { .. } => "Handshake"@,
                GridMessageView::Bitfield { .. } => "Bitfield"@,
                GridMessageView::Have { .. } => "Have"@,
                GridMessageView::Request { .. } => "Request"@,
                GridMessageView::Piece { .. } => "Piece"@,
                GridMessageView::Cancel { .. } => "Cancel"@,
                GridMessageView::KeepAlive => "KeepAlive"@,
                GridMessageView::Choke => "Choke"@,
                GridMessageView::Unchoke => "Unchoke"@,
                GridMessageView::Interested => "Interested"@,
                GridMessageView::NotInterested => "NotInterested"@,
                GridMessageView::MetadataRequest { .. } => "MetadataRequest"@,
                GridMessageView::MetadataResponse { .. } => "MetadataResponse"@,
                GridMessageView::Error { .. } => "Error"@,
            },
    {
        match self {
            GridMessage::Handshake { .. } => "Handshake",
            GridMessage::Bitfield { .. } => "Bitfield",
            GridMessage::Have { .. } => "Have",
            GridMessage::Request { .. } => "Request",
            GridMessage::Piece { .. } => "Piece",
            GridMessage::Cancel { .. } => "Cancel",
            GridMessage::KeepAlive => "KeepAlive",
            GridMessage::Choke => "Choke",
            GridMessage::Unchoke => "Unchoke",
            GridMessage::Interested => "Interested",
            GridMessage::NotInterested => "NotInterested",
            GridMessage::MetadataRequest { .. } => "MetadataRequest",
            GridMessage::MetadataResponse { .. } => "MetadataResponse",
            GridMessage::Error { .. } => "Error",
        }
    }

    /// The handshake of this implementation for a file and a sender.
    pub fn handshake(info_hash: [u8; 32], peer_id: [u8; 32]) -> (message: Self)
        ensures
            message@ == (GridMessageView::Handshake {
                protocol_version: PROTOCOL_VERSION,
                info_hash,
                peer_id,
                extensions: OFFERED_EXTENSIONS,
            }),
    {
        GridMessage::Handshake {
            protocol_version: PROTOCOL_VERSION,
            info_hash,
            peer_id,
            extensions: OFFERED_EXTENSIONS,
        }
    }

    /// A bitfield message.
    pub fn bitfield(data: Vec<u8>, length: usize) -> (message: Self)
        ensures
            message@ == (GridMessageView::Bitfield { data: data@, length }),
    {
        GridMessage::Bitfield { data, length }
    }

    /// A request message.
    pub fn request(piece_index: u32, offset: u32, length: u32) -> (message: Self)
        ensures
            message@ == (GridMessageView::Request { piece_index, offset, length }),
    {
        GridMessage::Request { piece_index, offset, length }
    }

    /// A piece message.
    pub fn piece(piece_index: u32, offset: u32, data: Vec<u8>) -> (message: Self)
        ensures
            message@ == (GridMessageView::Piece { piece_index, offset, data: data@ }),
    {
        GridMessage::Piece { piece_index, offset, data }
    }

    /// Whether the message belongs to the minimal set.
    pub fn is_minimal(&self) -> (minimal: bool)
        ensures
            minimal == self@.is_minimal(),
    {
        match self {
            GridMessage::Handshake { .. } => true,
            GridMessage::Bitfield { .. } => true,
            GridMessage::Have { .. } => true,
            GridMessage::Request { .. } => true,
            GridMessage::Piece { .. } => true,
            GridMessage::KeepAlive => true,
            GridMessage::Choke => true,
            GridMessage::Unchoke => true,
            GridMessage::Interested => true,
            GridMessage::NotInterested => true,
            _ => false,
        }
    }

    /// Whether the message may be sent to a peer that offers `theirs`
    /// when this side offers `mine`: peers that share no extension keep
    /// to the minimal set.
    pub fn allowed_between(&self, mine: u64, theirs: u64) -> (allowed: bool)
        ensures
            allowed == (mine & theirs != 0 || self@.is_minimal()),
    {
        (mine & theirs) != 0 || self.is_minimal()
    }
}

/// The extensions that two peers share.
pub fn shared_extensions(mine: u64, theirs: u64) -> (shared: u64)
    ensures
        shared == mine & theirs,
{
    mine & theirs
}

/// Messages to send in one go.
#[derive(Debug)]
pub struct MessageBatch {
    messages: Vec<GridMessage>,
}

impl View for MessageBatch {
    type V = Seq<GridMessageView>;

    closed spec fn view(&self) -> Seq<GridMessageView> {
        Seq::new(self.messages@.len(), |i: int| self.messages@[i]@)
    }
}

impl MessageBatch {
    /// An empty batch.
    pub fn new() -> (batch: Self)
        ensures
            batch@ == Seq::<GridMessageView>::empty(),
    {
        let batch = MessageBatch { messages: Vec::new() };
        assert(batch@ =~= Seq::<GridMessageView>::empty());
        batch
    }

    /// Appends a message.
    pub fn push(&mut self, msg: GridMessage)
        ensures
            final(self)@ == old(self)@.push(msg@),
    {
        self.messages.push(msg);
        assert(self@ =~= old(self)@.push(msg@));
    }

    /// The number of messages.
    pub fn len(&self) -> (n: usize)
        ensures
            n == self@.len(),
    {
        self.messages.len()
    }

    /// The messages, in the order they were appended.
    pub fn into_messages(self) -> (messages: Vec<GridMessage>)
        ensures
            messages@.len() == self@.len(),
            forall|i: int| 0 <= i < messages@.len() ==> (#[trigger] messages@[i])@ == self@[i],
    {
        self.messages
    }
}

/// Why a frame is refused.
#[derive(Clone, Copy, Debug, PartialEq, Eq, Structural)]
pub enum FrameError {
    /// The length prefix names more than [`MAX_MESSAGE_SIZE`] bytes.
    TooLarge { length: u32 },
    /// The payload is longer than a length prefix can say.
    PayloadTooLong,
}

/// What the start of a byte stream holds.
#[derive(Clone, Copy, Debug, PartialEq, Eq, Structural)]
pub enum FrameStatus {
    /// Not all of the next frame is there yet: this many bytes are missing.
    Incomplete { missing: usize },
    /// The next frame is there: its payload follows the four bytes of the
    /// prefix and is this long.
    Complete { payload_length: usize },
}

/// The frame of a payload: its length as four little-endian bytes, then
/// the payload.
pub open spec fn framed(payload: Seq<u8>) -> Seq<u8> {
    spec_u32_to_le_bytes(payload.len() as u32) + payload
}

/// The payload length that a length prefix names.
pub open spec fn prefix_length(prefix: Seq<u8>) -> u32 {
    spec_u32_from_le_bytes(prefix)
}

/// A frame starts with four bytes that name the length of its payload,
/// and reading that length back gives the payload's length.
pub proof fn lemma_framed(payload: Seq<u8>)
    requires
        payload.len() <= u32::MAX,
    ensures
        framed(payload).len() == FRAME_HEADER_SIZE + payload.len(),
        prefix_length(framed(payload).take(FRAME_HEADER_SIZE as int)) == payload.len(),
        framed(payload).skip(FRAME_HEADER_SIZE as int) == payload,
{
    lemma_auto_spec_u32_to_from_le_bytes();
    let prefix = spec_u32_to_le_bytes(payload.len() as u32);
    assert(framed(payload).take(FRAME_HEADER_SIZE as int) =~= prefix);
    assert(framed(payload).skip(FRAME_HEADER_SIZE as int) =~= payload);
}

/// Puts a payload into a frame.
pub fn encode_frame(payload: &[u8]) -> (frame: Result<Vec<u8>, FrameError>)
    ensures
        frame.is_ok() <==> payload@.len() <= u32::MAX,
        frame.is_ok() ==> frame.unwrap()@ == framed(payload@),
        frame.is_err() ==> frame.unwrap_err() == FrameError::PayloadTooLong,
{
    if payload.len() > u32::MAX as usize {
        return Err(FrameError::PayloadTooLong);
    }
    let mut frame = u32_to_le_bytes(payload.len() as u32);
    let ghost prefix = frame@;
    let mut i: usize = 0;
    while i < payload.len()
        invariant
            i <= payload@.len(),
            frame@ == prefix + payload@.take(i as int),
        decreases payload@.len() - i,
    {
        frame.push(payload[i]);
        proof {
            assert(frame@ =~= prefix + payload@.take(i + 1));
        }
        i += 1;
    }
    proof {
        assert(payload@.take(i as int) =~= payload@);
    }
    Ok(frame)
}

/// Reads the length prefix of a frame and refuses a payload above
/// [`MAX_MESSAGE_SIZE`].
pub fn decode_frame_length(prefix: &[u8; 4]) -> (length: Result<usize, FrameError>)
    ensures
        length == if prefix_length(prefix@) > MAX_MESSAGE_SIZE {
            Err::<usize, FrameError>(FrameError::TooLarge { length: prefix_length(prefix@) })
        } else {
            Ok(prefix_length(prefix@) as usize)
        },
{
    let length = u32_from_le_bytes(prefix.as_slice());
    if length > MAX_MESSAGE_SIZE as u32 {
        Err(FrameError::TooLarge { length })
    } else {
        Ok(length as usize)
    }
}

/// Looks at the bytes received so far and says whether the next frame is
/// complete.
pub fn inspect_stream(buffer: &[u8]) -> (status: Result<FrameStatus, FrameError>)
    ensures
        status == if buffer@.len() < FRAME_HEADER_SIZE {
            Ok::<FrameStatus, FrameError>(
                FrameStatus::Incomplete { missing: (FRAME_HEADER_SIZE - buffer@.len()) as usize },
            )
        } else if prefix_length(buffer@.take(FRAME_HEADER_SIZE as int)) > MAX_MESSAGE_SIZE {
            Err(
                FrameError::TooLarge {
                    length: prefix_length(buffer@.take(FRAME_HEADER_SIZE as int)),
                },
            )
        } else if buffer@.len() - FRAME_HEADER_SIZE < prefix_length(
            buffer@.take(FRAME_HEADER_SIZE as int),
        ) {
            Ok(
                FrameStatus::Incomplete {
                    missing: (prefix_length(buffer@.take(FRAME_HEADER_SIZE as int)) - (buffer@.len()
                        - FRAME_HEADER_SIZE)) as usize,
                },
            )
        } else {
            Ok(
                FrameStatus::Complete {
                    payload_length: prefix_length(buffer@.take(FRAME_HEADER_SIZE as int)) as usize,
                },
            )
        },
{
    if buffer.len() < FRAME_HEADER_SIZE {
        return Ok(FrameStatus::Incomplete { missing: FRAME_HEADER_SIZE - buffer.len() });
    }
    let prefix = [buffer[0], buffer[1], buffer[2], buffer[3]];
    proof {
        assert(prefix@ =~= buffer@.take(FRAME_HEADER_SIZE as int));
    }
    match decode_frame_length(&prefix) {
        Err(e) => Err(e),
        Ok(length) => {
            let have = buffer.len() - FRAME_HEADER_SIZE;
            if have < length {
                Ok(FrameStatus::Incomplete { missing: length - have })
            } else {
                Ok(FrameStatus::Complete { payload_length: length })
            }
        },
    }
}

} // verus!
