//! The multi-stream transfer of one large file over one connection.
//!
//! The sender announces the file in a manifest, sends every block on a
//! stream of its own, and closes with a completion signal; the receiver
//! acknowledges the manifest and every block. Progress counts a block as
//! verified only once its acknowledgement arrived.

use vstd::prelude::*;
use crate::bootstrap::stats::{elapsed_ms, elapsed_since};
use crate::digest::{crc32, crc32_checksum};
use crate::grid::bitfield::{count_set, lemma_count_set_bound};
use crate::grid::scheduler::lemma_count_set_update;
use crate::transfer::zero_copy_io::{
    block_at,
    block_count,
    blocks_of,
    can_split,
    lemma_blocks_tile,
    sizes_sum,
    split_file_into_blocks,
    BlockInfo,
};

verus! {

/// Block streams in flight at most, unless set otherwise.
pub const MAX_CONCURRENT_STREAMS: usize = 32;

/// Block size, unless set otherwise: 8 MiB.
pub const BLOCK_SIZE: usize = 8388608;

/// How long the sender waits for the acknowledgement of a block.
pub const BLOCK_ACK_TIMEOUT_MS: u64 = 30_000;

/// The span over which the verified throughput is taken.
pub const SPEED_WINDOW_MS: u64 = 2_000;

/// What a stream starts with.
#[derive(Clone, Copy, Debug, PartialEq, Eq, Structural)]
pub enum StreamMarker {
    /// `MNFT`: the manifest follows.
    Manifest,
    /// `MACK`: the manifest was taken.
    ManifestAck,
    /// `BLCK`: a block follows.
    Block,
    /// `BACK`: the block was stored.
    BlockAck,
    /// `DONE`: the sender has sent everything.
    Done,
}

/// The four ASCII bytes of a marker.
pub open spec fn marker_code(marker: StreamMarker) -> Seq<u8> {
    match marker {
        StreamMarker::Manifest => seq![77u8, 78u8, 70u8, 84u8],
        StreamMarker::ManifestAck => seq![77u8, 65u8, 67u8, 75u8],
        StreamMarker::Block => seq![66u8, 76u8, 67u8, 75u8],
        StreamMarker::BlockAck => seq![66u8, 65u8, 67u8, 75u8],
        StreamMarker::Done => seq![68u8, 79u8, 78u8, 69u8],
    }
}

/// The marker that four bytes spell, if any.
pub open spec fn marker_of(bytes: Seq<u8>) -> Option<StreamMarker> {
    if bytes == marker_code(StreamMarker::Manifest) {
        Some(StreamMarker::Manifest)
    } else if bytes == marker_code(StreamMarker::ManifestAck) {
        Some(StreamMarker::ManifestAck)
    } else if bytes == marker_code(StreamMarker::Block) {
        Some(StreamMarker::Block)
    } else if bytes == marker_code(StreamMarker::BlockAck) {
        Some(StreamMarker::BlockAck)
    } else if bytes == marker_code(StreamMarker::Done) {
        Some(StreamMarker::Done)
    } else {
        None
    }
}

/// Every marker is read back from its bytes.
pub proof fn lemma_marker_round_trip(marker: StreamMarker)
    ensures
        marker_of(marker_code(marker)) == Some(marker),
        marker_code(marker).len() == 4,
{
    let m = marker_code(StreamMarker::Manifest);
    let a = marker_code(StreamMarker::ManifestAck);
    let b = marker_code(StreamMarker::Block);
    let k = marker_code(StreamMarker::BlockAck);
    let d = marker_code(StreamMarker::Done);
    assert(m[1] != a[1] && m[0] != b[0] && m[0] != k[0] && m[0] != d[0]);
    assert(a[0] != b[0] && a[0] != k[0] && a[0] != d[0]);
    assert(b[1] != k[1] && b[0] != d[0] && k[0] != d[0]);
}

/// The bytes of a marker.
pub fn marker_bytes(marker: StreamMarker) -> (bytes: [u8; 4])
    ensures
        bytes@ == marker_code(marker),
{
    let bytes = match marker {
        StreamMarker::Manifest => [77u8, 78u8, 70u8, 84u8],
        StreamMarker::ManifestAck => [77u8, 65u8, 67u8, 75u8],
        StreamMarker::Block => [66u8, 76u8, 67u8, 75u8],
        StreamMarker::BlockAck => [66u8, 65u8, 67u8, 75u8],
        StreamMarker::Done => [68u8, 79u8, 78u8, 69u8],
    };
    assert(bytes@ =~= marker_code(marker));
    bytes
}

/// The marker that the first four bytes of a stream spell, if any.
pub fn parse_marker(bytes: &[u8; 4]) -> (marker: Option<StreamMarker>)
    ensures
        marker == marker_of(bytes@),
{
    let b0 = bytes[0];
    let b1 = bytes[1];
    let b2 = bytes[2];
    let b3 = bytes[3];
    proof {
        assert(bytes@ =~= seq![b0, b1, b2, b3]);
        let m = marker_code(StreamMarker::Manifest);
        let a = marker_code(StreamMarker::ManifestAck);
        let b = marker_code(StreamMarker::Block);
        let k = marker_code(StreamMarker::BlockAck);
        let d = marker_code(StreamMarker::Done);
        assert(m[0] == 77 && m[1] == 78 && m[2] == 70 && m[3] == 84);
        assert(a[0] == 77 && a[1] == 65 && a[2] == 67 && a[3] == 75);
        assert(b[0] == 66 && b[1] == 76 && b[2] == 67 && b[3] == 75);
        assert(k[0] == 66 && k[1] == 65 && k[2] == 67 && k[3] == 75);
        assert(d[0] == 68 && d[1] == 79 && d[2] == 78 && d[3] == 69);
        assert(seq![b0, b1, b2, b3] =~= m <==> (b0 == 77 && b1 == 78 && b2 == 70 && b3 == 84));
        assert(seq![b0, b1, b2, b3] =~= a <==> (b0 == 77 && b1 == 65 && b2 == 67 && b3 == 75));
        assert(seq![b0, b1, b2, b3] =~= b <==> (b0 == 66 && b1 == 76 && b2 == 67 && b3 == 75));
        assert(seq![b0, b1, b2, b3] =~= k <==> (b0 == 66 && b1 == 65 && b2 == 67 && b3 == 75));
        assert(seq![b0, b1, b2, b3] =~= d <==> (b0 == 68 && b1 == 79 && b2 == 78 && b3 == 69));
    }
    if b0 == 77 && b1 == 78 && b2 == 70 && b3 == 84 {
        Some(StreamMarker::Manifest)
    } else if b0 == 77 && b1 == 65 && b2 == 67 && b3 == 75 {
        Some(StreamMarker::ManifestAck)
    } else if b0 == 66 && b1 == 76 && b2 == 67 && b3 == 75 {
        Some(StreamMarker::Block)
    } else if b0 == 66 && b1 == 65 && b2 == 67 && b3 == 75 {
        Some(StreamMarker::BlockAck)
    } else if b0 == 68 && b1 == 79 && b2 == 78 && b3 == 69 {
        Some(StreamMarker::Done)
    } else {
        None
    }
}

/// What the sender announces before the first block.
#[derive(Clone, Debug)]
pub struct MultiStreamManifest {
    pub job_id: String,
    pub file_name: String,
    pub file_size: u64,
    pub block_size: u32,
    pub total_blocks: u32,
    pub checksum: Option<String>,
}

/// What every block stream starts with, behind its marker.
#[derive(Clone, Debug)]
pub struct BlockHeader {
    pub job_id: String,
    pub block_index: u32,
    pub offset: u64,
    pub size: u32,
    /// CRC-32 of the block's data; 0 where none was taken.
    pub checksum: u32,
}

/// How far a transfer has come.
#[derive(Clone, Debug)]
pub struct MultiStreamProgress {
    pub job_id: String,
    pub blocks_completed: u32,
    pub total_blocks: u32,
    /// Bytes handed to the wire.
    pub bytes_transferred: u64,
    /// Bytes whose block was acknowledged.
    pub acknowledged_bytes: u64,
    pub total_bytes: u64,
    pub active_streams: u32,
    /// Acknowledged bytes per second over the last two seconds.
    pub speed_bps: u64,
}

/// Why a manifest or a block is refused.
#[derive(Clone, Copy, Debug, PartialEq, Eq, Structural)]
pub enum TransferError {
    /// The manifest or the block is of another job.
    JobIdMismatch,
    /// The numbers of the manifest do not fit together.
    InvalidManifest,
    /// The file has no block of this index.
    UnknownBlock,
    /// The block does not lie where the manifest puts it, or reaches past
    /// the end of the file.
    OutOfBounds,
}

/// The sizes of the blocks among the first `count` that `done` marks.
pub open spec fn done_bytes(blocks: Seq<BlockInfo>, done: Seq<bool>, count: int) -> int
    decreases count,
{
    if count <= 0 {
        0
    } else {
        done_bytes(blocks, done, count - 1) + if done[count - 1] {
            blocks[count - 1].size as int
        } else {
            0
        }
    }
}

/// The bytes of the marked blocks are no more than the bytes of all.
pub proof fn lemma_done_bytes_bound(blocks: Seq<BlockInfo>, done: Seq<bool>, count: int)
    requires
        0 <= count <= blocks.len(),
        blocks.len() == done.len(),
    ensures
        0 <= done_bytes(blocks, done, count) <= sizes_sum(blocks, count),
        (forall|i: int| 0 <= i < count ==> done[i]) ==> done_bytes(blocks, done, count)
            == sizes_sum(blocks, count),
    decreases count,
{
    if count > 0 {
        lemma_done_bytes_bound(blocks, done, count - 1);
    }
}

/// Marking one more block adds its size.
pub proof fn lemma_done_bytes_update(blocks: Seq<BlockInfo>, done: Seq<bool>, at: int, count: int)
    requires
        0 <= count <= blocks.len(),
        blocks.len() == done.len(),
        0 <= at < done.len(),
        !done[at],
    ensures
        done_bytes(blocks, done.update(at, true), count) == done_bytes(blocks, done, count) + if at
            < count {
            blocks[at].size as int
        } else {
            0
        },
    decreases count,
{
    if count > 0 {
        lemma_done_bytes_update(blocks, done, at, count - 1);
    }
}

/// The sizes of all blocks but the marked ones are no less than the size
/// of one unmarked block.
pub proof fn lemma_done_bytes_room(blocks: Seq<BlockInfo>, done: Seq<bool>, at: int, count: int)
    requires
        0 <= count <= blocks.len(),
        blocks.len() == done.len(),
        0 <= at < done.len(),
        !done[at],
    ensures
        done_bytes(blocks, done, count) + (if at < count { blocks[at].size as int } else { 0 })
            <= sizes_sum(blocks, count),
    decreases count,
{
    if count > 0 {
        lemma_done_bytes_room(blocks, done, at, count - 1);
    }
}

/// Which blocks of a file are done, and how many bytes that makes.
#[derive(Debug)]
pub struct BlockLedger {
    file_size: u64,
    blocks: Vec<BlockInfo>,
    done: Vec<bool>,
    completed: u32,
    bytes: u64,
}

impl BlockLedger {
    /// The size of the file.
    pub closed spec fn file_size(&self) -> u64 {
        self.file_size
    }

    /// The blocks of the file.
    pub closed spec fn blocks(&self) -> Seq<BlockInfo> {
        self.blocks@
    }

    /// For each block, whether it is done.
    pub closed spec fn done(&self) -> Seq<bool> {
        self.done@
    }

    /// The number of blocks that are done.
    pub closed spec fn completed(&self) -> u32 {
        self.completed
    }

    /// The bytes of the blocks that are done.
    pub closed spec fn bytes(&self) -> u64 {
        self.bytes
    }

    /// The blocks tile the file and the counts are those of the blocks
    /// that are done.
    pub closed spec fn wf(&self) -> bool {
        &&& self.blocks@.len() == self.done@.len()
        &&& self.blocks@.len() <= u32::MAX
        &&& sizes_sum(self.blocks@, self.blocks@.len() as int) == self.file_size
        &&& self.completed == count_set(self.done@)
        &&& self.bytes == done_bytes(self.blocks@, self.done@, self.blocks@.len() as int)
    }

    /// The counts are those of the blocks that are done: the bytes are no
    /// more than the file has, and they are all of the file once every
    /// block is done.
    pub proof fn lemma_counts(&self)
        requires
            self.wf(),
        ensures
            self.blocks().len() == self.done().len(),
            self.completed() == count_set(self.done()),
            self.completed() <= self.blocks().len(),
            self.bytes() == done_bytes(self.blocks(), self.done(), self.blocks().len() as int),
            self.bytes() <= self.file_size(),
            self.completed() == self.blocks().len() ==> self.bytes() == self.file_size(),
    {
        lemma_done_bytes_bound(self.blocks@, self.done@, self.blocks@.len() as int);
        lemma_count_set_bound(self.done@);
        crate::grid::bitfield::lemma_count_set_extremes(self.done@);
    }

    /// The ledger of a file cut into blocks of `block_size` bytes, with
    /// no block done.
    #[verifier::loop_isolation(false)]
    pub fn new(file_size: u64, block_size: usize) -> (ledger: Self)
        requires
            0 < block_size <= u32::MAX,
            block_count(file_size as int, block_size as int) <= u32::MAX,
        ensures
            ledger.wf(),
            ledger.file_size() == file_size,
            ledger.blocks() == blocks_of(file_size as int, block_size as int),
            ledger.done() == Seq::new(ledger.blocks().len(), |i: int| false),
            ledger.completed() == 0,
            ledger.bytes() == 0,
    {
        let blocks = split_file_into_blocks(file_size, block_size);
        let mut done: Vec<bool> = Vec::new();
        let mut i: usize = 0;
        while i < blocks.len()
            invariant
                i <= blocks@.len(),
                done@ == Seq::new(i as nat, |k: int| false),
            decreases blocks@.len() - i,
        {
            done.push(false);
            i += 1;
            proof {
                assert(done@ =~= Seq::new(i as nat, |k: int| false));
            }
        }
        proof {
            lemma_blocks_tile(file_size as int, block_size as int);
            crate::grid::bitfield::lemma_count_set_extremes(done@);
            lemma_none_done(blocks@, done@, blocks@.len() as int);
        }
        BlockLedger { file_size, blocks, done, completed: 0, bytes: 0 }
    }

    /// The number of blocks.
    pub fn total_blocks(&self) -> (n: u32)
        requires
            self.wf(),
        ensures
            n == self.blocks().len(),
    {
        self.blocks.len() as u32
    }

    /// Block `index`, or nothing past the last block.
    pub fn block(&self, index: u32) -> (block: Option<BlockInfo>)
        ensures
            block == if index < self.blocks().len() {
                Some(self.blocks()[index as int])
            } else {
                None
            },
    {
        if (index as usize) < self.blocks.len() {
            Some(self.blocks[index as usize])
        } else {
            None
        }
    }

    /// Whether block `index` is done.
    pub fn is_done(&self, index: u32) -> (done: bool)
        requires
            self.wf(),
        ensures
            done == (index < self.done().len() && self.done()[index as int]),
    {
        (index as usize) < self.done.len() && self.done[index as usize]
    }

    /// Marks block `index` as done and says whether that is news; a block
    /// done already, or no block of the file, changes nothing.
    pub fn mark_done(&mut self, index: u32) -> (news: bool)
        requires
            old(self).wf(),
        ensures
            final(self).wf(),
            final(self).file_size() == old(self).file_size(),
            final(self).blocks() == old(self).blocks(),
            news == (index < old(self).done().len() && !old(self).done()[index as int]),
            news ==> final(self).done() == old(self).done().update(index as int, true)
                && final(self).completed() == old(self).completed() + 1 && final(self).bytes()
                == old(self).bytes() + old(self).blocks()[index as int].size,
            !news ==> final(self).done() == old(self).done()
                && final(self).completed() == old(self).completed()
                && final(self).bytes() == old(self).bytes(),
    {
        let at = index as usize;
        if at >= self.done.len() || self.done[at] {
            return false;
        }
        proof {
            let n = self.blocks@.len() as int;
            lemma_done_bytes_update(self.blocks@, self.done@, at as int, n);
            lemma_done_bytes_room(self.blocks@, self.done@, at as int, n);
            lemma_count_set_update(self.done@, at as int, true);
            lemma_count_set_bound(self.done@.update(at as int, true));
        }
        self.done.set(at, true);
        self.completed = self.completed + 1;
        self.bytes = self.bytes + self.blocks[at].size as u64;
        true
    }

    /// Whether every block is done.
    pub fn is_complete(&self) -> (complete: bool)
        requires
            self.wf(),
        ensures
            complete == (self.completed() == self.blocks().len()),
            complete ==> self.bytes() == self.file_size(),
    {
        proof {
            self.lemma_counts();
        }
        self.completed as usize == self.blocks.len()
    }

    /// The number of blocks that are done.
    pub fn blocks_completed(&self) -> (n: u32)
        ensures
            n == self.completed(),
    {
        self.completed
    }

    /// The bytes of the blocks that are done.
    pub fn bytes_done(&self) -> (n: u64)
        ensures
            n == self.bytes(),
    {
        self.bytes
    }
}

/// With no block marked, no byte is done.
pub proof fn lemma_none_done(blocks: Seq<BlockInfo>, done: Seq<bool>, count: int)
    requires
        0 <= count <= done.len(),
        forall|i: int| 0 <= i < done.len() ==> !done[i],
    ensures
        done_bytes(blocks, done, count) == 0,
    decreases count,
{
    if count > 0 {
        lemma_none_done(blocks, done, count - 1);
    }
}

/// The bytes of the samples taken within the speed window before `now`.
pub open spec fn window_bytes(samples: Seq<(u64, u32)>, now: u64) -> int
    decreases samples.len(),
{
    if samples.len() == 0 {
        0
    } else {
        window_bytes(samples.drop_last(), now) + if elapsed_ms(samples.last().0, now)
            <= SPEED_WINDOW_MS {
            samples.last().1 as int
        } else {
            0
        }
    }
}

/// The bytes of all samples.
pub open spec fn sampled_bytes(samples: Seq<(u64, u32)>) -> int
    decreases samples.len(),
{
    if samples.len() == 0 {
        0
    } else {
        sampled_bytes(samples.drop_last()) + samples.last().1
    }
}

pub proof fn lemma_window_bound(samples: Seq<(u64, u32)>, now: u64)
    ensures
        0 <= window_bytes(samples, now) <= sampled_bytes(samples),
    decreases samples.len(),
{
    if samples.len() > 0 {
        lemma_window_bound(samples.drop_last(), now);
    }
}

/// The verified throughput: the bytes acknowledged within the last two
/// seconds, per second.
pub open spec fn verified_speed(samples: Seq<(u64, u32)>, now: u64) -> int {
    window_bytes(samples, now) * 1000 / (SPEED_WINDOW_MS as int)
}

/// The sender's side of a transfer: which block goes next, how many are
/// in flight, and what was sent and acknowledged.
#[derive(Debug)]
pub struct MultiStreamSender {
    job_id: String,
    block_size: u32,
    max_concurrent: usize,
    acked: BlockLedger,
    sent: BlockLedger,
    in_flight: Vec<bool>,
    active: usize,
    cursor: usize,
    samples: Vec<(u64, u32)>,
}

impl MultiStreamSender {
    /// The ledger of acknowledged blocks.
    pub closed spec fn acknowledged(&self) -> BlockLedger {
        self.acked
    }

    /// The ledger of blocks handed to the wire.
    pub closed spec fn transferred(&self) -> BlockLedger {
        self.sent
    }

    /// For each block, whether its stream is open.
    pub closed spec fn in_flight(&self) -> Seq<bool> {
        self.in_flight@
    }

    /// The number of blocks that were started.
    pub closed spec fn started(&self) -> nat {
        self.cursor as nat
    }

    /// The most streams that may be open at once.
    pub closed spec fn limit(&self) -> usize {
        self.max_concurrent
    }

    /// The acknowledgements with their times.
    pub closed spec fn samples(&self) -> Seq<(u64, u32)> {
        self.samples@
    }

    /// The job of the transfer.
    pub closed spec fn job(&self) -> Seq<char> {
        self.job_id@
    }

    /// Both ledgers are of the same file, no more streams are open than
    /// the limit allows, and only started blocks are in flight.
    pub closed spec fn wf(&self) -> bool {
        &&& self.acked.wf()
        &&& self.sent.wf()
        &&& self.acked.blocks() == self.sent.blocks()
        &&& self.acked.file_size() == self.sent.file_size()
        &&& self.in_flight@.len() == self.acked.blocks().len()
        &&& self.active == count_set(self.in_flight@)
        &&& self.active <= self.max_concurrent
        &&& self.cursor <= self.in_flight@.len()
        &&& forall|i: int| self.cursor <= i < self.in_flight@.len() ==> !self.in_flight@[i]
        &&& sampled_bytes(self.samples@) == self.acked.bytes()
        &&& self.acked.blocks() == blocks_of(self.acked.file_size() as int, self.block_size as int)
        &&& self.block_size > 0
    }

    /// What well-formedness says of the parts.
    pub proof fn lemma_wf(&self)
        requires
            self.wf(),
        ensures
            self.acknowledged().wf(),
            self.transferred().wf(),
            self.acknowledged().blocks() == self.transferred().blocks(),
            self.in_flight().len() == self.acknowledged().blocks().len(),
            count_set(self.in_flight()) <= self.limit(),
            self.started() <= self.in_flight().len(),
            sampled_bytes(self.samples()) == self.acknowledged().bytes(),
    {
    }

    /// The sender of a file of `file_size` bytes in blocks of `block_size`
    /// bytes, with at most `max_concurrent` streams open at once.
    #[verifier::loop_isolation(false)]
    pub fn new(job_id: String, file_size: u64, block_size: usize, max_concurrent: usize) -> (sender:
        Self)
        requires
            0 < block_size <= u32::MAX,
            block_count(file_size as int, block_size as int) <= u32::MAX,
        ensures
            sender.wf(),
            sender.job() == job_id@,
            sender.limit() == max_concurrent,
            sender.started() == 0,
            sender.acknowledged().file_size() == file_size,
            sender.acknowledged().blocks() == blocks_of(file_size as int, block_size as int),
            sender.acknowledged().bytes() == 0,
            sender.transferred().bytes() == 0,
            sender.samples().len() == 0,
    {
        let acked = BlockLedger::new(file_size, block_size);
        let sent = BlockLedger::new(file_size, block_size);
        let total = acked.total_blocks();
        let mut in_flight: Vec<bool> = Vec::new();
        let mut i: u32 = 0;
        while i < total
            invariant
                i <= total,
                in_flight@ == Seq::new(i as nat, |k: int| false),
            decreases total - i,
        {
            in_flight.push(false);
            i += 1;
            proof {
                assert(in_flight@ =~= Seq::new(i as nat, |k: int| false));
            }
        }
        proof {
            crate::grid::bitfield::lemma_count_set_extremes(in_flight@);
        }
        MultiStreamSender {
            job_id,
            block_size: block_size as u32,
            max_concurrent,
            acked,
            sent,
            in_flight,
            active: 0,
            cursor: 0,
            samples: Vec::new(),
        }
    }

    /// The manifest that announces the file under the name `file_name`.
    pub fn manifest(&self, file_name: String) -> (manifest: MultiStreamManifest)
        requires
            self.wf(),
        ensures
            manifest.job_id@ == self.job(),
            manifest.file_name@ == file_name@,
            manifest.file_size == self.acknowledged().file_size(),
            manifest.total_blocks == self.acknowledged().blocks().len(),
            manifest.checksum.is_none(),
            self.acknowledged().blocks() == blocks_of(
                manifest.file_size as int,
                manifest.block_size as int,
            ),
            manifest.block_size > 0,
    {
        MultiStreamManifest {
            job_id: self.job_id.clone(),
            file_name,
            file_size: self.acked.file_size,
            block_size: self.block_size,
            total_blocks: self.acked.total_blocks(),
            checksum: None,
        }
    }

    /// The next block to send, or nothing while the limit of open streams
    /// is reached or every block was started. The block is in flight from
    /// now on. Blocks are started in the order of the file.
    pub fn next_block(&mut self) -> (block: Option<BlockInfo>)
        requires
            old(self).wf(),
        ensures
            final(self).wf(),
            final(self).acknowledged() == old(self).acknowledged(),
            final(self).transferred() == old(self).transferred(),
            final(self).samples() == old(self).samples(),
            final(self).limit() == old(self).limit(),
            final(self).job() == old(self).job(),
            block.is_some() <==> (count_set(old(self).in_flight()) < old(self).limit()
                && old(self).started() < old(self).in_flight().len()),
            block.is_some() ==> block.unwrap() == old(self).acknowledged().blocks()[old(
                self,
            ).started() as int]
                && final(self).started() == old(self).started() + 1
                && final(self).in_flight() == old(self).in_flight().update(
                old(self).started() as int,
                true,
            ),
            block.is_none() ==> final(self).started() == old(self).started()
                && final(self).in_flight() == old(self).in_flight(),
    {
        if self.active >= self.max_concurrent || self.cursor >= self.in_flight.len() {
            return None;
        }
        let at = self.cursor;
        proof {
            lemma_count_set_update(self.in_flight@, at as int, true);
        }
        self.in_flight.set(at, true);
        self.active = self.active + 1;
        self.cursor = self.cursor + 1;
        self.acked.block(at as u32)
    }

    /// The header of a block with the CRC-32 of its data.
    pub fn header_for(&self, block: &BlockInfo, data: &[u8]) -> (header: BlockHeader)
        ensures
            header.job_id@ == self.job(),
            header.block_index == block.index,
            header.offset == block.offset,
            header.size == block.size,
            header.checksum == crc32(data@),
    {
        BlockHeader {
            job_id: self.job_id.clone(),
            block_index: block.index,
            offset: block.offset,
            size: block.size,
            checksum: crc32_checksum(data),
        }
    }

    /// Closes the stream of block `index`, if it is open.
    fn land(&mut self, index: u32) -> (was_open: bool)
        requires
            old(self).wf(),
        ensures
            final(self).wf(),
            final(self).acknowledged() == old(self).acknowledged(),
            final(self).transferred() == old(self).transferred(),
            final(self).samples() == old(self).samples(),
            final(self).limit() == old(self).limit(),
            final(self).job() == old(self).job(),
            final(self).started() == old(self).started(),
            was_open == (index < old(self).in_flight().len() && old(self).in_flight()[index as int]),
            final(self).in_flight() == if was_open {
                old(self).in_flight().update(index as int, false)
            } else {
                old(self).in_flight()
            },
    {
        let at = index as usize;
        if at >= self.in_flight.len() || !self.in_flight[at] {
            return false;
        }
        proof {
            lemma_count_set_update(self.in_flight@, at as int, false);
        }
        self.in_flight.set(at, false);
        self.active = self.active - 1;
        true
    }

    /// Notes that the data of block `index` was handed to the wire; its
    /// stream stays open for the acknowledgement.
    pub fn block_sent(&mut self, index: u32)
        requires
            old(self).wf(),
        ensures
            final(self).wf(),
            final(self).acknowledged() == old(self).acknowledged(),
            final(self).in_flight() == old(self).in_flight(),
            final(self).started() == old(self).started(),
            final(self).samples() == old(self).samples(),
            final(self).limit() == old(self).limit(),
            final(self).job() == old(self).job(),
            final(self).transferred().blocks() == old(self).transferred().blocks(),
            final(self).transferred().done() == if index < old(self).transferred().done().len() {
                old(self).transferred().done().update(index as int, true)
            } else {
                old(self).transferred().done()
            },
            final(self).transferred().bytes() >= old(self).transferred().bytes(),
    {
        let news = self.sent.mark_done(index);
        proof {
            if !news && index < old(self).sent.done().len() {
                assert(old(self).sent.done().update(index as int, true) =~= old(self).sent.done());
            }
        }
    }

    /// Notes that the acknowledgement of block `index` arrived at time
    /// `now`: its stream is closed and its bytes count as verified.
    pub fn block_acknowledged(&mut self, index: u32, now: u64)
        requires
            old(self).wf(),
        ensures
            final(self).wf(),
            final(self).started() == old(self).started(),
            final(self).limit() == old(self).limit(),
            final(self).job() == old(self).job(),
            final(self).acknowledged().blocks() == old(self).acknowledged().blocks(),
            final(self).acknowledged().file_size() == old(self).acknowledged().file_size(),
            final(self).acknowledged().bytes() >= old(self).acknowledged().bytes(),
            index < old(self).in_flight().len() && !old(self).acknowledged().done()[index as int]
                ==> final(self).acknowledged().done() == old(self).acknowledged().done().update(
                index as int,
                true,
            ) && final(self).acknowledged().bytes() == old(self).acknowledged().bytes() + old(
                self,
            ).acknowledged().blocks()[index as int].size
                && final(self).samples() == old(self).samples().push(
                (now, old(self).acknowledged().blocks()[index as int].size),
            ),
            !(index < old(self).in_flight().len() && !old(self).acknowledged().done()[index as int])
                ==> final(self).acknowledged().done() == old(self).acknowledged().done()
                && final(self).acknowledged().bytes() == old(self).acknowledged().bytes()
                && final(self).samples() == old(self).samples(),
            final(self).in_flight() == if index < old(self).in_flight().len() {
                old(self).in_flight().update(index as int, false)
            } else {
                old(self).in_flight()
            },
    {
        let was_open = self.land(index);
        proof {
            if !was_open && index < old(self).in_flight@.len() {
                assert(old(self).in_flight@.update(index as int, false) =~= old(self).in_flight@);
            }
        }
        let _ = self.sent.mark_done(index);
        let news = self.acked.mark_done(index);
        if news {
            let size = self.acked.blocks[index as usize].size;
            self.samples.push((now, size));
            proof {
                assert(self.samples@.drop_last() =~= old(self).samples@);
            }
        }
    }

    /// Notes that the stream of block `index` ended without an
    /// acknowledgement, by timeout or by failure: the stream is closed,
    /// and the bytes do not count as verified.
    pub fn block_unconfirmed(&mut self, index: u32)
        requires
            old(self).wf(),
        ensures
            final(self).wf(),
            final(self).acknowledged() == old(self).acknowledged(),
            final(self).transferred() == old(self).transferred(),
            final(self).samples() == old(self).samples(),
            final(self).started() == old(self).started(),
            final(self).limit() == old(self).limit(),
            final(self).job() == old(self).job(),
            final(self).in_flight() == if index < old(self).in_flight().len() {
                old(self).in_flight().update(index as int, false)
            } else {
                old(self).in_flight()
            },
    {
        let was_open = self.land(index);
        proof {
            if !was_open && index < old(self).in_flight@.len() {
                assert(old(self).in_flight@.update(index as int, false) =~= old(self).in_flight@);
            }
        }
    }

    /// Whether every block was started and no stream is open any more:
    /// the completion signal may go out.
    pub fn is_finished(&self) -> (finished: bool)
        requires
            self.wf(),
        ensures
            finished == (self.started() == self.in_flight().len() && count_set(self.in_flight())
                == 0),
    {
        self.cursor == self.in_flight.len() && self.active == 0
    }

    /// Whether every block was acknowledged; the verified bytes are then
    /// all of the file.
    pub fn succeeded(&self) -> (ok: bool)
        requires
            self.wf(),
        ensures
            ok == (self.acknowledged().completed() == self.acknowledged().blocks().len()),
            ok ==> self.acknowledged().bytes() == self.acknowledged().file_size(),
    {
        self.acked.is_complete()
    }

    /// The bytes whose block was acknowledged.
    pub fn acknowledged_bytes(&self) -> (n: u64)
        ensures
            n == self.acknowledged().bytes(),
    {
        self.acked.bytes_done()
    }

    /// How far the transfer has come at time `now`.
    #[verifier::loop_isolation(false)]
    pub fn progress(&self, now: u64) -> (progress: MultiStreamProgress)
        requires
            self.wf(),
        ensures
            progress.job_id@ == self.job(),
            progress.blocks_completed == self.acknowledged().completed(),
            progress.total_blocks == self.acknowledged().blocks().len(),
            progress.bytes_transferred == self.transferred().bytes(),
            progress.acknowledged_bytes == self.acknowledged().bytes(),
            progress.total_bytes == self.acknowledged().file_size(),
            progress.active_streams == count_set(self.in_flight()),
            progress.speed_bps == verified_speed(self.samples(), now),
    {
        proof {
            self.acked.lemma_counts();
            lemma_count_set_bound(self.in_flight@);
        }
        let speed = speed_over(&self.samples, now);
        MultiStreamProgress {
            job_id: self.job_id.clone(),
            blocks_completed: self.acked.blocks_completed(),
            total_blocks: self.acked.total_blocks(),
            bytes_transferred: self.sent.bytes_done(),
            acknowledged_bytes: self.acked.bytes_done(),
            total_bytes: self.acked.file_size,
            active_streams: self.active as u32,
            speed_bps: speed,
        }
    }
}

/// The verified throughput at time `now`.
#[verifier::loop_isolation(false)]
pub fn speed_over(samples: &Vec<(u64, u32)>, now: u64) -> (speed: u64)
    requires
        sampled_bytes(samples@) <= u64::MAX,
    ensures
        speed == verified_speed(samples@, now),
{
    let mut sum: u64 = 0;
    let mut i: usize = 0;
    proof {
        lemma_sampled_prefix(samples@, 0);
    }
    while i < samples.len()
        invariant
            i <= samples@.len(),
            sum == window_bytes(samples@.take(i as int), now),
            sum <= sampled_bytes(samples@.take(i as int)),
            sampled_bytes(samples@.take(i as int)) <= sampled_bytes(samples@),
        decreases samples@.len() - i,
    {
        proof {
            assert(samples@.take(i + 1).drop_last() =~= samples@.take(i as int));
            lemma_sampled_prefix(samples@, i + 1);
        }
        let (at, size) = samples[i];
        if elapsed_since(at, now) <= SPEED_WINDOW_MS {
            sum = sum + size as u64;
        }
        i += 1;
    }
    proof {
        assert(samples@.take(i as int) =~= samples@);
        assert((sum * 1000) / 2000 <= sum);
    }
    ((sum as u128 * 1000) / (SPEED_WINDOW_MS as u128)) as u64
}

/// The samples of a prefix weigh no more than all samples.
pub proof fn lemma_sampled_prefix(samples: Seq<(u64, u32)>, count: int)
    requires
        0 <= count <= samples.len(),
    ensures
        sampled_bytes(samples.take(count)) <= sampled_bytes(samples),
    decreases samples.len(),
{
    if count < samples.len() {
        assert(samples.drop_last().take(count) =~= samples.take(count));
        lemma_sampled_prefix(samples.drop_last(), count);
    } else {
        assert(samples.take(count) =~= samples);
    }
}

/// The receiver's side of a transfer: which blocks are stored.
#[derive(Debug)]
pub struct MultiStreamReceiver {
    job_id: String,
    file_name: String,
    block_size: u32,
    ledger: BlockLedger,
}

/// Whether the numbers of a manifest fit together: the block size is not
/// zero and the number of blocks is that of the file.
pub open spec fn manifest_ok(manifest: MultiStreamManifest) -> bool {
    &&& manifest.block_size > 0
    &&& manifest.total_blocks == block_count(
        manifest.file_size as int,
        manifest.block_size as int,
    )
}

impl MultiStreamReceiver {
    /// The ledger of stored blocks.
    pub closed spec fn stored(&self) -> BlockLedger {
        self.ledger
    }

    /// The job of the transfer.
    pub closed spec fn job(&self) -> Seq<char> {
        self.job_id@
    }

    /// The name of the file.
    pub closed spec fn name(&self) -> Seq<char> {
        self.file_name@
    }

    /// The block size that the manifest named.
    pub closed spec fn spec_block_size(&self) -> u32 {
        self.block_size
    }

    /// The ledger is that of the manifest's file.
    pub closed spec fn wf(&self) -> bool {
        &&& self.ledger.wf()
        &&& self.block_size > 0
        &&& self.ledger.blocks() == blocks_of(
            self.ledger.file_size() as int,
            self.block_size as int,
        )
    }

    pub proof fn lemma_wf(&self)
        requires
            self.wf(),
        ensures
            self.stored().wf(),
            self.spec_block_size() > 0,
            self.stored().blocks() == blocks_of(
                self.stored().file_size() as int,
                self.spec_block_size() as int,
            ),
    {
    }

    /// Takes the manifest of the job `job_id`: a manifest of another job
    /// is refused, and so is one whose numbers do not fit together. The
    /// file is to be created with the size that the manifest names.
    pub fn accept_manifest(manifest: MultiStreamManifest, job_id: &str) -> (receiver: Result<
        Self,
        TransferError,
    >)
        ensures
            receiver.is_err() ==> receiver.unwrap_err() == if manifest.job_id@ != job_id@ {
                TransferError::JobIdMismatch
            } else {
                TransferError::InvalidManifest
            },
            receiver.is_ok() <==> manifest.job_id@ == job_id@ && manifest_ok(manifest),
            receiver.is_ok() ==> {
                let r = receiver.unwrap();
                &&& r.wf()
                &&& r.job() == manifest.job_id@
                &&& r.name() == manifest.file_name@
                &&& r.spec_block_size() == manifest.block_size
                &&& r.stored().file_size() == manifest.file_size
                &&& r.stored().bytes() == 0
                &&& r.stored().completed() == 0
            },
    {
        let expected = job_id.to_owned();
        if !(manifest.job_id == expected) {
            return Err(TransferError::JobIdMismatch);
        }
        let size = manifest.block_size as usize;
        if !can_split(manifest.file_size, size) {
            return Err(TransferError::InvalidManifest);
        }
        let ledger = BlockLedger::new(manifest.file_size, size);
        if ledger.total_blocks() != manifest.total_blocks {
            return Err(TransferError::InvalidManifest);
        }
        Ok(
            MultiStreamReceiver {
                job_id: manifest.job_id,
                file_name: manifest.file_name,
                block_size: manifest.block_size,
                ledger,
            },
        )
    }

    /// Where a block is to be written, if its header is of this job and
    /// names a block of the file as the manifest laid it out. Such a block
    /// ends within the file.
    pub fn accept_block(&self, header: &BlockHeader) -> (block: Result<BlockInfo, TransferError>)
        requires
            self.wf(),
        ensures
            block == if header.job_id@ != self.job() {
                Err::<BlockInfo, TransferError>(TransferError::JobIdMismatch)
            } else if header.block_index >= self.stored().blocks().len() {
                Err(TransferError::UnknownBlock)
            } else if header.offset != self.stored().blocks()[header.block_index as int].offset
                || header.size != self.stored().blocks()[header.block_index as int].size {
                Err(TransferError::OutOfBounds)
            } else {
                Ok(self.stored().blocks()[header.block_index as int])
            },
            block.is_ok() ==> block.unwrap().offset + block.unwrap().size
                <= self.stored().file_size(),
    {
        if !(header.job_id == self.job_id) {
            return Err(TransferError::JobIdMismatch);
        }
        match self.ledger.block(header.block_index) {
            None => Err(TransferError::UnknownBlock),
            Some(expected) => {
                proof {
                    self.ledger.lemma_counts();
                    lemma_blocks_tile(self.ledger.file_size() as int, self.block_size as int);
                    assert(self.ledger.blocks()[header.block_index as int] == blocks_of(
                        self.ledger.file_size() as int,
                        self.block_size as int,
                    )[header.block_index as int]);
                }
                if header.offset != expected.offset || header.size != expected.size {
                    Err(TransferError::OutOfBounds)
                } else {
                    Ok(expected)
                }
            },
        }
    }

    /// Whether the data of a block is what its header announced: as long
    /// as the block, and of the header's CRC-32 where the header has one.
    pub fn verify_block_data(header: &BlockHeader, data: &[u8]) -> (ok: bool)
        ensures
            ok == (data@.len() == header.size && (header.checksum == 0 || header.checksum == crc32(
                data@,
            ))),
    {
        if data.len() != header.size as usize {
            return false;
        }
        header.checksum == 0 || header.checksum == crc32_checksum(data)
    }

    /// Notes that block `index` is on disk and is to be acknowledged; a
    /// block stored before counts once.
    pub fn block_stored(&mut self, index: u32) -> (news: bool)
        requires
            old(self).wf(),
        ensures
            final(self).wf(),
            final(self).job() == old(self).job(),
            final(self).name() == old(self).name(),
            final(self).spec_block_size() == old(self).spec_block_size(),
            final(self).stored().file_size() == old(self).stored().file_size(),
            final(self).stored().blocks() == old(self).stored().blocks(),
            news == (index < old(self).stored().done().len() && !old(self).stored().done()[index as int]),
            news ==> final(self).stored().done() == old(self).stored().done().update(
                index as int,
                true,
            ) && final(self).stored().bytes() == old(self).stored().bytes() + old(
                self,
            ).stored().blocks()[index as int].size,
            !news ==> final(self).stored().done() == old(self).stored().done()
                && final(self).stored().bytes() == old(self).stored().bytes(),
            final(self).stored().bytes() >= old(self).stored().bytes(),
    {
        self.ledger.mark_done(index)
    }

    /// Whether every block is stored; the bytes stored are then all of
    /// the file.
    pub fn is_complete(&self) -> (complete: bool)
        requires
            self.wf(),
        ensures
            complete == (self.stored().completed() == self.stored().blocks().len()),
            complete ==> self.stored().bytes() == self.stored().file_size(),
    {
        self.ledger.is_complete()
    }

    /// The blocks that are not stored yet, in the order of the file.
    #[verifier::loop_isolation(false)]
    pub fn missing_blocks(&self) -> (missing: Vec<u32>)
        requires
            self.wf(),
        ensures
            missing@.len() == self.stored().blocks().len() - self.stored().completed(),
            forall|k: int|
                0 <= k < missing@.len() ==> (#[trigger] missing@[k]) < self.stored().done().len()
                    && !self.stored().done()[missing@[k] as int],
            forall|j: int, k: int| 0 <= j < k < missing@.len() ==> missing@[j] < missing@[k],
    {
        proof {
            self.ledger.lemma_counts();
        }
        let total = self.ledger.total_blocks();
        let ghost done = self.ledger.done();
        let mut missing: Vec<u32> = Vec::new();
        let mut i: u32 = 0;
        while i < total
            invariant
                i <= total,
                total == done.len(),
                missing@.len() == i - count_set(done.take(i as int)),
                count_set(done.take(i as int)) <= i,
                forall|k: int|
                    0 <= k < missing@.len() ==> (#[trigger] missing@[k]) < i && !done[missing@[k] as int],
                forall|j: int, k: int| 0 <= j < k < missing@.len() ==> missing@[j] < missing@[k],
            decreases total - i,
        {
            proof {
                assert(done.take(i + 1).drop_last() =~= done.take(i as int));
            }
            if !self.ledger.is_done(i) {
                missing.push(i);
            }
            i += 1;
        }
        proof {
            assert(done.take(i as int) =~= done);
        }
        missing
    }

    /// How far the transfer has come at time `now`; the speed is that of
    /// the bytes stored since `started_at`.
    pub fn progress(&self, started_at: u64, now: u64) -> (progress: MultiStreamProgress)
        requires
            self.wf(),
        ensures
            progress.job_id@ == self.job(),
            progress.blocks_completed == self.stored().completed(),
            progress.total_blocks == self.stored().blocks().len(),
            progress.bytes_transferred == self.stored().bytes(),
            progress.acknowledged_bytes == self.stored().bytes(),
            progress.total_bytes == self.stored().file_size(),
            progress.active_streams == 0,
            progress.speed_bps == crate::grid::peer::rate_per_sec(
                self.stored().bytes(),
                started_at,
                now,
            ),
    {
        MultiStreamProgress {
            job_id: self.job_id.clone(),
            blocks_completed: self.ledger.blocks_completed(),
            total_blocks: self.ledger.total_blocks(),
            bytes_transferred: self.ledger.bytes_done(),
            acknowledged_bytes: self.ledger.bytes_done(),
            total_bytes: self.ledger.file_size,
            active_streams: 0,
            speed_bps: crate::grid::peer::rate_since(self.ledger.bytes_done(), started_at, now),
        }
    }
}

} // verus!
