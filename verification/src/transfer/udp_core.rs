//! The datagram chunk format: a 24-byte header of little-endian fields,
//! then the data.

use vstd::prelude::*;
use vstd::bytes::{
    lemma_auto_spec_u16_to_from_le_bytes,
    lemma_auto_spec_u32_to_from_le_bytes,
    lemma_auto_spec_u64_to_from_le_bytes,
    spec_u16_from_le_bytes,
    spec_u16_to_le_bytes,
    spec_u32_from_le_bytes,
    spec_u32_to_le_bytes,
    spec_u64_from_le_bytes,
    spec_u64_to_le_bytes,
    u16_from_le_bytes,
    u16_to_le_bytes,
    u32_from_le_bytes,
    u32_to_le_bytes,
    u64_from_le_bytes,
    u64_to_le_bytes,
};
use crate::digest::{crc32, crc32_checksum};

verus! {

/// The largest payload of a UDP datagram.
pub const UDP_PAYLOAD_SIZE: usize = 65507;

/// Bytes of a chunk header.
pub const CHUNK_HEADER_SIZE: usize = 24;

/// The most data that one chunk carries.
pub const MAX_CHUNK_DATA: usize = 65483;

/// Sockets opened unless told otherwise.
pub const DEFAULT_SOCKET_COUNT: usize = 8;

/// The most sockets that are opened.
pub const MAX_SOCKET_COUNT: usize = 64;

/// What stands before the data of a chunk.
#[derive(Clone, Copy, Debug, PartialEq, Eq, Structural)]
pub struct ChunkHeader {
    pub job_id: u32,
    pub file_index: u16,
    pub chunk_index: u32,
    pub offset: u64,
    pub data_len: u16,
    pub checksum: u32,
}

/// The wire form of a header: job, file index, chunk index, offset, data
/// length and checksum, each little-endian, one after the other.
pub open spec fn header_bytes(header: ChunkHeader) -> Seq<u8> {
    spec_u32_to_le_bytes(header.job_id) + spec_u16_to_le_bytes(header.file_index)
        + spec_u32_to_le_bytes(header.chunk_index) + spec_u64_to_le_bytes(header.offset)
        + spec_u16_to_le_bytes(header.data_len) + spec_u32_to_le_bytes(header.checksum)
}

/// The header that the first 24 bytes of a buffer spell, or nothing where
/// the buffer is shorter.
pub open spec fn header_of(buf: Seq<u8>) -> Option<ChunkHeader> {
    if buf.len() < CHUNK_HEADER_SIZE {
        None
    } else {
        Some(
            ChunkHeader {
                job_id: spec_u32_from_le_bytes(buf.subrange(0, 4)),
                file_index: spec_u16_from_le_bytes(buf.subrange(4, 6)),
                chunk_index: spec_u32_from_le_bytes(buf.subrange(6, 10)),
                offset: spec_u64_from_le_bytes(buf.subrange(10, 18)),
                data_len: spec_u16_from_le_bytes(buf.subrange(18, 20)),
                checksum: spec_u32_from_le_bytes(buf.subrange(20, 24)),
            },
        )
    }
}

/// A header is read back from its wire form, whatever follows it.
pub proof fn lemma_header_round_trip(header: ChunkHeader, rest: Seq<u8>)
    ensures
        header_bytes(header).len() == CHUNK_HEADER_SIZE,
        header_of(header_bytes(header) + rest) == Some(header),
{
    lemma_auto_spec_u16_to_from_le_bytes();
    lemma_auto_spec_u32_to_from_le_bytes();
    lemma_auto_spec_u64_to_from_le_bytes();
    let buf = header_bytes(header) + rest;
    assert(buf.subrange(0, 4) =~= spec_u32_to_le_bytes(header.job_id));
    assert(buf.subrange(4, 6) =~= spec_u16_to_le_bytes(header.file_index));
    assert(buf.subrange(6, 10) =~= spec_u32_to_le_bytes(header.chunk_index));
    assert(buf.subrange(10, 18) =~= spec_u64_to_le_bytes(header.offset));
    assert(buf.subrange(18, 20) =~= spec_u16_to_le_bytes(header.data_len));
    assert(buf.subrange(20, 24) =~= spec_u32_to_le_bytes(header.checksum));
}

/// A copy of the bytes from `from` up to `to`.
fn copy_range(buf: &[u8], from: usize, to: usize) -> (part: Vec<u8>)
    requires
        from <= to <= buf@.len(),
    ensures
        part@ == buf@.subrange(from as int, to as int),
{
    let mut part: Vec<u8> = Vec::new();
    let mut i = from;
    while i < to
        invariant
            from <= i <= to,
            to <= buf@.len(),
            part@ == buf@.subrange(from as int, i as int),
        decreases to - i,
    {
        part.push(buf[i]);
        proof {
            assert(part@ =~= buf@.subrange(from as int, i + 1));
        }
        i += 1;
    }
    part
}

impl ChunkHeader {
    /// The wire form of the header.
    #[verifier::loop_isolation(false)]
    pub fn encode(&self) -> (bytes: [u8; 24])
        ensures
            bytes@ == header_bytes(*self),
    {
        proof {
            lemma_auto_spec_u16_to_from_le_bytes();
            lemma_auto_spec_u32_to_from_le_bytes();
            lemma_auto_spec_u64_to_from_le_bytes();
        }
        let mut wire = u32_to_le_bytes(self.job_id);
        let mut part = u16_to_le_bytes(self.file_index);
        wire.append(&mut part);
        let mut part = u32_to_le_bytes(self.chunk_index);
        wire.append(&mut part);
        let mut part = u64_to_le_bytes(self.offset);
        wire.append(&mut part);
        let mut part = u16_to_le_bytes(self.data_len);
        wire.append(&mut part);
        let mut part = u32_to_le_bytes(self.checksum);
        wire.append(&mut part);
        assert(wire@ =~= header_bytes(*self));
        let mut bytes = [0u8; 24];
        let mut i: usize = 0;
        while i < 24
            invariant
                i <= 24,
                wire@.len() == 24,
                forall|k: int| 0 <= k < i ==> bytes@[k] == wire@[k],
            decreases 24 - i,
        {
            bytes[i] = wire[i];
            i += 1;
        }
        assert(bytes@ =~= wire@);
        bytes
    }

    /// The header that a buffer starts with, or nothing where the buffer
    /// is too short to hold one.
    pub fn decode(buf: &[u8]) -> (header: Option<Self>)
        ensures
            header == header_of(buf@),
    {
        if buf.len() < CHUNK_HEADER_SIZE {
            return None;
        }
        let job_id = u32_from_le_bytes(copy_range(buf, 0, 4).as_slice());
        let file_index = u16_from_le_bytes(copy_range(buf, 4, 6).as_slice());
        let chunk_index = u32_from_le_bytes(copy_range(buf, 6, 10).as_slice());
        let offset = u64_from_le_bytes(copy_range(buf, 10, 18).as_slice());
        let data_len = u16_from_le_bytes(copy_range(buf, 18, 20).as_slice());
        let checksum = u32_from_le_bytes(copy_range(buf, 20, 24).as_slice());
        Some(ChunkHeader { job_id, file_index, chunk_index, offset, data_len, checksum })
    }
}

/// The number of chunks that `len` bytes of data make.
pub open spec fn chunk_count(len: int) -> int {
    (len + MAX_CHUNK_DATA - 1) / (MAX_CHUNK_DATA as int)
}

/// The data of chunk `index`.
pub open spec fn chunk_data(data: Seq<u8>, index: int) -> Seq<u8> {
    data.subrange(
        index * MAX_CHUNK_DATA,
        if (index + 1) * MAX_CHUNK_DATA < data.len() {
            (index + 1) * MAX_CHUNK_DATA
        } else {
            data.len() as int
        },
    )
}

/// The header of chunk `index` of `data`.
pub open spec fn chunk_header(job_id: u32, file_index: u16, data: Seq<u8>, index: int) -> ChunkHeader {
    ChunkHeader {
        job_id,
        file_index,
        chunk_index: index as u32,
        offset: (index * MAX_CHUNK_DATA) as u64,
        data_len: chunk_data(data, index).len() as u16,
        checksum: crc32(chunk_data(data, index)),
    }
}

/// The headers of the chunks that `data` is sent in: one for every
/// [`MAX_CHUNK_DATA`] bytes, each with the CRC-32 of its data.
#[verifier::loop_isolation(false)]
pub fn plan_chunks(job_id: u32, file_index: u16, data: &[u8]) -> (headers: Vec<ChunkHeader>)
    requires
        chunk_count(data@.len() as int) <= u32::MAX,
        data@.len() <= u64::MAX,
    ensures
        headers@.len() == chunk_count(data@.len() as int),
        forall|i: int|
            0 <= i < headers@.len() ==> #[trigger] headers@[i] == chunk_header(
                job_id,
                file_index,
                data@,
                i,
            ),
{
    let len = data.len();
    let mut headers: Vec<ChunkHeader> = Vec::new();
    let mut start: usize = 0;
    let ghost total = chunk_count(len as int);
    proof {
        assert(0 <= total && total * MAX_CHUNK_DATA >= len && (total - 1) * MAX_CHUNK_DATA < len)
            by (nonlinear_arith)
            requires
                0 <= len,
                total == (len + MAX_CHUNK_DATA - 1) / (MAX_CHUNK_DATA as int),
                MAX_CHUNK_DATA == 65483,
        ;
    }
    while start < len
        invariant
            start <= len,
            headers@.len() <= total,
            start == headers@.len() * MAX_CHUNK_DATA || (start == len && headers@.len() == total),
            start == len ==> headers@.len() == total,
            forall|i: int|
                0 <= i < headers@.len() ==> #[trigger] headers@[i] == chunk_header(
                    job_id,
                    file_index,
                    data@,
                    i,
                ),
        decreases len - start,
    {
        let ghost k = headers@.len() as int;
        let take = if len - start < MAX_CHUNK_DATA { len - start } else { MAX_CHUNK_DATA };
        proof {
            assert(k < total && (start + take == len ==> k == total - 1) && (start + take < len
                ==> start + take == (k + 1) * MAX_CHUNK_DATA) && (k + 1) * MAX_CHUNK_DATA == start
                + MAX_CHUNK_DATA) by (nonlinear_arith)
                requires
                    start == k * MAX_CHUNK_DATA,
                    start < len,
                    take == (if len - start < MAX_CHUNK_DATA {
                        len - start
                    } else {
                        MAX_CHUNK_DATA as int
                    }),
                    total * MAX_CHUNK_DATA >= len,
                    (total - 1) * MAX_CHUNK_DATA < len,
                    MAX_CHUNK_DATA == 65483,
            ;
        }
        let chunk = copy_range(data, start, start + take);
        proof {
            assert(chunk@ =~= chunk_data(data@, k));
        }
        headers.push(
            ChunkHeader {
                job_id,
                file_index,
                chunk_index: headers.len() as u32,
                offset: start as u64,
                data_len: take as u16,
                checksum: crc32_checksum(chunk.as_slice()),
            },
        );
        start += take;
    }
    proof {
        if len == 0 {
            assert(total == 0);
        }
    }
    headers
}

/// The socket, of `socket_count`, that a chunk goes out on.
pub fn socket_for(chunk_index: u32, socket_count: usize) -> (socket: usize)
    requires
        socket_count > 0,
    ensures
        socket == chunk_index as int % socket_count as int,
        socket < socket_count,
{
    chunk_index as usize % socket_count
}

/// The number of sockets to open for a wish of `wanted`: one at least and
/// [`MAX_SOCKET_COUNT`] at most.
pub fn socket_count_for(wanted: usize) -> (count: usize)
    ensures
        count == if wanted < 1 {
            1
        } else if wanted > MAX_SOCKET_COUNT {
            MAX_SOCKET_COUNT
        } else {
            wanted
        },
{
    if wanted < 1 {
        1
    } else if wanted > MAX_SOCKET_COUNT {
        MAX_SOCKET_COUNT
    } else {
        wanted
    }
}

} // verus!
