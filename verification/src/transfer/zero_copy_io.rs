//! Blocks of a file and how they are read and written.

use vstd::prelude::*;

verus! {

/// Block size of the zero-copy path: 4 MiB.
pub const ZERO_COPY_BLOCK_SIZE: usize = 4194304;

/// Block size of the multi-stream path: 16 MiB.
pub const STREAM_BLOCK_SIZE: usize = 16777216;

/// The smallest adaptive block size: 256 KiB.
pub const MIN_BLOCK_SIZE: u64 = 262144;

/// The largest adaptive block size: 16 MiB.
pub const MAX_BLOCK_SIZE: u64 = 16777216;

/// How file data is read.
#[derive(Clone, Copy, Debug, PartialEq, Eq, Structural)]
pub enum IoMethod {
    /// Plain buffered reads.
    Buffered,
    /// Reads from a memory map.
    Mmap,
    /// Linux io_uring, from kernel 5.1 on.
    IoUring,
    /// Windows overlapped I/O.
    OverlappedIo,
}

/// The kind of system that the process runs on.
#[derive(Clone, Copy, Debug, PartialEq, Eq, Structural)]
pub enum Platform {
    Linux,
    Windows,
    Other,
}

/// The way of reading that a system offers.
#[derive(Clone, Copy, Debug)]
pub struct ZeroCopyEngine {
    io_method: IoMethod,
}

/// One block of a file.
#[derive(Clone, Copy, Debug, PartialEq, Eq, Structural)]
pub struct BlockInfo {
    pub index: u32,
    pub offset: u64,
    pub size: u32,
    pub total_blocks: u32,
}

/// Whether a byte is ASCII white space.
pub open spec fn is_space(b: u8) -> bool {
    b == 32 || (9 <= b <= 13)
}

/// Whether a byte is an ASCII digit.
pub open spec fn is_digit(b: u8) -> bool {
    48 <= b <= 57
}

/// The first position at or after `from` that holds no white space.
pub open spec fn skip_spaces(s: Seq<u8>, from: int) -> int
    decreases s.len() - from,
{
    if 0 <= from < s.len() && is_space(s[from]) {
        skip_spaces(s, from + 1)
    } else {
        from
    }
}

/// The first position at or after `from` that holds white space, or the end.
pub open spec fn skip_word(s: Seq<u8>, from: int) -> int
    decreases s.len() - from,
{
    if 0 <= from < s.len() && !is_space(s[from]) {
        skip_word(s, from + 1)
    } else {
        from
    }
}

/// Where the third word of a text starts.
pub open spec fn third_word_start(s: Seq<u8>) -> int {
    let first = skip_spaces(s, 0);
    let second = skip_spaces(s, skip_word(s, first));
    skip_spaces(s, skip_word(s, second))
}

/// The number that the digits from `from` up to the first other byte
/// spell, and where they end; `None` where there is no digit or the
/// number does not fit in 32 bits.
pub open spec fn number_at(s: Seq<u8>, from: int, so_far: Option<u64>) -> (Option<u64>, int)
    decreases s.len() - from,
{
    if 0 <= from < s.len() && is_digit(s[from]) {
        let digit = (s[from] - 48) as u64;
        let next = match so_far {
            None => digit,
            Some(n) => if n * 10 + digit > u32::MAX {
                (u32::MAX + 1) as u64
            } else {
                (n * 10 + digit) as u64
            },
        };
        number_at(s, from + 1, Some(next))
    } else {
        (so_far, from)
    }
}

/// Whether the text of `/proc/version` names a kernel that has io_uring:
/// its third word starts with `major.minor`, both decimal numbers that
/// fit in 32 bits, the first followed by a dot, the second by a dot or
/// the end of the word, and the version is 5.1 or later.
pub open spec fn names_io_uring_kernel(s: Seq<u8>) -> bool {
    let start = third_word_start(s);
    let major = number_at(s, start, None);
    let minor = number_at(s, major.1 + 1, None);
    &&& major.0.is_some()
    &&& major.0.unwrap() <= u32::MAX
    &&& major.1 < s.len()
    &&& s[major.1] == 46
    &&& minor.0.is_some()
    &&& minor.0.unwrap() <= u32::MAX
    &&& (minor.1 >= s.len() || s[minor.1] == 46 || is_space(s[minor.1]))
    &&& (major.0.unwrap() > 5 || (major.0.unwrap() == 5 && minor.0.unwrap() >= 1))
}

/// The way of reading that a system offers: io_uring on a Linux whose
/// kernel has it, overlapped I/O on Windows, a memory map elsewhere.
pub open spec fn best_io_method(platform: Platform, kernel_version: Seq<u8>) -> IoMethod {
    match platform {
        Platform::Linux => if names_io_uring_kernel(kernel_version) {
            IoMethod::IoUring
        } else {
            IoMethod::Mmap
        },
        Platform::Windows => IoMethod::OverlappedIo,
        Platform::Other => IoMethod::Mmap,
    }
}

fn is_space_byte(b: u8) -> (r: bool)
    ensures
        r == is_space(b),
{
    b == 32 || (9 <= b && b <= 13)
}

fn skip_spaces_from(s: &[u8], from: usize) -> (to: usize)
    requires
        from <= s@.len(),
    ensures
        to == skip_spaces(s@, from as int),
        from <= to <= s@.len(),
{
    let mut i = from;
    while i < s.len() && is_space_byte(s[i])
        invariant
            from <= i <= s@.len(),
            skip_spaces(s@, from as int) == skip_spaces(s@, i as int),
        decreases s@.len() - i,
    {
        i += 1;
    }
    i
}

fn skip_word_from(s: &[u8], from: usize) -> (to: usize)
    requires
        from <= s@.len(),
    ensures
        to == skip_word(s@, from as int),
        from <= to <= s@.len(),
{
    let mut i = from;
    while i < s.len() && !is_space_byte(s[i])
        invariant
            from <= i <= s@.len(),
            skip_word(s@, from as int) == skip_word(s@, i as int),
        decreases s@.len() - i,
    {
        i += 1;
    }
    i
}

fn read_number(s: &[u8], from: usize) -> (r: (Option<u64>, usize))
    requires
        from <= s@.len(),
    ensures
        (r.0, r.1 as int) == number_at(s@, from as int, None),
        from <= r.1 <= s@.len(),
{
    let mut i = from;
    let mut so_far: Option<u64> = None;
    while i < s.len() && 48 <= s[i] && s[i] <= 57
        invariant
            from <= i <= s@.len(),
            number_at(s@, from as int, None) == number_at(s@, i as int, so_far),
            so_far.is_some() ==> so_far.unwrap() <= u32::MAX + 1,
        decreases s@.len() - i,
    {
        let digit = (s[i] - 48) as u64;
        let next = match so_far {
            None => digit,
            Some(n) => if n * 10 + digit > u32::MAX as u64 {
                u32::MAX as u64 + 1
            } else {
                n * 10 + digit
            },
        };
        so_far = Some(next);
        i += 1;
    }
    (so_far, i)
}

impl ZeroCopyEngine {
    /// The engine of a system of the kind `platform`; `kernel_version` is
    /// the text of `/proc/version` on Linux and is not looked at elsewhere.
    pub fn new(platform: Platform, kernel_version: &[u8]) -> (engine: Self)
        ensures
            engine.spec_io_method() == best_io_method(platform, kernel_version@),
    {
        ZeroCopyEngine { io_method: ZeroCopyEngine::detect_best_io_method(platform, kernel_version) }
    }

    pub closed spec fn spec_io_method(&self) -> IoMethod {
        self.io_method
    }

    /// The way of reading that a system of the kind `platform` offers.
    pub fn detect_best_io_method(platform: Platform, kernel_version: &[u8]) -> (method: IoMethod)
        ensures
            method == best_io_method(platform, kernel_version@),
    {
        match platform {
            Platform::Linux => if ZeroCopyEngine::check_io_uring_support(kernel_version) {
                IoMethod::IoUring
            } else {
                IoMethod::Mmap
            },
            Platform::Windows => IoMethod::OverlappedIo,
            Platform::Other => IoMethod::Mmap,
        }
    }

    /// Whether the text of `/proc/version` names a kernel of version 5.1
    /// or later.
    pub fn check_io_uring_support(kernel_version: &[u8]) -> (supported: bool)
        ensures
            supported == names_io_uring_kernel(kernel_version@),
    {
        let s = kernel_version;
        let first = skip_spaces_from(s, 0);
        let second = skip_spaces_from(s, skip_word_from(s, first));
        let start = skip_spaces_from(s, skip_word_from(s, second));
        let (major, major_end) = read_number(s, start);
        if major.is_none() || major_end >= s.len() || s[major_end] != 46 {
            return false;
        }
        let (minor, minor_end) = read_number(s, major_end + 1);
        if minor.is_none() {
            return false;
        }
        if minor_end < s.len() && s[minor_end] != 46 && !is_space_byte(s[minor_end]) {
            return false;
        }
        let major = major.unwrap();
        let minor = minor.unwrap();
        if major > u32::MAX as u64 || minor > u32::MAX as u64 {
            return false;
        }
        major > 5 || (major == 5 && minor >= 1)
    }

    /// The way of reading that was found.
    pub fn io_method(&self) -> (method: IoMethod)
        ensures
            method == self.spec_io_method(),
    {
        self.io_method
    }
}

/// The number of blocks of `block_size` bytes in a file of `file_size` bytes.
pub open spec fn block_count(file_size: int, block_size: int) -> int {
    (file_size + block_size - 1) / block_size
}

/// Block `index` of a file.
pub open spec fn block_at(index: int, file_size: int, block_size: int) -> BlockInfo {
    BlockInfo {
        index: index as u32,
        offset: (index * block_size) as u64,
        size: (if file_size - index * block_size < block_size {
            file_size - index * block_size
        } else {
            block_size
        }) as u32,
        total_blocks: block_count(file_size, block_size) as u32,
    }
}

/// The blocks of a file, in order.
pub open spec fn blocks_of(file_size: int, block_size: int) -> Seq<BlockInfo> {
    Seq::new(
        block_count(file_size, block_size) as nat,
        |i: int| block_at(i, file_size, block_size),
    )
}

/// The sizes of the first `count` blocks together.
pub open spec fn sizes_sum(blocks: Seq<BlockInfo>, count: int) -> int
    decreases count,
{
    if count <= 0 {
        0
    } else {
        sizes_sum(blocks, count - 1) + blocks[count - 1].size
    }
}

/// The block size that suits a file: a hundredth of its size, but no
/// less than 256 KiB and no more than 16 MiB.
pub open spec fn adaptive_size(file_size: u64) -> u64 {
    if file_size / 100 < MIN_BLOCK_SIZE {
        MIN_BLOCK_SIZE
    } else if file_size / 100 > MAX_BLOCK_SIZE {
        MAX_BLOCK_SIZE
    } else {
        file_size / 100
    }
}

/// Executable form of [`adaptive_size`].
pub fn adaptive_block_size(file_size: u64) -> (size: usize)
    ensures
        size == adaptive_size(file_size),
        MIN_BLOCK_SIZE <= size <= MAX_BLOCK_SIZE,
{
    let hundredth = file_size / 100;
    if hundredth < MIN_BLOCK_SIZE {
        MIN_BLOCK_SIZE as usize
    } else if hundredth > MAX_BLOCK_SIZE {
        MAX_BLOCK_SIZE as usize
    } else {
        hundredth as usize
    }
}

/// The blocks of a file lie one behind the other from the start of the
/// file to its end: each starts where the one before ends, none is empty
/// or longer than the block size, none reaches past the end of the file,
/// and their sizes add up to the size of the file.
pub proof fn lemma_blocks_tile(file_size: int, block_size: int)
    requires
        0 <= file_size <= u64::MAX,
        0 < block_size <= u32::MAX,
        block_count(file_size, block_size) <= u32::MAX,
    ensures
        forall|i: int|
            0 <= i < blocks_of(file_size, block_size).len() ==> {
                let b = #[trigger] blocks_of(file_size, block_size)[i];
                &&& b.index == i
                &&& b.offset == i * block_size
                &&& 0 < b.size <= block_size
                &&& b.offset + b.size <= file_size
                &&& b.total_blocks == blocks_of(file_size, block_size).len()
                &&& (i + 1 < blocks_of(file_size, block_size).len() ==> b.size == block_size)
                &&& (i + 1 == blocks_of(file_size, block_size).len() ==> b.offset + b.size
                    == file_size)
            },
        forall|i: int|
            0 <= i <= blocks_of(file_size, block_size).len() ==> #[trigger] sizes_sum(
                blocks_of(file_size, block_size),
                i,
            ) == if i == blocks_of(file_size, block_size).len() {
                file_size
            } else {
                i * block_size
            },
{
    let n = block_count(file_size, block_size);
    let blocks = blocks_of(file_size, block_size);
    assert(0 <= n && n * block_size >= file_size && (n - 1) * block_size < file_size && ((n == 0)
        <==> file_size == 0)) by (nonlinear_arith)
        requires
            0 <= file_size,
            0 < block_size,
            n == (file_size + block_size - 1) / block_size,
    ;
    assert forall|i: int| 0 <= i < blocks.len() implies {
        let b = #[trigger] blocks[i];
        &&& b.index == i
        &&& b.offset == i * block_size
        &&& 0 < b.size <= block_size
        &&& b.offset + b.size <= file_size
        &&& b.total_blocks == blocks.len()
        &&& (i + 1 < blocks.len() ==> b.size == block_size)
        &&& (i + 1 == blocks.len() ==> b.offset + b.size == file_size)
    } by {
        assert(0 <= i * block_size <= (n - 1) * block_size && (i + 1 < n ==> (i + 1) * block_size
            <= (n - 1) * block_size) && (i + 1) * block_size == i * block_size + block_size)
            by (nonlinear_arith)
            requires
                0 <= i < n,
                0 < block_size,
        ;
    }
    lemma_sizes_sum(file_size, block_size, n);
    assert forall|i: int| 0 <= i <= blocks.len() implies #[trigger] sizes_sum(blocks, i) == if i
        == blocks.len() {
        file_size
    } else {
        i * block_size
    } by {
        lemma_sizes_sum(file_size, block_size, i);
    }
}

proof fn lemma_sizes_sum(file_size: int, block_size: int, count: int)
    requires
        0 <= file_size <= u64::MAX,
        0 < block_size <= u32::MAX,
        block_count(file_size, block_size) <= u32::MAX,
        0 <= count <= block_count(file_size, block_size),
    ensures
        sizes_sum(blocks_of(file_size, block_size), count) == if count == block_count(
            file_size,
            block_size,
        ) {
            file_size
        } else {
            count * block_size
        },
    decreases count,
{
    let n = block_count(file_size, block_size);
    assert(0 <= n && n * block_size >= file_size && (n - 1) * block_size < file_size && ((n == 0)
        <==> file_size == 0)) by (nonlinear_arith)
        requires
            0 <= file_size,
            0 < block_size,
            n == (file_size + block_size - 1) / block_size,
    ;
    if count > 0 {
        lemma_sizes_sum(file_size, block_size, count - 1);
        let i = count - 1;
        assert(0 <= i * block_size <= (n - 1) * block_size && (i + 1 < n ==> (i + 1) * block_size
            <= (n - 1) * block_size) && (i + 1) * block_size == i * block_size + block_size)
            by (nonlinear_arith)
            requires
                0 <= i < n,
                0 < block_size,
        ;
        assert(blocks_of(file_size, block_size)[i] == block_at(i, file_size, block_size));
    } else {
        assert(count * block_size == 0) by (nonlinear_arith)
            requires
                count == 0,
        ;
    }
}

/// Cuts a file of `file_size` bytes into blocks of `block_size` bytes;
/// the last block takes what is left.
#[verifier::loop_isolation(false)]
pub fn split_file_into_blocks(file_size: u64, block_size: usize) -> (blocks: Vec<BlockInfo>)
    requires
        0 < block_size <= u32::MAX,
        block_count(file_size as int, block_size as int) <= u32::MAX,
    ensures
        blocks@ == blocks_of(file_size as int, block_size as int),
{
    let size = block_size as u64;
    proof {
        lemma_blocks_tile(file_size as int, block_size as int);
    }
    let full = file_size / size;
    proof {
        let f = file_size as int;
        let p = size as int;
        assert(block_count(f, p) == if f % p == 0 { f / p } else { f / p + 1 }) by (nonlinear_arith)
            requires
                0 <= f,
                0 < p,
                block_count(f, p) == (f + p - 1) / p,
        ;
    }
    let total: u64 = if file_size % size == 0 { full } else { full + 1 };
    let ghost goal = blocks_of(file_size as int, block_size as int);
    let mut blocks: Vec<BlockInfo> = Vec::new();
    let mut i: u64 = 0;
    while i < total
        invariant
            i <= total,
            total == goal.len(),
            blocks@ == goal.take(i as int),
        decreases total - i,
    {
        proof {
            assert(goal[i as int] == block_at(i as int, file_size as int, block_size as int));
            assert(goal[i as int].offset == i * size);
        }
        let offset = i * size;
        let left = file_size - offset;
        let block = BlockInfo {
            index: i as u32,
            offset,
            size: if left < size { left as u32 } else { size as u32 },
            total_blocks: total as u32,
        };
        blocks.push(block);
        proof {
            assert(blocks@ =~= goal.take(i + 1));
        }
        i += 1;
    }
    proof {
        assert(goal.take(i as int) =~= goal);
    }
    blocks
}

/// Whether the blocks of a file can be counted: the block size is not
/// zero and fits in 32 bits, and so does the number of blocks.
pub fn can_split(file_size: u64, block_size: usize) -> (ok: bool)
    ensures
        ok == (0 < block_size <= u32::MAX && block_count(file_size as int, block_size as int)
            <= u32::MAX),
{
    if block_size == 0 || block_size > u32::MAX as usize {
        return false;
    }
    let size = block_size as u64;
    let full = file_size / size;
    proof {
        let f = file_size as int;
        let p = size as int;
        assert(block_count(f, p) == if f % p == 0 { f / p } else { f / p + 1 }) by (nonlinear_arith)
            requires
                0 <= f,
                0 < p,
                block_count(f, p) == (f + p - 1) / p,
        ;
    }
    if file_size % size == 0 {
        full <= u32::MAX as u64
    } else {
        full < u32::MAX as u64
    }
}

/// Why a block is not read or written.
#[derive(Clone, Copy, Debug, PartialEq, Eq, Structural)]
pub enum BlockError {
    /// The block reaches past the end of the file.
    OutOfBounds,
    /// The data is not as long as the block.
    WrongLength,
}

/// Where a block lies in a file of `file_len` bytes: the block must end
/// within the file.
pub fn block_range(file_len: u64, block: &BlockInfo) -> (range: Result<(u64, u64), BlockError>)
    ensures
        range == if block.offset + block.size <= file_len {
            Ok::<(u64, u64), BlockError>((block.offset, (block.offset + block.size) as u64))
        } else {
            Err(BlockError::OutOfBounds)
        },
{
    let size = block.size as u64;
    if block.offset <= file_len && size <= file_len - block.offset {
        Ok((block.offset, block.offset + size))
    } else {
        Err(BlockError::OutOfBounds)
    }
}

/// Whether data read for a block is the whole block: exactly as many
/// bytes as the block is long.
pub fn check_block_data(block: &BlockInfo, data_len: usize) -> (checked: Result<(), BlockError>)
    ensures
        checked == if data_len == block.size {
            Ok::<(), BlockError>(())
        } else {
            Err(BlockError::WrongLength)
        },
{
    if data_len == block.size as usize {
        Ok(())
    } else {
        Err(BlockError::WrongLength)
    }
}

/// A position in a file that is read block by block.
#[derive(Clone, Copy, Debug, PartialEq, Eq, Structural)]
pub struct MmapReader {
    pub offset: usize,
    pub len: usize,
}

impl MmapReader {
    /// A reader at the start of a file of `len` bytes.
    pub fn open(len: usize) -> (reader: Self)
        ensures
            reader == (MmapReader { offset: 0, len }),
    {
        MmapReader { offset: 0, len }
    }

    /// The range of the next block of at most `block_size` bytes, or
    /// nothing at the end of the file; the reader moves behind the block.
    pub fn next_block(&mut self, block_size: usize) -> (range: Option<(usize, usize)>)
        ensures
            old(self).offset >= old(self).len ==> range.is_none() && *final(self) == *old(self),
            old(self).offset < old(self).len ==> range == Some(
                (
                    old(self).offset,
                    if old(self).len - old(self).offset < block_size {
                        old(self).len
                    } else {
                        (old(self).offset + block_size) as usize
                    },
                ),
            ) && final(self).len == old(self).len && final(self).offset == range.unwrap().1,
    {
        if self.offset >= self.len {
            return None;
        }
        let end = if self.len - self.offset < block_size {
            self.len
        } else {
            self.offset + block_size
        };
        let start = self.offset;
        self.offset = end;
        Some((start, end))
    }

    /// The range of the block of at most `block_size` bytes at `offset`,
    /// or nothing past the end of the file.
    pub fn read_block_at(&self, offset: usize, block_size: usize) -> (range: Option<(usize, usize)>)
        ensures
            range == if offset >= self.len {
                None::<(usize, usize)>
            } else {
                Some(
                    (
                        offset,
                        if self.len - offset < block_size {
                            self.len
                        } else {
                            (offset + block_size) as usize
                        },
                    ),
                )
            },
    {
        if offset >= self.len {
            return None;
        }
        let end = if self.len - offset < block_size { self.len } else { offset + block_size };
        Some((offset, end))
    }

    /// Bytes that are left to read.
    pub fn remaining(&self) -> (left: usize)
        ensures
            left == if self.len >= self.offset {
                self.len - self.offset
            } else {
                0
            },
    {
        if self.len >= self.offset {
            self.len - self.offset
        } else {
            0
        }
    }

    /// Goes back to the start of the file.
    pub fn reset(&mut self)
        ensures
            *final(self) == (MmapReader { offset: 0, len: old(self).len }),
    {
        self.offset = 0;
    }
}

/// The account of a file that is received block by block.
#[derive(Clone, Copy, Debug, PartialEq, Eq, Structural)]
pub struct HighPerformanceFileReceiver {
    pub file_size: u64,
    pub bytes_written: u64,
}

impl HighPerformanceFileReceiver {
    /// The account of a file of `expected_size` bytes of which nothing
    /// is written yet.
    pub fn create(expected_size: u64) -> (receiver: Self)
        ensures
            receiver == (HighPerformanceFileReceiver { file_size: expected_size, bytes_written: 0 }),
    {
        HighPerformanceFileReceiver { file_size: expected_size, bytes_written: 0 }
    }

    /// Accounts for `len` bytes written at `offset`, unless they would
    /// reach past the end of the file: then nothing is to be written.
    pub fn write_block_at(&mut self, offset: u64, len: usize) -> (checked: Result<(), BlockError>)
        ensures
            final(self).file_size == old(self).file_size,
            offset + len <= old(self).file_size ==> checked.is_ok() && final(self).bytes_written
                == if old(self).bytes_written + len > u64::MAX {
                u64::MAX
            } else {
                (old(self).bytes_written + len) as u64
            },
            offset + len > old(self).file_size ==> checked == Err::<(), BlockError>(
                BlockError::OutOfBounds,
            ) && final(self).bytes_written == old(self).bytes_written,
    {
        if offset > self.file_size || len as u128 > (self.file_size - offset) as u128 {
            return Err(BlockError::OutOfBounds);
        }
        let len = len as u64;
        self.bytes_written = if len > u64::MAX - self.bytes_written {
            u64::MAX
        } else {
            self.bytes_written + len
        };
        Ok(())
    }

    /// Whether as many bytes were written as the file has.
    pub fn is_complete(&self) -> (complete: bool)
        ensures
            complete == (self.bytes_written >= self.file_size),
    {
        self.bytes_written >= self.file_size
    }

    /// Bytes written so far.
    pub fn bytes_written(&self) -> (n: u64)
        ensures
            n == self.bytes_written,
    {
        self.bytes_written
    }
}

} // verus!
