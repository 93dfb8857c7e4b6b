use ponswarp::transfer::zero_copy_io::{
    adaptive_block_size, block_range, can_split, check_block_data, split_file_into_blocks,
    BlockError, BlockInfo, HighPerformanceFileReceiver, IoMethod, MmapReader, Platform,
    ZeroCopyEngine,
};

#[test]
fn test_split_file_into_blocks() {
    let blocks = split_file_into_blocks(100 * 1024 * 1024, 16 * 1024 * 1024);

    assert_eq!(blocks.len(), 7);
    assert_eq!(blocks[0].offset, 0);
    assert_eq!(blocks[0].size, 16 * 1024 * 1024);
    assert_eq!(blocks[6].size, 4 * 1024 * 1024);
}

#[test]
fn test_zero_copy_engine_detection() {
    let engine = ZeroCopyEngine::new(Platform::Linux, b"Linux version 5.15.0-91-generic (gcc)");
    println!("Detected I/O method: {:?}", engine.io_method());
    assert_eq!(engine.io_method(), IoMethod::IoUring);
}

#[test]
fn io_method_follows_platform_and_kernel() {
    let detect = |p, v: &[u8]| ZeroCopyEngine::detect_best_io_method(p, v);
    assert_eq!(detect(Platform::Linux, b"Linux version 5.1.0"), IoMethod::IoUring);
    assert_eq!(detect(Platform::Linux, b"Linux version 5.0.21"), IoMethod::Mmap);
    assert_eq!(detect(Platform::Linux, b"Linux version 4.19.0-25-amd64"), IoMethod::Mmap);
    assert_eq!(detect(Platform::Linux, b"  Linux\tversion   6.18.44-fc-v165 x"), IoMethod::IoUring);
    assert_eq!(detect(Platform::Linux, b"Linux version 6"), IoMethod::Mmap);
    assert_eq!(detect(Platform::Linux, b"Linux version 6.x"), IoMethod::Mmap);
    assert_eq!(detect(Platform::Linux, b"Linux version x.6"), IoMethod::Mmap);
    assert_eq!(detect(Platform::Linux, b"Linux version 99999999999.1"), IoMethod::Mmap);
    assert_eq!(detect(Platform::Linux, b"Linux version"), IoMethod::Mmap);
    assert_eq!(detect(Platform::Linux, b""), IoMethod::Mmap);
    assert_eq!(detect(Platform::Windows, b"Linux version 5.15.0"), IoMethod::OverlappedIo);
    assert_eq!(detect(Platform::Other, b"Linux version 5.15.0"), IoMethod::Mmap);
    assert!(ZeroCopyEngine::check_io_uring_support(b"a b 5.1"));
    assert!(!ZeroCopyEngine::check_io_uring_support(b"a b 5.1x"));
}

#[test]
fn blocks_tile_the_file() {
    for (size, block) in [(0u64, 4usize), (1, 4), (4, 4), (5, 4), (1023, 100), (1000, 1000)] {
        let blocks = split_file_into_blocks(size, block);
        let mut next = 0u64;
        for (i, b) in blocks.iter().enumerate() {
            assert_eq!(b.index as usize, i);
            assert_eq!(b.offset, next);
            assert_eq!(b.total_blocks as usize, blocks.len());
            assert!(b.size > 0 && b.size as usize <= block);
            next += b.size as u64;
        }
        assert_eq!(next, size);
    }
    assert_eq!(
        split_file_into_blocks(10, 4),
        vec![
            BlockInfo { index: 0, offset: 0, size: 4, total_blocks: 3 },
            BlockInfo { index: 1, offset: 4, size: 4, total_blocks: 3 },
            BlockInfo { index: 2, offset: 8, size: 2, total_blocks: 3 },
        ]
    );
    assert!(!can_split(10, 0));
    assert!(!can_split(u64::MAX, u32::MAX as usize));
    assert!(can_split(u32::MAX as u64 * u32::MAX as u64, u32::MAX as usize));
    assert!(!can_split(u64::MAX, 1));
    assert!(can_split(u32::MAX as u64, 1));
    assert!(!can_split(u32::MAX as u64 + 1, 1));
}

#[test]
fn adaptive_block_size_is_clamped() {
    assert_eq!(adaptive_block_size(0), 256 * 1024);
    assert_eq!(adaptive_block_size(100 * 256 * 1024), 256 * 1024);
    assert_eq!(adaptive_block_size(100 * 1024 * 1024), 1024 * 1024);
    assert_eq!(adaptive_block_size(1_000_000_000), 10_000_000);
    assert_eq!(adaptive_block_size(1 << 40), 16 * 1024 * 1024);
    assert_eq!(adaptive_block_size(u64::MAX), 16 * 1024 * 1024);
}

#[test]
fn block_reads_stay_within_the_file() {
    let block = BlockInfo { index: 2, offset: 8, size: 2, total_blocks: 3 };
    assert_eq!(block_range(10, &block), Ok((8, 10)));
    assert_eq!(block_range(9, &block), Err(BlockError::OutOfBounds));
    let far = BlockInfo { index: 0, offset: u64::MAX, size: 2, total_blocks: 1 };
    assert_eq!(block_range(u64::MAX, &far), Err(BlockError::OutOfBounds));
    assert_eq!(check_block_data(&block, 2), Ok(()));
    assert_eq!(check_block_data(&block, 1), Err(BlockError::WrongLength));
}

#[test]
fn reader_walks_the_file_block_by_block() {
    let mut reader = MmapReader::open(10);
    assert_eq!(reader.next_block(4), Some((0, 4)));
    assert_eq!(reader.remaining(), 6);
    assert_eq!(reader.next_block(4), Some((4, 8)));
    assert_eq!(reader.next_block(4), Some((8, 10)));
    assert_eq!(reader.next_block(4), None);
    assert_eq!(reader.read_block_at(9, usize::MAX), Some((9, 10)));
    assert_eq!(reader.read_block_at(10, 1), None);
    reader.reset();
    assert_eq!(reader.next_block(100), Some((0, 10)));
}

#[test]
fn receiver_refuses_writes_past_the_end() {
    let mut receiver = HighPerformanceFileReceiver::create(10);
    assert_eq!(receiver.write_block_at(8, 2), Ok(()));
    assert_eq!(receiver.write_block_at(8, 3), Err(BlockError::OutOfBounds));
    assert_eq!(receiver.write_block_at(11, 0), Err(BlockError::OutOfBounds));
    assert_eq!(receiver.bytes_written(), 2);
    assert!(!receiver.is_complete());
    assert_eq!(receiver.write_block_at(0, 8), Ok(()));
    assert!(receiver.is_complete());
}
