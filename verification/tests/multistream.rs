use ponswarp::transfer::multistream::{
    marker_bytes, parse_marker, speed_over, BlockHeader, BlockLedger, MultiStreamManifest,
    MultiStreamReceiver, MultiStreamSender, StreamMarker, TransferError, BLOCK_SIZE,
    MAX_CONCURRENT_STREAMS,
};
use ponswarp::transfer::zero_copy_io::BlockInfo;

#[test]
fn markers_are_four_ascii_bytes() {
    assert_eq!(&marker_bytes(StreamMarker::Manifest), b"MNFT");
    assert_eq!(&marker_bytes(StreamMarker::ManifestAck), b"MACK");
    assert_eq!(&marker_bytes(StreamMarker::Block), b"BLCK");
    assert_eq!(&marker_bytes(StreamMarker::BlockAck), b"BACK");
    assert_eq!(&marker_bytes(StreamMarker::Done), b"DONE");
    for marker in [
        StreamMarker::Manifest,
        StreamMarker::ManifestAck,
        StreamMarker::Block,
        StreamMarker::BlockAck,
        StreamMarker::Done,
    ] {
        assert_eq!(parse_marker(&marker_bytes(marker)), Some(marker));
    }
    assert_eq!(parse_marker(b"MNFX"), None);
    assert_eq!(parse_marker(b"done"), None);
    assert_eq!(parse_marker(&[0; 4]), None);
}

#[test]
fn ledger_counts_each_block_once() {
    let mut ledger = BlockLedger::new(10, 4);
    assert_eq!(ledger.total_blocks(), 3);
    assert_eq!(ledger.block(2), Some(BlockInfo { index: 2, offset: 8, size: 2, total_blocks: 3 }));
    assert_eq!(ledger.block(3), None);
    assert!(ledger.mark_done(2));
    assert!(!ledger.mark_done(2));
    assert!(!ledger.mark_done(3));
    assert_eq!((ledger.blocks_completed(), ledger.bytes_done()), (1, 2));
    assert!(ledger.is_done(2) && !ledger.is_done(0) && !ledger.is_done(9));
    assert!(ledger.mark_done(0));
    assert!(!ledger.is_complete());
    assert!(ledger.mark_done(1));
    assert!(ledger.is_complete());
    assert_eq!(ledger.bytes_done(), 10);
    assert!(BlockLedger::new(0, 4).is_complete());
}

#[test]
fn sender_keeps_streams_under_the_limit() {
    assert_eq!((MAX_CONCURRENT_STREAMS, BLOCK_SIZE), (32, 8 * 1024 * 1024));
    let mut sender = MultiStreamSender::new("job".to_string(), 10 * 4 + 1, 4, 3);
    let manifest = sender.manifest("f.bin".to_string());
    assert_eq!(manifest.job_id, "job");
    assert_eq!(manifest.file_name, "f.bin");
    assert_eq!((manifest.file_size, manifest.block_size, manifest.total_blocks), (41, 4, 11));
    assert_eq!(manifest.checksum, None);
    let first: Vec<u32> = (0..3).map(|_| sender.next_block().unwrap().index).collect();
    assert_eq!(first, vec![0, 1, 2]);
    assert_eq!(sender.next_block(), None);
    sender.block_sent(1);
    assert_eq!(sender.next_block(), None);
    assert_eq!(sender.progress(10).bytes_transferred, 4);
    assert_eq!(sender.progress(10).acknowledged_bytes, 0);
    assert_eq!(sender.progress(10).active_streams, 3);
    sender.block_acknowledged(1, 20);
    assert_eq!(sender.acknowledged_bytes(), 4);
    assert_eq!(sender.next_block().unwrap().index, 3);
    sender.block_unconfirmed(0);
    assert_eq!(sender.next_block().unwrap().index, 4);
    assert!(!sender.is_finished());
    assert_eq!(sender.progress(30).blocks_completed, 1);
    assert_eq!(sender.progress(30).total_blocks, 11);
    assert_eq!(sender.progress(30).total_bytes, 41);
}

#[test]
fn acknowledged_bytes_grow_to_the_file_size() {
    let size = 100 * 1024 * 1024u64;
    let block = 8 * 1024 * 1024;
    let mut sender = MultiStreamSender::new("job".to_string(), size, block, 32);
    let mut started = Vec::new();
    while let Some(b) = sender.next_block() {
        started.push(b);
    }
    assert_eq!(started.len(), 13);
    assert_eq!(started[12].size, 4 * 1024 * 1024);
    let order = [7usize, 0, 12, 3, 4, 11, 1, 2, 10, 9, 5, 8, 6];
    let mut last = 0;
    let mut now = 0;
    for at in order {
        assert!(!sender.succeeded());
        sender.block_sent(started[at].index);
        now += 100;
        sender.block_acknowledged(started[at].index, now);
        sender.block_acknowledged(started[at].index, now);
        let acked = sender.acknowledged_bytes();
        assert_eq!(acked, last + started[at].size as u64);
        last = acked;
    }
    assert!(sender.succeeded());
    assert!(sender.is_finished());
    assert_eq!(sender.acknowledged_bytes(), size);
    let progress = sender.progress(now);
    assert_eq!(progress.acknowledged_bytes, size);
    assert_eq!(progress.bytes_transferred, size);
    assert_eq!(progress.blocks_completed, 13);
    assert_eq!(progress.active_streams, 0);
    assert_eq!(progress.speed_bps, size / 2);
    assert_eq!(sender.progress(now + 1_900).speed_bps, 8 * 1024 * 1024);
    assert_eq!(sender.progress(now + 2_001).speed_bps, 0);
}

#[test]
fn unacknowledged_blocks_do_not_count_as_verified() {
    let mut sender = MultiStreamSender::new("job".to_string(), 8, 4, 32);
    let a = sender.next_block().unwrap();
    let b = sender.next_block().unwrap();
    sender.block_sent(a.index);
    sender.block_sent(b.index);
    sender.block_acknowledged(a.index, 5);
    sender.block_unconfirmed(b.index);
    assert!(sender.is_finished());
    assert!(!sender.succeeded());
    assert_eq!(sender.acknowledged_bytes(), 4);
    assert_eq!(sender.progress(5).bytes_transferred, 8);
    let header = sender.header_for(&b, b"123456789");
    assert_eq!(header.job_id, "job");
    assert_eq!((header.block_index, header.offset, header.size), (1, 4, 4));
    assert_eq!(header.checksum, 0xCBF4_3926);
}

#[test]
fn verified_speed_covers_two_seconds() {
    let samples = vec![(1_000, 100), (2_000, 200), (3_500, 400)];
    assert_eq!(speed_over(&samples, 3_500), 300);
    assert_eq!(speed_over(&samples, 3_000), 350);
    assert_eq!(speed_over(&samples, 4_001), 200);
    assert_eq!(speed_over(&samples, 5_501), 0);
    assert_eq!(speed_over(&vec![], 10), 0);
}

fn manifest(job: &str, size: u64, block: u32, total: u32) -> MultiStreamManifest {
    MultiStreamManifest {
        job_id: job.to_string(),
        file_name: "large_file.zip".to_string(),
        file_size: size,
        block_size: block,
        total_blocks: total,
        checksum: Some("abc123".to_string()),
    }
}

fn header(job: &str, index: u32, offset: u64, size: u32) -> BlockHeader {
    BlockHeader { job_id: job.to_string(), block_index: index, offset, size, checksum: 0 }
}

#[test]
fn receiver_checks_the_manifest() {
    assert_eq!(
        MultiStreamReceiver::accept_manifest(manifest("other", 10, 4, 3), "job").err(),
        Some(TransferError::JobIdMismatch)
    );
    assert_eq!(
        MultiStreamReceiver::accept_manifest(manifest("job", 10, 4, 2), "job").err(),
        Some(TransferError::InvalidManifest)
    );
    assert_eq!(
        MultiStreamReceiver::accept_manifest(manifest("job", 10, 0, 0), "job").err(),
        Some(TransferError::InvalidManifest)
    );
    let big = manifest("job", 100 * 1024 * 1024 * 1024, 8 * 1024 * 1024, 12800);
    assert!(MultiStreamReceiver::accept_manifest(big, "job").is_ok());
    assert!(MultiStreamReceiver::accept_manifest(manifest("job", 0, 4, 0), "job").unwrap().is_complete());
}

#[test]
fn multi_stream_out_of_order_blocks() {
    let size = 100 * 1024 * 1024u64;
    let block = 8 * 1024 * 1024u32;
    let mut receiver = MultiStreamReceiver::accept_manifest(manifest("job", size, block, 13), "job").unwrap();
    let mut written = vec![false; 13];
    let order = [12u32, 0, 5, 6, 1, 2, 11, 10, 3, 4, 9, 7, 8];
    let mut last = 0;
    for index in order {
        let length = if index == 12 { 4 * 1024 * 1024 } else { block };
        let h = header("job", index, index as u64 * block as u64, length);
        let place = receiver.accept_block(&h).unwrap();
        assert!(place.offset + place.size as u64 <= size);
        assert_eq!((place.offset, place.size), (h.offset, h.size));
        written[index as usize] = true;
        assert!(receiver.block_stored(index));
        assert!(!receiver.block_stored(index));
        let progress = receiver.progress(0, 1_000);
        assert!(progress.acknowledged_bytes > last);
        last = progress.acknowledged_bytes;
        let missing: Vec<u32> = (0..13).filter(|i| !written[*i as usize]).collect();
        assert_eq!(receiver.missing_blocks(), missing);
    }
    assert!(receiver.is_complete());
    assert_eq!(last, size);
    assert_eq!(receiver.progress(0, 4_000).speed_bps, size / 4);
}

#[test]
fn receiver_refuses_blocks_that_do_not_fit() {
    let receiver = MultiStreamReceiver::accept_manifest(manifest("job", 10, 4, 3), "job").unwrap();
    assert_eq!(receiver.accept_block(&header("x", 0, 0, 4)).err(), Some(TransferError::JobIdMismatch));
    assert_eq!(receiver.accept_block(&header("job", 3, 12, 4)).err(), Some(TransferError::UnknownBlock));
    assert_eq!(receiver.accept_block(&header("job", 2, 8, 4)).err(), Some(TransferError::OutOfBounds));
    assert_eq!(receiver.accept_block(&header("job", 1, 5, 4)).err(), Some(TransferError::OutOfBounds));
    assert_eq!(
        receiver.accept_block(&header("job", 2, 8, 2)),
        Ok(BlockInfo { index: 2, offset: 8, size: 2, total_blocks: 3 })
    );
    let mut h = header("job", 2, 8, 4);
    assert!(!MultiStreamReceiver::verify_block_data(&h, b"123456789"));
    h.size = 9;
    assert!(MultiStreamReceiver::verify_block_data(&h, b"123456789"));
    h.checksum = 0xCBF4_3926;
    assert!(MultiStreamReceiver::verify_block_data(&h, b"123456789"));
    assert!(!MultiStreamReceiver::verify_block_data(&h, b"123456780"));
}
