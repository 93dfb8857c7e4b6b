use ponswarp::grid::piece_manager::{
    compute_info_hash, compute_merkle_root, FileMetadata, PieceError, PieceManager, PieceSpan,
};

fn create_test_metadata() -> FileMetadata {
    FileMetadata {
        info_hash: [0u8; 32],
        file_name: "test.bin".to_string(),
        file_size: 10 * 1024 * 1024,
        piece_size: 1024 * 1024,
        total_pieces: 10,
        piece_hashes: vec![[0u8; 32]; 10],
        merkle_root: None,
    }
}

fn unhex(text: &str) -> [u8; 32] {
    let mut out = [0u8; 32];
    for i in 0..32 {
        out[i] = u8::from_str_radix(&text[2 * i..2 * i + 2], 16).unwrap();
    }
    out
}

#[test]
fn test_piece_manager_creation() {
    let metadata = create_test_metadata();
    let pm = PieceManager::new(metadata);

    assert_eq!(pm.total_pieces(), 10);
    assert_eq!(pm.completed_pieces(), 0);
    assert!(!pm.is_complete());
}

#[test]
fn test_seeder_creation() {
    let metadata = create_test_metadata();
    let pm = PieceManager::new_seeder(metadata);

    assert_eq!(pm.total_pieces(), 10);
    assert_eq!(pm.completed_pieces(), 10);
    assert!(pm.is_complete());
}

#[test]
fn test_mark_completed() {
    let metadata = create_test_metadata();
    let mut pm = PieceManager::new(metadata);

    pm.mark_completed(0);
    pm.mark_completed(5);

    assert_eq!(pm.completed_pieces(), 2);
    let progress = pm.completed_pieces() as f32 / pm.total_pieces() as f32;
    assert!((progress - 0.2).abs() < 0.001);
}

#[test]
fn metadata_hashes_pieces_with_sha256() {
    let data: Vec<u8> = (0u8..10).collect();
    let meta = FileMetadata::from_bytes("ten.bin".to_string(), &data, 4);
    assert_eq!(meta.file_name, "ten.bin");
    assert_eq!(meta.file_size, 10);
    assert_eq!(meta.piece_size, 4);
    assert_eq!(meta.total_pieces, 3);
    assert!(meta.has_valid_geometry());
    assert_eq!(
        meta.piece_hashes,
        vec![
            unhex("054edec1d0211f624fed0cbca9d4f9400b0e491c43742af2c5b0abebf0c990d8"),
            unhex("c6d44cf418f610e3fe9e1d9294ff43def81c6cdcad6cbb1820cff48d3aa4355d"),
            unhex("73907589101a7e8ab83178e7db2997aab7272cd02d364e8e3ecc2beccda4b631"),
        ]
    );
    assert_eq!(
        meta.info_hash,
        unhex("a9a9320f61d39f5cef1d508c2a961fb35e3310824c4ad8f6de4f5838e9c1dfec")
    );
    assert_eq!(
        meta.merkle_root,
        Some(unhex("c29a17684fb45c2514af8f68a6a2e57422b801c29ad211b23539bc20061a39de"))
    );
    assert_eq!(
        meta.info_hash_hex(),
        "a9a9320f61d39f5cef1d508c2a961fb35e3310824c4ad8f6de4f5838e9c1dfec"
    );
    let again = FileMetadata::from_bytes("other name".to_string(), &data, 4);
    assert_eq!(again.info_hash, meta.info_hash);
    let other = FileMetadata::from_bytes("ten.bin".to_string(), &data, 5);
    assert_ne!(other.info_hash, meta.info_hash);
}

#[test]
fn metadata_of_small_files() {
    let empty = FileMetadata::from_bytes("e".to_string(), &[], 4);
    assert_eq!(empty.total_pieces, 0);
    assert_eq!(
        empty.info_hash,
        unhex("e3b0c44298fc1c149afbf4c8996fb92427ae41e4649b934ca495991b7852b855")
    );
    assert_eq!(empty.merkle_root, Some([0u8; 32]));
    let one = FileMetadata::from_bytes("abc".to_string(), b"abc", 1024);
    let abc = unhex("ba7816bf8f01cfea414140de5dae2223b00361a396177a9cb410ff61f20015ad");
    assert_eq!(one.piece_hashes, vec![abc]);
    assert_eq!(one.merkle_root, Some(abc));
    assert_eq!(compute_merkle_root(&vec![abc]), abc);
    assert_eq!(compute_info_hash(&vec![abc]), one.info_hash);
    assert_ne!(one.info_hash, abc);
}

#[test]
fn every_piece_of_a_file_verifies() {
    let data: Vec<u8> = (0..1000u32).map(|i| (i * 7 % 251) as u8).collect();
    let meta = FileMetadata::from_bytes("f".to_string(), &data, 64);
    let pm = PieceManager::new(meta);
    assert_eq!(pm.total_pieces(), 16);
    for i in 0..16 {
        let info = pm.get_piece_info(i).unwrap();
        assert_eq!(info.index, i);
        assert_eq!(info.offset, 64 * i as u64);
        assert_eq!(info.length, if i == 15 { 40 } else { 64 });
        let start = info.offset as usize;
        let piece = &data[start..start + info.length as usize];
        assert!(pm.verify_piece(i, piece));
        let mut flipped = piece.to_vec();
        flipped[3] ^= 0x10;
        assert!(!pm.verify_piece(i, &flipped));
        assert!(!pm.verify_piece(i, &piece[1..]));
    }
    assert!(!pm.verify_piece(16, &data[..64]));
    assert!(pm.get_piece_info(16).is_none());
    assert_eq!(pm.missing_pieces(), (0..16).collect::<Vec<usize>>());
}

#[test]
fn writes_are_checked_in_order() {
    let data: Vec<u8> = (0u8..10).collect();
    let meta = FileMetadata::from_bytes("ten.bin".to_string(), &data, 4);
    let mut pm = PieceManager::new(meta);
    assert_eq!(pm.check_write(3, &data[0..4]), Err(PieceError::InvalidIndex));
    assert_eq!(
        pm.check_write(2, &data[0..4]),
        Err(PieceError::LengthMismatch { expected: 2, got: 4 })
    );
    assert_eq!(pm.check_write(1, &data[0..4]), Err(PieceError::HashMismatch));
    assert_eq!(pm.check_write(1, &data[4..8]), Err(PieceError::PathNotSet));
    assert_eq!(pm.check_read(1), Err(PieceError::PathNotSet));
    pm.set_save_path("/tmp/out.bin".to_string());
    assert_eq!(
        pm.check_write(1, &data[4..8]),
        Ok(PieceSpan { offset: 4, length: 4, file_size: 10 })
    );
    assert_eq!(
        pm.check_write(2, &data[8..10]),
        Ok(PieceSpan { offset: 8, length: 2, file_size: 10 })
    );
    assert_eq!(pm.check_read(0), Ok(PieceSpan { offset: 0, length: 4, file_size: 10 }));
    assert_eq!(pm.check_read(3), Err(PieceError::InvalidIndex));
    assert!(!pm.get_bitfield().has(1));
    pm.mark_completed(1);
    assert!(pm.get_bitfield().has(1));
    assert_eq!(pm.missing_pieces(), vec![0, 2]);
}

#[test]
fn pending_requests_time_out_after_thirty_seconds() {
    let mut pm = PieceManager::new(create_test_metadata());
    assert!(pm.request_piece(3, "peer-a", 1_000));
    assert!(!pm.request_piece(3, "peer-b", 2_000));
    assert!(pm.request_piece(4, "peer-b", 2_000));
    assert!(pm.request_piece(7, "peer-a", 20_000));
    assert_eq!(pm.pending_count(), 3);
    assert_eq!(pm.cleanup_stale_requests(31_000), Vec::<usize>::new());
    assert_eq!(pm.cleanup_stale_requests(31_001), vec![3]);
    assert_eq!(pm.pending_count(), 2);
    assert!(pm.request_piece(3, "peer-c", 31_001));
    pm.complete_request(4);
    pm.complete_request(4);
    assert_eq!(pm.pending_count(), 2);
    assert_eq!(pm.cleanup_stale_requests(61_002), vec![7, 3]);
    assert_eq!(pm.pending_count(), 0);
    assert_eq!(pm.cleanup_stale_requests(0), Vec::<usize>::new());
}

#[test]
fn geometry_is_checked() {
    let mut meta = create_test_metadata();
    assert!(meta.has_valid_geometry());
    meta.total_pieces = 11;
    assert!(!meta.has_valid_geometry());
    meta.total_pieces = 10;
    meta.piece_hashes.pop();
    assert!(!meta.has_valid_geometry());
    let mut meta = create_test_metadata();
    meta.piece_size = 0;
    assert!(!meta.has_valid_geometry());
    let mut meta = create_test_metadata();
    meta.file_size += 1;
    assert!(!meta.has_valid_geometry());
    meta.total_pieces = 11;
    meta.piece_hashes.push([0u8; 32]);
    assert!(meta.has_valid_geometry());
    let pm = PieceManager::new(meta);
    assert_eq!(pm.get_piece_info(10).unwrap().length, 1);
}
