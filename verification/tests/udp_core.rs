use ponswarp::transfer::udp_core::{
    plan_chunks, socket_count_for, socket_for, ChunkHeader, CHUNK_HEADER_SIZE, MAX_CHUNK_DATA,
};

#[test]
fn chunk_header_has_little_endian_fields() {
    let header = ChunkHeader {
        job_id: 0x0403_0201,
        file_index: 0x0605,
        chunk_index: 0x0A09_0807,
        offset: 0x1211_100F_0E0D_0C0B,
        data_len: 0x1413,
        checksum: 0x1817_1615,
    };
    let bytes = header.encode();
    assert_eq!(CHUNK_HEADER_SIZE, 24);
    let expected: Vec<u8> = (1u8..=24).collect();
    assert_eq!(bytes.to_vec(), expected);
    assert_eq!(ChunkHeader::decode(&bytes), Some(header));
    let mut longer = bytes.to_vec();
    longer.extend_from_slice(b"data");
    assert_eq!(ChunkHeader::decode(&longer), Some(header));
    assert_eq!(ChunkHeader::decode(&bytes[..23]), None);
    assert_eq!(ChunkHeader::decode(&[]), None);
}

#[test]
fn data_is_planned_in_chunks_with_crc32() {
    let headers = plan_chunks(7, 2, b"123456789");
    assert_eq!(
        headers,
        vec![ChunkHeader {
            job_id: 7,
            file_index: 2,
            chunk_index: 0,
            offset: 0,
            data_len: 9,
            checksum: 0xCBF4_3926,
        }]
    );
    assert!(plan_chunks(7, 2, b"").is_empty());
    let data = vec![0xABu8; 2 * MAX_CHUNK_DATA + 5];
    let headers = plan_chunks(1, 0, &data);
    assert_eq!(headers.len(), 3);
    assert_eq!(headers[1].offset, MAX_CHUNK_DATA as u64);
    assert_eq!(headers[1].data_len as usize, MAX_CHUNK_DATA);
    assert_eq!(headers[2].chunk_index, 2);
    assert_eq!(headers[2].data_len, 5);
    assert_eq!(headers[0].checksum, headers[1].checksum);
    assert_ne!(headers[2].checksum, headers[1].checksum);
    assert_ne!(headers[2].checksum, 0xABAB_ABAB);
}

#[test]
fn chunks_are_spread_over_the_sockets() {
    assert_eq!(socket_for(0, 8), 0);
    assert_eq!(socket_for(9, 8), 1);
    assert_eq!(socket_for(u32::MAX, 64), 63);
    assert_eq!(socket_count_for(0), 1);
    assert_eq!(socket_count_for(8), 8);
    assert_eq!(socket_count_for(1000), 64);
}
