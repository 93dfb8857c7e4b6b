use ponswarp::grid::protocol::{
    decode_frame_length, encode_frame, inspect_stream, shared_extensions, FrameError, FrameStatus,
    GridMessage, MessageBatch, DHT, ENCRYPTION, FAST_EXTENSION, MAX_MESSAGE_SIZE,
    METADATA_EXCHANGE, OFFERED_EXTENSIONS, PROTOCOL_VERSION,
};

#[test]
fn frames_carry_a_little_endian_length() {
    assert_eq!(encode_frame(&[]), Ok(vec![0, 0, 0, 0]));
    assert_eq!(encode_frame(&[7, 8, 9]), Ok(vec![3, 0, 0, 0, 7, 8, 9]));
    let long = vec![1u8; 0x01_02_03];
    let frame = encode_frame(&long).unwrap();
    assert_eq!(&frame[..4], &[0x03, 0x02, 0x01, 0x00]);
    assert_eq!(frame.len(), 4 + 0x01_02_03);
    assert_eq!(decode_frame_length(&[3, 0, 0, 0]), Ok(3));
    assert_eq!(decode_frame_length(&[0x03, 0x02, 0x01, 0x00]), Ok(0x01_02_03));
}

#[test]
fn frames_above_ten_mebibytes_are_refused() {
    assert_eq!(MAX_MESSAGE_SIZE, 10 * 1024 * 1024);
    assert_eq!(decode_frame_length(&[0x00, 0x00, 0xA0, 0x00]), Ok(10 * 1024 * 1024));
    assert_eq!(
        decode_frame_length(&[0x01, 0x00, 0xA0, 0x00]),
        Err(FrameError::TooLarge { length: 10 * 1024 * 1024 + 1 })
    );
    assert_eq!(
        decode_frame_length(&[0xFF, 0xFF, 0xFF, 0xFF]),
        Err(FrameError::TooLarge { length: u32::MAX })
    );
    assert_eq!(
        inspect_stream(&[0xFF, 0xFF, 0xFF, 0xFF, 1, 2]),
        Err(FrameError::TooLarge { length: u32::MAX })
    );
}

#[test]
fn streams_are_cut_into_frames() {
    assert_eq!(inspect_stream(&[]), Ok(FrameStatus::Incomplete { missing: 4 }));
    assert_eq!(inspect_stream(&[3, 0]), Ok(FrameStatus::Incomplete { missing: 2 }));
    assert_eq!(inspect_stream(&[3, 0, 0, 0]), Ok(FrameStatus::Incomplete { missing: 3 }));
    assert_eq!(inspect_stream(&[3, 0, 0, 0, 9]), Ok(FrameStatus::Incomplete { missing: 2 }));
    assert_eq!(
        inspect_stream(&[3, 0, 0, 0, 9, 9, 9]),
        Ok(FrameStatus::Complete { payload_length: 3 })
    );
    assert_eq!(
        inspect_stream(&[0, 0, 0, 0, 9, 9, 9]),
        Ok(FrameStatus::Complete { payload_length: 0 })
    );
    let mut stream = encode_frame(b"one").unwrap();
    stream.extend(encode_frame(b"three").unwrap());
    let mut payloads = Vec::new();
    while let Ok(FrameStatus::Complete { payload_length }) = inspect_stream(&stream) {
        payloads.push(stream[4..4 + payload_length].to_vec());
        stream.drain(..4 + payload_length);
    }
    assert_eq!(payloads, vec![b"one".to_vec(), b"three".to_vec()]);
}

#[test]
fn messages_have_names_and_builders() {
    let handshake = GridMessage::handshake([1u8; 32], [2u8; 32]);
    match &handshake {
        GridMessage::Handshake { protocol_version, info_hash, peer_id, extensions } => {
            assert_eq!(*protocol_version, PROTOCOL_VERSION);
            assert_eq!(*protocol_version, 1);
            assert_eq!(*info_hash, [1u8; 32]);
            assert_eq!(*peer_id, [2u8; 32]);
            assert_eq!(*extensions, FAST_EXTENSION | DHT | METADATA_EXCHANGE);
            assert_eq!(*extensions, OFFERED_EXTENSIONS);
        }
        _ => panic!("wrong kind"),
    }
    assert_eq!(handshake.kind_name(), "Handshake");
    assert_eq!(GridMessage::bitfield(vec![0x80], 3).kind_name(), "Bitfield");
    assert_eq!(GridMessage::Have { piece_index: 42 }.kind_name(), "Have");
    assert_eq!(GridMessage::request(1, 2, 3).kind_name(), "Request");
    assert_eq!(GridMessage::Cancel { piece_index: 1, offset: 2, length: 3 }.kind_name(), "Cancel");
    assert_eq!(GridMessage::KeepAlive.kind_name(), "KeepAlive");
    assert_eq!(GridMessage::Choke.kind_name(), "Choke");
    assert_eq!(GridMessage::Unchoke.kind_name(), "Unchoke");
    assert_eq!(GridMessage::Interested.kind_name(), "Interested");
    assert_eq!(GridMessage::NotInterested.kind_name(), "NotInterested");
    assert_eq!(GridMessage::MetadataRequest { info_hash: [0; 32] }.kind_name(), "MetadataRequest");
    assert_eq!(
        GridMessage::Error { code: 1, message: "x".to_string() }.kind_name(),
        "Error"
    );
    match GridMessage::piece(5, 0, vec![0u8; 1024]) {
        GridMessage::Piece { piece_index, offset, data } => {
            assert_eq!(piece_index, 5);
            assert_eq!(offset, 0);
            assert_eq!(data.len(), 1024);
        }
        _ => panic!("wrong kind"),
    }
    assert!(matches!(GridMessage::request(1, 2, 3), GridMessage::Request { piece_index: 1, offset: 2, length: 3 }));
}

#[test]
fn peers_without_common_extensions_keep_to_the_minimal_set() {
    assert_eq!((FAST_EXTENSION, DHT, ENCRYPTION, METADATA_EXCHANGE), (1, 2, 4, 8));
    assert_eq!(shared_extensions(OFFERED_EXTENSIONS, ENCRYPTION), 0);
    assert_eq!(shared_extensions(OFFERED_EXTENSIONS, DHT | ENCRYPTION), DHT);
    let cancel = GridMessage::Cancel { piece_index: 1, offset: 0, length: 1 };
    let metadata = GridMessage::MetadataRequest { info_hash: [0; 32] };
    let have = GridMessage::Have { piece_index: 1 };
    assert!(have.is_minimal());
    assert!(!cancel.is_minimal());
    assert!(have.allowed_between(OFFERED_EXTENSIONS, ENCRYPTION));
    assert!(!cancel.allowed_between(OFFERED_EXTENSIONS, ENCRYPTION));
    assert!(!metadata.allowed_between(OFFERED_EXTENSIONS, 0));
    assert!(cancel.allowed_between(OFFERED_EXTENSIONS, FAST_EXTENSION));
    assert!(metadata.allowed_between(OFFERED_EXTENSIONS, DHT));
}

#[test]
fn batches_keep_their_order() {
    let mut batch = MessageBatch::new();
    assert_eq!(batch.len(), 0);
    batch.push(GridMessage::Choke);
    batch.push(GridMessage::Have { piece_index: 3 });
    assert_eq!(batch.len(), 2);
    let messages = batch.into_messages();
    assert!(matches!(messages[0], GridMessage::Choke));
    assert!(matches!(messages[1], GridMessage::Have { piece_index: 3 }));
}
