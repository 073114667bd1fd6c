use mesh_core::chunk::Chunker;
use mesh_core::chunk::Reassembler;
use mesh_core::codec::FrameBuilder;
use mesh_core::errors::WireError;
use mesh_core::frame::Frame;
use mesh_core::frame::FrameDecoder;
use mesh_core::frame::DEFAULT_MAX_FRAME_SIZE;
use mesh_core::frame::MAX_META_SIZE;
use mesh_core::header::FastHeader;
use mesh_core::header::FrameType;
use mesh_core::header::Route;
use mesh_core::header::FLAG_CHUNKED;
use mesh_core::header::FLAG_CHUNK_END;
use mesh_core::header::FLAG_COMPRESSED;
use mesh_core::header::FLAG_E2E_ENC;
use mesh_core::header::FLAG_HDR_CHECKSUM;
use mesh_core::meta::parse_meta;
use mesh_core::meta::MetaBuilder;
use mesh_core::meta::MetaValue;

#[test]
fn test_frame_type_conversion() {
    assert_eq!(FrameType::try_from(0x00).unwrap(), FrameType::Data);
    assert_eq!(FrameType::try_from(0x08).unwrap(), FrameType::Bye);
    assert!(FrameType::try_from(0xFF).is_err());
}

#[test]
fn test_flags() {
    let flags = FLAG_CHUNKED | FLAG_E2E_ENC;
    assert!(flags & FLAG_CHUNKED != 0);
    assert!(flags & FLAG_E2E_ENC != 0);
    assert!(flags & FLAG_COMPRESSED == 0);
}

#[test]
fn test_route_pack_unpack() {
    let route = Route::new(7, 31, 1023, 16383);
    let packed = route.pack();
    let unpacked = Route::unpack(packed);
    assert_eq!(route, unpacked);
}

#[test]
fn test_fast_header_encode_decode() {
    let mut header = FastHeader::new(FrameType::Data, 0x1234567890ABCDEF, 0xFEDCBA0987654321, 42);
    header.flags = FLAG_CHUNKED | FLAG_E2E_ENC;
    header.corr_id = 123;
    header.set_route(Route::new(3, 15, 512, 8192));

    let mut buf: Vec<u8> = Vec::new();
    header.encode(&mut buf);

    let decoded = FastHeader::decode(buf.as_slice()).unwrap();
    assert_eq!(header, decoded);
}

#[test]
fn header_test_ttl_decrement() {
    let mut header = FastHeader::new(FrameType::Data, 1, 2, 3);
    header.ttl = 2;

    assert!(header.decrement_ttl().is_ok());
    assert_eq!(header.ttl, 1);

    assert!(header.decrement_ttl().is_err()); // TTL would become 0
}

#[test]
fn test_header_validation() {
    let header = FastHeader::new(FrameType::Data, 1, 2, 3);
    assert!(header.validate().is_ok());

    let mut bad_header = header;
    bad_header.ver = 2;
    assert!(bad_header.validate().is_err());

    let mut bad_header = header;
    bad_header.reserved0 = 1;
    assert!(bad_header.validate().is_err());

    let mut bad_header = header;
    bad_header.ttl = 0;
    assert!(bad_header.validate().is_err());
}

#[test]
fn test_meta_builder() {
    let meta = MetaBuilder::new()
        .insert_str("content-type", "application/octet-stream")
        .insert_u32("version", 1)
        .insert_bytes("data", b"test")
        .build()
        .unwrap();

    let parsed = parse_meta(&meta).unwrap();
    match parsed.get(b"content-type") {
        Some(MetaValue::Text(t)) => assert_eq!(t.as_slice(), b"application/octet-stream"),
        other => panic!("unexpected content-type value: {:?}", other),
    }
    match parsed.get(b"version") {
        Some(MetaValue::U64(v)) => assert_eq!(*v, 1),
        other => panic!("unexpected version value: {:?}", other),
    }
    match parsed.get(b"data") {
        Some(MetaValue::Bytes(b)) => assert_eq!(b.as_slice(), b"test"),
        other => panic!("unexpected data value: {:?}", other),
    }
}

#[test]
fn test_frame_builder() {
    let fast = FastHeader::new(FrameType::Data, 0x1234567890ABCDEF, 0xFEDCBA0987654321, 42);

    let frame_bytes = FrameBuilder::new(fast)
        .meta_insert_str("content-type", "application/octet-stream")
        .payload(b"hello world".to_vec())
        .build(DEFAULT_MAX_FRAME_SIZE)
        .unwrap();

    assert!(!frame_bytes.is_empty());
}

#[test]
fn test_frame_builder_with_checksum() {
    let mut fast = FastHeader::new(FrameType::Data, 0x1234567890ABCDEF, 0xFEDCBA0987654321, 42);
    fast.flags |= FLAG_HDR_CHECKSUM;

    let frame_bytes = FrameBuilder::new(fast)
        .meta_insert_str("content-type", "application/octet-stream")
        .payload(b"hello world".to_vec())
        .build(DEFAULT_MAX_FRAME_SIZE)
        .unwrap();

    assert!(!frame_bytes.is_empty());
    // The checksum rides in metadata; the frame still decodes whole.
    let decoder = FrameDecoder::new();
    let (frame, used) = decoder.decode(&frame_bytes).unwrap().unwrap();
    assert_eq!(used, frame_bytes.len());
    let parsed = parse_meta(&frame.meta_raw).unwrap();
    assert!(matches!(parsed.get(b"hdr_csum"), Some(MetaValue::U64(_))));
}

#[test]
fn frame_encode_decode_round_trip() {
    let mut header = FastHeader::new(FrameType::Data, 1001, 2002, 7);
    header.corr_id = 99;
    let frame = Frame::new(header, vec![0xA0], b"payload bytes".to_vec());
    let bytes = frame.encode(DEFAULT_MAX_FRAME_SIZE).unwrap();
    let decoder = FrameDecoder::new();
    let (decoded, used) = decoder.decode(&bytes).unwrap().unwrap();
    assert_eq!(used, bytes.len());
    assert_eq!(decoded.fast, header);
    assert_eq!(decoded.meta_raw, vec![0xA0]);
    assert_eq!(decoded.payload_or_cipher, b"payload bytes".to_vec());
    assert!(decoded.hint.is_none());
}

#[test]
fn frame_decoder_incomplete_and_oversize() {
    let decoder = FrameDecoder::new();
    // Too short for a length prefix.
    assert!(matches!(decoder.decode(&[0, 0, 1]), Ok(None)));
    // An advertised length past the limit is an error.
    let oversize = [0xFF, 0xFF, 0xFF, 0xFF];
    assert!(matches!(decoder.decode(&oversize), Err(WireError::Size(_))));
}

#[test]
fn payload_at_frame_limit_encodes_and_decodes() {
    // A payload that fills the frame up to the limit exactly.
    let header = FastHeader::new(FrameType::Data, 1, 2, 3);
    let meta: Vec<u8> = vec![0xA0];
    let overhead = 4 + 48 + 4 + meta.len();
    let max = 4096usize;
    let payload = vec![0x5A; max - overhead];
    let frame = Frame::new(header, meta.clone(), payload.clone());
    let bytes = frame.encode(max).unwrap();
    assert_eq!(bytes.len(), max);
    let decoder = FrameDecoder::new();
    let (decoded, _) = decoder.decode(&bytes).unwrap().unwrap();
    assert_eq!(decoded.payload_or_cipher, payload);

    // One byte more is refused before anything is produced.
    let too_big = vec![0x5A; max - overhead + 1];
    let frame2 = Frame::new(header, meta, too_big);
    assert!(matches!(frame2.encode(max), Err(WireError::Size(_))));
}

#[test]
fn metadata_at_limit_accepted_and_over_limit_rejected() {
    let header = FastHeader::new(FrameType::Data, 1, 2, 3);
    // Metadata of exactly the limit decodes.
    let meta_ok = vec![0u8; MAX_META_SIZE];
    let frame = Frame::new(header, meta_ok, Vec::new());
    let bytes = frame.encode(DEFAULT_MAX_FRAME_SIZE).unwrap();
    let decoder = FrameDecoder::new();
    assert!(matches!(decoder.decode(&bytes), Ok(Some(_))));

    // One byte past the limit fails with the metadata error.
    let meta_big = vec![0u8; MAX_META_SIZE + 1];
    let frame2 = Frame::new(header, meta_big, Vec::new());
    let bytes2 = frame2.encode(DEFAULT_MAX_FRAME_SIZE).unwrap();
    assert!(matches!(decoder.decode(&bytes2), Err(WireError::Meta)));
}

#[test]
fn chunk_and_reassemble_round_trip() {
    let chunker = Chunker { chunk_size: 10 };
    let header = FastHeader::new(FrameType::Data, 1, 2, 42);
    let payload: Vec<u8> = (0u8..=35).collect();
    let frames = chunker.chunk_message(header, payload.clone());
    assert_eq!(frames.len(), 4);
    for (i, f) in frames.iter().enumerate() {
        assert!(f.fast.flags & FLAG_CHUNKED != 0);
        if i == frames.len() - 1 {
            assert!(f.fast.flags & FLAG_CHUNK_END != 0);
        } else {
            assert!(f.fast.flags & FLAG_CHUNK_END == 0);
        }
    }
    let mut reassembler = Reassembler::new();
    let mut result = None;
    for f in frames {
        result = reassembler.add_chunk(f);
    }
    assert_eq!(result.unwrap(), payload);
}
