//! Storage format, writer and reader behavior, including corruption
//! detection and the fixed chain depth.

use ouli::fingerprint::CHAIN_HEAD_HASH;
use ouli::storage::format::{
    header_to_bytes, entry_to_bytes, CompressionType, FeatureFlags, FileHeader, InteractionEntry,
    CHAIN_DEPTH_MAX, FILE_MAGIC, FILE_VERSION, HEADER_SIZE, INDEX_ENTRY_SIZE,
};
use ouli::storage::reader::RecordingReader;
use ouli::storage::writer::RecordingWriter;
use ouli::OuliError;

#[test]
fn test_header_size() {
    let header = FileHeader::new_default();
    assert_eq!(header_to_bytes(&header).len(), 128);
    assert_eq!(HEADER_SIZE, 128);
}

#[test]
fn test_index_entry_size() {
    let entry = InteractionEntry {
        request_hash: [0; 32],
        prev_request_hash: [0; 32],
        request_offset: 0,
        response_offset: 0,
        timestamp: 0,
        request_size: 0,
        response_size: 0,
        reserved: [0; 32],
    };
    assert_eq!(entry_to_bytes(&entry).len(), 128);
    assert_eq!(INDEX_ENTRY_SIZE, 128);
}

#[test]
fn test_default_header() {
    let header = FileHeader::new_default();
    assert_eq!(header.magic, FILE_MAGIC);
    assert_eq!(header.version, FILE_VERSION);
    assert_eq!(header.interaction_count, 0);
    assert_eq!(header.feature_flags, 0);
    assert_eq!(header.compression_type, 0);
}

#[test]
fn test_feature_flags() {
    let mut header = FileHeader::new_default();

    // Initially no features
    assert!(!header.has_feature(FeatureFlags::Compression));
    assert!(!header.has_feature(FeatureFlags::Checksums));

    // Enable compression
    header.enable_feature(FeatureFlags::Compression);
    assert!(header.has_feature(FeatureFlags::Compression));
    assert!(!header.has_feature(FeatureFlags::Checksums));

    // Enable checksums
    header.enable_feature(FeatureFlags::Checksums);
    assert!(header.has_feature(FeatureFlags::Compression));
    assert!(header.has_feature(FeatureFlags::Checksums));
}

#[test]
fn test_compression() {
    let mut header = FileHeader::new_default();

    // Default: no compression
    assert_eq!(header.compression(), CompressionType::NoCompression);
    assert!(!header.has_feature(FeatureFlags::Compression));

    // Set LZ4 compression
    header.set_compression(CompressionType::Lz4, 3);
    assert_eq!(header.compression(), CompressionType::Lz4);
    assert_eq!(header.compression_level, 3);
    assert!(header.has_feature(FeatureFlags::Compression));

    // Set Zstd compression
    header.set_compression(CompressionType::Zstd, 6);
    assert_eq!(header.compression(), CompressionType::Zstd);
    assert_eq!(header.compression_level, 6);
}

#[test]
fn test_create_writer() {
    let recording_id = [0u8; 32];

    let writer = RecordingWriter::create(recording_id, 1);
    assert_eq!(writer.recording_id(), recording_id);
    assert_eq!(writer.interaction_count(), 0);
}

#[test]
fn test_append_interaction() {
    let recording_id = [1u8; 32];

    let mut writer = RecordingWriter::create(recording_id, 1);

    let request_hash = [2u8; 32];
    let prev_hash = [0u8; 32];
    let request_data = b"GET /api/test HTTP/1.1\r\n\r\n";
    let response_data = b"HTTP/1.1 200 OK\r\n\r\n{\"result\":\"ok\"}";

    writer
        .append_interaction(request_hash, prev_hash, request_data, response_data, 2)
        .unwrap();

    assert_eq!(writer.interaction_count(), 1);
}

#[test]
fn test_finalize() {
    let recording_id = [3u8; 32];

    let mut writer = RecordingWriter::create(recording_id, 1);

    let request_hash = [4u8; 32];
    let prev_hash = [0u8; 32];
    writer
        .append_interaction(request_hash, prev_hash, b"request", b"response", 2)
        .unwrap();

    let image = writer.finalize(CHAIN_HEAD_HASH);

    // The image holds the header, the full index, and the data
    assert_eq!(image.len(), 128 + 65536 * 128 + "request".len() + "response".len());
}

#[test]
fn test_roundtrip() {
    let recording_id = [42u8; 32];

    // Write
    let image = {
        let mut writer = RecordingWriter::create(recording_id, 7);

        let request_hash = [1u8; 32];
        let prev_hash = [0u8; 32];
        let request_data = b"GET /test HTTP/1.1\r\n\r\n";
        let response_data = b"HTTP/1.1 200 OK\r\n\r\nHello";

        writer
            .append_interaction(request_hash, prev_hash, request_data, response_data, 8)
            .unwrap();

        writer.finalize(CHAIN_HEAD_HASH)
    };

    // Read
    {
        let reader = RecordingReader::open(image).unwrap();

        assert_eq!(reader.recording_id(), recording_id);
        assert_eq!(reader.interaction_count(), 1);

        let request_hash = [1u8; 32];
        let entry = reader.lookup(request_hash).unwrap();

        let request = reader.read_request(&entry).unwrap();
        assert_eq!(request, b"GET /test HTTP/1.1\r\n\r\n");

        let response = reader.read_response(&entry).unwrap();
        assert_eq!(response, b"HTTP/1.1 200 OK\r\n\r\nHello");
    }
}

#[test]
fn test_multiple_interactions() {
    let recording_id = [99u8; 32];

    // Write multiple
    let image = {
        let mut writer = RecordingWriter::create(recording_id, 1);

        for i in 0..10u8 {
            let request_hash = [i; 32];
            let prev_hash = if i == 0 { [0u8; 32] } else { [i - 1; 32] };

            writer
                .append_interaction(
                    request_hash,
                    prev_hash,
                    format!("Request {i}").as_bytes(),
                    format!("Response {i}").as_bytes(),
                    2,
                )
                .unwrap();
        }

        writer.finalize(CHAIN_HEAD_HASH)
    };

    // Read all
    {
        let reader = RecordingReader::open(image).unwrap();
        assert_eq!(reader.interaction_count(), 10);

        let entries = reader.all_entries();
        assert_eq!(entries.len(), 10);

        // Verify chain
        for i in 1..10 {
            assert_eq!(entries[i].prev_request_hash, entries[i - 1].request_hash);
        }
    }
}

#[test]
fn test_chain_depth_exhaustion() {
    // the 65 537th append fails; the recording stays readable to the end
    let mut writer = RecordingWriter::create([5u8; 32], 1);
    for i in 0..CHAIN_DEPTH_MAX {
        let mut request_hash = [0u8; 32];
        request_hash[0] = (i & 0xff) as u8;
        request_hash[1] = ((i >> 8) & 0xff) as u8;
        writer
            .append_interaction(request_hash, [0u8; 32], b"q", b"r", 2)
            .unwrap();
    }
    let overflow = writer.append_interaction([9u8; 32], [0u8; 32], b"q", b"r", 2);
    assert!(matches!(overflow, Err(OuliError::Other(_))));
    assert_eq!(writer.interaction_count(), CHAIN_DEPTH_MAX);

    let image = writer.finalize([0u8; 32]);
    let reader = RecordingReader::open(image).unwrap();
    assert_eq!(reader.interaction_count(), CHAIN_DEPTH_MAX);
    let entries = reader.all_entries();
    assert_eq!(entries[65535].request_hash[0], 0xff);
    assert_eq!(entries[65535].request_hash[1], 0xff);
}

#[test]
fn test_open_rejects_bad_magic() {
    let writer = RecordingWriter::create([6u8; 32], 1);
    let mut image = writer.finalize([0u8; 32]);
    image[0] = b'X';
    assert!(matches!(
        RecordingReader::open(image),
        Err(OuliError::InvalidFormat(_))
    ));
}

#[test]
fn test_open_rejects_short_file() {
    assert!(matches!(
        RecordingReader::open(vec![0u8; 64]),
        Err(OuliError::InvalidFormat(_))
    ));
}

#[test]
fn test_crc_flip_detected() {
    // flipping any byte of the stored CRC field makes open fail with
    // CorruptedData at offset 0
    let writer = RecordingWriter::create([8u8; 32], 1);
    let image = writer.finalize([0u8; 32]);
    for i in 12..16 {
        let mut bad = image.clone();
        bad[i] ^= 0xff;
        match RecordingReader::open(bad) {
            Err(OuliError::CorruptedData { offset, expected, actual }) => {
                assert_eq!(offset, 0);
                assert_ne!(expected, actual);
            }
            other => panic!("expected CorruptedData, got {:?}", other.is_ok()),
        }
    }
}

#[test]
fn test_body_byte_flip_detected_in_header_region() {
    // a flip in the protected header region (recording id) also fails
    let writer = RecordingWriter::create([8u8; 32], 1);
    let image = writer.finalize([0u8; 32]);
    let mut bad = image.clone();
    bad[20] ^= 0x01;
    assert!(matches!(
        RecordingReader::open(bad),
        Err(OuliError::CorruptedData { .. })
    ));
}
