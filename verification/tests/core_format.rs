use dho_vault::block::{
    scan_data_file, BlockDecodeError, BlockLocation, BlockScanError, MWC_MAGIC,
};
use dho_vault::index::{
    ArchiveHeader, IndexParseError, IndexRecord, IndexedArchive, HEADER_SIZE, RECORD_SIZE,
};
use dho_vault::inline::{InlineBlockEntry, InlineBlockTable, InlineBlockTableError};
use flate2::write::ZlibEncoder;
use flate2::Compression;
use std::io::Write;

fn encoded_block(raw: &[u8], declared_size: u32) -> Vec<u8> {
    let mut encoder = ZlibEncoder::new(Vec::new(), Compression::default());
    encoder.write_all(raw).expect("encode test data");
    let compressed = encoder.finish().expect("finish test data");

    let mut block = Vec::new();
    block.extend_from_slice(&MWC_MAGIC);
    block.extend_from_slice(&declared_size.to_le_bytes());
    block.extend_from_slice(
        &u32::try_from(compressed.len())
            .expect("small test payload")
            .to_le_bytes(),
    );
    block.extend_from_slice(&compressed);
    block
}

#[test]
fn scans_blocks_and_preserves_every_gap_in_order() {
    let first = encoded_block(b"first", 5);
    let second = encoded_block(b"second", 6);
    let mut bytes = vec![0xAA, 0xBB];
    bytes.extend_from_slice(&first);
    bytes.extend_from_slice(&[0x10, 0x20, 0x30]);
    bytes.extend_from_slice(&second);
    bytes.push(0xCC);

    let scanned = scan_data_file(2, &bytes).expect("scan data file");

    assert_eq!(scanned.file_number, 2);
    assert_eq!(scanned.file_size, bytes.len());
    assert_eq!(scanned.segments.len(), 5);
    assert_eq!(scanned.zlib_blocks().len(), 2);
    assert_eq!(
        scanned
            .unresolved_gaps()
            .iter()
            .map(|gap| gap.len)
            .collect::<Vec<_>>(),
        [2, 3, 1]
    );
    assert_eq!(
        scanned.zlib_blocks()[0].decode(&bytes, 16),
        Ok(b"first".to_vec())
    );
}

#[test]
fn decodes_a_payload_read_separately_from_its_data_file() {
    let bytes = encoded_block(b"separate", 8);
    let scanned = scan_data_file(4, &bytes).expect("scan data file");
    let block = scanned.zlib_blocks()[0];
    let payload_end = block.payload_offset + block.compressed_size as usize;

    let decoded = block
        .decode_payload(&bytes[block.payload_offset..payload_end], 8)
        .expect("decode standalone payload");

    assert_eq!(decoded, b"separate");
}

#[test]
fn rejects_a_standalone_payload_with_the_wrong_size() {
    let bytes = encoded_block(b"size", 4);
    let scanned = scan_data_file(5, &bytes).expect("scan data file");
    let block = scanned.zlib_blocks()[0];

    assert_eq!(
        block.decode_payload(&[], 4),
        Err(BlockDecodeError::PayloadSizeMismatch {
            location: block.location,
            expected_size: block.compressed_size,
            actual_size: 0,
        })
    );
}

#[test]
fn block_rejects_a_truncated_header() {
    let mut bytes = MWC_MAGIC.to_vec();
    bytes.extend_from_slice(&[0; 3]);

    assert_eq!(
        scan_data_file(1, &bytes),
        Err(BlockScanError::HeaderTruncated {
            location: BlockLocation {
                file_number: 1,
                offset: 0,
            },
            remaining_bytes: 7,
        })
    );
}

#[test]
fn rejects_a_truncated_payload() {
    let mut bytes = MWC_MAGIC.to_vec();
    bytes.extend_from_slice(&10_u32.to_le_bytes());
    bytes.extend_from_slice(&20_u32.to_le_bytes());
    bytes.extend_from_slice(&[1, 2, 3]);

    assert_eq!(
        scan_data_file(3, &bytes),
        Err(BlockScanError::PayloadTruncated {
            location: BlockLocation {
                file_number: 3,
                offset: 0,
            },
            compressed_size: 20,
            available_bytes: 3,
        })
    );
}

#[test]
fn enforces_the_decode_output_limit() {
    let bytes = encoded_block(b"limit", 5);
    let scanned = scan_data_file(1, &bytes).expect("scan data file");
    let block = scanned.zlib_blocks()[0];

    assert_eq!(
        block.decode(&bytes, 4),
        Err(BlockDecodeError::OutputLimitExceeded {
            location: block.location,
            declared_size: 5,
            max_output_size: 4,
        })
    );
}

#[test]
fn rejects_invalid_zlib_data() {
    let mut bytes = MWC_MAGIC.to_vec();
    bytes.extend_from_slice(&4_u32.to_le_bytes());
    bytes.extend_from_slice(&4_u32.to_le_bytes());
    bytes.extend_from_slice(b"nope");
    let scanned = scan_data_file(1, &bytes).expect("structurally valid block");
    let block = scanned.zlib_blocks()[0];

    assert!(matches!(
        block.decode(&bytes, 8),
        Err(BlockDecodeError::InvalidZlib { .. })
    ));
}

#[test]
fn rejects_a_decompressed_size_mismatch() {
    let bytes = encoded_block(b"four", 5);
    let scanned = scan_data_file(1, &bytes).expect("scan data file");
    let block = scanned.zlib_blocks()[0];

    assert_eq!(
        block.decode(&bytes, 8),
        Err(BlockDecodeError::OutputSizeMismatch {
            location: block.location,
            expected_size: 5,
            actual_size: 4,
        })
    );
}

#[test]
fn a_block_scan_covers_every_byte_in_order() {
    let block = encoded_block(b"abc", 3);
    let mut bytes = vec![1, 2];
    bytes.extend_from_slice(&block);
    bytes.extend_from_slice(&[9]);

    let scanned = scan_data_file(7, &bytes).expect("scan data file");

    let blocks = scanned.zlib_blocks();
    let gaps = scanned.unresolved_gaps();
    assert_eq!(blocks.len(), 1);
    assert_eq!(blocks[0].location.offset, 2);
    assert_eq!(blocks[0].payload_offset, 2 + 12);
    assert_eq!(gaps[0].location.offset, 0);
    assert_eq!(gaps[1].location.offset, 2 + block.len());
    assert_eq!(gaps[0].len + block.len() + gaps[1].len, bytes.len());
}

fn push_u32(bytes: &mut Vec<u8>, value: u32) {
    bytes.extend_from_slice(&value.to_le_bytes());
}

fn sample_index() -> Vec<u8> {
    let mut bytes = Vec::new();
    for value in [2, 1, 48, 48, 2, 1, 0] {
        push_u32(&mut bytes, value);
    }
    for value in [1181, 7, 48, 48, 99] {
        push_u32(&mut bytes, value);
    }
    for value in [1182, 8, 48, 48, 99] {
        push_u32(&mut bytes, value);
    }
    bytes.extend_from_slice(&[0xAA, 0xBB, 0xCC]);
    bytes
}

#[test]
fn parses_header_records_and_trailing_bytes() {
    let parsed = IndexedArchive::parse(&sample_index()).expect("valid sample index");

    assert_eq!(
        parsed.header,
        ArchiveHeader {
            record_count: 2,
            group_count: 1,
            default_width: 48,
            default_height: 48,
            image_block_count: 2,
            archive_count: 1,
            reserved: 0,
        }
    );
    assert_eq!(
        parsed.records,
        [
            IndexRecord {
                icon_id: 1181,
                block_index: 7,
                width: 48,
                height: 48,
                group_code: 99,
            },
            IndexRecord {
                icon_id: 1182,
                block_index: 8,
                width: 48,
                height: 48,
                group_code: 99,
            },
        ]
    );
    assert_eq!(parsed.trailing_index_bytes, 3);
}

#[test]
fn index_rejects_a_truncated_header() {
    let error = IndexedArchive::parse(&[0; HEADER_SIZE - 1]).unwrap_err();

    assert_eq!(
        error,
        IndexParseError::HeaderTooShort {
            actual_len: HEADER_SIZE - 1,
        }
    );
}

#[test]
fn rejects_a_truncated_record_region() {
    let mut bytes = sample_index();
    bytes.truncate(HEADER_SIZE + RECORD_SIZE * 2 - 1);

    let error = IndexedArchive::parse(&bytes).unwrap_err();

    assert_eq!(
        error,
        IndexParseError::RecordRegionTruncated {
            record_count: 2,
            required_len: HEADER_SIZE + RECORD_SIZE * 2,
            actual_len: HEADER_SIZE + RECORD_SIZE * 2 - 1,
        }
    );
}

fn table(entries: &[(u32, u32)], file_size: usize) -> Vec<u8> {
    let mut bytes = Vec::with_capacity(file_size);
    bytes.extend_from_slice(&(entries.len() as u32).to_le_bytes());
    for (offset, stored_size) in entries {
        bytes.extend_from_slice(&offset.to_le_bytes());
        bytes.extend_from_slice(&stored_size.to_le_bytes());
    }
    bytes.resize(file_size, 0);
    bytes
}

#[test]
fn parses_count_offsets_and_stored_sizes() {
    let bytes = table(&[(20, 10), (30, 12)], 42);

    let parsed = InlineBlockTable::parse(&bytes).expect("parse inline table");

    assert_eq!(parsed.byte_len, 20);
    assert_eq!(
        parsed.entries,
        [
            InlineBlockEntry {
                offset: 20,
                stored_size: 10,
            },
            InlineBlockEntry {
                offset: 30,
                stored_size: 12,
            },
        ]
    );
}

#[test]
fn rejects_a_truncated_header_or_entry_region() {
    assert_eq!(
        InlineBlockTable::parse(&[1, 0, 0]).unwrap_err(),
        InlineBlockTableError::HeaderTruncated { actual_len: 3 }
    );
    assert_eq!(
        InlineBlockTable::parse(&[2, 0, 0, 0, 8, 0, 0, 0]).unwrap_err(),
        InlineBlockTableError::EntriesTruncated {
            entry_count: 2,
            expected_len: 20,
            actual_len: 8,
        }
    );
}

#[test]
fn rejects_an_entry_outside_the_file() {
    let bytes = table(&[(12, 9)], 20);

    assert_eq!(
        InlineBlockTable::parse(&bytes).unwrap_err(),
        InlineBlockTableError::EntryOutOfBounds {
            index: 0,
            offset: 12,
            stored_size: 9,
            file_size: 20,
        }
    );
}
