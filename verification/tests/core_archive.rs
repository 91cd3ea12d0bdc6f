use dho_vault::archive::{
    build_archive_layout, ArchiveBlockDecodeError, ArchiveBlockKind, ArchiveDiagnostic, RawBlock,
};
use dho_vault::block::{BlockLocation, DataSegment, MwcBlock, ScannedDataFile, UnresolvedGap};
use dho_vault::index::{ArchiveHeader, IndexRecord, IndexedArchive};
use flate2::write::ZlibEncoder;
use flate2::Compression;
use std::io::Write;

fn index(
    group_count: u32,
    image_block_count: u32,
    archive_count: u32,
    records: Vec<IndexRecord>,
) -> IndexedArchive {
    IndexedArchive {
        header: ArchiveHeader {
            record_count: records.len() as u32,
            group_count,
            default_width: 1,
            default_height: 1,
            image_block_count,
            archive_count,
            reserved: 0,
        },
        records,
        trailing_index_bytes: 0,
    }
}

fn record(block_index: u32, width: u32, height: u32, group_code: u32) -> IndexRecord {
    IndexRecord {
        icon_id: block_index + 100,
        block_index,
        width,
        height,
        group_code,
    }
}

fn zlib(file_number: u32, offset: usize, uncompressed_size: u32) -> DataSegment {
    DataSegment::ZlibBlock(MwcBlock {
        location: BlockLocation {
            file_number,
            offset,
        },
        uncompressed_size,
        compressed_size: 1,
        payload_offset: offset + 12,
    })
}

fn gap(file_number: u32, offset: usize, len: usize) -> DataSegment {
    DataSegment::UnresolvedGap(UnresolvedGap {
        location: BlockLocation {
            file_number,
            offset,
        },
        len,
    })
}

fn file(file_number: u32, segments: Vec<DataSegment>) -> ScannedDataFile {
    ScannedDataFile {
        file_number,
        file_size: 100,
        segments,
    }
}

#[test]
fn assigns_global_indices_across_data_files() {
    let index = index(1, 2, 2, vec![record(0, 1, 1, 9), record(1, 1, 2, 9)]);
    let files = [file(1, vec![zlib(1, 0, 4)]), file(2, vec![zlib(2, 0, 8)])];

    let layout = build_archive_layout(&index, &files);

    assert!(layout.has_resolved_block_order());
    assert_eq!(
        layout
            .blocks
            .iter()
            .map(|block| block.block_index)
            .collect::<Vec<_>>(),
        [Some(0), Some(1)]
    );
    assert!(layout.unresolved_gaps.is_empty());
    assert!(layout.diagnostics.is_empty());
}

#[test]
fn promotes_one_fully_consistent_raw_gap() {
    let index = index(
        1,
        3,
        1,
        vec![record(0, 1, 1, 9), record(1, 1, 2, 9), record(2, 1, 3, 9)],
    );
    let raw_gap = gap(1, 20, 8);
    let files = [file(1, vec![zlib(1, 0, 4), raw_gap, zlib(1, 28, 12)])];

    let layout = build_archive_layout(&index, &files);

    assert!(layout.has_resolved_block_order());
    assert!(matches!(layout.blocks[1].kind, ArchiveBlockKind::Raw(_)));
    assert!(layout.unresolved_gaps.is_empty());
    assert!(layout.diagnostics.is_empty());
}

#[test]
fn leaves_an_unreferenced_gap_unresolved() {
    let index = index(1, 2, 1, vec![record(0, 1, 1, 9)]);
    let raw_gap = gap(1, 20, 8);
    let files = [file(1, vec![zlib(1, 0, 4), raw_gap])];

    let layout = build_archive_layout(&index, &files);

    assert!(!layout.has_resolved_block_order());
    assert_eq!(layout.unresolved_gaps.len(), 1);
    assert!(layout
        .diagnostics
        .contains(&ArchiveDiagnostic::RawGapNotReferenced {
            gap: match raw_gap {
                DataSegment::UnresolvedGap(gap) => gap,
                DataSegment::ZlibBlock(_) => unreachable!(),
            },
            candidate_block_index: 1,
        }));
}

#[test]
fn rejects_a_raw_gap_when_later_records_do_not_match() {
    let index = index(1, 3, 1, vec![record(1, 1, 2, 9), record(2, 1, 4, 9)]);
    let raw_gap = gap(1, 20, 8);
    let files = [file(1, vec![zlib(1, 0, 4), raw_gap, zlib(1, 28, 12)])];

    let layout = build_archive_layout(&index, &files);

    assert!(!layout.has_resolved_block_order());
    assert_eq!(layout.unresolved_gaps.len(), 1);
    assert!(matches!(
        layout.diagnostics.first(),
        Some(ArchiveDiagnostic::RawGapCandidateInconsistent { .. })
    ));
}

#[test]
fn ignores_files_beyond_archive_count() {
    let index = index(1, 1, 1, vec![record(0, 1, 1, 9)]);
    let files = [file(1, vec![zlib(1, 0, 4)]), file(2, vec![zlib(2, 0, 4)])];

    let layout = build_archive_layout(&index, &files);

    assert!(layout.has_resolved_block_order());
    assert_eq!(layout.blocks.len(), 1);
    assert_eq!(
        layout.diagnostics,
        [ArchiveDiagnostic::UnexpectedDataFile { file_number: 2 }]
    );
}

#[test]
fn reports_header_record_and_size_inconsistencies() {
    let index = index(2, 1, 1, vec![record(0, 1, 2, 9), record(1, 1, 1, 9)]);
    let files = [file(1, vec![zlib(1, 0, 4)])];

    let layout = build_archive_layout(&index, &files);

    assert!(layout
        .diagnostics
        .contains(&ArchiveDiagnostic::GroupCountMismatch {
            expected: 2,
            actual: 1,
        }));
    assert!(layout
        .diagnostics
        .contains(&ArchiveDiagnostic::ImageSizeMismatch {
            record_position: 0,
            block_index: 0,
            expected_size: 8,
            actual_size: 4,
        }));
    assert!(layout
        .diagnostics
        .contains(&ArchiveDiagnostic::RecordBlockIndexOutOfRange {
            record_position: 1,
            block_index: 1,
            block_count: 1,
        }));
}

#[test]
fn decodes_zlib_storage_to_owned_bytes() {
    let mut encoder = ZlibEncoder::new(Vec::new(), Compression::default());
    encoder.write_all(b"data").expect("write zlib input");
    let compressed = encoder.finish().expect("finish zlib stream");
    let kind = ArchiveBlockKind::Zlib(MwcBlock {
        location: BlockLocation {
            file_number: 1,
            offset: 0,
        },
        uncompressed_size: 4,
        compressed_size: compressed.len() as u32,
        payload_offset: 0,
    });

    let decoded = kind.decode(&compressed, 4).expect("decode zlib block");

    assert_eq!(decoded, b"data");
}

#[test]
fn decodes_only_the_stored_zlib_payload() {
    let mut encoder = ZlibEncoder::new(Vec::new(), Compression::default());
    encoder.write_all(b"range").expect("write zlib input");
    let compressed = encoder.finish().expect("finish zlib stream");
    let kind = ArchiveBlockKind::Zlib(MwcBlock {
        location: BlockLocation {
            file_number: 3,
            offset: 40,
        },
        uncompressed_size: 5,
        compressed_size: compressed.len() as u32,
        payload_offset: 52,
    });

    let decoded = kind
        .decode_stored(&compressed, 5)
        .expect("decode stored payload");

    assert_eq!(kind.stored_offset(), 52);
    assert_eq!(kind.stored_size(), compressed.len());
    assert_eq!(decoded, b"range");
}

#[test]
fn reads_raw_storage_without_copying() {
    let kind = ArchiveBlockKind::Raw(RawBlock {
        location: BlockLocation {
            file_number: 2,
            offset: 1,
        },
        len: 2,
    });

    let decoded = kind
        .decode(&[0x00, 0x11, 0x22, 0x33], 2)
        .expect("read raw block");

    assert_eq!(decoded, [0x11, 0x22]);
}

#[test]
fn decodes_only_the_stored_raw_range() {
    let kind = ArchiveBlockKind::Raw(RawBlock {
        location: BlockLocation {
            file_number: 2,
            offset: 7,
        },
        len: 3,
    });

    let decoded = kind
        .decode_stored(&[0x11, 0x22, 0x33], 3)
        .expect("decode stored raw range");

    assert_eq!(kind.stored_offset(), 7);
    assert_eq!(kind.stored_size(), 3);
    assert_eq!(decoded, [0x11, 0x22, 0x33]);
}

#[test]
fn rejects_a_stored_raw_range_with_the_wrong_size() {
    let kind = ArchiveBlockKind::Raw(RawBlock {
        location: BlockLocation {
            file_number: 2,
            offset: 7,
        },
        len: 3,
    });

    assert_eq!(
        kind.decode_stored(&[0x11], 3),
        Err(ArchiveBlockDecodeError::StoredSizeMismatch {
            location: kind.location(),
            expected_size: 3,
            actual_size: 1,
        })
    );
}

#[test]
fn enforces_the_output_limit_for_raw_storage() {
    let kind = ArchiveBlockKind::Raw(RawBlock {
        location: BlockLocation {
            file_number: 2,
            offset: 0,
        },
        len: 4,
    });

    assert_eq!(
        kind.decode(&[0; 4], 3),
        Err(ArchiveBlockDecodeError::OutputLimitExceeded {
            location: kind.location(),
            block_size: 4,
            max_output_size: 3,
        })
    );
}

#[test]
fn rejects_raw_storage_outside_the_file() {
    let kind = ArchiveBlockKind::Raw(RawBlock {
        location: BlockLocation {
            file_number: 2,
            offset: 2,
        },
        len: 3,
    });

    assert_eq!(
        kind.decode(&[0; 4], 3),
        Err(ArchiveBlockDecodeError::RawDataOutOfBounds {
            location: kind.location(),
            block_size: 3,
            file_size: 4,
        })
    );
}

#[test]
fn rejects_a_raw_end_offset_overflow() {
    let kind = ArchiveBlockKind::Raw(RawBlock {
        location: BlockLocation {
            file_number: 2,
            offset: usize::MAX,
        },
        len: 1,
    });

    assert_eq!(
        kind.decode(&[], 1),
        Err(ArchiveBlockDecodeError::RawDataEndOverflow {
            location: kind.location(),
            block_size: 1,
        })
    );
}

#[test]
fn does_not_report_a_missing_archive_as_resolved() {
    let index = index(0, 0, 1, Vec::new());

    let layout = build_archive_layout(&index, &[]);

    assert!(!layout.has_resolved_block_order());
    assert_eq!(
        layout.diagnostics,
        [ArchiveDiagnostic::ArchiveFileCountMismatch {
            expected: 1,
            actual: 0,
        }]
    );
}

#[test]
fn a_resolved_layout_numbers_every_block_in_scan_order() {
    let index = index(1, 3, 2, vec![record(0, 1, 1, 9), record(1, 1, 1, 9), record(2, 1, 1, 9)]);
    let files = [
        file(1, vec![zlib(1, 0, 4), zlib(1, 30, 4)]),
        file(2, vec![zlib(2, 0, 4)]),
    ];

    let layout = build_archive_layout(&index, &files);

    assert!(layout.has_resolved_block_order());
    for (position, block) in layout.blocks.iter().enumerate() {
        assert_eq!(block.block_index, Some(position as u32));
    }
}

#[test]
fn reports_each_stray_data_file_once() {
    let index = index(1, 1, 1, vec![record(0, 1, 1, 9)]);
    let files = [
        file(0, vec![zlib(0, 0, 4)]),
        file(1, vec![zlib(1, 0, 4)]),
        file(3, vec![zlib(3, 0, 4)]),
        file(3, vec![zlib(3, 0, 4)]),
    ];

    let layout = build_archive_layout(&index, &files);

    let count = |n: u32| {
        layout
            .diagnostics
            .iter()
            .filter(|d| **d == ArchiveDiagnostic::UnexpectedDataFile { file_number: n })
            .count()
    };
    assert_eq!(count(0), 1);
    assert_eq!(count(1), 0);
    assert_eq!(count(3), 2);
}

#[test]
fn an_unresolved_layout_holds_only_compressed_blocks() {
    let index = index(1, 3, 1, vec![record(0, 1, 1, 9)]);
    let files = [file(1, vec![zlib(1, 0, 4), gap(1, 13, 5), zlib(1, 18, 4), gap(1, 40, 2)])];

    let layout = build_archive_layout(&index, &files);

    assert!(!layout.has_resolved_block_order());
    assert!(layout
        .blocks
        .iter()
        .all(|b| b.block_index.is_none() && matches!(b.kind, ArchiveBlockKind::Zlib(_))));
}
