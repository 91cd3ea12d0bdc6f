use dho_vault::catalog::{RecordClassification, VerificationStatus};
use dho_vault::curator::{
    evenly_spaced_indices, normalize_prefix, ArchiveGroupSummary, ArchiveIdBandSummary,
    ArchiveIdRangeSummary, CuratorSession, CuratorSessionError,
};
use dho_vault::extract::LoadedArchive;
use flate2::write::ZlibEncoder;
use flate2::Compression;
use std::collections::HashSet;
use std::io::Write;

const PNG_SIGNATURE: &[u8; 8] = b"\x89PNG\r\n\x1a\n";

fn push_u32(bytes: &mut Vec<u8>, value: u32) {
    bytes.extend_from_slice(&value.to_le_bytes());
}

fn zlib_block(raw: &[u8]) -> Vec<u8> {
    let mut encoder = ZlibEncoder::new(Vec::new(), Compression::default());
    encoder.write_all(raw).expect("write zlib input");
    let compressed = encoder.finish().expect("finish zlib stream");
    let mut block = b"MWC\x1a".to_vec();
    push_u32(&mut block, raw.len() as u32);
    push_u32(&mut block, compressed.len() as u32);
    block.extend_from_slice(&compressed);
    block
}

fn sb_archive(records: &[[u32; 5]], block_count: u32) -> LoadedArchive {
    let mut index = Vec::new();
    let group_count = records
        .iter()
        .map(|record| record[4])
        .collect::<HashSet<_>>()
        .len() as u32;
    for value in [records.len() as u32, group_count, 1, 1, block_count, 1, 0] {
        push_u32(&mut index, value);
    }
    for record in records {
        for value in record {
            push_u32(&mut index, *value);
        }
    }
    let mut data = Vec::new();
    for value in 0..block_count {
        data.extend(zlib_block(&[value as u8, 0, 0, 255]));
    }
    LoadedArchive::open("sb", &index, vec![data]).expect("open test archive")
}

fn session_with(records: &[[u32; 5]], block_count: u32) -> CuratorSession {
    let mut session = CuratorSession::default();
    session.set_resource_directory("resources");
    session.add_archive(sb_archive(records, block_count));
    session
}

#[test]
fn selects_evenly_spaced_indices_including_both_ends() {
    assert_eq!(evenly_spaced_indices(0, 24), Vec::<usize>::new());
    assert_eq!(evenly_spaced_indices(4, 24), [0, 1, 2, 3]);
    assert_eq!(evenly_spaced_indices(10, 4), [0, 3, 6, 9]);
    assert_eq!(evenly_spaced_indices(10, 1), [0]);
}

#[test]
fn requires_a_selected_resource_directory() {
    let error = CuratorSession::default().group_summaries("sb").unwrap_err();

    assert!(matches!(
        error,
        CuratorSessionError::ResourceDirectoryNotSelected
    ));
}

#[test]
fn rejects_an_unsupported_archive_prefix() {
    let mut session = CuratorSession::default();
    session.set_resource_directory("resources");

    let error = session.group_summaries("xy").unwrap_err();

    assert!(matches!(
        error,
        CuratorSessionError::UnsupportedPrefix { ref prefix } if prefix == "xy"
    ));
}

#[test]
fn normalizes_a_supported_prefix_to_lower_case() {
    assert_eq!(normalize_prefix("SB").expect("supported prefix"), "sb");
    assert!(matches!(
        normalize_prefix("../"),
        Err(CuratorSessionError::UnsupportedPrefix { ref prefix }) if prefix == "../"
    ));
}

#[test]
fn reports_an_archive_that_was_not_loaded() {
    let mut session = CuratorSession::default();
    session.set_resource_directory("resources");

    let error = session.group_summaries("sc").unwrap_err();

    assert!(matches!(
        error,
        CuratorSessionError::ArchiveNotLoaded { ref prefix } if prefix == "sc"
    ));
}

#[test]
fn rejects_a_block_without_a_verified_assembly_rule() {
    let session = session_with(&[[7, 0, 1, 1, 9]], 1);

    let error = session.assembly_preview("sb", 0).unwrap_err();

    assert!(matches!(
        error,
        CuratorSessionError::VerifiedAssemblyNotFound {
            ref prefix,
            block_index: 0,
        } if prefix == "sb"
    ));
}

#[test]
fn includes_reviewed_and_unreviewed_classifications_in_samples() {
    let session = session_with(&[[1_200_001, 0, 1, 1, 9], [1_200_002, 1, 1, 1, 9]], 2);

    let samples = session
        .range_samples("sb", 9, 1_200_001, 1_200_002)
        .expect("sample classifications");

    assert_eq!(samples.first_record.classification.category, None);
    assert_eq!(
        samples.first_record.classification.boundary_status,
        VerificationStatus::HumanVerified
    );
    assert_eq!(
        samples.first_record.classification.meaning_status,
        VerificationStatus::Unknown
    );
    assert_eq!(
        samples.last_record.classification,
        RecordClassification::unknown()
    );
}

#[test]
fn rejects_a_reversed_id_range() {
    let session = session_with(&[[100, 0, 1, 1, 9]], 1);

    let error = session.range_samples("sb", 9, 200, 100).unwrap_err();

    assert!(matches!(
        error,
        CuratorSessionError::InvalidIdRange {
            start_icon_id: 200,
            end_icon_id: 100
        }
    ));
}

#[test]
fn splits_large_id_gaps_and_deduplicates_each_range_before_sampling() {
    let session = session_with(
        &[
            [2_500, 2, 1, 1, 9],
            [100, 0, 1, 1, 9],
            [200, 0, 1, 1, 9],
            [400, 1, 1, 1, 10],
        ],
        3,
    );

    let groups = session.group_summaries("SB").expect("summarize groups");
    let ranges = session.group_id_ranges("sb", 9).expect("split ID ranges");
    let first_samples = session
        .range_samples("sb", 9, 100, 200)
        .expect("sample first range");
    let second_samples = session
        .range_samples("sb", 9, 2_500, 2_500)
        .expect("sample second range");

    assert_eq!(
        groups,
        [
            ArchiveGroupSummary {
                group_code: 9,
                record_count: 3,
                unique_block_count: 2,
                min_icon_id: 100,
                max_icon_id: 2_500,
            },
            ArchiveGroupSummary {
                group_code: 10,
                record_count: 1,
                unique_block_count: 1,
                min_icon_id: 400,
                max_icon_id: 400,
            },
        ]
    );
    assert_eq!(
        ranges.ranges,
        [
            ArchiveIdRangeSummary {
                start_icon_id: 100,
                end_icon_id: 200,
                record_count: 2,
                unique_block_count: 1,
            },
            ArchiveIdRangeSummary {
                start_icon_id: 2_500,
                end_icon_id: 2_500,
                record_count: 1,
                unique_block_count: 1,
            },
        ]
    );
    assert_eq!(ranges.gap_threshold, 1_000);
    assert_eq!(first_samples.record_count, 2);
    assert_eq!(first_samples.unique_block_count, 1);
    assert_eq!(first_samples.first_record.icon_id, 100);
    assert_eq!(first_samples.last_record.icon_id, 200);
    assert_eq!(
        first_samples
            .samples
            .iter()
            .map(|sample| (sample.icon_id, sample.block_index))
            .collect::<Vec<_>>(),
        [(100, 0)]
    );
    assert_eq!(second_samples.samples[0].icon_id, 2_500);
    assert!(first_samples
        .samples
        .iter()
        .chain(&second_samples.samples)
        .all(|sample| sample.png.starts_with(PNG_SIGNATURE)));
    assert!(first_samples
        .samples
        .iter()
        .chain(&second_samples.samples)
        .all(|sample| !sample.has_verified_assembly));
}

#[test]
fn groups_archive_records_into_numeric_bands_across_raw_groups() {
    let session = session_with(
        &[
            [99_006, 0, 1, 1, 1],
            [100_100, 1, 1, 1, 1],
            [199_002, 2, 1, 1, 2],
            [200_100, 3, 1, 1, 2],
        ],
        4,
    );

    let bands = session.archive_id_bands("sb").expect("summarize ID bands");
    let samples = session
        .archive_band_samples("sb", 100_000, 199_999)
        .expect("sample archive band");

    assert_eq!(bands.band_size, 100_000);
    assert_eq!(
        bands.bands,
        [
            ArchiveIdBandSummary {
                start_icon_id: 0,
                end_icon_id: 99_999,
                first_actual_icon_id: 99_006,
                last_actual_icon_id: 99_006,
                record_count: 1,
                unique_block_count: 1,
                group_codes: vec![1],
            },
            ArchiveIdBandSummary {
                start_icon_id: 100_000,
                end_icon_id: 199_999,
                first_actual_icon_id: 100_100,
                last_actual_icon_id: 199_002,
                record_count: 2,
                unique_block_count: 2,
                group_codes: vec![1, 2],
            },
            ArchiveIdBandSummary {
                start_icon_id: 200_000,
                end_icon_id: 299_999,
                first_actual_icon_id: 200_100,
                last_actual_icon_id: 200_100,
                record_count: 1,
                unique_block_count: 1,
                group_codes: vec![2],
            },
        ]
    );
    assert_eq!(samples.group_codes, [1, 2]);
    assert_eq!(samples.first_record.icon_id, 100_100);
    assert_eq!(samples.first_record.group_code, 1);
    assert_eq!(samples.last_record.icon_id, 199_002);
    assert_eq!(samples.last_record.group_code, 2);
    assert_eq!(samples.samples.len(), 2);
}
