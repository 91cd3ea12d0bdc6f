use dho_vault::extract::{RawImageRecord, RawResourceKey};
use dho_vault::index::IndexRecord;
use dho_vault::snapshot::{
    indexed_asset_entries, raw_asset_entries, AssetSnapshot, AssetSnapshotChange,
    AssetSnapshotCompareError, AssetSnapshotEntry, AssetSourceKind, ASSET_SNAPSHOT_FORMAT_VERSION,
};

fn entry(
    archive: &str,
    group_code: u32,
    icon_id: u32,
    block_index: u32,
    width: u32,
    height: u32,
) -> AssetSnapshotEntry {
    AssetSnapshotEntry::new(archive, group_code, icon_id, block_index, width, height)
}

#[test]
fn compares_added_removed_changed_and_unchanged_assets() {
    let previous = AssetSnapshot::new(vec![
        entry("sb", 10, 100, 0, 32, 32),
        entry("sb", 10, 101, 1, 32, 32),
        entry("sc", 20, 900, 4, 64, 64),
    ]);
    let current = AssetSnapshot::new(vec![
        entry("sb", 10, 100, 0, 32, 32),
        entry("sb", 10, 101, 1, 64, 32),
        entry("sb", 10, 102, 2, 32, 32),
    ]);

    let diff = previous.compare_to(&current).expect("compare snapshots");

    assert_eq!(diff.unchanged_count, 1);
    assert_eq!(diff.added, [entry("sb", 10, 102, 2, 32, 32)]);
    assert_eq!(diff.removed, [entry("sc", 20, 900, 4, 64, 64)]);
    assert_eq!(
        diff.changed,
        [AssetSnapshotChange {
            previous: entry("sb", 10, 101, 1, 32, 32),
            current: entry("sb", 10, 101, 1, 64, 32),
        }]
    );
}

#[test]
fn preserves_duplicate_records_and_ignores_input_order() {
    let duplicate = entry("SB", 10, 100, 0, 32, 32);
    let previous = AssetSnapshot::new(vec![
        entry("sc", 20, 200, 1, 64, 64),
        duplicate.clone(),
        duplicate.clone(),
    ]);
    let current = AssetSnapshot::new(vec![
        duplicate.clone(),
        entry("sc", 20, 200, 1, 64, 64),
        duplicate.clone(),
    ]);

    let diff = previous.compare_to(&current).expect("compare snapshots");

    assert_eq!(previous, current);
    assert_eq!(diff.unchanged_count, 3);
    assert!(diff.added.is_empty());
    assert!(diff.removed.is_empty());
    assert!(diff.changed.is_empty());
}

#[test]
fn rejects_an_unsupported_snapshot_format_before_comparison() {
    let previous = AssetSnapshot {
        format_version: ASSET_SNAPSHOT_FORMAT_VERSION + 1,
        assets: vec![],
    };
    let current = AssetSnapshot::new(vec![]);

    assert_eq!(
        previous.compare_to(&current),
        Err(AssetSnapshotCompareError {
            supported: ASSET_SNAPSHOT_FORMAT_VERSION,
            previous: ASSET_SNAPSHOT_FORMAT_VERSION + 1,
            current: ASSET_SNAPSHOT_FORMAT_VERSION,
        })
    );
}

#[test]
fn a_snapshot_is_sorted_by_archive_group_icon_and_block() {
    let snapshot = AssetSnapshot::new(vec![
        entry("sb", 10, 200, 2, 32, 64),
        entry("sb", 10, 100, 1, 16, 16),
        entry("is", 1, 5, 0, 128, 128),
        entry("im", 1, 0, 0, 128, 128),
    ]);

    assert_eq!(snapshot.format_version, ASSET_SNAPSHOT_FORMAT_VERSION);
    assert_eq!(
        snapshot.assets,
        [
            entry("im", 1, 0, 0, 128, 128),
            entry("is", 1, 5, 0, 128, 128),
            entry("sb", 10, 100, 1, 16, 16),
            entry("sb", 10, 200, 2, 32, 64),
        ]
    );
}

#[test]
fn comparing_a_snapshot_with_itself_changes_nothing() {
    let snapshot = AssetSnapshot::new(vec![
        entry("sb", 10, 100, 1, 16, 16),
        entry("sb", 10, 100, 1, 16, 16),
        entry("sc", 2, 7, 3, 8, 8),
    ]);

    let diff = snapshot.compare_to(&snapshot.clone()).expect("compare with itself");

    assert_eq!(diff.unchanged_count, 3);
    assert!(diff.added.is_empty() && diff.removed.is_empty() && diff.changed.is_empty());
}

#[test]
fn entries_lower_case_their_archive_and_name_their_source() {
    let indexed = entry("SB", 1, 2, 3, 4, 5);
    assert_eq!(indexed.archive, "sb");
    assert_eq!(indexed.source_kind, AssetSourceKind::Indexed);
    assert_eq!(indexed.raw_resource_key(), None);

    let key = RawResourceKey {
        block_index: 4,
        file_number: 100_000,
        file_block_index: 0,
    };
    let raw = AssetSnapshotEntry::new_raw("KP", key, 256, 256);
    assert_eq!(raw.archive, "kp");
    assert_eq!(raw.source_kind, AssetSourceKind::RawBlock);
    assert_eq!(raw.data_file_number, Some(100_000));
    assert_eq!(raw.file_block_index, Some(0));
    assert_eq!(raw.raw_resource_key(), Some(key));
}

#[test]
fn reads_index_records_into_entries() {
    let records = [
        IndexRecord {
            icon_id: 200,
            block_index: 2,
            width: 32,
            height: 64,
            group_code: 10,
        },
        IndexRecord {
            icon_id: 100,
            block_index: 1,
            width: 16,
            height: 16,
            group_code: 10,
        },
    ];

    let entries = indexed_asset_entries("sb", &records);

    assert_eq!(
        entries,
        [entry("sb", 10, 200, 2, 32, 64), entry("sb", 10, 100, 1, 16, 16)]
    );
}

#[test]
fn reads_raw_records_with_physical_file_identity() {
    let records = [
        RawImageRecord {
            key: RawResourceKey {
                block_index: 0,
                file_number: 1,
                file_block_index: 0,
            },
            width: 256,
            height: 256,
        },
        RawImageRecord {
            key: RawResourceKey {
                block_index: 1,
                file_number: 1,
                file_block_index: 1,
            },
            width: 256,
            height: 256,
        },
    ];

    let entries = raw_asset_entries("sh", &records);

    assert_eq!(entries.len(), 2);
    assert_eq!(entries[0].source_kind, AssetSourceKind::RawBlock);
    assert_eq!(entries[0].data_file_number, Some(1));
    assert_eq!(entries[0].file_block_index, Some(0));
    assert_eq!(entries[1].block_index, 1);
    assert_eq!(entries[1].file_block_index, Some(1));
}

#[test]
fn the_compare_error_names_both_versions() {
    let error = AssetSnapshotCompareError {
        supported: 1,
        previous: 2,
        current: 1,
    };

    assert_eq!(
        error.message(),
        "지원하지 않는 자산 스냅샷 형식입니다: 지원=1, 이전=2, 현재=1"
    );
}

#[test]
fn comparing_the_other_way_round_swaps_added_and_removed() {
    let previous = AssetSnapshot::new(vec![
        entry("sb", 10, 100, 0, 32, 32),
        entry("sb", 10, 101, 1, 32, 32),
        entry("sc", 20, 900, 4, 64, 64),
    ]);
    let current = AssetSnapshot::new(vec![
        entry("sb", 10, 100, 0, 32, 32),
        entry("sb", 10, 101, 1, 64, 32),
        entry("sb", 10, 102, 2, 32, 32),
    ]);

    let forward = previous.compare_to(&current).expect("compare forward");
    let backward = current.compare_to(&previous).expect("compare backward");

    assert_eq!(backward.added, forward.removed);
    assert_eq!(backward.removed, forward.added);
    assert_eq!(backward.unchanged_count, forward.unchanged_count);
    assert_eq!(backward.changed.len(), forward.changed.len());
    assert_eq!(backward.changed[0].previous, forward.changed[0].current);
    assert_eq!(backward.changed[0].current, forward.changed[0].previous);
}
