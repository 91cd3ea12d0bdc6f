use dho_vault::baseline::{
    compare_report, compare_report_for, AssetBaseline, AssetUpdateState, AssetUpdateStatus,
};
use dho_vault::export::{
    default_asset_file_name, first_duplicate_name, page_asset_file_name, update_endpoint,
    BusyFlag, CategoryExportManager, CategoryExportState, RC_UPDATE_ENDPOINT,
    STABLE_UPDATE_ENDPOINT,
};
use dho_vault::snapshot::{AssetSnapshot, AssetSnapshotEntry};

fn snapshot(records: &[(u32, u32, u32, u32, u32)]) -> AssetSnapshot {
    AssetSnapshot::new(
        records
            .iter()
            .map(|(group_code, icon_id, block_index, width, height)| {
                AssetSnapshotEntry::new("sb", *group_code, *icon_id, *block_index, *width, *height)
            })
            .collect(),
    )
}

#[test]
fn prevents_overlapping_operations() {
    let mut flag = BusyFlag::new();
    flag.begin_operation("busy").expect("start operation");

    assert!(flag.is_busy());
    assert_eq!(flag.begin_operation("busy").unwrap_err(), "busy");

    flag.end_operation();
    assert!(!flag.is_busy());
    assert!(flag.begin_operation("busy").is_ok());
}

#[test]
fn selects_an_update_channel_from_the_installed_version() {
    assert_eq!(update_endpoint(false), STABLE_UPDATE_ENDPOINT);
    assert_eq!(update_endpoint(true), RC_UPDATE_ENDPOINT);
}

#[test]
fn compares_the_current_snapshot_with_the_matching_baseline() {
    let resource_directory = r"G:\Games\GV Online KR\0010\0001";
    let baseline = AssetBaseline {
        resource_directory: resource_directory.to_owned(),
        created_at_unix_seconds: 1_720_000_000,
        snapshot: snapshot(&[
            (10, 100, 0, 32, 32),
            (10, 101, 1, 32, 32),
            (10, 102, 2, 32, 32),
        ]),
    };
    let current = snapshot(&[
        (10, 100, 0, 32, 32),
        (10, 101, 1, 64, 32),
        (10, 103, 3, 32, 32),
    ]);

    let report = compare_report(Some(&baseline), resource_directory, &current)
        .expect("compare asset baseline");
    assert_eq!(
        report.status,
        AssetUpdateStatus {
            state: AssetUpdateState::ChangesDetected,
            baseline_created_at_unix_seconds: Some(1_720_000_000),
            current_count: 3,
            baseline_count: 3,
            added_count: 1,
            removed_count: 1,
            changed_count: 1,
            unchanged_count: 1,
        }
    );
    assert_eq!(report.added_assets.len(), 1);
    assert_eq!(report.added_assets[0].icon_id, 103);
}

#[test]
fn distinguishes_missing_unchanged_and_different_directory_baselines() {
    let resource_directory = r"G:\Games\GV Online KR\0010\0001";
    let current = snapshot(&[(10, 100, 0, 32, 32)]);
    let missing = compare_report(None, resource_directory, &current)
        .expect("missing baseline")
        .status;
    assert_eq!(missing.state, AssetUpdateState::MissingBaseline);
    assert_eq!(missing.current_count, 1);

    let matching = AssetBaseline {
        resource_directory: resource_directory.to_owned(),
        created_at_unix_seconds: 1_720_000_000,
        snapshot: current.clone(),
    };
    let unchanged = compare_report(Some(&matching), resource_directory, &current)
        .expect("unchanged baseline")
        .status;
    assert_eq!(unchanged.state, AssetUpdateState::Unchanged);
    assert_eq!(unchanged.unchanged_count, 1);

    let different = AssetBaseline {
        resource_directory: r"G:\Games\Other\0010\0001".to_owned(),
        created_at_unix_seconds: 1_710_000_000,
        snapshot: current.clone(),
    };
    let different = compare_report(Some(&different), resource_directory, &current)
        .expect("different directory")
        .status;
    assert_eq!(different.state, AssetUpdateState::DifferentDirectory);
    assert_eq!(different.added_count, 0);
}

#[test]
fn an_unsupported_baseline_format_is_reported() {
    let resource_directory = "resources";
    let baseline = AssetBaseline {
        resource_directory: resource_directory.to_owned(),
        created_at_unix_seconds: 1,
        snapshot: AssetSnapshot {
            format_version: 9,
            assets: Vec::new(),
        },
    };

    let error = compare_report(Some(&baseline), resource_directory, &snapshot(&[])).unwrap_err();

    assert_eq!(
        error,
        "지원하지 않는 자산 스냅샷 형식입니다: 지원=1, 이전=9, 현재=1"
    );
}

#[test]
fn creates_a_safe_default_png_file_name() {
    assert_eq!(default_asset_file_name("SB", 42), "dho-vault-sb-000042.png");
    assert_eq!(
        default_asset_file_name("../unsafe", 7),
        "dho-vault-unsafe-000007.png"
    );
}

#[test]
fn a_default_file_name_without_letters_names_an_image() {
    assert_eq!(default_asset_file_name("../", 1_234_567), "dho-vault-image-1234567.png");
    assert_eq!(
        default_asset_file_name("abcdefghijk", 0),
        "dho-vault-abcdefgh-000000.png"
    );
}

#[test]
fn names_page_assets_by_archive_icon_and_block() {
    assert_eq!(
        page_asset_file_name("SB", 100, 42, false),
        "dho-vault-sb-icon-100-block-000042.png"
    );
    assert_eq!(
        page_asset_file_name("sd", 0, 10_156, true),
        "dho-vault-sd-icon-0-block-010156-assembled.png"
    );
}

#[test]
fn finds_the_first_repeated_file_name() {
    let names = vec!["a.png".to_owned(), "b.png".to_owned(), "a.png".to_owned()];
    assert_eq!(first_duplicate_name(&names), Some(2));
    let distinct = vec!["a.png".to_owned(), "b.png".to_owned()];
    assert_eq!(first_duplicate_name(&distinct), None);
}

#[test]
fn manages_one_asset_export_at_a_time() {
    let mut manager = CategoryExportManager::default();
    let first = manager.start(3).expect("start first export");

    assert_eq!(first, 1);
    assert_eq!(manager.status(1).expect("first status").total_count, 3);
    assert!(manager.start(2).is_err());
    assert!(manager.cancel(1).expect("cancel first export"));
    assert!(manager.cancel_requested(1));

    manager.finish(1, CategoryExportState::Cancelled, None);
    let second = manager.start(2).expect("start second export");
    assert_eq!(second, 2);
    assert_eq!(manager.status(2).expect("second status").total_count, 2);
}

#[test]
fn reports_export_progress_and_failure() {
    let mut manager = CategoryExportManager::new();
    let job = manager.start(4).expect("start export");

    manager.report_progress(job, 2, 4);
    let status = manager.status(job).expect("running status");
    assert_eq!(status.state, CategoryExportState::Running);
    assert_eq!(status.completed_count, 2);

    manager.finish(job, CategoryExportState::Failed, Some("disk full".to_owned()));
    let status = manager.status(job).expect("failed status");
    assert_eq!(status.state, CategoryExportState::Failed);
    assert_eq!(status.error.as_deref(), Some("disk full"));
    assert!(!manager.cancel(job).expect("cancel finished export"));
    assert!(manager.status(job + 1).is_err());
}

#[test]
fn the_baseline_directory_is_compared_as_a_path() {
    let current = snapshot(&[(10, 100, 0, 32, 32)]);
    let baseline = AssetBaseline {
        resource_directory: "/games/dho/".to_owned(),
        created_at_unix_seconds: 1_720_000_000,
        snapshot: current.clone(),
    };
    for directory in ["/games/dho", "/games//dho", "/games/dho/"] {
        let status = compare_report(Some(&baseline), directory, &current)
            .expect("same directory")
            .status;
        assert_eq!(status.state, AssetUpdateState::Unchanged);
    }
    let status = compare_report(Some(&baseline), "/games/other", &current)
        .expect("other directory")
        .status;
    assert_eq!(status.state, AssetUpdateState::DifferentDirectory);
    let status = compare_report_for(Some(&baseline), false, &current)
        .expect("other directory")
        .status;
    assert_eq!(status.state, AssetUpdateState::DifferentDirectory);
    assert_eq!(status.baseline_count, 1);
}
