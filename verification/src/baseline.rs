//! Whether an installation's images changed since a saved baseline snapshot.

use crate::snapshot::{
    entry_views, snapshot_diff, AssetSnapshot, AssetSnapshotCompareError, AssetSnapshotEntry,
    ASSET_SNAPSHOT_FORMAT_VERSION,
};
use vstd::prelude::*;

verus! {

/// What comparing with the baseline found.
#[derive(Debug, Clone, Copy, PartialEq, Eq, Structural)]
pub enum AssetUpdateState {
    MissingBaseline,
    Unchanged,
    ChangesDetected,
    DifferentDirectory,
}

/// The counts a comparison with the baseline reports.
#[derive(Debug, Clone, Copy, PartialEq, Eq, Structural)]
pub struct AssetUpdateStatus {
    pub state: AssetUpdateState,
    pub baseline_created_at_unix_seconds: Option<u64>,
    pub current_count: usize,
    pub baseline_count: usize,
    pub added_count: usize,
    pub removed_count: usize,
    pub changed_count: usize,
    pub unchanged_count: usize,
}

/// A comparison's counts and the entries added since the baseline.
#[derive(Debug, Clone, PartialEq, Eq)]
pub struct AssetUpdateReport {
    pub status: AssetUpdateStatus,
    pub added_assets: Vec<AssetSnapshotEntry>,
}

/// A snapshot saved for one resource directory at one time.
#[derive(Debug, Clone, PartialEq, Eq)]
pub struct AssetBaseline {
    pub resource_directory: String,
    pub created_at_unix_seconds: u64,
    pub snapshot: AssetSnapshot,
}

/// A status with every difference count zero.
pub open spec fn quiet_status(
    state: AssetUpdateState,
    created: Option<u64>,
    current_count: usize,
    baseline_count: usize,
) -> AssetUpdateStatus {
    AssetUpdateStatus {
        state,
        baseline_created_at_unix_seconds: created,
        current_count,
        baseline_count,
        added_count: 0,
        removed_count: 0,
        changed_count: 0,
        unchanged_count: 0,
    }
}

/// Whether two directory texts name the same path as std's `Path` compares them: part by part,
/// so that a trailing or doubled separator makes no difference. Calls
/// `std::path::Path::new(a) == std::path::Path::new(b)`; the contract states only that equal
/// texts are the same path, since how texts are split into parts depends on the platform.
#[verifier::external_body]
fn same_path(a: &str, b: &str) -> (same: bool)
    ensures
        a@ == b@ ==> same,
{
    std::path::Path::new(a) == std::path::Path::new(b)
}

/// The report of comparing `current` with a saved baseline, given whether the baseline's
/// directory is the current one.
pub open spec fn report_for(
    baseline: Option<&AssetBaseline>,
    same_directory: bool,
    current: &AssetSnapshot,
    report: Result<AssetUpdateReport, String>,
) -> bool {
    match baseline {
        None => report matches Ok(r) && r.status == quiet_status(
            AssetUpdateState::MissingBaseline,
            None,
            current.assets@.len() as usize,
            0,
        ) && r.added_assets@.len() == 0,
        Some(b) => if !same_directory {
            report matches Ok(r) && r.status == quiet_status(
                AssetUpdateState::DifferentDirectory,
                Some(b.created_at_unix_seconds),
                current.assets@.len() as usize,
                b.snapshot.assets@.len() as usize,
            ) && r.added_assets@.len() == 0
        } else if b.snapshot.format_version != ASSET_SNAPSHOT_FORMAT_VERSION
            || current.format_version != ASSET_SNAPSHOT_FORMAT_VERSION {
            report matches Err(m) && m@ == (AssetSnapshotCompareError {
                supported: ASSET_SNAPSHOT_FORMAT_VERSION,
                previous: b.snapshot.format_version,
                current: current.format_version,
            }).spec_message()
        } else {
            let d = snapshot_diff(entry_views(b.snapshot.assets@), entry_views(current.assets@));
            report matches Ok(r) && entry_views(r.added_assets@) == d.added && r.status == AssetUpdateStatus {
                state: if d.added.len() == 0 && d.removed.len() == 0 && d.changed.len() == 0 {
                    AssetUpdateState::Unchanged
                } else {
                    AssetUpdateState::ChangesDetected
                },
                baseline_created_at_unix_seconds: Some(b.created_at_unix_seconds),
                current_count: current.assets@.len() as usize,
                baseline_count: b.snapshot.assets@.len() as usize,
                added_count: d.added.len() as usize,
                removed_count: d.removed.len() as usize,
                changed_count: d.changed.len() as usize,
                unchanged_count: d.unchanged_count as usize,
            }
        },
    }
}

/// Compares the current snapshot with a saved baseline, once it is known whether the baseline
/// was saved for the current directory.
///
/// Without a baseline the state is `MissingBaseline`; a baseline of another directory gives
/// `DifferentDirectory`; otherwise the snapshots are compared, and the state is `Unchanged`
/// exactly when nothing was added, removed or changed.
pub fn compare_report_for(baseline: Option<&AssetBaseline>, same_directory: bool, current: &AssetSnapshot) -> (report:
    Result<AssetUpdateReport, String>)
    ensures
        report_for(baseline, same_directory, current, report),
{
    let current_count = current.assets.len();
    let baseline = match baseline {
        None => {
            return Ok(
                AssetUpdateReport {
                    status: AssetUpdateStatus {
                        state: AssetUpdateState::MissingBaseline,
                        baseline_created_at_unix_seconds: None,
                        current_count,
                        baseline_count: 0,
                        added_count: 0,
                        removed_count: 0,
                        changed_count: 0,
                        unchanged_count: 0,
                    },
                    added_assets: Vec::new(),
                },
            );
        },
        Some(baseline) => baseline,
    };
    let baseline_count = baseline.snapshot.assets.len();
    if !same_directory {
        return Ok(
            AssetUpdateReport {
                status: AssetUpdateStatus {
                    state: AssetUpdateState::DifferentDirectory,
                    baseline_created_at_unix_seconds: Some(baseline.created_at_unix_seconds),
                    current_count,
                    baseline_count,
                    added_count: 0,
                    removed_count: 0,
                    changed_count: 0,
                    unchanged_count: 0,
                },
                added_assets: Vec::new(),
            },
        );
    }
    let diff = match baseline.snapshot.compare_to(current) {
        Ok(diff) => diff,
        Err(error) => {
            return Err(error.message());
        },
    };
    let state = if diff.added.len() == 0 && diff.removed.len() == 0 && diff.changed.len() == 0 {
        AssetUpdateState::Unchanged
    } else {
        AssetUpdateState::ChangesDetected
    };
    Ok(
        AssetUpdateReport {
            status: AssetUpdateStatus {
                state,
                baseline_created_at_unix_seconds: Some(baseline.created_at_unix_seconds),
                current_count,
                baseline_count,
                added_count: diff.added.len(),
                removed_count: diff.removed.len(),
                changed_count: diff.changed.len(),
                unchanged_count: diff.unchanged_count,
            },
            added_assets: diff.added,
        },
    )
}


/// Compares the current snapshot of `resource_directory` with a saved baseline. The baseline's
/// directory is compared with `resource_directory` as paths, part by part; equal texts are
/// always the same directory.
pub fn compare_report(baseline: Option<&AssetBaseline>, resource_directory: &str, current: &AssetSnapshot) -> (report:
    Result<AssetUpdateReport, String>)
    ensures
        report_for(baseline, true, current, report) || (baseline matches Some(b) && b.resource_directory@
            != resource_directory@ && report_for(baseline, false, current, report)),
{
    let same_directory = match baseline {
        None => true,
        Some(b) => same_path(b.resource_directory.as_str(), resource_directory),
    };
    compare_report_for(baseline, same_directory, current)
}

/// Comparing a snapshot with a baseline that holds the same snapshot for the same directory
/// reports `Unchanged`, with every entry unchanged.
pub proof fn lemma_same_snapshot_is_unchanged(assets: Seq<crate::snapshot::EntryView>)
    ensures
        snapshot_diff(assets, assets).added.len() == 0,
        snapshot_diff(assets, assets).removed.len() == 0,
        snapshot_diff(assets, assets).changed.len() == 0,
        snapshot_diff(assets, assets).unchanged_count == assets.len(),
{
    crate::snapshot::lemma_snapshot_diff_with_itself(assets);
}

} // verus!
