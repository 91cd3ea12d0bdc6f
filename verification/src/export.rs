//! File names for exported images, the one-at-a-time export job, and the update channel.

use crate::text::{
    ascii_lower, decimal_string, decimal_string_6, decimal_text, to_ascii_lowercase, zero_padded,
};
use vstd::prelude::*;
use vstd::string::{StrSliceExecFns, StringExecFns};

verus! {

/// Whether `c` is an ASCII letter or digit.
pub open spec fn is_ascii_alphanumeric(c: char) -> bool {
    ('0' <= c && c <= '9') || ('a' <= c && c <= 'z') || ('A' <= c && c <= 'Z')
}

/// The ASCII letters and digits of `s`, in order.
pub open spec fn ascii_alphanumerics(s: Seq<char>) -> Seq<char>
    decreases s.len(),
{
    if s.len() == 0 {
        s
    } else if is_ascii_alphanumeric(s.last()) {
        ascii_alphanumerics(s.drop_last()).push(s.last())
    } else {
        ascii_alphanumerics(s.drop_last())
    }
}

/// The archive part of a default file name: the first eight ASCII letters and digits of the
/// archive name in lower case, or `image` when it has none.
pub open spec fn safe_archive_name(archive: Seq<char>) -> Seq<char> {
    let kept = ascii_alphanumerics(archive);
    let short = if kept.len() > 8 {
        kept.take(8)
    } else {
        kept
    };
    if short.len() == 0 {
        "image"@
    } else {
        ascii_lower(short)
    }
}

/// The file name offered for one exported image: `dho-vault-<archive>-<block>.png`, with the
/// block zero-padded to six digits.
pub fn default_asset_file_name(archive: &str, block_index: u32) -> (name: String)
    ensures
        name@ == "dho-vault-"@ + safe_archive_name(archive@) + "-"@ + zero_padded(
            decimal_text(block_index as nat),
            6,
        ) + ".png"@,
{
    let length = archive.unicode_len();
    let mut kept = String::new();
    let mut kept_count: usize = 0;
    let mut index: usize = 0;
    assert(archive@.take(0) =~= Seq::<char>::empty());
    while index < length
        invariant
            length == archive@.len(),
            index <= length,
            kept_count == kept@.len(),
            kept@ == (if ascii_alphanumerics(archive@.take(index as int)).len() > 8 {
                ascii_alphanumerics(archive@.take(index as int)).take(8)
            } else {
                ascii_alphanumerics(archive@.take(index as int))
            }),
        decreases length - index,
    {
        let c = archive.get_char(index);
        proof {
            assert(archive@.take(index + 1).drop_last() =~= archive@.take(index as int));
            assert(archive@.take(index + 1).last() == c);
        }
        if (c >= '0' && c <= '9') || (c >= 'a' && c <= 'z') || (c >= 'A' && c <= 'Z') {
            if kept_count < 8 {
                kept.append(archive.substring_char(index, index + 1));
                kept_count += 1;
            }
            proof {
                let before = ascii_alphanumerics(archive@.take(index as int));
                let after = ascii_alphanumerics(archive@.take(index + 1));
                assert(after == before.push(c));
                assert(archive@.subrange(index as int, index + 1) =~= seq![c]);
                if before.len() < 8 {
                    assert(after.len() <= 8);
                } else {
                    assert(after.take(8) =~= (if before.len() > 8 {
                        before.take(8)
                    } else {
                        before
                    }));
                }
            }
        }
        index += 1;
    }
    assert(archive@.take(index as int) =~= archive@);
    let lowered = to_ascii_lowercase(kept.as_str());
    let mut name = String::from_str("dho-vault-");
    if kept_count == 0 {
        proof {
            reveal_strlit("image");
        }
        name.append("image");
    } else {
        name.append(lowered.as_str());
    }
    name.append("-");
    name.append(decimal_string_6(block_index).as_str());
    name.append(".png");
    name
}

/// The file name for one image of a saved page:
/// `dho-vault-<archive>-icon-<id>-block-<block>[-assembled].png`, with the archive in lower
/// case and the block zero-padded to six digits.
pub fn page_asset_file_name(archive: &str, icon_id: u32, block_index: u32, assembled: bool) -> (name: String)
    ensures
        name@ == "dho-vault-"@ + ascii_lower(archive@) + "-icon-"@ + decimal_text(icon_id as nat) + "-block-"@
            + zero_padded(decimal_text(block_index as nat), 6) + (if assembled {
            "-assembled"@
        } else {
            ""@
        }) + ".png"@,
{
    let mut name = String::from_str("dho-vault-");
    name.append(to_ascii_lowercase(archive).as_str());
    name.append("-icon-");
    name.append(decimal_string(icon_id).as_str());
    name.append("-block-");
    name.append(decimal_string_6(block_index).as_str());
    if assembled {
        name.append("-assembled");
    } else {
        proof {
            reveal_strlit("");
        }
    }
    name.append(".png");
    proof {
        if !assembled {
            assert(""@ =~= Seq::<char>::empty());
        }
    }
    name
}

/// Whether no name occurs twice.
pub open spec fn names_distinct(names: Seq<Seq<char>>) -> bool {
    forall|i: int, j: int| 0 <= i < j < names.len() ==> #[trigger] names[i] != #[trigger] names[j]
}

/// The first name that repeats an earlier one, or none when all names differ.
pub fn first_duplicate_name(names: &Vec<String>) -> (duplicate: Option<usize>)
    ensures
        match duplicate {
            None => names_distinct(names@.map_values(|n: String| n@)),
            Some(j) => {
                let views = names@.map_values(|n: String| n@);
                &&& 0 < j < names@.len()
                &&& exists|i: int| 0 <= i < j && views[i] == #[trigger] views[j as int]
                &&& names_distinct(views.take(j as int))
            },
        },
{
    let ghost views = names@.map_values(|n: String| n@);
    let mut j: usize = 0;
    while j < names.len()
        invariant
            j <= names@.len(),
            views == names@.map_values(|n: String| n@),
            names_distinct(views.take(j as int)),
        decreases names@.len() - j,
    {
        let mut i: usize = 0;
        while i < j
            invariant
                i <= j,
                j < names@.len(),
                views == names@.map_values(|n: String| n@),
                forall|k: int| 0 <= k < i ==> views[k] != views[j as int],
                names_distinct(views.take(j as int)),
            decreases j - i,
        {
            if crate::client::str_equal(names[i].as_str(), names[j].as_str()) {
                assert(views[i as int] == views[j as int]);
                assert(names_distinct(views.take(j as int)));
                return Some(j);
            }
            i += 1;
        }
        assert forall|a: int, b: int| 0 <= a < b < views.take(j + 1).len() implies #[trigger] views.take(j + 1)[a]
            != #[trigger] views.take(j + 1)[b] by {
            if b < j {
                assert(views.take(j as int)[a] != views.take(j as int)[b]);
            }
        }
        j += 1;
    }
    assert(views.take(j as int) =~= views);
    None
}

// ---------------------------------------------------------------------------
// Export jobs
// ---------------------------------------------------------------------------

/// Where an export job stands.
#[derive(Debug, Clone, Copy, PartialEq, Eq, Structural)]
pub enum CategoryExportState {
    Running,
    Completed,
    Cancelled,
    Failed,
}

/// What the viewer shows of an export job.
#[derive(Debug, Clone, PartialEq, Eq)]
pub struct CategoryExportStatus {
    pub job_id: u64,
    pub state: CategoryExportState,
    pub completed_count: usize,
    pub total_count: usize,
    pub error: Option<String>,
}

/// The current export job and whether it was asked to stop.
#[derive(Debug, Clone)]
pub struct CategoryExportJob {
    pub status: CategoryExportStatus,
    pub cancel_requested: bool,
}

/// Runs at most one export at a time and numbers the jobs it starts from one.
#[derive(Debug, Clone)]
pub struct CategoryExportManager {
    next_job_id: u64,
    current: Option<CategoryExportJob>,
}

impl CategoryExportManager {
    pub closed spec fn spec_next_job_id(&self) -> u64 {
        self.next_job_id
    }

    pub closed spec fn spec_current(&self) -> Option<CategoryExportJob> {
        self.current
    }

    /// Whether a job is still running.
    pub open spec fn spec_busy(&self) -> bool {
        self.spec_current() matches Some(job) && job.status.state == CategoryExportState::Running
    }

    /// A manager that has run no job.
    pub fn new() -> (manager: Self)
        ensures
            manager.spec_next_job_id() == 0,
            manager.spec_current() is None,
    {
        CategoryExportManager { next_job_id: 0, current: None }
    }

    /// Succeeds when no job is running.
    pub fn ensure_idle(&self) -> (idle: Result<(), String>)
        ensures
            idle is Ok <==> !self.spec_busy(),
    {
        match &self.current {
            Some(job) => {
                if job.status.state == CategoryExportState::Running {
                    return Err(String::from_str("이미 전체 저장 작업이 진행 중입니다."));
                }
            },
            None => {},
        }
        Ok(())
    }

    /// Starts a job of `total_count` images unless one is running; the new job gets the next
    /// number.
    pub fn start(&mut self, total_count: usize) -> (started: Result<u64, String>)
        requires
            old(self).spec_next_job_id() < u64::MAX,
        ensures
            old(self).spec_busy() ==> started is Err && *final(self) == *old(self),
            !old(self).spec_busy() ==> {
                &&& started == Ok::<u64, String>((old(self).spec_next_job_id() + 1) as u64)
                &&& final(self).spec_next_job_id() == old(self).spec_next_job_id() + 1
                &&& final(self).spec_current() matches Some(job) && job.status.job_id == old(self).spec_next_job_id() + 1
                    && job.status.state == CategoryExportState::Running && job.status.completed_count == 0
                    && job.status.total_count == total_count && job.status.error is None && !job.cancel_requested
            },
    {
        match &self.current {
            Some(job) => {
                if job.status.state == CategoryExportState::Running {
                    return Err(String::from_str("이미 전체 저장 작업이 진행 중입니다."));
                }
            },
            None => {},
        }
        let job_id = self.next_job_id + 1;
        self.next_job_id = job_id;
        self.current = Some(
            CategoryExportJob {
                status: CategoryExportStatus {
                    job_id,
                    state: CategoryExportState::Running,
                    completed_count: 0,
                    total_count,
                    error: None,
                },
                cancel_requested: false,
            },
        );
        Ok(job_id)
    }

    /// The status of job `job_id` when it is the current one.
    pub fn status(&self, job_id: u64) -> (status: Result<CategoryExportStatus, String>)
        ensures
            match self.spec_current() {
                Some(job) => if job.status.job_id == job_id {
                    status matches Ok(s) && s.job_id == job.status.job_id && s.state == job.status.state
                        && s.completed_count == job.status.completed_count && s.total_count
                        == job.status.total_count && s.error == job.status.error
                } else {
                    status is Err
                },
                None => status is Err,
            },
    {
        match &self.current {
            Some(job) => {
                if job.status.job_id == job_id {
                    let error = match &job.status.error {
                        Some(message) => Some(message.clone()),
                        None => None,
                    };
                    return Ok(
                        CategoryExportStatus {
                            job_id: job.status.job_id,
                            state: job.status.state,
                            completed_count: job.status.completed_count,
                            total_count: job.status.total_count,
                            error,
                        },
                    );
                }
            },
            None => {},
        }
        Err(String::from_str("전체 저장 작업을 찾지 못했습니다."))
    }

    /// Asks job `job_id` to stop; says whether it was still running.
    pub fn cancel(&mut self, job_id: u64) -> (running: Result<bool, String>)
        ensures
            final(self).spec_next_job_id() == old(self).spec_next_job_id(),
            match old(self).spec_current() {
                Some(job) => if job.status.job_id == job_id {
                    let running_before = job.status.state == CategoryExportState::Running;
                    &&& running == Ok::<bool, String>(running_before)
                    &&& final(self).spec_current() == Some(
                        CategoryExportJob { status: job.status, cancel_requested: job.cancel_requested || running_before },
                    )
                } else {
                    running is Err && *final(self) == *old(self)
                },
                None => running is Err && *final(self) == *old(self),
            },
    {
        match &mut self.current {
            Some(job) => {
                if job.status.job_id == job_id {
                    let running = job.status.state == CategoryExportState::Running;
                    if running {
                        job.cancel_requested = true;
                    }
                    return Ok(running);
                }
            },
            None => {},
        }
        Err(String::from_str("전체 저장 작업을 찾지 못했습니다."))
    }

    /// Whether job `job_id` was asked to stop.
    pub fn cancel_requested(&self, job_id: u64) -> (requested: bool)
        ensures
            requested == (self.spec_current() matches Some(job) && job.status.job_id == job_id
                && job.cancel_requested),
    {
        match &self.current {
            Some(job) => job.status.job_id == job_id && job.cancel_requested,
            None => false,
        }
    }

    /// Records progress of job `job_id`.
    pub fn report_progress(&mut self, job_id: u64, completed_count: usize, total_count: usize)
        ensures
            final(self).spec_next_job_id() == old(self).spec_next_job_id(),
            match old(self).spec_current() {
                Some(job) => if job.status.job_id == job_id {
                    final(self).spec_current() matches Some(after) && after.status.completed_count
                        == completed_count && after.status.total_count == total_count && after.status.state
                        == job.status.state && after.cancel_requested == job.cancel_requested
                } else {
                    *final(self) == *old(self)
                },
                None => *final(self) == *old(self),
            },
    {
        match &mut self.current {
            Some(job) => {
                if job.status.job_id == job_id {
                    job.status.completed_count = completed_count;
                    job.status.total_count = total_count;
                }
            },
            None => {},
        }
    }

    /// Ends job `job_id` in `state`: a completed job has every image done, a cancelled or
    /// failed one none, and a failed one keeps its error.
    pub fn finish(&mut self, job_id: u64, state: CategoryExportState, error: Option<String>)
        ensures
            final(self).spec_next_job_id() == old(self).spec_next_job_id(),
            match old(self).spec_current() {
                Some(job) => if job.status.job_id == job_id {
                    final(self).spec_current() matches Some(after) && after.status.state == state
                        && after.status.total_count == job.status.total_count && after.status.completed_count
                        == (if state == CategoryExportState::Completed {
                        job.status.total_count
                    } else {
                        0
                    }) && after.status.job_id == job_id && after.status.error == (if state
                        == CategoryExportState::Failed {
                        error
                    } else {
                        job.status.error
                    }) && after.cancel_requested == job.cancel_requested
                } else {
                    *final(self) == *old(self)
                },
                None => *final(self) == *old(self),
            },
    {
        match &mut self.current {
            Some(job) => {
                if job.status.job_id == job_id {
                    job.status.state = state;
                    job.status.completed_count = if state == CategoryExportState::Completed {
                        job.status.total_count
                    } else {
                        0
                    };
                    if state == CategoryExportState::Failed {
                        job.status.error = error;
                    }
                }
            },
            None => {},
        }
    }
}

impl Default for CategoryExportManager {
    fn default() -> (manager: Self)
        ensures
            manager.spec_next_job_id() == 0,
            manager.spec_current() is None,
    {
        Self::new()
    }
}

// ---------------------------------------------------------------------------
// Updates
// ---------------------------------------------------------------------------

/// Where released builds look for updates.
pub const STABLE_UPDATE_ENDPOINT: &'static str = "https://github.com/DHO-Unofficial-Dev/DHO-VAULT/releases/latest/download/latest.json";

/// Where prerelease builds look for updates.
pub const RC_UPDATE_ENDPOINT: &'static str = "https://github.com/DHO-Unofficial-Dev/DHO-VAULT/releases/download/updater-rc/latest.json";

/// The update feed for an installed build: prereleases follow the release-candidate feed.
pub fn update_endpoint(is_prerelease: bool) -> (endpoint: &'static str)
    ensures
        endpoint == (if is_prerelease {
            RC_UPDATE_ENDPOINT
        } else {
            STABLE_UPDATE_ENDPOINT
        }),
{
    if is_prerelease {
        RC_UPDATE_ENDPOINT
    } else {
        STABLE_UPDATE_ENDPOINT
    }
}

/// A flag that lets only one operation of a kind run at a time.
#[derive(Debug, Clone, Copy, PartialEq, Eq, Structural)]
pub struct BusyFlag {
    pub busy: bool,
}

impl BusyFlag {
    pub fn new() -> (flag: Self)
        ensures
            !flag.busy,
    {
        BusyFlag { busy: false }
    }

    /// Marks the operation as running, or fails with `message` when it already is.
    pub fn begin_operation(&mut self, message: &str) -> (started: Result<(), String>)
        ensures
            old(self).busy ==> (started matches Err(m) && m@ == message@) && final(self).busy,
            !old(self).busy ==> started is Ok && final(self).busy,
    {
        if self.busy {
            return Err(String::from_str(message));
        }
        self.busy = true;
        Ok(())
    }

    /// Marks the operation as finished.
    pub fn end_operation(&mut self)
        ensures
            !final(self).busy,
    {
        self.busy = false;
    }

    pub fn is_busy(&self) -> (busy: bool)
        ensures
            busy == self.busy,
    {
        self.busy
    }
}

} // verus!
