//! The records that a snapshot is made of and the cache record that carries a
//! snapshot from one invocation to the next.

use vstd::prelude::*;
use crate::git_status::GitStatus;

verus! {

/// One changed file of a snapshot.
#[derive(Debug, Clone, PartialEq, Eq)]
pub struct FileEntry {
    /// 1-based position in the snapshot's order.
    pub index: usize,
    pub status: GitStatus,
    /// Repository-relative path.
    pub path: String,
    pub staged: bool,
}

/// One local branch of a snapshot.
#[derive(Debug, Clone, PartialEq, Eq)]
pub struct BranchEntry {
    /// 1-based position among the branches other than the current one; 0 for
    /// the current branch, which is not numbered.
    pub index: usize,
    pub name: String,
    pub is_current: bool,
}

/// A point in time, as the time elapsed since the Unix epoch.
#[derive(Debug, Clone, Copy, PartialEq, Eq, Structural)]
pub struct Timestamp {
    pub secs_since_epoch: u64,
    pub nanos_since_epoch: u32,
}

/// A snapshot as it is stored between invocations.
#[derive(Debug, Clone, PartialEq, Eq)]
pub struct StateCache {
    pub files: Vec<FileEntry>,
    pub branches: Vec<BranchEntry>,
    pub last_updated: Timestamp,
    pub repo_path: String,
}

impl Timestamp {
    pub open spec fn wf(self) -> bool {
        self.nanos_since_epoch < 1_000_000_000
    }
}

/// The time elapsed since the Unix epoch, as whole seconds and the nanoseconds
/// beyond them; `None` when the clock reads a time before the epoch.
/// Relies on `SystemTime::elapsed` (on `UNIX_EPOCH`) and on
/// `Duration::subsec_nanos`, which is always below one billion.
#[verifier::external_body]
fn time_since_epoch() -> (r: Option<(u64, u32)>)
    ensures
        r matches Some(t) ==> t.1 < 1_000_000_000,
{
    match std::time::UNIX_EPOCH.elapsed() {
        Ok(d) => Some((d.as_secs(), d.subsec_nanos())),
        Err(_) => None,
    }
}

impl StateCache {
    /// An empty cache record for `repo_path`, stamped with the current time
    /// (the epoch itself if the clock reads earlier).
    pub fn new(repo_path: String) -> (r: Self)
        ensures
            r.files@.len() == 0,
            r.branches@.len() == 0,
            r.repo_path == repo_path,
            r.last_updated.wf(),
    {
        let last_updated = match time_since_epoch() {
            Some((secs, nanos)) => Timestamp { secs_since_epoch: secs, nanos_since_epoch: nanos },
            None => Timestamp { secs_since_epoch: 0, nanos_since_epoch: 0 },
        };
        StateCache { files: Vec::new(), branches: Vec::new(), last_updated, repo_path }
    }
}

} // verus!
