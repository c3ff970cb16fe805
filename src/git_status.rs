//! The kinds of change a file can have, their display codes, and the order in
//! which a snapshot lists them.

use vstd::prelude::*;
use crate::text::same_text;

verus! {

#[derive(Debug, Clone, Copy, PartialEq, Eq, Structural, Hash)]
pub enum GitStatus {
    /// Modified file (M)
    Modified,
    /// Added/new file in the index (A)
    Added,
    /// Deleted file (D)
    Deleted,
    /// Renamed file (R)
    Renamed,
    /// Copied file (C)
    Copied,
    /// Type changed (T)
    TypeChanged,
    /// Untracked file (??)
    Untracked,
    /// Unmerged/conflicted file (UU)
    Unmerged,
}

/// The status flags that the repository reports for one path.
#[derive(Debug, Clone, Copy, PartialEq, Eq, Structural, Default)]
pub struct StatusFlags {
    pub index_new: bool,
    pub index_modified: bool,
    pub index_deleted: bool,
    pub index_renamed: bool,
    pub index_typechange: bool,
    pub wt_new: bool,
    pub wt_modified: bool,
    pub wt_deleted: bool,
    pub wt_typechange: bool,
    pub wt_renamed: bool,
    pub conflicted: bool,
}

/// The staged change of a path: the first index flag set, in the order
/// new, modified, deleted, renamed, type change.
pub open spec fn staged_change(f: StatusFlags) -> Option<(GitStatus, bool)> {
    if f.index_new {
        Some((GitStatus::Added, true))
    } else if f.index_modified {
        Some((GitStatus::Modified, true))
    } else if f.index_deleted {
        Some((GitStatus::Deleted, true))
    } else if f.index_renamed {
        Some((GitStatus::Renamed, true))
    } else if f.index_typechange {
        Some((GitStatus::TypeChanged, true))
    } else {
        None
    }
}

/// The unstaged change of a path: a conflict first, then the first work-tree
/// flag set, in the order new, modified, deleted, renamed, type change.
pub open spec fn unstaged_change(f: StatusFlags) -> Option<(GitStatus, bool)> {
    if f.conflicted {
        Some((GitStatus::Unmerged, false))
    } else if f.wt_new {
        Some((GitStatus::Untracked, false))
    } else if f.wt_modified {
        Some((GitStatus::Modified, false))
    } else if f.wt_deleted {
        Some((GitStatus::Deleted, false))
    } else if f.wt_renamed {
        Some((GitStatus::Renamed, false))
    } else if f.wt_typechange {
        Some((GitStatus::TypeChanged, false))
    } else {
        None
    }
}

/// Display code of each status.
pub open spec fn status_code(s: GitStatus) -> Seq<char> {
    match s {
        GitStatus::Modified => "M"@,
        GitStatus::Added => "A"@,
        GitStatus::Deleted => "D"@,
        GitStatus::Renamed => "R"@,
        GitStatus::Copied => "C"@,
        GitStatus::TypeChanged => "T"@,
        GitStatus::Untracked => "??"@,
        GitStatus::Unmerged => "UU"@,
    }
}

/// The status that a display code stands for; an unknown code reads as modified.
pub open spec fn status_from_code(c: Seq<char>) -> GitStatus {
    if c == "A"@ {
        GitStatus::Added
    } else if c == "D"@ {
        GitStatus::Deleted
    } else if c == "R"@ {
        GitStatus::Renamed
    } else if c == "C"@ {
        GitStatus::Copied
    } else if c == "T"@ {
        GitStatus::TypeChanged
    } else if c == "??"@ {
        GitStatus::Untracked
    } else if c == "UU"@ {
        GitStatus::Unmerged
    } else {
        GitStatus::Modified
    }
}

/// Listing order: unmerged first; then staged changes as added, modified,
/// deleted, renamed, copied, type change; then unstaged changes in the same
/// order; then untracked, last.
pub open spec fn priority(s: GitStatus, staged: bool) -> u8 {
    match s {
        GitStatus::Unmerged => 0,
        GitStatus::Added => if staged { 1 } else { 7 },
        GitStatus::Modified => if staged { 2 } else { 8 },
        GitStatus::Deleted => if staged { 3 } else { 9 },
        GitStatus::Renamed => if staged { 4 } else { 10 },
        GitStatus::Copied => if staged { 5 } else { 11 },
        GitStatus::TypeChanged => if staged { 6 } else { 12 },
        GitStatus::Untracked => 13,
    }
}

pub open spec fn status_description(s: GitStatus) -> Seq<char> {
    match s {
        GitStatus::Modified => "modified"@,
        GitStatus::Added => "new"@,
        GitStatus::Deleted => "deleted"@,
        GitStatus::Renamed => "renamed"@,
        GitStatus::Copied => "copied"@,
        GitStatus::TypeChanged => "type changed"@,
        GitStatus::Untracked => "untracked"@,
        GitStatus::Unmerged => "both modified"@,
    }
}

/// Untracked entries come after every other entry.
pub proof fn lemma_untracked_last(s: GitStatus, staged: bool, b: bool)
    requires
        s != GitStatus::Untracked,
    ensures
        priority(s, staged) < priority(GitStatus::Untracked, b),
{
}

/// Unmerged entries come before every other entry.
pub proof fn lemma_unmerged_first(s: GitStatus, staged: bool, b: bool)
    requires
        s != GitStatus::Unmerged,
    ensures
        priority(GitStatus::Unmerged, b) < priority(s, staged),
{
}

/// A staged change comes before the unstaged change of the same kind.
pub proof fn lemma_staged_before_unstaged(s: GitStatus)
    requires
        s != GitStatus::Untracked,
        s != GitStatus::Unmerged,
    ensures
        priority(s, true) < priority(s, false),
{
}

impl GitStatus {
    /// The status of a path's staged change, if it has one.
    pub fn from_git2_staged(flags: StatusFlags) -> (r: Option<(GitStatus, bool)>)
        ensures
            r == staged_change(flags),
    {
        if flags.index_new {
            return Some((GitStatus::Added, true));
        }
        if flags.index_modified {
            return Some((GitStatus::Modified, true));
        }
        if flags.index_deleted {
            return Some((GitStatus::Deleted, true));
        }
        if flags.index_renamed {
            return Some((GitStatus::Renamed, true));
        }
        if flags.index_typechange {
            return Some((GitStatus::TypeChanged, true));
        }
        None
    }

    /// The status of a path's unstaged change, if it has one.
    pub fn from_git2_unstaged(flags: StatusFlags) -> (r: Option<(GitStatus, bool)>)
        ensures
            r == unstaged_change(flags),
    {
        if flags.conflicted {
            return Some((GitStatus::Unmerged, false));
        }
        if flags.wt_new {
            return Some((GitStatus::Untracked, false));
        }
        if flags.wt_modified {
            return Some((GitStatus::Modified, false));
        }
        if flags.wt_deleted {
            return Some((GitStatus::Deleted, false));
        }
        if flags.wt_renamed {
            return Some((GitStatus::Renamed, false));
        }
        if flags.wt_typechange {
            return Some((GitStatus::TypeChanged, false));
        }
        None
    }

    /// The short display code (`M`, `A`, `??`, ...).
    pub fn as_str(&self) -> (r: &'static str)
        ensures
            r@ == status_code(*self),
    {
        match self {
            GitStatus::Modified => "M",
            GitStatus::Added => "A",
            GitStatus::Deleted => "D",
            GitStatus::Renamed => "R",
            GitStatus::Copied => "C",
            GitStatus::TypeChanged => "T",
            GitStatus::Untracked => "??",
            GitStatus::Unmerged => "UU",
        }
    }

    /// The rank of an entry with this status in a snapshot's order.
    pub fn sort_priority(&self, staged: bool) -> (r: u8)
        ensures
            r == priority(*self, staged),
    {
        match self {
            GitStatus::Unmerged => 0,
            GitStatus::Added => if staged { 1 } else { 7 },
            GitStatus::Modified => if staged { 2 } else { 8 },
            GitStatus::Deleted => if staged { 3 } else { 9 },
            GitStatus::Renamed => if staged { 4 } else { 10 },
            GitStatus::Copied => if staged { 5 } else { 11 },
            GitStatus::TypeChanged => if staged { 6 } else { 12 },
            GitStatus::Untracked => 13,
        }
    }

    /// A human-readable description.
    pub fn description(&self) -> (r: &'static str)
        ensures
            r@ == status_description(*self),
    {
        match self {
            GitStatus::Modified => "modified",
            GitStatus::Added => "new",
            GitStatus::Deleted => "deleted",
            GitStatus::Renamed => "renamed",
            GitStatus::Copied => "copied",
            GitStatus::TypeChanged => "type changed",
            GitStatus::Untracked => "untracked",
            GitStatus::Unmerged => "both modified",
        }
    }

    /// Whether this status is a staged change by itself (an added file).
    pub fn is_staged_by_default(&self) -> (r: bool)
        ensures
            r == (*self == GitStatus::Added),
    {
        matches!(self, GitStatus::Added)
    }

    /// Whether a file with this status can be staged as a change.
    pub fn can_be_staged(&self) -> (r: bool)
        ensures
            r == !(*self == GitStatus::Untracked || *self == GitStatus::Unmerged),
    {
        !matches!(self, GitStatus::Untracked | GitStatus::Unmerged)
    }

    /// The display code, as an owned string.
    pub fn to_string(&self) -> (r: String)
        ensures
            r@ == status_code(*self),
    {
        String::from_str(self.as_str())
    }
}

impl<'a> From<&'a str> for GitStatus {
    fn from(status: &'a str) -> (r: GitStatus)
        ensures
            r == status_from_code(status@),
    {
        if same_text(status, "A") {
            GitStatus::Added
        } else if same_text(status, "D") {
            GitStatus::Deleted
        } else if same_text(status, "R") {
            GitStatus::Renamed
        } else if same_text(status, "C") {
            GitStatus::Copied
        } else if same_text(status, "T") {
            GitStatus::TypeChanged
        } else if same_text(status, "??") {
            GitStatus::Untracked
        } else if same_text(status, "UU") {
            GitStatus::Unmerged
        } else {
            GitStatus::Modified
        }
    }
}

impl<'a> vstd::std_specs::convert::FromSpecImpl<&'a str> for GitStatus {
    open spec fn obeys_from_spec() -> bool {
        true
    }

    open spec fn from_spec(v: &'a str) -> GitStatus {
        status_from_code(v@)
    }
}

impl From<String> for GitStatus {
    fn from(status: String) -> (r: GitStatus)
        ensures
            r == status_from_code(status@),
    {
        <GitStatus as From<&str>>::from(status.as_str())
    }
}

impl vstd::std_specs::convert::FromSpecImpl<String> for GitStatus {
    open spec fn obeys_from_spec() -> bool {
        true
    }

    open spec fn from_spec(v: String) -> GitStatus {
        status_from_code(v@)
    }
}

} // verus!
