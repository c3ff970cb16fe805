//! Which color each kind of change is shown in, and the status codes padded
//! to a common width for aligned listings.

use vstd::prelude::*;
use crate::git_status::GitStatus;

verus! {

#[derive(Debug, Clone, Copy, PartialEq, Eq, Structural)]
pub enum StatusColor {
    Yellow,
    Cyan,
    Red,
    Green,
    Blue,
    Magenta,
    BoldRed,
}

/// Modified yellow, untracked cyan, deleted red, added green, renamed and
/// copied blue, type changes magenta, conflicts bold red.
pub open spec fn color_of(s: GitStatus) -> StatusColor {
    match s {
        GitStatus::Modified => StatusColor::Yellow,
        GitStatus::Untracked => StatusColor::Cyan,
        GitStatus::Deleted => StatusColor::Red,
        GitStatus::Added => StatusColor::Green,
        GitStatus::Renamed => StatusColor::Blue,
        GitStatus::Copied => StatusColor::Blue,
        GitStatus::TypeChanged => StatusColor::Magenta,
        GitStatus::Unmerged => StatusColor::BoldRed,
    }
}

/// The status code padded to two characters.
pub open spec fn aligned_code(s: GitStatus) -> Seq<char> {
    match s {
        GitStatus::Modified => "M "@,
        GitStatus::Added => "A "@,
        GitStatus::Deleted => "D "@,
        GitStatus::Renamed => "R "@,
        GitStatus::Copied => "C "@,
        GitStatus::TypeChanged => "T "@,
        GitStatus::Untracked => "??"@,
        GitStatus::Unmerged => "UU"@,
    }
}

pub fn status_color(s: GitStatus) -> (r: StatusColor)
    ensures
        r == color_of(s),
{
    match s {
        GitStatus::Modified => StatusColor::Yellow,
        GitStatus::Untracked => StatusColor::Cyan,
        GitStatus::Deleted => StatusColor::Red,
        GitStatus::Added => StatusColor::Green,
        GitStatus::Renamed => StatusColor::Blue,
        GitStatus::Copied => StatusColor::Blue,
        GitStatus::TypeChanged => StatusColor::Magenta,
        GitStatus::Unmerged => StatusColor::BoldRed,
    }
}

pub fn aligned_status_code(s: GitStatus) -> (r: &'static str)
    ensures
        r@ == aligned_code(s),
{
    match s {
        GitStatus::Modified => "M ",
        GitStatus::Added => "A ",
        GitStatus::Deleted => "D ",
        GitStatus::Renamed => "R ",
        GitStatus::Copied => "C ",
        GitStatus::TypeChanged => "T ",
        GitStatus::Untracked => "??",
        GitStatus::Unmerged => "UU",
    }
}

} // verus!
