use git_navigator::colors::{aligned_status_code, status_color, StatusColor};
use git_navigator::git_status::{GitStatus, StatusFlags};

#[test]
fn test_git_status_as_str() {
    assert_eq!(GitStatus::Modified.as_str(), "M");
    assert_eq!(GitStatus::Added.as_str(), "A");
    assert_eq!(GitStatus::Deleted.as_str(), "D");
    assert_eq!(GitStatus::Renamed.as_str(), "R");
    assert_eq!(GitStatus::Copied.as_str(), "C");
    assert_eq!(GitStatus::TypeChanged.as_str(), "T");
    assert_eq!(GitStatus::Untracked.as_str(), "??");
    assert_eq!(GitStatus::Unmerged.as_str(), "UU");
}

#[test]
fn test_git_status_from_str() {
    assert_eq!(GitStatus::from("M"), GitStatus::Modified);
    assert_eq!(GitStatus::from("A"), GitStatus::Added);
    assert_eq!(GitStatus::from("D"), GitStatus::Deleted);
    assert_eq!(GitStatus::from("R"), GitStatus::Renamed);
    assert_eq!(GitStatus::from("C"), GitStatus::Copied);
    assert_eq!(GitStatus::from("T"), GitStatus::TypeChanged);
    assert_eq!(GitStatus::from("??"), GitStatus::Untracked);
    assert_eq!(GitStatus::from("UU"), GitStatus::Unmerged);
    assert_eq!(GitStatus::from("unknown"), GitStatus::Modified); // Fallback
}

#[test]
fn test_git_status_display() {
    assert_eq!(GitStatus::Modified.to_string(), "M");
    assert_eq!(GitStatus::Untracked.to_string(), "??");
    assert_eq!(GitStatus::Unmerged.to_string(), "UU");
}

#[test]
fn test_sort_priority() {
    // Unmerged has highest priority
    assert_eq!(GitStatus::Unmerged.sort_priority(false), 0);

    // Staged changes come before unstaged
    assert!(GitStatus::Added.sort_priority(true) < GitStatus::Modified.sort_priority(false));

    // Untracked has lowest priority
    assert!(GitStatus::Untracked.sort_priority(false) > GitStatus::Modified.sort_priority(false));
}

#[test]
fn test_description() {
    assert_eq!(GitStatus::Modified.description(), "modified");
    assert_eq!(GitStatus::Added.description(), "new");
    assert_eq!(GitStatus::Untracked.description(), "untracked");
    assert_eq!(GitStatus::Unmerged.description(), "both modified");
}

#[test]
fn test_staging_properties() {
    assert!(GitStatus::Added.is_staged_by_default());
    assert!(!GitStatus::Modified.is_staged_by_default());

    assert!(GitStatus::Modified.can_be_staged());
    assert!(!GitStatus::Untracked.can_be_staged());
    assert!(!GitStatus::Unmerged.can_be_staged());
}

#[test]
fn status_from_string_and_priorities() {
    assert_eq!(GitStatus::from("D".to_string()), GitStatus::Deleted);
    let staged = [
        GitStatus::Added,
        GitStatus::Modified,
        GitStatus::Deleted,
        GitStatus::Renamed,
        GitStatus::Copied,
        GitStatus::TypeChanged,
    ];
    for (i, s) in staged.iter().enumerate() {
        assert_eq!(s.sort_priority(true) as usize, i + 1);
    }
    assert_eq!(GitStatus::Added.sort_priority(false), 7);
    assert_eq!(GitStatus::Modified.sort_priority(false), 8);
    assert_eq!(GitStatus::TypeChanged.sort_priority(false), 12);
    assert_eq!(GitStatus::Untracked.sort_priority(true), 13);
    for s in staged.iter() {
        assert!(s.sort_priority(false) < GitStatus::Untracked.sort_priority(false));
        assert!(s.sort_priority(true) < s.sort_priority(false));
    }
}

#[test]
fn test_from_git2_flags() {
    let staged_new = StatusFlags { index_new: true, ..Default::default() };
    assert_eq!(GitStatus::from_git2_staged(staged_new), Some((GitStatus::Added, true)));
    let staged_modified = StatusFlags { index_modified: true, ..Default::default() };
    assert_eq!(
        GitStatus::from_git2_staged(staged_modified),
        Some((GitStatus::Modified, true))
    );
    let unstaged_new = StatusFlags { wt_new: true, ..Default::default() };
    assert_eq!(
        GitStatus::from_git2_unstaged(unstaged_new),
        Some((GitStatus::Untracked, false))
    );
    let conflicted = StatusFlags { conflicted: true, wt_modified: true, ..Default::default() };
    assert_eq!(
        GitStatus::from_git2_unstaged(conflicted),
        Some((GitStatus::Unmerged, false))
    );
    assert_eq!(GitStatus::from_git2_staged(conflicted), None);
    assert_eq!(GitStatus::from_git2_unstaged(StatusFlags::default()), None);
}

#[test]
fn status_colors_and_aligned_codes() {
    assert_eq!(status_color(GitStatus::Modified), StatusColor::Yellow);
    assert_eq!(status_color(GitStatus::Untracked), StatusColor::Cyan);
    assert_eq!(status_color(GitStatus::Copied), StatusColor::Blue);
    assert_eq!(status_color(GitStatus::Unmerged), StatusColor::BoldRed);
    assert_eq!(aligned_status_code(GitStatus::Modified), "M ");
    assert_eq!(aligned_status_code(GitStatus::Untracked), "??");
}
