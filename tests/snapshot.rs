use git_navigator::branches::{resolve_branch_index, select_branch_by_index};
use git_navigator::cache::{
    branches_cache_path, branches_from_load, files_cache_path, files_from_load, get_cache_dir,
    repo_cache_key, resolve_cache_root, CacheLoad,
};
use git_navigator::command_init::{IndexCommandInit, InitAction, InitEvent};
use git_navigator::snapshot::{build_branch_snapshot, build_file_snapshot, StatusRecord};
use git_navigator::{BranchEntry, FileEntry, GitNavigatorError, GitStatus, StateCache, StatusFlags};

fn record(path: &str, flags: StatusFlags) -> StatusRecord {
    StatusRecord { path: path.to_string(), flags }
}

fn summary(files: &[FileEntry]) -> Vec<(usize, String, GitStatus, bool)> {
    files
        .iter()
        .map(|f| (f.index, f.path.clone(), f.status, f.staged))
        .collect()
}

fn three_file_repo() -> Vec<StatusRecord> {
    vec![
        record("a.txt", StatusFlags { wt_new: true, ..Default::default() }),
        record("b.txt", StatusFlags { index_new: true, ..Default::default() }),
        record("c.txt", StatusFlags { wt_modified: true, ..Default::default() }),
    ]
}

#[test]
fn end_to_end_snapshot_and_selection() {
    let files = build_file_snapshot(&three_file_repo());
    assert_eq!(
        summary(&files),
        vec![
            (1, "b.txt".to_string(), GitStatus::Added, true),
            (2, "c.txt".to_string(), GitStatus::Modified, false),
            (3, "a.txt".to_string(), GitStatus::Untracked, false),
        ]
    );
    for expr in ["1,3", "3,1"] {
        let init = IndexCommandInit::initialize(vec![expr.to_string()]);
        match init.step(InitEvent::CacheLoaded(Ok(files.clone()))) {
            InitAction::Ready(ctx) => {
                assert_eq!(ctx.selected_paths(), vec!["b.txt".to_string(), "a.txt".to_string()]);
            }
            other => panic!("unexpected: {:?}", other),
        }
    }
}

#[test]
fn building_twice_gives_the_same_indices() {
    let records = vec![
        record("z.rs", StatusFlags { index_modified: true, ..Default::default() }),
        record("m/n.rs", StatusFlags { conflicted: true, ..Default::default() }),
        record("a.rs", StatusFlags { wt_deleted: true, ..Default::default() }),
        record("b.rs", StatusFlags { index_renamed: true, ..Default::default() }),
    ];
    let first = build_file_snapshot(&records);
    let second = build_file_snapshot(&records);
    assert_eq!(first, second);
    let mut reversed = records.clone();
    reversed.reverse();
    assert_eq!(build_file_snapshot(&reversed), first);
    assert_eq!(
        first.iter().map(|f| f.path.as_str()).collect::<Vec<_>>(),
        vec!["m/n.rs", "z.rs", "b.rs", "a.rs"]
    );
}

#[test]
fn staged_and_unstaged_change_of_one_path_are_two_entries() {
    let records = vec![
        record("both.txt", StatusFlags { index_modified: true, wt_modified: true, ..Default::default() }),
        record("other.txt", StatusFlags { wt_modified: true, ..Default::default() }),
    ];
    let files = build_file_snapshot(&records);
    assert_eq!(
        summary(&files),
        vec![
            (1, "both.txt".to_string(), GitStatus::Modified, true),
            (2, "both.txt".to_string(), GitStatus::Modified, false),
            (3, "other.txt".to_string(), GitStatus::Modified, false),
        ]
    );
}

#[test]
fn paths_sort_by_component() {
    let records = vec![
        record("a-b", StatusFlags { wt_new: true, ..Default::default() }),
        record("a/b", StatusFlags { wt_new: true, ..Default::default() }),
        record("a", StatusFlags { wt_new: true, ..Default::default() }),
    ];
    let files = build_file_snapshot(&records);
    assert_eq!(
        files.iter().map(|f| f.path.as_str()).collect::<Vec<_>>(),
        vec!["a", "a/b", "a-b"]
    );
    assert!(build_file_snapshot(&vec![]).is_empty());
}

#[test]
fn branch_snapshot_numbers_other_branches() {
    let names = vec!["main".to_string(), "dev".to_string(), "feature".to_string()];
    let branches = build_branch_snapshot(&names, "main");
    let got: Vec<(usize, &str, bool)> =
        branches.iter().map(|b| (b.index, b.name.as_str(), b.is_current)).collect();
    assert_eq!(got, vec![(0, "main", true), (1, "dev", false), (2, "feature", false)]);
    let detached = build_branch_snapshot(&names, "detached at 1234567");
    let got: Vec<(usize, &str, bool)> =
        detached.iter().map(|b| (b.index, b.name.as_str(), b.is_current)).collect();
    assert_eq!(got, vec![(1, "dev", false), (2, "feature", false), (3, "main", false)]);
    assert!(build_branch_snapshot(&vec![], "main").is_empty());
}

fn branch(index: usize, name: &str, is_current: bool) -> BranchEntry {
    BranchEntry { index, name: name.to_string(), is_current }
}

#[test]
fn branch_selection_by_index() {
    let branches = vec![branch(0, "main", true), branch(1, "dev", false)];
    assert_eq!(select_branch_by_index(&branches, 1).unwrap(), "dev");
    match select_branch_by_index(&branches, 0) {
        Err(e) => assert_eq!(
            e.to_string(),
            "Cannot switch to current branch. Run 'gs' first to see available files."
        ),
        Ok(n) => panic!("unexpected: {}", n),
    }
    match select_branch_by_index(&branches, 12) {
        Err(GitNavigatorError::CustomEmptyFilesError { message }) => {
            assert_eq!(message, "Branch index 12 not found")
        }
        other => panic!("unexpected: {:?}", other),
    }
    match select_branch_by_index(&vec![], 1) {
        Err(GitNavigatorError::CustomEmptyFilesError { message }) => {
            assert_eq!(message, "No branches found in cache")
        }
        other => panic!("unexpected: {:?}", other),
    }
    match resolve_branch_index(Err(GitNavigatorError::NoCachedFiles), 1) {
        Err(e) => assert!(e.to_string().starts_with("Cannot load branch cache.")),
        Ok(n) => panic!("unexpected: {}", n),
    }
}

#[test]
fn cache_key_is_the_md5_of_the_path() {
    assert_eq!(repo_cache_key("/test/repo/path"), "0f9d3adb5db817bcaf8af4cdefe6669f");
    let root = "/home/u/.cache".to_string();
    assert_eq!(
        get_cache_dir(&root, "/test/repo/path"),
        "/home/u/.cache/git-navigator/0f9d3adb5db817bcaf8af4cdefe6669f"
    );
    assert_eq!(
        files_cache_path(&"/tmp/".to_string(), "/test/repo/path"),
        "/tmp/git-navigator/0f9d3adb5db817bcaf8af4cdefe6669f/files.json"
    );
    assert!(branches_cache_path(&root, "/r").ends_with("/branches.json"));
}

#[test]
fn cache_root_resolution() {
    assert_eq!(resolve_cache_root(Some("/x".to_string()), Some("/y".to_string())), "/x");
    assert_eq!(resolve_cache_root(None, Some("/y".to_string())), "/y");
    assert_eq!(resolve_cache_root(None, None), "/tmp");
}

#[test]
fn cache_load_outcomes_are_distinct_errors() {
    let path = "/c/files.json".to_string();
    match files_from_load(path.clone(), CacheLoad::Missing) {
        Err(GitNavigatorError::CacheFileNotFound { path: p }) => assert!(p.contains("files.json")),
        other => panic!("unexpected: {:?}", other),
    }
    assert!(matches!(
        files_from_load(path.clone(), CacheLoad::Corrupt("bad".to_string())),
        Err(GitNavigatorError::CacheParseFailed { .. })
    ));
    assert!(matches!(
        files_from_load(path.clone(), CacheLoad::Unreadable("denied".to_string())),
        Err(GitNavigatorError::CacheReadFailed { .. })
    ));
    let empty = StateCache::new("/repo".to_string());
    assert!(matches!(
        files_from_load(path.clone(), CacheLoad::Loaded(empty.clone())),
        Err(GitNavigatorError::NoCachedFiles)
    ));
    assert!(matches!(
        branches_from_load(path.clone(), CacheLoad::Loaded(empty)),
        Err(GitNavigatorError::NoCachedFiles)
    ));
    let mut full = StateCache::new("/repo".to_string());
    full.files = build_file_snapshot(&three_file_repo());
    assert_eq!(files_from_load(path, CacheLoad::Loaded(full)).unwrap().len(), 3);
}

#[test]
fn new_cache_record_is_empty_and_stamped() {
    let cache = StateCache::new("/repo".to_string());
    assert!(cache.files.is_empty());
    assert!(cache.branches.is_empty());
    assert_eq!(cache.repo_path, "/repo");
    assert!(cache.last_updated.secs_since_epoch > 0);
    assert!(cache.last_updated.nanos_since_epoch < 1_000_000_000);
}

#[test]
fn error_messages() {
    assert_eq!(GitNavigatorError::NotInGitRepo.to_string(), "Not in a git repository");
    assert_eq!(
        GitNavigatorError::IndexOutOfRange { index: 5, max: 3 }.to_string(),
        "Index 5 is out of range (1-3 available)"
    );
    assert_eq!(
        GitNavigatorError::InvalidIndexFormat { input: "abc".to_string() }.to_string(),
        "Invalid index format: abc. Use format like: 1, 1-3, or 1,3,5"
    );
    assert_eq!(
        GitNavigatorError::FileNotFound { path: "test.txt".to_string() }.to_string(),
        "File does not exist: test.txt"
    );
    let nested = GitNavigatorError::CustomCacheError {
        message: "Custom message".to_string(),
        source: Box::new(GitNavigatorError::Io("file not found".to_string())),
    };
    assert_eq!(
        nested.to_string(),
        "Custom message: IO error: file not found. Run 'gs' first to generate file list."
    );
}
