use git_navigator::args_parser::ArgsParser;
use git_navigator::checkout::{checkout_request, is_numeric_index, CheckoutRequest, CheckoutUsage};
use git_navigator::command_init::{IndexCommandInit, InitAction, InitEvent};
use git_navigator::git_status::GitStatus;
use git_navigator::state::FileEntry;
use git_navigator::GitNavigatorError;
use std::path::PathBuf;

fn entry(index: usize, status: GitStatus, path: &str, staged: bool) -> FileEntry {
    FileEntry { index, status, path: path.to_string(), staged }
}

/// Runs the initialization sequence of an add command inside a repository
/// whose cache holds `files`.
fn add_flow(args: Vec<String>, files: Vec<FileEntry>) -> Result<Vec<usize>, GitNavigatorError> {
    let init = IndexCommandInit::initialize_with_messages(
        args,
        "Cannot load file cache",
        "No files available to add",
    );
    let mut event = InitEvent::Started;
    let mut files = Some(files);
    loop {
        match init.step(event) {
            InitAction::LocateRepository => event = InitEvent::RepoFound,
            InitAction::LoadCache => event = InitEvent::CacheLoaded(Ok(files.take().unwrap())),
            InitAction::Failed(e) => return Err(e),
            InitAction::Ready(ctx) => return Ok(ctx.indices),
        }
    }
}

fn cached() -> Vec<FileEntry> {
    vec![
        entry(1, GitStatus::Modified, "file1.txt", false),
        entry(2, GitStatus::Added, "file2.txt", true),
    ]
}

#[test]
fn test_execute_add_no_indices() {
    let result = add_flow(vec![], cached());
    assert!(result.is_err());
    let error_msg = result.unwrap_err().to_string();
    assert!(
        error_msg.contains("No file indices provided")
            || error_msg.contains("Cannot load file cache")
    );
}

#[test]
fn test_execute_add_empty_indices() {
    let result = add_flow(vec!["".to_string()], cached());
    assert!(result.is_err());
    // This will fail during parsing, not during empty check
    assert!(result.is_err());
}

#[test]
fn test_execute_add_invalid_indices() {
    let result = add_flow(vec!["abc".to_string()], cached());
    assert!(result.is_err());
    let error_msg = result.unwrap_err().to_string();
    assert!(
        error_msg.contains("Invalid index format")
            || error_msg.contains("Cannot load file cache")
    );
}

#[test]
fn add_test_memory_efficient_path_collection() {
    let files = vec![
        entry(1, GitStatus::Modified, "file1.txt", false),
        entry(2, GitStatus::Added, "file2.txt", true),
        entry(3, GitStatus::Untracked, "very/long/path/to/file3.txt", false),
    ];

    let paths_to_add: Vec<PathBuf> = files.iter().map(|file| PathBuf::from(&file.path)).collect();

    assert_eq!(paths_to_add.len(), 3);
    assert_eq!(paths_to_add[0], PathBuf::from("file1.txt"));
    assert_eq!(paths_to_add[1], PathBuf::from("file2.txt"));
    assert_eq!(paths_to_add[2], PathBuf::from("very/long/path/to/file3.txt"));

    let expected_paths = vec![
        PathBuf::from("file1.txt"),
        PathBuf::from("file2.txt"),
        PathBuf::from("very/long/path/to/file3.txt"),
    ];
    assert_eq!(paths_to_add, expected_paths);
}

#[test]
fn add_test_vector_preallocation_efficiency() {
    let files = vec![
        entry(1, GitStatus::Modified, "file1.txt", false),
        entry(2, GitStatus::Added, "file2.txt", true),
    ];

    let paths_to_add: Vec<PathBuf> = files.iter().map(|file| PathBuf::from(&file.path)).collect();

    assert_eq!(paths_to_add.len(), 2);
    assert_eq!(paths_to_add.capacity(), 2);
}

#[test]
fn test_path_extraction_handles_deleted_files() {
    let files = vec![
        entry(1, GitStatus::Modified, "modified.txt", false),
        entry(2, GitStatus::Deleted, "deleted.txt", false),
        entry(3, GitStatus::Added, "added.txt", true),
    ];

    let paths_to_add: Vec<PathBuf> = files.iter().map(|file| PathBuf::from(&file.path)).collect();

    assert_eq!(paths_to_add.len(), 3);
    assert_eq!(paths_to_add[0], PathBuf::from("modified.txt"));
    assert_eq!(paths_to_add[1], PathBuf::from("deleted.txt"));
    assert_eq!(paths_to_add[2], PathBuf::from("added.txt"));

    let deleted_file_path = &paths_to_add[1];
    assert_eq!(deleted_file_path.to_string_lossy(), "deleted.txt");
}

#[test]
fn test_is_numeric_index() {
    assert!(is_numeric_index("1"));
    assert!(is_numeric_index("1,2,3"));
    assert!(is_numeric_index("1-3"));
    assert!(is_numeric_index("1 2 3"));
    assert!(is_numeric_index("1-3,5"));
    assert!(is_numeric_index("1 3-5,8"));

    assert!(!is_numeric_index("main"));
    assert!(!is_numeric_index("feature-branch"));
    assert!(!is_numeric_index("fix/bug-123"));
    assert!(!is_numeric_index("-b"));
    assert!(!is_numeric_index("abc"));
}

#[test]
fn test_execute_checkout_no_args() {
    let args = match checkout_request(false, vec![]) {
        CheckoutRequest::CheckoutFiles(args) => args,
        other => panic!("unexpected: {:?}", other),
    };
    assert!(args.is_empty());
    let init = IndexCommandInit::initialize_with_messages(
        args,
        "Cannot load file cache",
        "No files available to checkout",
    );
    match init.step(InitEvent::Started) {
        InitAction::Failed(e) => assert!(e.to_string().contains("No file indices provided")),
        other => panic!("unexpected: {:?}", other),
    }
}

#[test]
fn test_execute_checkout_branch_creation_incomplete() {
    let result = checkout_request(false, vec!["-b".to_string()]);
    assert!(matches!(
        result,
        CheckoutRequest::ShowUsage(CheckoutUsage::BranchNameRequiredAfterFlag)
    ));
}

#[test]
fn checkout_arguments_are_classified() {
    match checkout_request(false, vec!["main".to_string()]) {
        CheckoutRequest::CheckoutBranch(name) => assert_eq!(name, "main"),
        other => panic!("unexpected: {:?}", other),
    }
    match checkout_request(false, vec!["-b".to_string(), "topic".to_string()]) {
        CheckoutRequest::CreateBranch(name) => assert_eq!(name, "topic"),
        other => panic!("unexpected: {:?}", other),
    }
    match checkout_request(true, vec!["topic".to_string()]) {
        CheckoutRequest::CreateBranch(name) => assert_eq!(name, "topic"),
        other => panic!("unexpected: {:?}", other),
    }
    assert!(matches!(
        checkout_request(true, vec![]),
        CheckoutRequest::ShowUsage(CheckoutUsage::BranchNameRequiredWithFlag)
    ));
    assert!(matches!(
        checkout_request(true, vec!["a".to_string(), "b".to_string()]),
        CheckoutRequest::ShowUsage(CheckoutUsage::OnlyOneBranchName)
    ));
    match checkout_request(false, vec!["1".to_string(), "3-4".to_string()]) {
        CheckoutRequest::CheckoutFiles(args) => assert_eq!(args, vec!["1", "3-4"]),
        other => panic!("unexpected: {:?}", other),
    }
    assert_eq!(
        CheckoutUsage::BranchNameRequiredAfterFlag.message(),
        "Branch name required after -b flag"
    );
}

#[test]
fn test_execute_reset_invalid_indices() {
    let result = ArgsParser::parse_indices(vec!["abc".to_string()], 5);
    assert!(result.is_err());
    let error_msg = result.unwrap_err().to_string();
    assert!(error_msg.contains("Invalid index format"));
}

#[test]
fn reset_test_memory_efficient_path_collection() {
    let files = vec![
        entry(1, GitStatus::Modified, "file1.txt", false),
        entry(2, GitStatus::Added, "file2.txt", true),
        entry(3, GitStatus::Untracked, "very/long/path/to/file3.txt", false),
    ];

    let paths_to_reset: Vec<PathBuf> = files.iter().map(|file| PathBuf::from(&file.path)).collect();

    assert_eq!(paths_to_reset.len(), 3);
    assert_eq!(paths_to_reset[0], PathBuf::from("file1.txt"));
    assert_eq!(paths_to_reset[1], PathBuf::from("file2.txt"));
    assert_eq!(paths_to_reset[2], PathBuf::from("very/long/path/to/file3.txt"));

    let expected_paths = vec![
        PathBuf::from("file1.txt"),
        PathBuf::from("file2.txt"),
        PathBuf::from("very/long/path/to/file3.txt"),
    ];
    assert_eq!(paths_to_reset, expected_paths);
}

#[test]
fn reset_test_vector_preallocation_efficiency() {
    let files = vec![
        entry(1, GitStatus::Modified, "file1.txt", false),
        entry(2, GitStatus::Added, "file2.txt", true),
    ];

    let paths_to_reset: Vec<PathBuf> = files.iter().map(|file| PathBuf::from(&file.path)).collect();

    assert_eq!(paths_to_reset.len(), 2);
    assert_eq!(paths_to_reset.capacity(), 2);
}

#[test]
fn test_print_status_line_logic() {
    let file_entry = entry(1, GitStatus::Modified, "test.txt", false);

    let filename = &file_entry.path;
    assert_eq!(filename, "test.txt");
    assert_eq!(file_entry.status.description(), "modified");
    assert_eq!(file_entry.index, 1);
    assert!(!file_entry.staged);
}

#[test]
fn test_file_grouping_logic() {
    let files = vec![
        entry(1, GitStatus::Modified, "modified.txt", false),
        entry(2, GitStatus::Added, "staged.txt", true),
        entry(3, GitStatus::Untracked, "untracked.txt", false),
        entry(4, GitStatus::Unmerged, "conflict.txt", false),
    ];

    let mut staged_files = Vec::new();
    let mut unstaged_files = Vec::new();
    let mut untracked_files = Vec::new();
    let mut unmerged_files = Vec::new();

    for file in &files {
        match file.status {
            GitStatus::Unmerged => unmerged_files.push(file),
            GitStatus::Untracked => untracked_files.push(file),
            _ if file.staged => staged_files.push(file),
            _ => unstaged_files.push(file),
        }
    }

    assert_eq!(staged_files.len(), 1);
    assert_eq!(unstaged_files.len(), 1);
    assert_eq!(untracked_files.len(), 1);
    assert_eq!(unmerged_files.len(), 1);

    assert_eq!(staged_files[0].path, "staged.txt");
    assert_eq!(unstaged_files[0].path, "modified.txt");
    assert_eq!(untracked_files[0].path, "untracked.txt");
    assert_eq!(unmerged_files[0].path, "conflict.txt");
}

#[test]
fn test_context_methods() {
    let files = vec![
        entry(1, GitStatus::Modified, "file1.txt", false),
        entry(2, GitStatus::Added, "file2.txt", true),
    ];
    assert_eq!(files.len(), 2);
}

#[test]
fn empty_arguments_fail_before_the_repository_is_looked_at() {
    let init = IndexCommandInit::initialize_with_messages(vec![], "Cannot load file cache", "x");
    match init.step(InitEvent::Started) {
        InitAction::Failed(GitNavigatorError::NoIndicesProvided) => {}
        other => panic!("unexpected: {:?}", other),
    }
    let generic = IndexCommandInit::initialize(vec![]);
    assert!(matches!(
        generic.step(InitEvent::Started),
        InitAction::Failed(GitNavigatorError::NoIndicesProvided)
    ));
}

#[test]
fn facade_errors_in_order() {
    let init = IndexCommandInit::initialize_with_messages(
        vec!["1".to_string()],
        "Cannot load file cache",
        "No files available to checkout",
    );
    assert!(matches!(init.step(InitEvent::Started), InitAction::LocateRepository));
    match init.step(InitEvent::RepoNotFound) {
        InitAction::Failed(e) => assert_eq!(e.to_string(), "Not in a git repository"),
        other => panic!("unexpected: {:?}", other),
    }
    assert!(matches!(init.step(InitEvent::RepoFound), InitAction::LoadCache));
    let missing = GitNavigatorError::CacheFileNotFound { path: "/c/files.json".to_string() };
    match init.step(InitEvent::CacheLoaded(Err(missing))) {
        InitAction::Failed(GitNavigatorError::CustomCacheError { message, source }) => {
            assert_eq!(message, "Cannot load file cache");
            assert!(matches!(*source, GitNavigatorError::CacheFileNotFound { .. }));
        }
        other => panic!("unexpected: {:?}", other),
    }
    match init.step(InitEvent::CacheLoaded(Ok(vec![]))) {
        InitAction::Failed(e) => assert_eq!(
            e.to_string(),
            "No files available to checkout. Run 'gs' first to see available files."
        ),
        other => panic!("unexpected: {:?}", other),
    }
    match init.step(InitEvent::CacheLoaded(Ok(cached()))) {
        InitAction::Ready(ctx) => {
            assert_eq!(ctx.indices, vec![1]);
            assert_eq!(ctx.file_count(), 2);
            assert_eq!(ctx.selected_count(), 1);
            assert!(ctx.has_selected_files());
            assert_eq!(ctx.selected_paths(), vec!["file1.txt".to_string()]);
            assert_eq!(ctx.get_selected_files()[0].path, "file1.txt");
        }
        other => panic!("unexpected: {:?}", other),
    }
    let generic = IndexCommandInit::initialize(vec!["1".to_string()]);
    match generic.step(InitEvent::CacheLoaded(Err(GitNavigatorError::NoCachedFiles))) {
        InitAction::Failed(e) => assert_eq!(
            e.to_string(),
            "Cannot load file cache: No cached files found. Run 'gs' first to generate file list.. Run 'gs' first to generate file list."
        ),
        other => panic!("unexpected: {:?}", other),
    }
    assert!(matches!(
        generic.step(InitEvent::CacheLoaded(Ok(vec![]))),
        InitAction::Failed(GitNavigatorError::NoAvailableFiles)
    ));
}
