use git_navigator::cache::{branches_cache_path, branches_from_load, files_cache_path, files_from_load, get_cache_dir, CacheLoad};
use git_navigator::command_init::{IndexCommandInit, InitAction, InitEvent};
use git_navigator::{FileEntry, GitNavigatorError, GitStatus};
use std::path::Path;

fn flow(args: Vec<String>, cache_msg: &str, empty_msg: &str) -> Result<Vec<usize>, GitNavigatorError> {
    let init = IndexCommandInit::initialize_with_messages(args, cache_msg, empty_msg);
    let files = vec![FileEntry {
        index: 1,
        status: GitStatus::Modified,
        path: "file1.txt".to_string(),
        staged: false,
    }];
    let mut files = Some(files);
    let mut event = InitEvent::Started;
    loop {
        match init.step(event) {
            InitAction::LocateRepository => event = InitEvent::RepoFound,
            InitAction::LoadCache => event = InitEvent::CacheLoaded(Ok(files.take().unwrap())),
            InitAction::Failed(e) => return Err(e),
            InitAction::Ready(ctx) => return Ok(ctx.indices),
        }
    }
}

#[test]
fn test_error_display() {
    let err = GitNavigatorError::NotInGitRepo;
    assert_eq!(err.to_string(), "Not in a git repository");
}

#[test]
fn test_file_not_found_error() {
    let err = GitNavigatorError::file_not_found("test.txt");
    assert_eq!(err.to_string(), "File does not exist: test.txt");
}

#[test]
fn test_index_out_of_range_error() {
    let err = GitNavigatorError::index_out_of_range(5, 3);
    assert_eq!(err.to_string(), "Index 5 is out of range (1-3 available)");
}

#[test]
fn test_invalid_index_format_error() {
    let err = GitNavigatorError::invalid_index_format("abc");
    assert_eq!(
        err.to_string(),
        "Invalid index format: abc. Use format like: 1, 1-3, or 1,3,5"
    );
}

#[test]
fn test_custom_cache_error() {
    let inner_err = GitNavigatorError::Io("file not found".to_string());
    let err = GitNavigatorError::custom_cache_error("Custom message", inner_err);
    assert!(err.to_string().contains("Custom message"));
}

#[test]
fn test_cache_directory_creation_failed() {
    let err = GitNavigatorError::cache_directory_creation_failed("/test/path", "permission denied");
    assert!(err.to_string().contains("/test/path"));
    assert!(err.to_string().contains("permission denied"));
}

#[test]
fn test_cache_serialization_failed() {
    let parse_err = serde_json::from_str::<serde_json::Value>("invalid").unwrap_err();
    let err = GitNavigatorError::cache_serialization_failed(&parse_err.to_string());
    assert!(err.to_string().contains("Failed to serialize cache data"));
}

#[test]
fn test_cache_write_failed() {
    let err = GitNavigatorError::cache_write_failed("/test/file.json", "no space left");
    assert!(err.to_string().contains("/test/file.json"));
    assert!(err.to_string().contains("no space left"));
}

#[test]
fn test_cache_file_not_found() {
    let err = GitNavigatorError::cache_file_not_found("/test/cache.json");
    assert!(err.to_string().contains("/test/cache.json"));
    assert!(err.to_string().contains("does not exist"));
}

#[test]
fn test_cache_read_failed() {
    let err = GitNavigatorError::cache_read_failed("/test/cache.json", "access denied");
    assert!(err.to_string().contains("/test/cache.json"));
    assert!(err.to_string().contains("access denied"));
}

#[test]
fn test_cache_parse_failed() {
    let json_err = serde_json::from_str::<serde_json::Value>("{ invalid json").unwrap_err();
    let err = GitNavigatorError::cache_parse_failed("/test/cache.json", &json_err.to_string());
    assert!(err.to_string().contains("/test/cache.json"));
    assert!(err.to_string().contains("Failed to parse"));
}

#[test]
fn status_test_get_cache_dir() {
    let cache_dir = get_cache_dir(&"/home/user/.cache".to_string(), "/test/repo/path");
    assert!(cache_dir.contains("git-navigator"));
    assert!(Path::new(&cache_dir).is_absolute());
}

#[test]
fn branches_test_get_cache_dir() {
    let cache_dir = get_cache_dir(&"/tmp".to_string(), "/test/repo/path");
    assert!(cache_dir.contains("git-navigator"));
    assert!(Path::new(&cache_dir).is_absolute());
}

#[test]
fn test_load_files_cache_nonexistent_file() {
    let cache_file = files_cache_path(&"/tmp".to_string(), "/non/existent/repo/path");
    let result = files_from_load(cache_file, CacheLoad::Missing);
    match result {
        Err(GitNavigatorError::CacheFileNotFound { path }) => assert!(path.contains("files.json")),
        other => panic!("Expected CacheFileNotFound error, got: {:?}", other),
    }
}

#[test]
fn test_load_branches_cache_nonexistent_file() {
    let cache_file = branches_cache_path(&"/tmp".to_string(), "/non/existent/repo/path");
    let result = branches_from_load(cache_file, CacheLoad::Missing);
    match result {
        Err(GitNavigatorError::CacheFileNotFound { path }) => assert!(path.contains("branches.json")),
        other => panic!("Expected CacheFileNotFound error, got: {:?}", other),
    }
}

#[test]
fn test_execute_reset_no_indices() {
    let result = flow(vec![], "Cannot load file cache", "No files available to reset");
    assert!(result.is_err());
    let error_msg = result.unwrap_err().to_string();
    assert!(
        error_msg.contains("No file indices provided")
            || error_msg.contains("Cannot load file cache")
    );
}

#[test]
fn test_execute_reset_empty_indices() {
    let result = flow(vec!["".to_string()], "Cannot load file cache", "No files available to reset");
    assert!(result.is_err());
}

#[test]
fn test_execute_diff_no_indices() {
    let result = flow(vec![], "Cannot load file cache", "No files found in cache");
    assert!(result.is_err());
    let error_msg = result.unwrap_err().to_string();
    assert!(
        error_msg.contains("No file indices provided")
            || error_msg.contains("Cannot load file cache")
    );
}

#[test]
fn test_execute_diff_empty_indices() {
    let result = flow(vec!["".to_string()], "Cannot load file cache", "No files found in cache");
    assert!(result.is_err());
}

#[test]
fn test_execute_diff_invalid_indices() {
    let result = flow(vec!["abc".to_string()], "Cannot load file cache", "No files found in cache");
    assert!(result.is_err());
}

#[test]
fn test_diff_error_handling_logic() {
    let file_entry = FileEntry {
        index: 1,
        status: GitStatus::Modified,
        path: "nonexistent.txt".to_string(),
        staged: false,
    };

    assert_eq!(file_entry.path, "nonexistent.txt");
    assert_eq!(file_entry.status, GitStatus::Modified);
    assert!(!file_entry.staged);
    assert!(file_entry.path.contains("nonexistent.txt"));
}

#[test]
fn test_file_status_logic() {
    let statuses = vec![
        GitStatus::Modified,
        GitStatus::Added,
        GitStatus::Deleted,
        GitStatus::Renamed,
        GitStatus::Copied,
        GitStatus::Untracked,
        GitStatus::Unmerged,
    ];

    for status in statuses {
        let description = status.description();
        assert!(!description.is_empty());

        match status {
            GitStatus::Modified => assert_eq!(description, "modified"),
            GitStatus::Added => assert_eq!(description, "new"),
            GitStatus::Deleted => assert_eq!(description, "deleted"),
            GitStatus::Renamed => assert_eq!(description, "renamed"),
            GitStatus::Copied => assert_eq!(description, "copied"),
            GitStatus::Untracked => assert_eq!(description, "untracked"),
            GitStatus::Unmerged => assert_eq!(description, "both modified"),
            _ => {}
        }
    }
}

#[test]
fn test_file_entry_creation() {
    let entry = FileEntry {
        index: 1,
        status: GitStatus::Modified,
        path: "src/main.rs".to_string(),
        staged: false,
    };

    assert_eq!(entry.index, 1);
    assert_eq!(entry.status, GitStatus::Modified);
    assert_eq!(entry.path, "src/main.rs");
    assert!(!entry.staged);
}
