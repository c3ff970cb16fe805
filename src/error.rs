//! The library's error type. Every failure has its own variant, so callers can
//! tell apart failures that call for different remedies (a missing cache, an
//! empty cache, a corrupt cache, a malformed index expression, ...).
//! Errors that come from outside the library (git, the file system, JSON) are
//! carried as their rendered message.

use vstd::prelude::*;
use crate::text::{decimal, push_decimal};

verus! {

#[derive(Debug)]
pub enum GitNavigatorError {
    NotInGitRepo,
    GitRepo(String),
    InvalidUtf8Path,
    FileNotFound { path: String },
    Io(String),
    Utf8(String),
    NoIndicesProvided,
    NoIndicesProvidedForCommand { command: String },
    InvalidIndexFormat { input: String },
    NoValidIndices,
    InvalidRangeFormat { range: String },
    InvalidRangeNumber { number: String },
    InvalidRangeOrder { start: usize, end: usize },
    InvalidNumber { number: String },
    ZeroIndex,
    IndexOutOfRange { index: usize, max: usize },
    NoFilesAvailable,
    CacheDirectoryNotFound,
    CacheDirectoryCreationFailed { path: String, source: String },
    CacheSerializationFailed { source: String },
    CacheWriteFailed { path: String, source: String },
    CacheLoadError { source: Box<GitNavigatorError> },
    CacheFileNotFound { path: String },
    CacheReadFailed { path: String, source: String },
    CacheParseFailed { path: String, source: String },
    NoCachedFiles,
    NoAvailableFiles,
    CustomCacheError { message: String, source: Box<GitNavigatorError> },
    CustomEmptyFilesError { message: String },
    NoValidFilesSelected,
    NoChangesToAdd,
    GitAddFailed { source: String },
    Json(String),
}

pub type Result<T> = core::result::Result<T, GitNavigatorError>;

impl GitNavigatorError {
    /// The text shown to the user for this error.
    pub open spec fn message(self) -> Seq<char>
        decreases self,
    {
        match self {
            GitNavigatorError::NotInGitRepo => "Not in a git repository"@,
            GitNavigatorError::GitRepo(m) => "Git repository error: "@ + m@,
            GitNavigatorError::InvalidUtf8Path => "Invalid UTF-8 path in repository"@,
            GitNavigatorError::FileNotFound { path } => "File does not exist: "@ + path@,
            GitNavigatorError::Io(m) => "IO error: "@ + m@,
            GitNavigatorError::Utf8(m) => "Invalid UTF-8 in file content: "@ + m@,
            GitNavigatorError::NoIndicesProvided =>
                "No file indices provided. Usage: <command> <indices>\nExample: ga 1 3-5,8"@,
            GitNavigatorError::NoIndicesProvidedForCommand { .. } => "No file indices provided"@,
            GitNavigatorError::InvalidIndexFormat { input } =>
                "Invalid index format: "@ + input@ + ". Use format like: 1, 1-3, or 1,3,5"@,
            GitNavigatorError::NoValidIndices =>
                "No valid indices provided. Use format like: 1, 1-3, or 1,3,5"@,
            GitNavigatorError::InvalidRangeFormat { range } =>
                "Invalid range format: '"@ + range@ + "'. Use format like '3-6'"@,
            GitNavigatorError::InvalidRangeNumber { number } =>
                "Invalid number in range: '"@ + number@ + "'"@,
            GitNavigatorError::InvalidRangeOrder { start, end } =>
                "Invalid range: start ("@ + decimal(start as nat) + ") must be <= end ("@
                    + decimal(end as nat) + ")"@,
            GitNavigatorError::InvalidNumber { number } => "Invalid number: '"@ + number@ + "'"@,
            GitNavigatorError::ZeroIndex => "Index must be positive (got 0)"@,
            GitNavigatorError::IndexOutOfRange { index, max } =>
                "Index "@ + decimal(index as nat) + " is out of range (1-"@ + decimal(max as nat)
                    + " available)"@,
            GitNavigatorError::NoFilesAvailable => "No files available to operate on"@,
            GitNavigatorError::CacheDirectoryNotFound => "Could not find cache directory"@,
            GitNavigatorError::CacheDirectoryCreationFailed { path, source } =>
                "Failed to create cache directory '"@ + path@ + "': "@ + source@,
            GitNavigatorError::CacheSerializationFailed { source } =>
                "Failed to serialize cache data: "@ + source@,
            GitNavigatorError::CacheWriteFailed { path, source } =>
                "Failed to write cache file '"@ + path@ + "': "@ + source@,
            GitNavigatorError::CacheLoadError { source } =>
                "Cannot load file cache: "@ + (*source).message()
                    + ". Run 'gs' first to generate file list."@,
            GitNavigatorError::CacheFileNotFound { path } =>
                "Cache file does not exist at '"@ + path@
                    + "'. Run 'gs' first to generate file list."@,
            GitNavigatorError::CacheReadFailed { path, source } =>
                "Failed to read cache file '"@ + path@ + "': "@ + source@,
            GitNavigatorError::CacheParseFailed { path, source } =>
                "Failed to parse cache file '"@ + path@ + "': "@ + source@,
            GitNavigatorError::NoCachedFiles =>
                "No cached files found. Run 'gs' first to generate file list."@,
            GitNavigatorError::NoAvailableFiles =>
                "No files available. Run 'gs' first to see available files."@,
            GitNavigatorError::CustomCacheError { message, source } =>
                message@ + ": "@ + (*source).message()
                    + ". Run 'gs' first to generate file list."@,
            GitNavigatorError::CustomEmptyFilesError { message } =>
                message@ + ". Run 'gs' first to see available files."@,
            GitNavigatorError::NoValidFilesSelected =>
                "No valid files found for the specified indices."@,
            GitNavigatorError::NoChangesToAdd => "There are no changes to be added"@,
            GitNavigatorError::GitAddFailed { source } =>
                "Failed to add files to git index: "@ + source@,
            GitNavigatorError::Json(m) => "JSON serialization error: "@ + m@,
        }
    }

    /// Renders the error for the user.
    pub fn to_string(&self) -> (r: String)
        ensures
            r@ == self.message(),
        decreases self,
    {
        let mut r = String::new();
        match self {
            GitNavigatorError::NotInGitRepo => {
                r.append("Not in a git repository");
            },
            GitNavigatorError::GitRepo(m) => {
                r.append("Git repository error: ");
                r.append(m.as_str());
            },
            GitNavigatorError::InvalidUtf8Path => {
                r.append("Invalid UTF-8 path in repository");
            },
            GitNavigatorError::FileNotFound { path } => {
                r.append("File does not exist: ");
                r.append(path.as_str());
            },
            GitNavigatorError::Io(m) => {
                r.append("IO error: ");
                r.append(m.as_str());
            },
            GitNavigatorError::Utf8(m) => {
                r.append("Invalid UTF-8 in file content: ");
                r.append(m.as_str());
            },
            GitNavigatorError::NoIndicesProvided => {
                r.append("No file indices provided. Usage: <command> <indices>\nExample: ga 1 3-5,8");
            },
            GitNavigatorError::NoIndicesProvidedForCommand { .. } => {
                r.append("No file indices provided");
            },
            GitNavigatorError::InvalidIndexFormat { input } => {
                r.append("Invalid index format: ");
                r.append(input.as_str());
                r.append(". Use format like: 1, 1-3, or 1,3,5");
            },
            GitNavigatorError::NoValidIndices => {
                r.append("No valid indices provided. Use format like: 1, 1-3, or 1,3,5");
            },
            GitNavigatorError::InvalidRangeFormat { range } => {
                r.append("Invalid range format: '");
                r.append(range.as_str());
                r.append("'. Use format like '3-6'");
            },
            GitNavigatorError::InvalidRangeNumber { number } => {
                r.append("Invalid number in range: '");
                r.append(number.as_str());
                r.append("'");
            },
            GitNavigatorError::InvalidRangeOrder { start, end } => {
                r.append("Invalid range: start (");
                push_decimal(&mut r, *start);
                r.append(") must be <= end (");
                push_decimal(&mut r, *end);
                r.append(")");
            },
            GitNavigatorError::InvalidNumber { number } => {
                r.append("Invalid number: '");
                r.append(number.as_str());
                r.append("'");
            },
            GitNavigatorError::ZeroIndex => {
                r.append("Index must be positive (got 0)");
            },
            GitNavigatorError::IndexOutOfRange { index, max } => {
                r.append("Index ");
                push_decimal(&mut r, *index);
                r.append(" is out of range (1-");
                push_decimal(&mut r, *max);
                r.append(" available)");
            },
            GitNavigatorError::NoFilesAvailable => {
                r.append("No files available to operate on");
            },
            GitNavigatorError::CacheDirectoryNotFound => {
                r.append("Could not find cache directory");
            },
            GitNavigatorError::CacheDirectoryCreationFailed { path, source } => {
                r.append("Failed to create cache directory '");
                r.append(path.as_str());
                r.append("': ");
                r.append(source.as_str());
            },
            GitNavigatorError::CacheSerializationFailed { source } => {
                r.append("Failed to serialize cache data: ");
                r.append(source.as_str());
            },
            GitNavigatorError::CacheWriteFailed { path, source } => {
                r.append("Failed to write cache file '");
                r.append(path.as_str());
                r.append("': ");
                r.append(source.as_str());
            },
            GitNavigatorError::CacheLoadError { source } => {
                let inner = (**source).to_string();
                r.append("Cannot load file cache: ");
                r.append(inner.as_str());
                r.append(". Run 'gs' first to generate file list.");
            },
            GitNavigatorError::CacheFileNotFound { path } => {
                r.append("Cache file does not exist at '");
                r.append(path.as_str());
                r.append("'. Run 'gs' first to generate file list.");
            },
            GitNavigatorError::CacheReadFailed { path, source } => {
                r.append("Failed to read cache file '");
                r.append(path.as_str());
                r.append("': ");
                r.append(source.as_str());
            },
            GitNavigatorError::CacheParseFailed { path, source } => {
                r.append("Failed to parse cache file '");
                r.append(path.as_str());
                r.append("': ");
                r.append(source.as_str());
            },
            GitNavigatorError::NoCachedFiles => {
                r.append("No cached files found. Run 'gs' first to generate file list.");
            },
            GitNavigatorError::NoAvailableFiles => {
                r.append("No files available. Run 'gs' first to see available files.");
            },
            GitNavigatorError::CustomCacheError { message, source } => {
                let inner = (**source).to_string();
                r.append(message.as_str());
                r.append(": ");
                r.append(inner.as_str());
                r.append(". Run 'gs' first to generate file list.");
            },
            GitNavigatorError::CustomEmptyFilesError { message } => {
                r.append(message.as_str());
                r.append(". Run 'gs' first to see available files.");
            },
            GitNavigatorError::NoValidFilesSelected => {
                r.append("No valid files found for the specified indices.");
            },
            GitNavigatorError::NoChangesToAdd => {
                r.append("There are no changes to be added");
            },
            GitNavigatorError::GitAddFailed { source } => {
                r.append("Failed to add files to git index: ");
                r.append(source.as_str());
            },
            GitNavigatorError::Json(m) => {
                r.append("JSON serialization error: ");
                r.append(m.as_str());
            },
        }
        r
    }

    /// A cache failure with a command-specific message, keeping the cause.
    pub fn custom_cache_error(message: &str, source: GitNavigatorError) -> (r: Self)
        ensures
            r matches GitNavigatorError::CustomCacheError { message: m, source: s } && m@ == message@ && *s
                == source,
    {
        GitNavigatorError::CustomCacheError { message: String::from_str(message), source: Box::new(source) }
    }

    /// A "nothing available" failure with a command-specific message.
    pub fn custom_empty_files_error(message: &str) -> (r: Self)
        ensures
            r matches GitNavigatorError::CustomEmptyFilesError { message: m } && m@ == message@,
    {
        GitNavigatorError::CustomEmptyFilesError { message: String::from_str(message) }
    }

    pub fn file_not_found(path: &str) -> (r: Self)
        ensures
            r matches GitNavigatorError::FileNotFound { path: p } && p@ == path@,
    {
        GitNavigatorError::FileNotFound { path: String::from_str(path) }
    }

    pub fn index_out_of_range(index: usize, max: usize) -> (r: Self)
        ensures
            r == (GitNavigatorError::IndexOutOfRange { index, max }),
    {
        GitNavigatorError::IndexOutOfRange { index, max }
    }

    pub fn no_indices_provided_for_command(command: &str) -> (r: Self)
        ensures
            r matches GitNavigatorError::NoIndicesProvidedForCommand { command: c } && c@ == command@,
    {
        GitNavigatorError::NoIndicesProvidedForCommand { command: String::from_str(command) }
    }

    pub fn invalid_index_format(input: &str) -> (r: Self)
        ensures
            r matches GitNavigatorError::InvalidIndexFormat { input: i } && i@ == input@,
    {
        GitNavigatorError::InvalidIndexFormat { input: String::from_str(input) }
    }

    pub fn invalid_range_format(range: &str) -> (r: Self)
        ensures
            r matches GitNavigatorError::InvalidRangeFormat { range: x } && x@ == range@,
    {
        GitNavigatorError::InvalidRangeFormat { range: String::from_str(range) }
    }

    pub fn invalid_range_number(number: &str) -> (r: Self)
        ensures
            r matches GitNavigatorError::InvalidRangeNumber { number: n } && n@ == number@,
    {
        GitNavigatorError::InvalidRangeNumber { number: String::from_str(number) }
    }

    pub fn invalid_range_order(start: usize, end: usize) -> (r: Self)
        ensures
            r == (GitNavigatorError::InvalidRangeOrder { start, end }),
    {
        GitNavigatorError::InvalidRangeOrder { start, end }
    }

    pub fn invalid_number(number: &str) -> (r: Self)
        ensures
            r matches GitNavigatorError::InvalidNumber { number: n } && n@ == number@,
    {
        GitNavigatorError::InvalidNumber { number: String::from_str(number) }
    }

    /// Staging failed; `source` is the reason git gave.
    pub fn git_add_failed(source: &str) -> (r: Self)
        ensures
            r matches GitNavigatorError::GitAddFailed { source: s } && s@ == source@,
    {
        GitNavigatorError::GitAddFailed { source: String::from_str(source) }
    }

    pub fn cache_load_error(source: GitNavigatorError) -> (r: Self)
        ensures
            r matches GitNavigatorError::CacheLoadError { source: s } && *s == source,
    {
        GitNavigatorError::CacheLoadError { source: Box::new(source) }
    }

    pub fn cache_directory_creation_failed(path: &str, source: &str) -> (r: Self)
        ensures
            r matches GitNavigatorError::CacheDirectoryCreationFailed { path: p, source: s } && p@ == path@
                && s@ == source@,
    {
        GitNavigatorError::CacheDirectoryCreationFailed {
            path: String::from_str(path),
            source: String::from_str(source),
        }
    }

    pub fn cache_serialization_failed(source: &str) -> (r: Self)
        ensures
            r matches GitNavigatorError::CacheSerializationFailed { source: s } && s@ == source@,
    {
        GitNavigatorError::CacheSerializationFailed { source: String::from_str(source) }
    }

    pub fn cache_write_failed(path: &str, source: &str) -> (r: Self)
        ensures
            r matches GitNavigatorError::CacheWriteFailed { path: p, source: s } && p@ == path@ && s@
                == source@,
    {
        GitNavigatorError::CacheWriteFailed { path: String::from_str(path), source: String::from_str(source) }
    }

    pub fn cache_file_not_found(path: &str) -> (r: Self)
        ensures
            r matches GitNavigatorError::CacheFileNotFound { path: p } && p@ == path@,
    {
        GitNavigatorError::CacheFileNotFound { path: String::from_str(path) }
    }

    pub fn cache_read_failed(path: &str, source: &str) -> (r: Self)
        ensures
            r matches GitNavigatorError::CacheReadFailed { path: p, source: s } && p@ == path@ && s@
                == source@,
    {
        GitNavigatorError::CacheReadFailed { path: String::from_str(path), source: String::from_str(source) }
    }

    pub fn cache_parse_failed(path: &str, source: &str) -> (r: Self)
        ensures
            r matches GitNavigatorError::CacheParseFailed { path: p, source: s } && p@ == path@ && s@
                == source@,
    {
        GitNavigatorError::CacheParseFailed { path: String::from_str(path), source: String::from_str(source) }
    }
}

} // verus!