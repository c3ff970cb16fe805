//! The durable hand-off of a snapshot between invocations: where a
//! repository's cache record lives, and what a load of it means.
//!
//! A record lives at `<cache-root>/git-navigator/<key>/files.json` (or
//! `branches.json`), where `<key>` is the MD5 digest of the repository path in
//! lowercase hexadecimal. Reading and writing the record, and its JSON form,
//! are the caller's part; this module decides what each outcome of a load means.

use vstd::prelude::*;
use crate::error::GitNavigatorError;
use crate::state::{BranchEntry, FileEntry, StateCache};
use crate::text::{hex_bytes, hex_string};
use vstd::string::StringSliceAdditionalSpecFns;

verus! {

/// The MD5 digest of `data`.
pub uninterp spec fn md5_digest(data: Seq<u8>) -> Seq<u8>;

/// Relies on `md5::compute`: the 16-byte MD5 digest of its input.
#[verifier::external_body]
fn md5_of(data: &[u8]) -> (r: Vec<u8>)
    ensures
        r@ == md5_digest(data@),
        r@.len() == 16,
{
    md5::compute(data).0.to_vec()
}

/// `part` appended to the path `base`, with `/` between them unless `base` is
/// empty or already ends with one.
pub open spec fn join_path(base: Seq<char>, part: Seq<char>) -> Seq<char> {
    if base.len() == 0 {
        part
    } else if base.last() == '/' {
        base + part
    } else {
        base + seq!['/'] + part
    }
}

/// The cache key of a repository: its path's MD5 digest in lowercase hex.
pub open spec fn repo_key(repo_path: &str) -> Seq<char> {
    hex_bytes(md5_digest(repo_path.spec_bytes()))
}

/// The directory that holds a repository's cache records.
pub open spec fn cache_dir_of(cache_root: Seq<char>, repo_path: &str) -> Seq<char> {
    join_path(join_path(cache_root, "git-navigator"@), repo_key(repo_path))
}

/// `part` appended to the path `base`.
pub fn join(base: &String, part: &str) -> (r: String)
    ensures
        r@ == join_path(base@, part@),
{
    let mut r = base.clone();
    let n = base.as_str().unicode_len();
    if n > 0 && base.as_str().get_char(n - 1) != '/' {
        r.append("/");
        proof {
            reveal_strlit("/");
        }
    }
    r.append(part);
    r
}

/// The cache key of the repository at `repo_path`.
pub fn repo_cache_key(repo_path: &str) -> (r: String)
    ensures
        r@ == repo_key(repo_path),
{
    let digest = md5_of(repo_path.as_bytes());
    hex_string(&digest)
}

/// The directory under `cache_root` that holds the cache records of the
/// repository at `repo_path`.
pub fn get_cache_dir(cache_root: &String, repo_path: &str) -> (r: String)
    ensures
        r@ == cache_dir_of(cache_root@, repo_path),
{
    let tool = join(cache_root, "git-navigator");
    let key = repo_cache_key(repo_path);
    join(&tool, key.as_str())
}

/// The file that holds the repository's file snapshot.
pub fn files_cache_path(cache_root: &String, repo_path: &str) -> (r: String)
    ensures
        r@ == join_path(cache_dir_of(cache_root@, repo_path), "files.json"@),
{
    let dir = get_cache_dir(cache_root, repo_path);
    join(&dir, "files.json")
}

/// The file that holds the repository's branch snapshot.
pub fn branches_cache_path(cache_root: &String, repo_path: &str) -> (r: String)
    ensures
        r@ == join_path(cache_dir_of(cache_root@, repo_path), "branches.json"@),
{
    let dir = get_cache_dir(cache_root, repo_path);
    join(&dir, "branches.json")
}

/// The root of all cache records: the `XDG_CACHE_HOME` override if set, else
/// the platform's cache directory if it has one, else `/tmp`.
pub fn resolve_cache_root(xdg_cache_home: Option<String>, platform_cache_dir: Option<String>) -> (r: String)
    ensures
        xdg_cache_home matches Some(x) ==> r@ == x@,
        xdg_cache_home is None ==> (platform_cache_dir matches Some(p) ==> r@ == p@),
        xdg_cache_home is None && platform_cache_dir is None ==> r@ == "/tmp"@,
{
    match xdg_cache_home {
        Some(x) => x,
        None => match platform_cache_dir {
            Some(p) => p,
            None => String::from_str("/tmp"),
        },
    }
}

/// What reading a cache record gave.
#[derive(Debug)]
pub enum CacheLoad {
    /// No record exists.
    Missing,
    /// The record exists but could not be read; the reason.
    Unreadable(String),
    /// The record was read but is not a well-formed record; the reason.
    Corrupt(String),
    /// The record as read.
    Loaded(StateCache),
}

/// The cached file entries, or the error that the load outcome means; the
/// errors name the record's path `cache_file`.
pub fn files_from_load(cache_file: String, outcome: CacheLoad) -> (r: Result<Vec<FileEntry>, GitNavigatorError>)
    ensures
        outcome is Missing ==> r == Err::<Vec<FileEntry>, GitNavigatorError>(
            GitNavigatorError::CacheFileNotFound { path: cache_file },
        ),
        outcome matches CacheLoad::Unreadable(m) ==> r == Err::<Vec<FileEntry>, GitNavigatorError>(
            GitNavigatorError::CacheReadFailed { path: cache_file, source: m },
        ),
        outcome matches CacheLoad::Corrupt(m) ==> r == Err::<Vec<FileEntry>, GitNavigatorError>(
            GitNavigatorError::CacheParseFailed { path: cache_file, source: m },
        ),
        outcome matches CacheLoad::Loaded(c) ==> if c.files@.len() == 0 {
            r == Err::<Vec<FileEntry>, GitNavigatorError>(GitNavigatorError::NoCachedFiles)
        } else {
            r == Ok::<Vec<FileEntry>, GitNavigatorError>(c.files)
        },
{
    match outcome {
        CacheLoad::Missing => Err(GitNavigatorError::CacheFileNotFound { path: cache_file }),
        CacheLoad::Unreadable(m) => Err(GitNavigatorError::CacheReadFailed { path: cache_file, source: m }),
        CacheLoad::Corrupt(m) => Err(GitNavigatorError::CacheParseFailed { path: cache_file, source: m }),
        CacheLoad::Loaded(c) => {
            if c.files.len() == 0 {
                Err(GitNavigatorError::NoCachedFiles)
            } else {
                Ok(c.files)
            }
        },
    }
}

/// The cached branch entries, or the error that the load outcome means.
pub fn branches_from_load(cache_file: String, outcome: CacheLoad) -> (r: Result<Vec<BranchEntry>, GitNavigatorError>)
    ensures
        outcome is Missing ==> r == Err::<Vec<BranchEntry>, GitNavigatorError>(
            GitNavigatorError::CacheFileNotFound { path: cache_file },
        ),
        outcome matches CacheLoad::Unreadable(m) ==> r == Err::<Vec<BranchEntry>, GitNavigatorError>(
            GitNavigatorError::CacheReadFailed { path: cache_file, source: m },
        ),
        outcome matches CacheLoad::Corrupt(m) ==> r == Err::<Vec<BranchEntry>, GitNavigatorError>(
            GitNavigatorError::CacheParseFailed { path: cache_file, source: m },
        ),
        outcome matches CacheLoad::Loaded(c) ==> if c.branches@.len() == 0 {
            r == Err::<Vec<BranchEntry>, GitNavigatorError>(GitNavigatorError::NoCachedFiles)
        } else {
            r == Ok::<Vec<BranchEntry>, GitNavigatorError>(c.branches)
        },
{
    match outcome {
        CacheLoad::Missing => Err(GitNavigatorError::CacheFileNotFound { path: cache_file }),
        CacheLoad::Unreadable(m) => Err(GitNavigatorError::CacheReadFailed { path: cache_file, source: m }),
        CacheLoad::Corrupt(m) => Err(GitNavigatorError::CacheParseFailed { path: cache_file, source: m }),
        CacheLoad::Loaded(c) => {
            if c.branches.len() == 0 {
                Err(GitNavigatorError::NoCachedFiles)
            } else {
                Ok(c.branches)
            }
        },
    }
}

} // verus!
