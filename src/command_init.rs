//! The one sequence of checks that every index-based command goes through, so
//! that the error a user sees when several things are wrong at once is the
//! same for every command: arguments, then repository, then cache, then the
//! cache's contents, then the indices themselves.
//!
//! The sequence is a small state machine: the caller performs each action it
//! is given (locate the repository, load the file cache) and reports back what
//! happened; the machine decides what comes next.

use vstd::prelude::*;
use crate::args_parser::{ArgsParser, joined, parse_indices_result, selection_violation};
use crate::index_parser::{lemma_parse_one_three, parse_spec, strictly_increasing};
use crate::error::GitNavigatorError;
use crate::state::FileEntry;

verus! {

/// The cached files of a repository and the indices selected among them.
#[derive(Debug)]
pub struct IndexCommandContext {
    pub files: Vec<FileEntry>,
    pub indices: Vec<usize>,
}

/// An index-based command's arguments and the wording of its errors.
pub struct IndexCommandInit {
    pub indices_args: Vec<String>,
    pub cache_error_msg: Option<String>,
    pub empty_files_msg: Option<String>,
}

/// What the caller reports back.
#[derive(Debug)]
pub enum InitEvent {
    /// The command starts.
    Started,
    /// The repository was found.
    RepoFound,
    /// No repository encloses the working directory.
    RepoNotFound,
    /// The file cache was loaded, or failed to load.
    CacheLoaded(Result<Vec<FileEntry>, GitNavigatorError>),
}

/// What the caller is to do next.
#[derive(Debug)]
pub enum InitAction {
    LocateRepository,
    LoadCache,
    Failed(GitNavigatorError),
    Ready(IndexCommandContext),
}

impl IndexCommandContext {
    /// Every selected index names a cached file.
    pub open spec fn wf(&self) -> bool {
        forall|i: int| 0 <= i < self.indices@.len() ==> 1 <= #[trigger] self.indices@[i] <= self.files@.len()
    }

    /// The selected files, in the order of the indices.
    pub fn get_selected_files(&self) -> (r: Vec<&FileEntry>)
        requires
            self.wf(),
        ensures
            r@.len() == self.indices@.len(),
            forall|i: int| 0 <= i < r@.len() ==> *r@[i] == self.files@[self.indices@[i] - 1],
    {
        let mut r: Vec<&FileEntry> = Vec::new();
        let mut i: usize = 0;
        while i < self.indices.len()
            invariant
                self.wf(),
                i <= self.indices@.len(),
                r@.len() == i,
                forall|j: int| 0 <= j < i ==> *r@[j] == self.files@[self.indices@[j] - 1],
            decreases self.indices@.len() - i,
        {
            let k = self.indices[i];
            assert(1 <= self.indices@[i as int] <= self.files@.len());
            r.push(&self.files[k - 1]);
            i = i + 1;
        }
        r
    }

    /// The paths of the selected files, in the order of the indices.
    pub fn selected_paths(&self) -> (r: Vec<String>)
        requires
            self.wf(),
        ensures
            r@.len() == self.indices@.len(),
            forall|i: int| 0 <= i < r@.len() ==> r@[i] == self.files@[self.indices@[i] - 1].path,
    {
        let mut r: Vec<String> = Vec::new();
        let mut i: usize = 0;
        while i < self.indices.len()
            invariant
                self.wf(),
                i <= self.indices@.len(),
                r@.len() == i,
                forall|j: int| 0 <= j < i ==> r@[j] == self.files@[self.indices@[j] - 1].path,
            decreases self.indices@.len() - i,
        {
            let k = self.indices[i];
            assert(1 <= self.indices@[i as int] <= self.files@.len());
            r.push(self.files[k - 1].path.clone());
            i = i + 1;
        }
        r
    }

    pub fn file_count(&self) -> (r: usize)
        ensures
            r == self.files@.len(),
    {
        self.files.len()
    }

    pub fn selected_count(&self) -> (r: usize)
        ensures
            r == self.indices@.len(),
    {
        self.indices.len()
    }

    pub fn has_selected_files(&self) -> (r: bool)
        ensures
            r == (self.indices@.len() > 0),
    {
        self.indices.len() > 0
    }
}

impl IndexCommandInit {
    pub open spec fn args(&self) -> Seq<String> {
        self.indices_args@
    }

    /// The error that a failed cache load becomes.
    pub open spec fn cache_error(&self, e: GitNavigatorError) -> GitNavigatorError {
        match self.cache_error_msg {
            Some(m) => GitNavigatorError::CustomCacheError { message: m, source: Box::new(e) },
            None => GitNavigatorError::CacheLoadError { source: Box::new(e) },
        }
    }

    /// The error for a cache that holds no files.
    pub open spec fn empty_error(&self) -> GitNavigatorError {
        match self.empty_files_msg {
            Some(m) => GitNavigatorError::CustomEmptyFilesError { message: m },
            None => GitNavigatorError::NoAvailableFiles,
        }
    }

    /// What `step(event)` must answer.
    pub open spec fn next_action(&self, event: InitEvent, action: InitAction) -> bool {
        match event {
            InitEvent::Started => if self.args().len() == 0 {
                action == InitAction::Failed(GitNavigatorError::NoIndicesProvided)
            } else {
                action is LocateRepository
            },
            InitEvent::RepoNotFound => action == InitAction::Failed(GitNavigatorError::NotInGitRepo),
            InitEvent::RepoFound => action is LoadCache,
            InitEvent::CacheLoaded(Err(e)) => action == InitAction::Failed(self.cache_error(e)),
            InitEvent::CacheLoaded(Ok(files)) => if files@.len() == 0 {
                action == InitAction::Failed(self.empty_error())
            } else {
                match action {
                    InitAction::Ready(ctx) => ctx.files == files && parse_indices_result(
                        self.args(),
                        files@.len() as usize,
                        Ok(ctx.indices),
                    ),
                    InitAction::Failed(e) => parse_indices_result(
                        self.args(),
                        files@.len() as usize,
                        Err(e),
                    ),
                    _ => false,
                }
            },
        }
    }

    /// A command with the generic error wording.
    pub fn initialize(indices_args: Vec<String>) -> (r: Self)
        ensures
            r.args() == indices_args@,
            r.cache_error_msg is None,
            r.empty_files_msg is None,
    {
        IndexCommandInit { indices_args, cache_error_msg: None, empty_files_msg: None }
    }

    /// A command whose cache errors and empty-cache error carry its own wording.
    pub fn initialize_with_messages(indices_args: Vec<String>, cache_error_msg: &str, empty_files_msg: &str) -> (r: Self)
        ensures
            r.args() == indices_args@,
            r.cache_error_msg matches Some(m) && m@ == cache_error_msg@,
            r.empty_files_msg matches Some(m) && m@ == empty_files_msg@,
    {
        IndexCommandInit {
            indices_args,
            cache_error_msg: Some(String::from_str(cache_error_msg)),
            empty_files_msg: Some(String::from_str(empty_files_msg)),
        }
    }

    /// Decides what follows `event`. A command without arguments fails before
    /// the repository is looked at.
    pub fn step(&self, event: InitEvent) -> (r: InitAction)
        ensures
            self.next_action(event, r),
            r matches InitAction::Ready(ctx) ==> ctx.wf(),
    {
        match event {
            InitEvent::Started => {
                if self.indices_args.len() == 0 {
                    InitAction::Failed(GitNavigatorError::NoIndicesProvided)
                } else {
                    InitAction::LocateRepository
                }
            },
            InitEvent::RepoNotFound => InitAction::Failed(GitNavigatorError::NotInGitRepo),
            InitEvent::RepoFound => InitAction::LoadCache,
            InitEvent::CacheLoaded(Err(e)) => {
                let err = match &self.cache_error_msg {
                    Some(m) => GitNavigatorError::CustomCacheError { message: m.clone(), source: Box::new(e) },
                    None => GitNavigatorError::CacheLoadError { source: Box::new(e) },
                };
                InitAction::Failed(err)
            },
            InitEvent::CacheLoaded(Ok(files)) => {
                if files.len() == 0 {
                    let err = match &self.empty_files_msg {
                        Some(m) => GitNavigatorError::CustomEmptyFilesError { message: m.clone() },
                        None => GitNavigatorError::NoAvailableFiles,
                    };
                    return InitAction::Failed(err);
                }
                match ArgsParser::parse_index_args(&self.indices_args, files.len()) {
                    Ok(indices) => {
                        proof {
                            let n = files@.len() as usize;
                            let s = indices@.to_set();
                            assert(selection_violation(s, n) is None);
                            assert forall|i: int| 0 <= i < indices@.len() implies 1 <= #[trigger] indices@[i] <= n by {
                                assert(s.contains(indices@[i]));
                            }
                        }
                        InitAction::Ready(IndexCommandContext { files, indices })
                    },
                    Err(e) => InitAction::Failed(e),
                }
            },
        }
    }
}

/// Resolving `1,3` against a cache of three files selects indices 1 and 3,
/// in ascending order.
pub proof fn lemma_resolve_one_three(init: IndexCommandInit, files: Vec<FileEntry>, action: InitAction)
    requires
        init.args().len() == 1,
        init.args()[0]@ == "1,3"@,
        files@.len() == 3,
        init.next_action(InitEvent::CacheLoaded(Ok(files)), action),
    ensures
        action matches InitAction::Ready(ctx) && ctx.indices@ == seq![1usize, 3usize],
{
    let s = set![1usize, 3usize];
    lemma_parse_one_three();
    assert(joined(init.args()) == "1,3"@);
    assert(parse_spec(joined(init.args())) == Ok::<Set<usize>, crate::index_parser::ParseFailure>(s));
    assert(s.contains(1usize));
    assert(s != Set::<usize>::empty());
    assert(!s.contains(0usize));
    assert(!exists|x: usize| s.contains(x) && x > 3);
    assert(selection_violation(s, 3) is None);
    match action {
        InitAction::Ready(ctx) => {
            let v = ctx.indices@;
            assert(v.to_set() == s && strictly_increasing(v));
            assert(s.contains(1usize) && s.contains(3usize));
            assert(v.to_set().contains(1usize) && v.to_set().contains(3usize));
            assert(v.contains(1usize) && v.contains(3usize));
            let p = choose|p: int| 0 <= p < v.len() && v[p] == 1usize;
            let q = choose|q: int| 0 <= q < v.len() && v[q] == 3usize;
            assert forall|i: int| 0 <= i < v.len() implies v[i] == 1 || v[i] == 3 by {
                assert(v.to_set().contains(v[i]));
            }
            assert(p < q);
            assert(v.len() == 2) by {
                if v.len() > 2 {
                    assert(v[0] < v[1] && v[1] < v[2]);
                }
            }
            assert(v =~= seq![1usize, 3usize]);
        },
        _ => {},
    }
}

} // verus!
