//! Numbered-file navigation for git: snapshots of a repository's changes, a
//! persistent hand-off of those snapshots between invocations, and the parsing
//! and resolution of user index expressions such as `1 3-5,8`.

pub mod text;
pub mod error;
pub mod index_parser;
pub mod args_parser;
pub mod git_status;
pub mod sorting;
pub mod state;
pub mod snapshot;
pub mod cache;
pub mod command_init;
pub mod checkout;
pub mod branches;
pub mod config;
pub mod dirs;
pub mod template;
pub mod colors;

pub use args_parser::ArgsParser;
pub use command_init::{IndexCommandContext, IndexCommandInit, InitAction, InitEvent};
pub use config::RepositoryConfig;
pub use error::{GitNavigatorError, Result};
pub use git_status::{GitStatus, StatusFlags};
pub use index_parser::{IndexParser, IndexRange};
pub use state::{BranchEntry, FileEntry, StateCache, Timestamp};
