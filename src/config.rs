//! Where the tool's own releases are published.

use vstd::prelude::*;

verus! {

/// The repository that publishes the tool.
#[derive(Debug, Clone, PartialEq, Eq)]
pub struct RepositoryConfig {
    pub owner: String,
    pub name: String,
    pub bin_name: String,
}

impl Default for RepositoryConfig {
    fn default() -> (r: Self)
        ensures
            r.owner@ == "blitux"@,
            r.name@ == "git-navigator"@,
            r.bin_name@ == "git-navigator"@,
    {
        RepositoryConfig {
            owner: String::from_str("blitux"),
            name: String::from_str("git-navigator"),
            bin_name: String::from_str("git-navigator"),
        }
    }
}

} // verus!
