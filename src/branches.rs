//! Switching branches by the index that the last branch listing showed.

use vstd::prelude::*;
use crate::error::GitNavigatorError;
use crate::state::BranchEntry;
use crate::text::{decimal, push_decimal};

verus! {

pub open spec fn has_index(branches: Seq<BranchEntry>, index: usize) -> bool {
    exists|p: int| 0 <= p < branches.len() && branches[p].index == index
}

/// The first position of a branch numbered `index`.
pub open spec fn first_with_index(branches: Seq<BranchEntry>, index: usize, p: int) -> bool {
    &&& 0 <= p < branches.len()
    &&& branches[p].index == index
    &&& forall|q: int| 0 <= q < p ==> #[trigger] branches[q].index != index
}

pub open spec fn message_is(e: GitNavigatorError, m: Seq<char>) -> bool {
    match e {
        GitNavigatorError::CustomEmptyFilesError { message } => message@ == m,
        _ => false,
    }
}

/// What selecting `index` among `branches` must give.
pub open spec fn branch_selection(branches: Seq<BranchEntry>, index: usize, r: Result<String, GitNavigatorError>) -> bool {
    &&& branches.len() == 0 ==> (r matches Err(e) && message_is(e, "No branches found in cache"@))
    &&& branches.len() > 0 && !has_index(branches, index) ==> (r matches Err(e) && message_is(
        e,
        "Branch index "@ + decimal(index as nat) + " not found"@,
    ))
    &&& has_index(branches, index) ==> exists|p: int|
        first_with_index(branches, index, p) && (if branches[p].is_current {
            r matches Err(e) && message_is(e, "Cannot switch to current branch"@)
        } else {
            r matches Ok(name) && name@ == branches[p].name@
        })
}

/// The branch to switch to for `index` among the cached `branches`: the first
/// one with that index, unless it is the current branch.
pub fn select_branch_by_index(branches: &Vec<BranchEntry>, index: usize) -> (r: Result<String, GitNavigatorError>)
    ensures
        branch_selection(branches@, index, r),
        branches@.len() == 0 ==> (r matches Err(e) && message_is(e, "No branches found in cache"@)),
        branches@.len() > 0 && !has_index(branches@, index) ==> (r matches Err(e) && message_is(
            e,
            "Branch index "@ + decimal(index as nat) + " not found"@,
        )),
        has_index(branches@, index) ==> exists|p: int|
            first_with_index(branches@, index, p) && (if branches@[p].is_current {
                r matches Err(e) && message_is(e, "Cannot switch to current branch"@)
            } else {
                r matches Ok(name) && name@ == branches@[p].name@
            }),
{
    if branches.len() == 0 {
        return Err(GitNavigatorError::CustomEmptyFilesError {
            message: String::from_str("No branches found in cache"),
        });
    }
    let mut p: usize = 0;
    while p < branches.len()
        invariant
            p <= branches@.len(),
            forall|q: int| 0 <= q < p ==> #[trigger] branches@[q].index != index,
        decreases branches@.len() - p,
    {
        if branches[p].index == index {
            assert(first_with_index(branches@, index, p as int));
            if branches[p].is_current {
                return Err(GitNavigatorError::CustomEmptyFilesError {
                    message: String::from_str("Cannot switch to current branch"),
                });
            }
            return Ok(branches[p].name.clone());
        }
        p = p + 1;
    }
    let mut message = String::from_str("Branch index ");
    push_decimal(&mut message, index);
    message.append(" not found");
    Err(GitNavigatorError::CustomEmptyFilesError { message })
}

/// The branch to switch to for `index`, given what loading the branch cache
/// gave; a failed load is reported with a hint to list the branches first.
pub fn resolve_branch_index(loaded: Result<Vec<BranchEntry>, GitNavigatorError>, index: usize) -> (r: Result<String, GitNavigatorError>)
    ensures
        loaded matches Err(e) ==> (r matches Err(GitNavigatorError::CustomCacheError { message, source })
            && message@ == "Cannot load branch cache. Run 'gb' first to list branches."@
            && *source == e),
        loaded matches Ok(b) ==> branch_selection(b@, index, r),
{
    match loaded {
        Err(e) => Err(GitNavigatorError::CustomCacheError {
            message: String::from_str("Cannot load branch cache. Run 'gb' first to list branches."),
            source: Box::new(e),
        }),
        Ok(branches) => select_branch_by_index(&branches, index),
    }
}

} // verus!
