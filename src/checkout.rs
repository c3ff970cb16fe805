//! What a checkout command's arguments ask for: files by index, a branch by
//! name, a new branch, or only a usage message.

use vstd::prelude::*;
use crate::text::same_text;

verus! {

/// A checkout request that is missing something; only usage is shown.
#[derive(Debug, Clone, Copy, PartialEq, Eq, Structural)]
pub enum CheckoutUsage {
    /// `-b` without a branch name.
    BranchNameRequiredWithFlag,
    /// `-b` with more than one name.
    OnlyOneBranchName,
    /// `-b` as the only argument.
    BranchNameRequiredAfterFlag,
}

#[derive(Debug)]
pub enum CheckoutRequest {
    ShowUsage(CheckoutUsage),
    /// Switch to an existing branch.
    CheckoutBranch(String),
    /// Create a branch and switch to it.
    CreateBranch(String),
    /// Restore the files that these index arguments select.
    CheckoutFiles(Vec<String>),
}

pub open spec fn index_char(c: char) -> bool {
    ('0' <= c && c <= '9') || c == ',' || c == '-' || c == ' '
}

/// An argument made only of digits, commas, dashes and spaces reads as indices.
pub open spec fn looks_numeric(s: Seq<char>) -> bool {
    forall|i: int| 0 <= i < s.len() ==> index_char(#[trigger] s[i])
}

/// What the arguments of a checkout ask for.
pub open spec fn checkout_spec(create_branch: bool, args: Seq<String>, r: CheckoutRequest) -> bool {
    if create_branch {
        if args.len() == 0 {
            r == CheckoutRequest::ShowUsage(CheckoutUsage::BranchNameRequiredWithFlag)
        } else if args.len() > 1 {
            r == CheckoutRequest::ShowUsage(CheckoutUsage::OnlyOneBranchName)
        } else {
            r matches CheckoutRequest::CreateBranch(name) && name@ == args[0]@
        }
    } else if args.len() == 1 && args[0]@ == "-b"@ {
        r == CheckoutRequest::ShowUsage(CheckoutUsage::BranchNameRequiredAfterFlag)
    } else if args.len() == 1 && !looks_numeric(args[0]@) {
        r matches CheckoutRequest::CheckoutBranch(name) && name@ == args[0]@
    } else if args.len() == 2 && args[0]@ == "-b"@ {
        r matches CheckoutRequest::CreateBranch(name) && name@ == args[1]@
    } else {
        r matches CheckoutRequest::CheckoutFiles(a) && a@ == args
    }
}

pub open spec fn usage_message(u: CheckoutUsage) -> Seq<char> {
    match u {
        CheckoutUsage::BranchNameRequiredWithFlag => "Branch name required with -b flag"@,
        CheckoutUsage::OnlyOneBranchName => "Only one branch name allowed with -b flag"@,
        CheckoutUsage::BranchNameRequiredAfterFlag => "Branch name required after -b flag"@,
    }
}

impl CheckoutUsage {
    /// The message shown above the usage.
    pub fn message(&self) -> (r: &'static str)
        ensures
            r@ == usage_message(*self),
    {
        match self {
            CheckoutUsage::BranchNameRequiredWithFlag => "Branch name required with -b flag",
            CheckoutUsage::OnlyOneBranchName => "Only one branch name allowed with -b flag",
            CheckoutUsage::BranchNameRequiredAfterFlag => "Branch name required after -b flag",
        }
    }
}

/// Whether `arg` is made only of digits, commas, dashes and spaces (so `1`,
/// `1,2`, `1-3`, `1 3-5,8`), and so reads as indices rather than a branch name.
pub fn is_numeric_index(arg: &str) -> (r: bool)
    ensures
        r == looks_numeric(arg@),
{
    let n = arg.unicode_len();
    let mut i: usize = 0;
    while i < n
        invariant
            n == arg@.len(),
            i <= n,
            forall|j: int| 0 <= j < i ==> index_char(#[trigger] arg@[j]),
        decreases n - i,
    {
        let c = arg.get_char(i);
        if !(('0' <= c && c <= '9') || c == ',' || c == '-' || c == ' ') {
            return false;
        }
        i = i + 1;
    }
    true
}

/// Reads a checkout command's arguments: with the create flag, one branch
/// name; without it, a lone non-numeric argument is a branch name, `-b NAME`
/// creates a branch, and anything else, no arguments included, is file
/// indices (so that an empty command fails as every index command does).
pub fn checkout_request(create_branch: bool, args: Vec<String>) -> (r: CheckoutRequest)
    ensures
        checkout_spec(create_branch, args@, r),
{
    if create_branch {
        if args.len() == 0 {
            return CheckoutRequest::ShowUsage(CheckoutUsage::BranchNameRequiredWithFlag);
        }
        if args.len() > 1 {
            return CheckoutRequest::ShowUsage(CheckoutUsage::OnlyOneBranchName);
        }
        return CheckoutRequest::CreateBranch(args[0].clone());
    }
    if args.len() == 1 {
        if same_text(args[0].as_str(), "-b") {
            return CheckoutRequest::ShowUsage(CheckoutUsage::BranchNameRequiredAfterFlag);
        }
        if !is_numeric_index(args[0].as_str()) {
            return CheckoutRequest::CheckoutBranch(args[0].clone());
        }
    }
    if args.len() == 2 && same_text(args[0].as_str(), "-b") {
        return CheckoutRequest::CreateBranch(args[1].clone());
    }
    CheckoutRequest::CheckoutFiles(args)
}

} // verus!
