//! Command-line arguments to validated indices: the arguments are joined with
//! spaces, parsed as one index expression and checked against the number of
//! entries available.

use vstd::prelude::*;
use crate::error::GitNavigatorError;
use crate::index_parser::{
    IndexParser, ParseFailure, failure_error, first_violation, parse_spec, strictly_increasing,
};
use crate::text::{decimal, push_char};

verus! {

pub struct ArgsParser;

/// The arguments joined with single spaces.
pub open spec fn joined(args: Seq<String>) -> Seq<char>
    decreases args.len(),
{
    if args.len() == 0 {
        Seq::empty()
    } else if args.len() == 1 {
        args[0]@
    } else {
        joined(args.drop_last()) + seq![' '] + args.last()@
    }
}

/// The message of the error that reports `f`.
pub open spec fn failure_message(f: ParseFailure) -> Seq<char> {
    match f {
        ParseFailure::RangeFormat(t) => "Invalid range format: '"@ + t + "'. Use format like '3-6'"@,
        ParseFailure::RangeNumber(t) => "Invalid number in range: '"@ + t + "'"@,
        ParseFailure::RangeOrder(a, b) =>
            "Invalid range: start ("@ + decimal(a as nat) + ") must be <= end ("@ + decimal(b as nat)
                + ")"@,
        ParseFailure::Number(t) => "Invalid number: '"@ + t + "'"@,
    }
}

/// The members of `s` above `max`.
pub open spec fn above(s: Set<usize>, max: usize) -> Set<usize> {
    s.filter(|x: usize| x > max)
}

/// The smallest member of `s`.
pub open spec fn least_of(s: Set<usize>) -> usize {
    choose|x: usize| s.contains(x) && forall|y: usize| #[trigger] s.contains(y) ==> x <= y
}

/// The smallest member of `s` above `max`.
pub open spec fn least_above(s: Set<usize>, max: usize) -> usize {
    least_of(above(s, max))
}

/// What checking the indices `s` in ascending order against `max` reports first:
/// a zero, else the smallest index above `max`.
pub open spec fn selection_violation(s: Set<usize>, max: usize) -> Option<GitNavigatorError> {
    if s.contains(0) {
        Some(GitNavigatorError::ZeroIndex)
    } else if exists|x: usize| s.contains(x) && x > max {
        Some(GitNavigatorError::IndexOutOfRange { index: least_above(s, max), max })
    } else {
        None
    }
}

/// What `parse_indices(args, file_count)` must return.
pub open spec fn parse_indices_result(
    args: Seq<String>,
    file_count: usize,
    r: Result<Vec<usize>, GitNavigatorError>,
) -> bool {
    if args.len() == 0 {
        r == Err::<Vec<usize>, GitNavigatorError>(GitNavigatorError::NoIndicesProvided)
    } else {
        match parse_spec(joined(args)) {
            Err(f) => match r {
                Err(GitNavigatorError::InvalidIndexFormat { input }) => input@ == failure_message(f),
                _ => false,
            },
            Ok(s) => if s == Set::<usize>::empty() {
                r == Err::<Vec<usize>, GitNavigatorError>(GitNavigatorError::NoValidIndices)
            } else if file_count == 0 {
                r == Err::<Vec<usize>, GitNavigatorError>(GitNavigatorError::NoFilesAvailable)
            } else {
                match selection_violation(s, file_count) {
                    Some(e) => r == Err::<Vec<usize>, GitNavigatorError>(e),
                    None => match r {
                        Ok(v) => v@.to_set() == s && strictly_increasing(v@),
                        Err(_) => false,
                    },
                }
            },
        }
    }
}

proof fn lemma_failure_message(f: ParseFailure, e: GitNavigatorError)
    requires
        failure_error(f, e),
    ensures
        e.message() == failure_message(f),
{
}

proof fn lemma_to_set_cons(v: Seq<usize>)
    requires
        v.len() > 0,
    ensures
        v.to_set() == v.drop_first().to_set().insert(v[0]),
{
    let rest = v.drop_first();
    assert forall|a: usize| v.to_set().contains(a) <==> rest.to_set().insert(v[0]).contains(a) by {
        if v.contains(a) {
            let i = choose|i: int| 0 <= i < v.len() && v[i] == a;
            if i > 0 {
                assert(rest[i - 1] == a);
            }
        }
        if rest.contains(a) {
            let i = choose|i: int| 0 <= i < rest.len() && rest[i] == a;
            assert(v[i + 1] == a);
        }
        if a == v[0] {
            assert(v.contains(a));
        }
    }
    assert(v.to_set() =~= rest.to_set().insert(v[0]));
}

proof fn lemma_violation_insert_valid(s: Set<usize>, a: usize, max: usize)
    requires
        1 <= a <= max,
    ensures
        selection_violation(s.insert(a), max) == selection_violation(s, max),
{
    let t = s.insert(a);
    assert(t.contains(0) == s.contains(0));
    assert(above(t, max) =~= above(s, max));
    if exists|x: usize| t.contains(x) && x > max {
        let x = choose|x: usize| t.contains(x) && x > max;
        assert(s.contains(x));
    }
    if exists|x: usize| s.contains(x) && x > max {
        let x = choose|x: usize| s.contains(x) && x > max;
        assert(t.contains(x));
    }
}

proof fn lemma_violation_least(s: Set<usize>, m: usize, max: usize)
    requires
        s.contains(m),
        m > max,
        forall|y: usize| s.contains(y) ==> m <= y,
    ensures
        selection_violation(s, max) == Some(GitNavigatorError::IndexOutOfRange { index: m, max }),
{
    assert(!s.contains(0));
    let a = above(s, max);
    assert(a.contains(m));
    let l = least_of(a);
    assert(a.contains(l) && l <= m);
}

proof fn lemma_increasing_rest(v: Seq<usize>)
    requires
        strictly_increasing(v),
        v.len() > 0,
    ensures
        strictly_increasing(v.drop_first()),
        forall|y: usize| v.to_set().contains(y) ==> v[0] <= y,
{
    let rest = v.drop_first();
    assert forall|i: int, j: int| 0 <= i < j < rest.len() implies rest[i] < rest[j] by {
        assert(rest[i] == v[i + 1] && rest[j] == v[j + 1]);
    }
    assert forall|y: usize| v.to_set().contains(y) implies v[0] <= y by {
        let i = choose|i: int| 0 <= i < v.len() && v[i] == y;
        if i > 0 {
            assert(v[0] < v[i]);
        }
    }
}

/// On an ascending list, the first violation in list order is the one that
/// the set of its members determines.
proof fn lemma_sorted_violation(v: Seq<usize>, max: usize)
    requires
        strictly_increasing(v),
        max > 0,
    ensures
        first_violation(v, max) == selection_violation(v.to_set(), max),
    decreases v.len(),
{
    let s = v.to_set();
    if v.len() == 0 {
        assert(!s.contains(0));
        assert(!exists|x: usize| s.contains(x) && x > max);
    } else {
        lemma_to_set_cons(v);
        lemma_increasing_rest(v);
        if v[0] == 0 {
            assert(s.contains(0));
        } else if v[0] > max {
            assert(s.contains(v[0]));
            lemma_violation_least(s, v[0], max);
        } else {
            lemma_sorted_violation(v.drop_first(), max);
            lemma_violation_insert_valid(v.drop_first().to_set(), v[0], max);
        }
    }
}

/// The arguments joined with single spaces.
fn join_args(args: &Vec<String>) -> (r: String)
    requires
        args@.len() > 0,
    ensures
        r@ == joined(args@),
{
    let mut r = String::new();
    r.append(args[0].as_str());
    assert(args@.take(1) =~= seq![args@[0]]);
    let mut i: usize = 1;
    while i < args.len()
        invariant
            1 <= i <= args@.len(),
            r@ == joined(args@.take(i as int)),
        decreases args@.len() - i,
    {
        push_char(&mut r, ' ');
        r.append(args[i].as_str());
        assert(args@.take(i + 1).drop_last() =~= args@.take(i as int));
        assert(args@.take(i + 1).last() == args@[i as int]);
        assert(r@ =~= joined(args@.take(i + 1)));
        i = i + 1;
    }
    assert(args@.take(i as int) =~= args@);
    r
}

impl ArgsParser {
    /// Parses command-line arguments (for example `["1", "3-5,8"]`) into
    /// ascending, duplicate-free indices between 1 and `file_count`.
    pub fn parse_indices(args: Vec<String>, file_count: usize) -> (r: Result<Vec<usize>, GitNavigatorError>)
        ensures
            parse_indices_result(args@, file_count, r),
    {
        Self::parse_index_args(&args, file_count)
    }

    /// As `parse_indices`, on borrowed arguments.
    pub fn parse_index_args(args: &Vec<String>, file_count: usize) -> (r: Result<Vec<usize>, GitNavigatorError>)
        ensures
            parse_indices_result(args@, file_count, r),
    {
        if args.len() == 0 {
            return Err(GitNavigatorError::NoIndicesProvided);
        }
        let text = join_args(args);
        let indices = match IndexParser::parse(text.as_str()) {
            Ok(v) => v,
            Err(e) => {
                proof {
                    let f = parse_spec(joined(args@))->Err_0;
                    lemma_failure_message(f, e);
                }
                let input = e.to_string();
                return Err(GitNavigatorError::InvalidIndexFormat { input });
            },
        };
        let ghost s = parse_spec(joined(args@))->Ok_0;
        if indices.len() == 0 {
            assert(s =~= Set::<usize>::empty());
            return Err(GitNavigatorError::NoValidIndices);
        }
        assert(s.contains(indices@[0]));
        match IndexParser::validate(indices.as_slice(), file_count) {
            Err(e) => {
                proof {
                    if file_count > 0 {
                        lemma_sorted_violation(indices@, file_count);
                    }
                }
                return Err(e);
            },
            Ok(()) => {},
        }
        proof {
            lemma_sorted_violation(indices@, file_count);
        }
        Ok(indices)
    }

    /// Whether any argument was given.
    pub fn has_args(args: &[String]) -> (r: bool)
        ensures
            r == (args@.len() > 0),
    {
        args.len() > 0
    }

    /// The number of arguments.
    pub fn arg_count(args: &[String]) -> (r: usize)
        ensures
            r == args@.len(),
    {
        args.len()
    }
}

} // verus!
