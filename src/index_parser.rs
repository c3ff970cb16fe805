//! Parsing of user index expressions such as `1 3-5,8` into a sorted,
//! duplicate-free list of indices, and bounds checking of such lists.
//!
//! Grammar: `expr := token (sep token)*`, `sep := ' ' | ','`,
//! `token := INTEGER | INTEGER '-' INTEGER`. Each token is trimmed of
//! whitespace; tokens that are empty after trimming are skipped.

use vstd::prelude::*;
use crate::error::GitNavigatorError;
use crate::text::{
    chars_to_string, decimal, digit_char, is_ws, is_whitespace, lemma_trim_end, lemma_trim_start,
    trim,
};

verus! {

#[derive(Debug, PartialEq, Eq, Structural)]
pub struct IndexRange {
    pub start: usize,
    pub end: usize,
}

pub struct IndexParser;

pub open spec fn is_separator(c: char) -> bool {
    c == ' ' || c == ','
}

/// The pieces of `s` between separators, in order, empty pieces included.
pub open spec fn pieces(s: Seq<char>) -> Seq<Seq<char>>
    decreases s.len(),
{
    if s.len() == 0 {
        seq![Seq::<char>::empty()]
    } else {
        let p = pieces(s.drop_last());
        if is_separator(s.last()) {
            p.push(Seq::<char>::empty())
        } else {
            p.update(p.len() - 1, p.last().push(s.last()))
        }
    }
}

pub open spec fn is_digit(c: char) -> bool {
    '0' <= c && c <= '9'
}

pub open spec fn digit_value(c: char) -> nat {
    ((c as u32) - ('0' as u32)) as nat
}

/// The number that a string of decimal digits denotes.
pub open spec fn digits_value(s: Seq<char>) -> nat
    decreases s.len(),
{
    if s.len() == 0 {
        0
    } else {
        digits_value(s.drop_last()) * 10 + digit_value(s.last())
    }
}

pub open spec fn all_digits(s: Seq<char>) -> bool {
    forall|i: int| 0 <= i < s.len() ==> is_digit(#[trigger] s[i])
}

/// `s` without one leading `+`, if it has one.
pub open spec fn unsigned_part(s: Seq<char>) -> Seq<char> {
    if s.len() > 0 && s[0] == '+' {
        s.drop_first()
    } else {
        s
    }
}

/// What `str::parse::<usize>` yields for `s`: an optional `+`, then one or
/// more decimal digits whose value fits in `usize`.
pub open spec fn usize_of(s: Seq<char>) -> Option<usize> {
    let d = unsigned_part(s);
    if d.len() > 0 && all_digits(d) && digits_value(d) <= usize::MAX {
        Some(digits_value(d) as usize)
    } else {
        None
    }
}

/// Why an index expression is rejected.
pub enum ParseFailure {
    /// A token with more than one `-`.
    RangeFormat(Seq<char>),
    /// One side of a range that is not a number.
    RangeNumber(Seq<char>),
    /// A range whose start exceeds its end.
    RangeOrder(usize, usize),
    /// A token without `-` that is not a number.
    Number(Seq<char>),
}

/// What one piece of an expression contributes.
pub enum TokenValue {
    Skip,
    Single(usize),
    Range(usize, usize),
    Fail(ParseFailure),
}

pub open spec fn range_value(a: Seq<char>, b: Seq<char>) -> TokenValue {
    match usize_of(a) {
        None => TokenValue::Fail(ParseFailure::RangeNumber(a)),
        Some(x) => match usize_of(b) {
            None => TokenValue::Fail(ParseFailure::RangeNumber(b)),
            Some(y) => if x > y {
                TokenValue::Fail(ParseFailure::RangeOrder(x, y))
            } else {
                TokenValue::Range(x, y)
            },
        },
    }
}

pub open spec fn has_two_dashes(t: Seq<char>) -> bool {
    exists|p: int, q: int| 0 <= p < q < t.len() && t[p] == '-' && t[q] == '-'
}

/// The value of a trimmed, non-empty token.
pub open spec fn token_value(t: Seq<char>) -> TokenValue {
    if !t.contains('-') {
        match usize_of(t) {
            Some(n) => TokenValue::Single(n),
            None => TokenValue::Fail(ParseFailure::Number(t)),
        }
    } else if has_two_dashes(t) {
        TokenValue::Fail(ParseFailure::RangeFormat(t))
    } else {
        let p = choose|p: int| 0 <= p < t.len() && t[p] == '-';
        range_value(t.take(p), t.skip(p + 1))
    }
}

pub open spec fn piece_value(p: Seq<char>) -> TokenValue {
    if trim(p).len() == 0 {
        TokenValue::Skip
    } else {
        token_value(trim(p))
    }
}

/// The indices from `a` to `b`, both included.
pub open spec fn range_set(a: usize, b: usize) -> Set<usize> {
    Set::new(|i: usize| a <= i && i <= b)
}

/// The union of the pieces' values, or the failure of the first piece that fails.
pub open spec fn parse_pieces(ps: Seq<Seq<char>>) -> core::result::Result<Set<usize>, ParseFailure>
    decreases ps.len(),
{
    if ps.len() == 0 {
        Ok(Set::empty())
    } else {
        match parse_pieces(ps.drop_last()) {
            Err(f) => Err(f),
            Ok(acc) => match piece_value(ps.last()) {
                TokenValue::Skip => Ok(acc),
                TokenValue::Single(n) => Ok(acc.insert(n)),
                TokenValue::Range(a, b) => Ok(acc.union(range_set(a, b))),
                TokenValue::Fail(f) => Err(f),
            },
        }
    }
}

/// The set of indices that the expression `s` denotes, or why it is rejected.
pub open spec fn parse_spec(s: Seq<char>) -> core::result::Result<Set<usize>, ParseFailure> {
    parse_pieces(pieces(s))
}

/// `e` is the error that reports `f`.
pub open spec fn failure_error(f: ParseFailure, e: GitNavigatorError) -> bool {
    match f {
        ParseFailure::RangeFormat(t) => match e {
            GitNavigatorError::InvalidRangeFormat { range } => range@ == t,
            _ => false,
        },
        ParseFailure::RangeNumber(t) => match e {
            GitNavigatorError::InvalidRangeNumber { number } => number@ == t,
            _ => false,
        },
        ParseFailure::RangeOrder(a, b) => e == (GitNavigatorError::InvalidRangeOrder {
            start: a,
            end: b,
        }),
        ParseFailure::Number(t) => match e {
            GitNavigatorError::InvalidNumber { number } => number@ == t,
            _ => false,
        },
    }
}

pub open spec fn strictly_increasing(s: Seq<usize>) -> bool {
    forall|i: int, j: int| 0 <= i < j < s.len() ==> s[i] < s[j]
}

/// `r` is what parsing `s` must give.
pub open spec fn parse_result(s: Seq<char>, r: core::result::Result<Vec<usize>, GitNavigatorError>) -> bool {
    match parse_spec(s) {
        Ok(set) => match r {
            Ok(v) => v@.to_set() == set && strictly_increasing(v@),
            Err(_) => false,
        },
        Err(f) => match r {
            Ok(_) => false,
            Err(e) => failure_error(f, e),
        },
    }
}

/// The first index of `idx` that is zero or above `max`, as the error that reports it.
pub open spec fn first_violation(idx: Seq<usize>, max: usize) -> Option<GitNavigatorError>
    decreases idx.len(),
{
    if idx.len() == 0 {
        None
    } else if idx[0] == 0 {
        Some(GitNavigatorError::ZeroIndex)
    } else if idx[0] > max {
        Some(GitNavigatorError::IndexOutOfRange { index: idx[0], max })
    } else {
        first_violation(idx.drop_first(), max)
    }
}

pub open spec fn validate_result(idx: Seq<usize>, max: usize) -> core::result::Result<(), GitNavigatorError> {
    if max == 0 {
        Err(GitNavigatorError::NoFilesAvailable)
    } else {
        match first_violation(idx, max) {
            None => Ok(()),
            Some(e) => Err(e),
        }
    }
}

proof fn lemma_pieces_nonempty(s: Seq<char>)
    ensures
        pieces(s).len() >= 1,
    decreases s.len(),
{
    if s.len() > 0 {
        lemma_pieces_nonempty(s.drop_last());
    }
}

/// Pieces that are complete in a prefix stay as they are in any longer prefix.
proof fn lemma_pieces_prefix(s: Seq<char>, i: int, j: int)
    requires
        0 <= i <= j <= s.len(),
    ensures
        pieces(s.take(j)).len() >= pieces(s.take(i)).len(),
        forall|k: int| 0 <= k < pieces(s.take(i)).len() - 1
            ==> #[trigger] pieces(s.take(j))[k] == pieces(s.take(i))[k],
    decreases j - i,
{
    if i < j {
        lemma_pieces_prefix(s, i, j - 1);
        let t = s.take(j);
        assert(t.drop_last() =~= s.take(j - 1));
        lemma_pieces_nonempty(s.take(j - 1));
    }
}

proof fn lemma_parse_pieces_prefix(ps: Seq<Seq<char>>, k: int)
    requires
        0 <= k <= ps.len(),
        parse_pieces(ps.take(k)) is Err,
    ensures
        parse_pieces(ps) == parse_pieces(ps.take(k)),
    decreases ps.len() - k,
{
    if k < ps.len() {
        let t = ps.take(k + 1);
        assert(t.drop_last() =~= ps.take(k));
        lemma_parse_pieces_prefix(ps, k + 1);
    } else {
        assert(ps.take(k) =~= ps);
    }
}

proof fn lemma_digits_monotone(s: Seq<char>, j: int)
    requires
        0 <= j <= s.len(),
    ensures
        digits_value(s.take(j)) <= digits_value(s),
    decreases s.len() - j,
{
    if j < s.len() {
        lemma_digits_monotone(s.drop_last(), j);
        assert(s.drop_last().take(j) =~= s.take(j));
    } else {
        assert(s.take(j) =~= s);
    }
}

/// Reads `v[lo..hi]` as `str::parse::<usize>` would.
fn parse_number(v: &Vec<char>, lo: usize, hi: usize) -> (r: Option<usize>)
    requires
        lo <= hi <= v@.len(),
    ensures
        r == usize_of(v@.subrange(lo as int, hi as int)),
{
    let ghost t = v@.subrange(lo as int, hi as int);
    let mut start = lo;
    if lo < hi && v[lo] == '+' {
        start = lo + 1;
    }
    let ghost d = v@.subrange(start as int, hi as int);
    assert(unsigned_part(t) =~= d);
    if start == hi {
        return None;
    }
    let mut val: usize = 0;
    let mut k = start;
    while k < hi
        invariant
            start <= k <= hi <= v@.len(),
            t == v@.subrange(lo as int, hi as int),
            d == v@.subrange(start as int, hi as int),
            unsigned_part(t) == d,
            forall|j: int| start <= j < k ==> is_digit(#[trigger] v@[j]),
            val as nat == digits_value(v@.subrange(start as int, k as int)),
        decreases hi - k,
    {
        let c = v[k];
        assert(d[(k - start) as int] == v@[k as int]);
        if !('0' <= c && c <= '9') {
            assert(!all_digits(d));
            return None;
        }
        let dv = ((c as u32) - ('0' as u32)) as usize;
        assert(dv as nat == digit_value(c));
        assert(v@.subrange(start as int, k + 1).drop_last() =~= v@.subrange(start as int, k as int));
        assert(v@.subrange(start as int, k + 1).last() == c);
        assert(digits_value(v@.subrange(start as int, k + 1)) == val * 10 + dv);
        if val > (usize::MAX - dv) / 10 {
            assert(val * 10 + dv > usize::MAX) by (nonlinear_arith)
                requires
                    val > (usize::MAX - dv) / 10,
                    dv <= 9,
            ;
            proof {
                if all_digits(d) {
                    assert(d.take(k + 1 - start) =~= v@.subrange(start as int, k + 1));
                    lemma_digits_monotone(d, k + 1 - start);
                }
            }
            return None;
        }
        assert(val * 10 + dv <= usize::MAX) by (nonlinear_arith)
            requires
                val <= (usize::MAX - dv) / 10,
                dv <= 9,
        ;
        val = val * 10 + dv;
        k = k + 1;
    }
    assert(all_digits(d)) by {
        assert forall|i: int| 0 <= i < d.len() implies is_digit(#[trigger] d[i]) by {
            assert(d[i] == v@[start + i]);
        }
    }
    Some(val)
}

/// Adds `x` to a strictly increasing list, keeping it strictly increasing.
fn insert_sorted(v: &mut Vec<usize>, x: usize)
    requires
        strictly_increasing(old(v)@),
    ensures
        strictly_increasing(final(v)@),
        final(v)@.to_set() == old(v)@.to_set().insert(x),
{
    let mut p: usize = 0;
    while p < v.len() && v[p] < x
        invariant
            p <= v@.len(),
            forall|j: int| 0 <= j < p ==> v@[j] < x,
        decreases v@.len() - p,
    {
        p = p + 1;
    }
    if p < v.len() && v[p] == x {
        assert(v@.to_set().insert(x) =~= v@.to_set());
        return;
    }
    let ghost before = v@;
    v.insert(p, x);
    assert(v@ == before.insert(p as int, x));
    assert forall|i: int, j: int| 0 <= i < j < v@.len() implies v@[i] < v@[j] by {
        if j < p {
        } else if j == p {
        } else if i < p {
            assert(before[j - 1] >= x) by {
                if p < before.len() {
                    assert(before[p as int] > x);
                }
            }
        } else if i == p {
            assert(before[p as int] > x);
            assert(p as int <= j - 1);
        } else {
        }
    }
    assert forall|a: usize| v@.to_set().contains(a) <==> before.to_set().insert(x).contains(a) by {
        if before.contains(a) {
            let i = choose|i: int| 0 <= i < before.len() && before[i] == a;
            if i < p {
                assert(v@[i] == a);
            } else {
                assert(v@[i + 1] == a);
            }
        }
        if a == x {
            assert(v@[p as int] == x);
        }
        if v@.contains(a) {
            let i = choose|i: int| 0 <= i < v@.len() && v@[i] == a;
            if i < p {
                assert(before[i] == a);
            } else if i > p {
                assert(before[i - 1] == a);
            }
        }
    }
    assert(v@.to_set() =~= before.to_set().insert(x));
}

/// Adds every index from `a` to `b` to a strictly increasing list.
fn insert_range(v: &mut Vec<usize>, a: usize, b: usize)
    requires
        strictly_increasing(old(v)@),
        a <= b,
    ensures
        strictly_increasing(final(v)@),
        final(v)@.to_set() == old(v)@.to_set().union(range_set(a, b)),
{
    let ghost start = v@.to_set();
    let mut i = a;
    while i < b
        invariant
            a <= i <= b,
            strictly_increasing(v@),
            v@.to_set() == start.union(Set::new(|k: usize| a <= k && k < i)),
        decreases b - i,
    {
        insert_sorted(v, i);
        assert(start.union(Set::new(|k: usize| a <= k && k < i)).insert(i)
            =~= start.union(Set::new(|k: usize| a <= k && k < i + 1)));
        i = i + 1;
    }
    insert_sorted(v, b);
    assert(start.union(Set::new(|k: usize| a <= k && k < b)).insert(b)
        =~= start.union(range_set(a, b)));
}

/// Adds what one piece of an expression denotes to `acc`, or reports why the
/// piece is rejected.
fn apply_piece(acc: &mut Vec<usize>, piece: &Vec<char>) -> (r: Result<(), GitNavigatorError>)
    requires
        strictly_increasing(old(acc)@),
    ensures
        strictly_increasing(final(acc)@),
        match piece_value(piece@) {
            TokenValue::Skip => r is Ok && final(acc)@.to_set() == old(acc)@.to_set(),
            TokenValue::Single(n) => r is Ok && final(acc)@.to_set() == old(acc)@.to_set().insert(n),
            TokenValue::Range(a, b) => r is Ok && final(acc)@.to_set() == old(acc)@.to_set().union(
                range_set(a, b),
            ),
            TokenValue::Fail(f) => match r {
                Ok(_) => false,
                Err(e) => failure_error(f, e),
            },
        },
{
    let len = piece.len();
    let mut lo: usize = 0;
    while lo < len && is_whitespace(piece[lo])
        invariant
            lo <= len == piece@.len(),
            forall|i: int| 0 <= i < lo ==> is_ws(#[trigger] piece@[i]),
        decreases len - lo,
    {
        lo = lo + 1;
    }
    proof {
        lemma_trim_start(piece@, lo as int);
    }
    if lo == len {
        assert(trim(piece@).len() == 0);
        return Ok(());
    }
    let mut hi: usize = len;
    while hi > lo && is_whitespace(piece[hi - 1])
        invariant
            lo < len == piece@.len(),
            lo <= hi <= len,
            !is_ws(piece@[lo as int]),
            forall|i: int| hi <= i < len ==> is_ws(#[trigger] piece@[i]),
        decreases hi,
    {
        hi = hi - 1;
    }
    let ghost t = piece@.subrange(lo as int, hi as int);
    proof {
        let s1 = piece@.subrange(lo as int, len as int);
        assert forall|i: int| hi - lo <= i < s1.len() implies is_ws(#[trigger] s1[i]) by {
            assert(s1[i] == piece@[lo + i]);
        }
        lemma_trim_end(s1, hi - lo);
        assert(s1.subrange(0, hi - lo) =~= t);
        assert(trim(piece@) == t);
        assert(t.len() > 0);
    }
    let mut p = lo;
    while p < hi && piece[p] != '-'
        invariant
            lo <= p <= hi <= piece@.len(),
            forall|i: int| lo <= i < p ==> piece@[i] != '-',
        decreases hi - p,
    {
        p = p + 1;
    }
    if p == hi {
        assert(!t.contains('-')) by {
            if t.contains('-') {
                let i = choose|i: int| 0 <= i < t.len() && t[i] == '-';
                assert(piece@[lo + i] == '-');
            }
        }
        match parse_number(piece, lo, hi) {
            Some(n) => {
                insert_sorted(acc, n);
                Ok(())
            },
            None => Err(GitNavigatorError::InvalidNumber { number: chars_to_string(piece, lo, hi) }),
        }
    } else {
        assert(t[p - lo] == '-');
        assert(t.contains('-'));
        let mut q = p + 1;
        while q < hi && piece[q] != '-'
            invariant
                p < q <= hi <= piece@.len(),
                forall|i: int| p < i < q ==> piece@[i] != '-',
            decreases hi - q,
        {
            q = q + 1;
        }
        if q < hi {
            assert(t[q - lo] == '-');
            assert(has_two_dashes(t));
            return Err(GitNavigatorError::InvalidRangeFormat { range: chars_to_string(piece, lo, hi) });
        }
        proof {
            assert(!has_two_dashes(t)) by {
                if has_two_dashes(t) {
                    let (i, j) = choose|i: int, j: int|
                        0 <= i < j < t.len() && t[i] == '-' && t[j] == '-';
                    assert(piece@[lo + i] == '-');
                    assert(piece@[lo + j] == '-');
                }
            }
            let c = choose|c: int| 0 <= c < t.len() && t[c] == '-';
            assert(piece@[lo + c] == '-');
            assert(c == p - lo);
            assert(t.take(c) =~= piece@.subrange(lo as int, p as int));
            assert(t.skip(c + 1) =~= piece@.subrange(p + 1, hi as int));
        }
        let a = match parse_number(piece, lo, p) {
            Some(a) => a,
            None => {
                return Err(GitNavigatorError::InvalidRangeNumber { number: chars_to_string(piece, lo, p) });
            },
        };
        let b = match parse_number(piece, p + 1, hi) {
            Some(b) => b,
            None => {
                return Err(GitNavigatorError::InvalidRangeNumber { number: chars_to_string(piece, p + 1, hi) });
            },
        };
        if a > b {
            return Err(GitNavigatorError::InvalidRangeOrder { start: a, end: b });
        }
        insert_range(acc, a, b);
        Ok(())
    }
}

/// The indices of `v` in decimal, joined by commas.
pub open spec fn comma_joined(v: Seq<usize>) -> Seq<char>
    decreases v.len(),
{
    if v.len() == 0 {
        Seq::empty()
    } else if v.len() == 1 {
        decimal(v[0] as nat)
    } else {
        comma_joined(v.drop_last()) + seq![','] + decimal(v.last() as nat)
    }
}

/// Each index of `v` in decimal.
pub open spec fn decimals(v: Seq<usize>) -> Seq<Seq<char>> {
    v.map_values(|n: usize| decimal(n as nat))
}

proof fn lemma_digit_char(d: nat)
    requires
        d < 10,
    ensures
        is_digit(digit_char(d)),
        digit_value(digit_char(d)) == d,
{
}

/// A decimal numeral is a single token that reads back as its number.
proof fn lemma_decimal(n: nat)
    ensures
        decimal(n).len() >= 1,
        all_digits(decimal(n)),
        digits_value(decimal(n)) == n,
    decreases n,
{
    lemma_digit_char(n % 10);
    if n >= 10 {
        lemma_decimal(n / 10);
        let d = decimal(n);
        assert(d.drop_last() =~= decimal(n / 10));
        assert(d.last() == digit_char(n % 10));
        assert(digits_value(d) == digits_value(d.drop_last()) * 10 + digit_value(d.last()));
        assert(digits_value(d.drop_last()) == n / 10);
        assert(digit_value(d.last()) == n % 10);
        assert((n / 10) * 10 + n % 10 == n) by (nonlinear_arith);
        assert forall|i: int| 0 <= i < d.len() implies is_digit(#[trigger] d[i]) by {
            if i < d.len() - 1 {
                assert(d[i] == decimal(n / 10)[i]);
            }
        }
    } else {
        assert(decimal(n).drop_last() =~= Seq::<char>::empty());
        assert(decimal(n).last() == digit_char(n));
        assert(digits_value(decimal(n)) == digits_value(decimal(n).drop_last()) * 10 + digit_value(
            decimal(n).last(),
        ));
        assert(digits_value(Seq::<char>::empty()) == 0);
    }
}

proof fn lemma_decimal_token(n: usize)
    ensures
        piece_value(decimal(n as nat)) == TokenValue::Single(n),
        forall|i: int| 0 <= i < decimal(n as nat).len() ==> !is_separator(#[trigger] decimal(n as nat)[i]),
{
    let d = decimal(n as nat);
    lemma_decimal(n as nat);
    assert(forall|i: int| 0 <= i < d.len() ==> is_digit(#[trigger] d[i]));
    assert(!is_ws(d[0]));
    assert(!is_ws(d.last()));
    lemma_trim_start(d, 0);
    assert(d.subrange(0, d.len() as int) =~= d);
    lemma_trim_end(d, d.len() as int);
    assert(trim(d) == d);
    assert(!d.contains('-')) by {
        if d.contains('-') {
            let i = choose|i: int| 0 <= i < d.len() && d[i] == '-';
            assert(is_digit(d[i]));
        }
    }
    assert(unsigned_part(d) == d);
}

/// Appending characters that are not separators extends the last piece.
proof fn lemma_pieces_extend(s: Seq<char>, t: Seq<char>)
    requires
        forall|i: int| 0 <= i < t.len() ==> !is_separator(#[trigger] t[i]),
    ensures
        pieces(s + t) == pieces(s).update(pieces(s).len() - 1, pieces(s).last() + t),
    decreases t.len(),
{
    lemma_pieces_nonempty(s);
    if t.len() == 0 {
        assert(s + t =~= s);
        assert(pieces(s).last() + t =~= pieces(s).last());
        assert(pieces(s).update(pieces(s).len() - 1, pieces(s).last()) =~= pieces(s));
    } else {
        let u = t.drop_last();
        lemma_pieces_extend(s, u);
        assert((s + t).drop_last() =~= s + u);
        assert((s + t).last() == t.last());
        assert(!is_separator(t.last()));
        lemma_pieces_nonempty(s + u);
        assert((pieces(s).last() + u).push(t.last()) =~= pieces(s).last() + t);
        let p = pieces(s + u);
        assert(p.len() == pieces(s).len());
        assert(p.last() == pieces(s).last() + u);
        assert(pieces(s + t) =~= pieces(s).update(pieces(s).len() - 1, pieces(s).last() + t));
    }
}

proof fn lemma_pieces_comma_joined(v: Seq<usize>)
    requires
        v.len() >= 1,
    ensures
        pieces(comma_joined(v)) == decimals(v),
    decreases v.len(),
{
    let ds = decimals(v);
    if v.len() == 1 {
        lemma_decimal_token(v[0]);
        lemma_pieces_extend(Seq::empty(), decimal(v[0] as nat));
        assert(Seq::<char>::empty() + decimal(v[0] as nat) =~= decimal(v[0] as nat));
        assert(pieces(comma_joined(v)) =~= ds);
    } else {
        let w = v.drop_last();
        lemma_pieces_comma_joined(w);
        let c = comma_joined(w) + seq![','];
        assert(c.drop_last() =~= comma_joined(w));
        assert(pieces(c) == pieces(comma_joined(w)).push(Seq::<char>::empty()));
        lemma_decimal_token(v.last());
        lemma_pieces_extend(c, decimal(v.last() as nat));
        assert(Seq::<char>::empty() + decimal(v.last() as nat) =~= decimal(v.last() as nat));
        assert(pieces(comma_joined(v)) =~= ds);
    }
}

proof fn lemma_parse_decimals(v: Seq<usize>)
    ensures
        parse_pieces(decimals(v)) == Ok::<Set<usize>, ParseFailure>(
            v.to_set(),
        ),
    decreases v.len(),
{
    let ds = decimals(v);
    if v.len() == 0 {
        assert(v.to_set() =~= Set::<usize>::empty());
    } else {
        let w = v.drop_last();
        lemma_parse_decimals(w);
        assert(ds.drop_last() =~= decimals(w));
        lemma_decimal_token(v.last());
        assert(v.to_set() =~= w.to_set().insert(v.last())) by {
            assert(w.push(v.last()) =~= v);
            assert forall|a: usize| v.to_set().contains(a) <==> w.to_set().insert(v.last()).contains(a) by {
                if v.contains(a) {
                    let i = choose|i: int| 0 <= i < v.len() && v[i] == a;
                    if i < w.len() {
                        assert(w[i] == a);
                    }
                }
                if w.contains(a) {
                    let i = choose|i: int| 0 <= i < w.len() && w[i] == a;
                    assert(v[i] == a);
                }
                if a == v.last() {
                    assert(v[v.len() - 1] == a);
                }
            }
        }
    }
}

/// Writing a parsed expression's indices back out, ascending and joined by
/// commas, and parsing that text gives the same set of indices.
pub proof fn lemma_parse_round_trip(e: Seq<char>, v: Seq<usize>)
    requires
        parse_spec(e) == Ok::<Set<usize>, ParseFailure>(v.to_set()),
        strictly_increasing(v),
    ensures
        parse_spec(comma_joined(v)) == parse_spec(e),
{
    if v.len() == 0 {
        assert(pieces(Seq::<char>::empty()) == seq![Seq::<char>::empty()]);
        assert(seq![Seq::<char>::empty()].drop_last() =~= Seq::<Seq<char>>::empty());
        assert(seq![Seq::<char>::empty()].last() == Seq::<char>::empty());
        assert(trim(Seq::<char>::empty()) == Seq::<char>::empty());
        assert(v.to_set() =~= Set::<usize>::empty());
        assert(comma_joined(v) == Seq::<char>::empty());
        assert(parse_pieces(Seq::<Seq<char>>::empty()) == Ok::<Set<usize>, ParseFailure>(Set::empty()));
        assert(piece_value(Seq::<char>::empty()) == TokenValue::Skip);
        assert(parse_pieces(seq![Seq::<char>::empty()]) == Ok::<Set<usize>, ParseFailure>(Set::empty()));
    } else {
        lemma_pieces_comma_joined(v);
        lemma_parse_decimals(v);
        assert(parse_spec(comma_joined(v)) == parse_pieces(decimals(v)));
    }
}

/// `1,3` denotes the indices 1 and 3.
pub proof fn lemma_parse_one_three()
    ensures
        parse_spec("1,3"@) == Ok::<Set<usize>, ParseFailure>(set![1usize, 3usize]),
{
    let v = seq![1usize, 3usize];
    reveal_strlit("1,3");
    assert(v.drop_last() =~= seq![1usize]);
    assert(decimal(1) =~= seq!['1']);
    assert(decimal(3) =~= seq!['3']);
    assert(comma_joined(seq![1usize]) == decimal(1));
    assert("1,3"@ =~= comma_joined(v));
    lemma_pieces_comma_joined(v);
    lemma_parse_decimals(v);
    assert(v.to_set() =~= set![1usize, 3usize]) by {
        assert(v[0] == 1 && v[1] == 3);
        assert forall|x: usize| v.to_set().contains(x) <==> set![1usize, 3usize].contains(x) by {
            if x == 1 {
                assert(v.contains(x));
            }
            if x == 3 {
                assert(v[1] == x);
                assert(v.contains(x));
            }
        }
    }
    assert(parse_spec(comma_joined(v)) == parse_pieces(decimals(v)));
}

impl IndexParser {
    /// Parses an index expression into its indices, ascending and without
    /// duplicates. Blank input gives an empty list.
    pub fn parse(input: &str) -> (r: Result<Vec<usize>, GitNavigatorError>)
        ensures
            parse_result(input@, r),
    {
        let n = input.unicode_len();
        let mut acc: Vec<usize> = Vec::new();
        let mut piece: Vec<char> = Vec::new();
        let ghost mut done: Seq<Seq<char>> = Seq::empty();
        let mut i: usize = 0;
        assert(input@.take(0) =~= Seq::<char>::empty());
        assert(acc@.to_set() =~= Set::<usize>::empty());
        while i < n
            invariant
                n == input@.len(),
                i <= n,
                pieces(input@.take(i as int)) == done.push(piece@),
                parse_pieces(done) == Ok::<Set<usize>, ParseFailure>(acc@.to_set()),
                strictly_increasing(acc@),
            decreases n - i,
        {
            let c = input.get_char(i);
            let ghost prefix = input@.take(i + 1);
            assert(prefix.drop_last() =~= input@.take(i as int));
            if c == ' ' || c == ',' {
                let ghost completed = done.push(piece@);
                let res = apply_piece(&mut acc, &piece);
                assert(completed.drop_last() =~= done);
                match res {
                    Err(e) => {
                        proof {
                            let whole = pieces(input@);
                            assert(input@.take(n as int) =~= input@);
                            lemma_pieces_prefix(input@, i + 1, n as int);
                            assert(whole.take(completed.len() as int) =~= completed);
                            lemma_parse_pieces_prefix(whole, completed.len() as int);
                        }
                        return Err(e);
                    },
                    Ok(()) => {},
                }
                proof {
                    done = completed;
                }
                piece = Vec::new();
                assert(pieces(prefix) =~= done.push(piece@));
            } else {
                piece.push(c);
                assert(pieces(prefix) =~= done.push(piece@));
            }
            i = i + 1;
        }
        assert(input@.take(n as int) =~= input@);
        let ghost completed = done.push(piece@);
        assert(completed.drop_last() =~= done);
        match apply_piece(&mut acc, &piece) {
            Err(e) => Err(e),
            Ok(()) => Ok(acc),
        }
    }

    /// Checks every index against `max_index`, in the order given, and reports
    /// the first that is zero or above it.
    pub fn validate(indices: &[usize], max_index: usize) -> (r: Result<(), GitNavigatorError>)
        ensures
            r == validate_result(indices@, max_index),
    {
        if max_index == 0 {
            return Err(GitNavigatorError::NoFilesAvailable);
        }
        let mut i: usize = 0;
        assert(indices@.skip(0) =~= indices@);
        while i < indices.len()
            invariant
                i <= indices@.len(),
                max_index > 0,
                first_violation(indices@, max_index) == first_violation(indices@.skip(i as int), max_index),
            decreases indices@.len() - i,
        {
            let x = indices[i];
            assert(indices@.skip(i as int).drop_first() =~= indices@.skip(i + 1));
            assert(indices@.skip(i as int)[0] == x);
            if x == 0 {
                return Err(GitNavigatorError::ZeroIndex);
            }
            if x > max_index {
                return Err(GitNavigatorError::IndexOutOfRange { index: x, max: max_index });
            }
            i = i + 1;
        }
        assert(indices@.skip(i as int).len() == 0);
        Ok(())
    }
}

} // verus!
