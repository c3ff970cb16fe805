//! Building numbered snapshots: the changed files of a repository, ordered by
//! kind of change and then by path, and its local branches, ordered by name.
//! Indices are assigned here and nowhere else: 1..N in the snapshot's own order.

use vstd::prelude::*;
use crate::git_status::{GitStatus, StatusFlags, priority, staged_change, unstaged_change};
use crate::sorting::{
    Key, Keyed, insert_keyed, insert_pos, key_lt, key_of, keys_of, keys_sorted, lemma_insert_pos_bounds,
    lemma_key_irreflexive, lemma_key_total, lemma_key_transitive, lemma_sort_keyed_permutes,
    lemma_sort_keyed_sorted, sort_keyed,
};
use crate::state::{BranchEntry, FileEntry};
use crate::text::same_text;
use vstd::multiset::Multiset;

verus! {

/// What the repository reports for one path.
#[derive(Debug, Clone, PartialEq, Eq)]
pub struct StatusRecord {
    pub path: String,
    pub flags: StatusFlags,
}

/// A change of one file, as an entry of a snapshot shows it.
pub struct Change {
    pub status: GitStatus,
    pub staged: bool,
    pub path: Seq<char>,
}

pub open spec fn change_of(e: FileEntry) -> Change {
    Change { status: e.status, staged: e.staged, path: e.path@ }
}

pub open spec fn entry_changes(s: Seq<FileEntry>) -> Seq<Change> {
    s.map_values(|e: FileEntry| change_of(e))
}

/// The entries that one reported path yields: its staged change, then its
/// unstaged change, each if present.
pub open spec fn record_changes(r: StatusRecord) -> Seq<Change> {
    let s = match staged_change(r.flags) {
        Some(c) => seq![Change { status: c.0, staged: c.1, path: r.path@ }],
        None => Seq::empty(),
    };
    let u = match unstaged_change(r.flags) {
        Some(c) => seq![Change { status: c.0, staged: c.1, path: r.path@ }],
        None => Seq::empty(),
    };
    s + u
}

/// The entries of all reported paths, in the order reported.
pub open spec fn changes(rs: Seq<StatusRecord>) -> Seq<Change>
    decreases rs.len(),
{
    if rs.len() == 0 {
        Seq::empty()
    } else {
        changes(rs.drop_last()) + record_changes(rs.last())
    }
}

/// Paths compare character by character, with the separator `/` before every
/// other character, so that a directory's files come right after it.
pub open spec fn path_rank(c: char) -> u32 {
    if c == '/' {
        0
    } else {
        ((c as u32) + 1) as u32
    }
}

pub open spec fn path_key(p: Seq<char>) -> Seq<u32> {
    p.map_values(|c: char| path_rank(c))
}

pub open spec fn change_key(c: Change) -> Key {
    Key { major: priority(c.status, c.staged), minor: path_key(c.path) }
}

pub open spec fn change_key_fn() -> spec_fn(Change) -> Key {
    |c: Change| change_key(c)
}

/// The changes of a snapshot, in its order: by status priority, then by path.
#[verifier::opaque]
pub open spec fn file_snapshot(records: Seq<StatusRecord>) -> Seq<Change> {
    sort_keyed(changes(records), change_key_fn())
}

/// A file snapshot: its changes are those of `records` in snapshot order, and
/// its indices run from 1.
pub open spec fn is_file_snapshot(records: Seq<StatusRecord>, out: Seq<FileEntry>) -> bool {
    &&& entry_changes(out) == file_snapshot(records)
    &&& forall|i: int| 0 <= i < out.len() ==> #[trigger] out[i].index == i + 1
}

/// Changes in snapshot order: no change sorts before one listed earlier.
pub open spec fn changes_in_order(s: Seq<Change>) -> bool {
    forall|i: int, j: int| 0 <= i < j < s.len() ==> !key_lt(change_key(s[j]), change_key(s[i]))
}

/// A snapshot lists the reported changes in snapshot order, each as often as
/// it is reported.
pub proof fn lemma_file_snapshot_order(records: Seq<StatusRecord>)
    ensures
        changes_in_order(file_snapshot(records)),
        file_snapshot(records).to_multiset() == changes(records).to_multiset(),
{
    reveal(file_snapshot);
    let s = file_snapshot(records);
    lemma_sort_keyed_sorted(changes(records), change_key_fn());
    lemma_sort_keyed_permutes(changes(records), change_key_fn());
    let ks = s.map_values(change_key_fn());
    assert forall|i: int, j: int| 0 <= i < j < s.len() implies !key_lt(change_key(s[j]), change_key(s[i])) by {
        assert(ks[i] == change_key(s[i]) && ks[j] == change_key(s[j]));
    }
}

/// Building a snapshot twice from the same reported state gives the same
/// entries at the same indices.
pub proof fn lemma_file_snapshot_deterministic(records: Seq<StatusRecord>, a: Seq<FileEntry>, b: Seq<FileEntry>)
    requires
        is_file_snapshot(records, a),
        is_file_snapshot(records, b),
    ensures
        a.len() == b.len(),
        forall|i: int| 0 <= i < a.len() ==> a[i].index == b[i].index && #[trigger] change_of(a[i])
            == change_of(b[i]),
{
    assert(entry_changes(a).len() == a.len() && entry_changes(b).len() == b.len());
    assert forall|i: int| 0 <= i < a.len() implies a[i].index == b[i].index && #[trigger] change_of(a[i])
        == change_of(b[i]) by {
        assert(entry_changes(a)[i] == change_of(a[i]));
        assert(entry_changes(b)[i] == change_of(b[i]));
    }
}

/// Each path is reported at most once.
pub open spec fn paths_distinct(rs: Seq<StatusRecord>) -> bool {
    forall|i: int, j: int| 0 <= i < j < rs.len() ==> rs[i].path@ != rs[j].path@
}

proof fn lemma_record_changes(r: StatusRecord)
    ensures
        forall|c: Change| #[trigger] record_changes(r).contains(c) ==> c.path == r.path@,
        record_changes(r).no_duplicates(),
{
    let rc = record_changes(r);
    assert forall|c: Change| #[trigger] rc.contains(c) implies c.path == r.path@ by {
        let i = choose|i: int| 0 <= i < rc.len() && rc[i] == c;
    }
}

/// Every change comes from one of the reported records.
proof fn lemma_change_source(rs: Seq<StatusRecord>, c: Change)
    requires
        changes(rs).contains(c),
    ensures
        exists|r: int| 0 <= r < rs.len() && #[trigger] record_changes(rs[r]).contains(c),
    decreases rs.len(),
{
    let init = rs.drop_last();
    let rc = record_changes(rs.last());
    let i = choose|i: int| 0 <= i < changes(rs).len() && changes(rs)[i] == c;
    if i < changes(init).len() {
        assert(changes(init)[i] == c);
        lemma_change_source(init, c);
        let r = choose|r: int| 0 <= r < init.len() && #[trigger] record_changes(init[r]).contains(c);
        assert(rs[r] == init[r]);
    } else {
        assert(rc[i - changes(init).len()] == c);
        assert(record_changes(rs[rs.len() - 1]).contains(c));
    }
}

/// Every change of every record is among the changes.
proof fn lemma_change_included(rs: Seq<StatusRecord>, k: int, c: Change)
    requires
        0 <= k < rs.len(),
        record_changes(rs[k]).contains(c),
    ensures
        changes(rs).contains(c),
    decreases rs.len(),
{
    let init = rs.drop_last();
    let rc = record_changes(rs.last());
    if k < rs.len() - 1 {
        assert(init[k] == rs[k]);
        lemma_change_included(init, k, c);
        let i = choose|i: int| 0 <= i < changes(init).len() && changes(init)[i] == c;
        assert(changes(rs)[i] == c);
    } else {
        let i = choose|i: int| 0 <= i < rc.len() && rc[i] == c;
        assert(changes(rs)[changes(init).len() + i] == c);
    }
}

proof fn lemma_changes_no_duplicates(rs: Seq<StatusRecord>)
    requires
        paths_distinct(rs),
    ensures
        changes(rs).no_duplicates(),
    decreases rs.len(),
{
    if rs.len() > 0 {
        let init = rs.drop_last();
        assert(paths_distinct(init)) by {
            assert forall|i: int, j: int| 0 <= i < j < init.len() implies init[i].path@ != init[j].path@ by {
                assert(init[i] == rs[i] && init[j] == rs[j]);
            }
        }
        lemma_changes_no_duplicates(init);
        let a = changes(init);
        let b = record_changes(rs.last());
        lemma_record_changes(rs.last());
        let s = changes(rs);
        assert(s == a + b);
        assert forall|i: int, j: int| 0 <= i < s.len() && 0 <= j < s.len() && i != j implies s[i] != s[j] by {
            if i < a.len() && j >= a.len() {
                let x = b[j - a.len()];
                assert(b.contains(x));
                assert(a.contains(s[i]));
                lemma_change_source(init, s[i]);
                let r = choose|r: int| 0 <= r < init.len() && #[trigger] record_changes(init[r]).contains(s[i]);
                lemma_record_changes(init[r]);
                assert(init[r] == rs[r]);
            } else if j < a.len() && i >= a.len() {
                let x = b[i - a.len()];
                assert(b.contains(x));
                assert(a.contains(s[j]));
                lemma_change_source(init, s[j]);
                let r = choose|r: int| 0 <= r < init.len() && #[trigger] record_changes(init[r]).contains(s[j]);
                lemma_record_changes(init[r]);
                assert(init[r] == rs[r]);
            }
        }
    }
}

proof fn lemma_contains_transfer(a: Seq<Change>, b: Seq<Change>, c: Change)
    requires
        a.to_multiset() == b.to_multiset(),
        a.contains(c),
    ensures
        b.contains(c),
{
    broadcast use vstd::seq_lib::group_to_multiset_ensures;

    assert(a.to_multiset().count(c) > 0);
    assert(b.to_multiset().count(c) > 0);
}

/// Any change in the snapshot whose path is `records[k]`'s is one of that
/// record's changes.
proof fn lemma_change_of_path(records: Seq<StatusRecord>, k: int, ec: Seq<Change>, c: Change)
    requires
        paths_distinct(records),
        0 <= k < records.len(),
        ec.to_multiset() == changes(records).to_multiset(),
        ec.contains(c),
        c.path == records[k].path@,
    ensures
        record_changes(records[k]).contains(c),
{
    lemma_contains_transfer(ec, changes(records), c);
    lemma_change_source(records, c);
    let q = choose|q: int| 0 <= q < records.len() && #[trigger] record_changes(records[q]).contains(c);
    lemma_record_changes(records[q]);
    if q < k {
        assert(records[q].path@ != records[k].path@);
    } else if q > k {
        assert(records[k].path@ != records[q].path@);
    }
}

proof fn lemma_snapshot_no_duplicates(records: Seq<StatusRecord>, out: Seq<FileEntry>)
    requires
        is_file_snapshot(records, out),
        paths_distinct(records),
    ensures
        entry_changes(out).no_duplicates(),
        entry_changes(out).to_multiset() == changes(records).to_multiset(),
{
    lemma_file_snapshot_order(records);
    lemma_changes_no_duplicates(records);
    changes(records).lemma_multiset_has_no_duplicates();
    entry_changes(out).lemma_multiset_has_no_duplicates_conv();
}

proof fn lemma_record_pair(r: StatusRecord)
    requires
        staged_change(r.flags) is Some,
        unstaged_change(r.flags) is Some,
    ensures
        record_changes(r).len() == 2,
        record_changes(r)[0].staged,
        !record_changes(r)[1].staged,
        record_changes(r)[0].path == r.path@,
        record_changes(r)[1].path == r.path@,
{
}

/// The entries of `out` with path `p` are the ones at `i` and `j`.
pub open spec fn only_at(out: Seq<FileEntry>, p: Seq<char>, i: int, j: int) -> bool {
    forall|m: int| 0 <= m < out.len() && #[trigger] out[m].path@ == p ==> m == i || m == j
}

/// The entries of `out` whose path is `records[k]`'s are the ones at `i` and `j`.
proof fn lemma_only_two(records: Seq<StatusRecord>, k: int, out: Seq<FileEntry>, i: int, j: int)
    requires
        is_file_snapshot(records, out),
        paths_distinct(records),
        0 <= k < records.len(),
        record_changes(records[k]).len() == 2,
        entry_changes(out).no_duplicates(),
        entry_changes(out).to_multiset() == changes(records).to_multiset(),
        0 <= i < out.len(),
        0 <= j < out.len(),
        entry_changes(out)[i] == record_changes(records[k])[0],
        entry_changes(out)[j] == record_changes(records[k])[1],
    ensures
        only_at(out, records[k].path@, i, j),
{
    let ec = entry_changes(out);
    let rc = record_changes(records[k]);
    assert forall|m: int| 0 <= m < out.len() && #[trigger] out[m].path@ == records[k].path@ implies m == i
        || m == j by {
        let c = ec[m];
        assert(c == change_of(out[m]));
        assert(ec.contains(c));
        lemma_change_of_path(records, k, ec, c);
        let t = choose|t: int| 0 <= t < rc.len() && rc[t] == c;
        if t == 0 {
            assert(ec[m] == ec[i]);
        } else {
            assert(ec[m] == ec[j]);
        }
    }
}

/// A path reported with both a staged and an unstaged change appears in the
/// snapshot as exactly two entries, at two positions, one staged and one not.
pub proof fn lemma_staged_and_unstaged_entries(records: Seq<StatusRecord>, k: int, out: Seq<FileEntry>)
    requires
        is_file_snapshot(records, out),
        paths_distinct(records),
        0 <= k < records.len(),
        staged_change(records[k].flags) is Some,
        unstaged_change(records[k].flags) is Some,
    ensures
        exists|i: int, j: int|
            0 <= i < out.len() && 0 <= j < out.len() && i != j && out[i].path@ == records[k].path@
                && out[j].path@ == records[k].path@ && out[i].staged && !out[j].staged
                && #[trigger] only_at(out, records[k].path@, i, j) && (!records[k].flags.conflicted ==> i < j),
{
    let rc = record_changes(records[k]);
    lemma_record_pair(records[k]);
    assert(rc.contains(rc[0]) && rc.contains(rc[1]));
    lemma_change_included(records, k, rc[0]);
    lemma_change_included(records, k, rc[1]);
    let ec = entry_changes(out);
    lemma_snapshot_no_duplicates(records, out);
    lemma_contains_transfer(changes(records), ec, rc[0]);
    lemma_contains_transfer(changes(records), ec, rc[1]);
    let i = choose|i: int| 0 <= i < ec.len() && ec[i] == rc[0];
    let j = choose|j: int| 0 <= j < ec.len() && ec[j] == rc[1];
    assert(change_of(out[i]) == ec[i] && change_of(out[j]) == ec[j]);
    assert(out[i].staged && !out[j].staged && i != j);
    assert(out[i].path@ == records[k].path@ && out[j].path@ == records[k].path@);
    lemma_only_two(records, k, out, i, j);
    if !records[k].flags.conflicted {
        lemma_staged_entry_first(records, k, out, i, j);
    }
}

/// The staged entry of a path comes before its unstaged one, unless the
/// unstaged one is a conflict, which sorts first of all.
proof fn lemma_staged_entry_first(records: Seq<StatusRecord>, k: int, out: Seq<FileEntry>, i: int, j: int)
    requires
        is_file_snapshot(records, out),
        0 <= k < records.len(),
        record_changes(records[k]).len() == 2,
        staged_change(records[k].flags) is Some,
        unstaged_change(records[k].flags) is Some,
        !records[k].flags.conflicted,
        0 <= i < out.len(),
        0 <= j < out.len(),
        i != j,
        entry_changes(out)[i] == record_changes(records[k])[0],
        entry_changes(out)[j] == record_changes(records[k])[1],
    ensures
        i < j,
{
    lemma_file_snapshot_order(records);
    let ec = entry_changes(out);
    let rc = record_changes(records[k]);
    assert(key_lt(change_key(rc[0]), change_key(rc[1])));
    if j < i {
        assert(!key_lt(change_key(ec[i]), change_key(ec[j])));
    }
}

/// When each path is reported once, no two entries of a snapshot share a
/// key: the snapshot is strictly ordered by status priority, then path.
pub proof fn lemma_file_snapshot_strictly_ordered(records: Seq<StatusRecord>)
    requires
        paths_distinct(records),
    ensures
        forall|i: int, j: int|
            0 <= i < j < file_snapshot(records).len() ==> key_lt(
                change_key(#[trigger] file_snapshot(records)[i]),
                change_key(#[trigger] file_snapshot(records)[j]),
            ),
{
    broadcast use vstd::seq_lib::group_to_multiset_ensures;

    let fs = file_snapshot(records);
    let m = changes(records).to_multiset();
    lemma_file_snapshot_order(records);
    lemma_changes_key_determines(records);
    lemma_changes_no_duplicates(records);
    changes(records).lemma_multiset_has_no_duplicates();
    fs.lemma_multiset_has_no_duplicates_conv();
    assert forall|i: int, j: int| 0 <= i < j < fs.len() implies key_lt(
        change_key(#[trigger] fs[i]),
        change_key(#[trigger] fs[j]),
    ) by {
        assert(!key_lt(change_key(fs[j]), change_key(fs[i])));
        if !key_lt(change_key(fs[i]), change_key(fs[j])) {
            lemma_key_total(change_key(fs[i]), change_key(fs[j]));
            assert(fs.to_multiset().count(fs[i]) > 0 && fs.to_multiset().count(fs[j]) > 0);
            assert(m.contains(fs[i]) && m.contains(fs[j]));
            assert(fs[i] == fs[j]);
        }
    }
}

/// Changes with the same key are the same change.
pub open spec fn key_determines(m: Multiset<Change>) -> bool {
    forall|x: Change, y: Change|
        m.contains(x) && m.contains(y) && #[trigger] change_key(x) == #[trigger] change_key(y) ==> x == y
}

/// A kind of change that status flags can give.
pub open spec fn reportable(c: Change) -> bool {
    if c.staged {
        c.status != GitStatus::Untracked && c.status != GitStatus::Unmerged && c.status
            != GitStatus::Copied
    } else {
        c.status != GitStatus::Added && c.status != GitStatus::Copied
    }
}

proof fn lemma_record_changes_reportable(r: StatusRecord, c: Change)
    requires
        record_changes(r).contains(c),
    ensures
        reportable(c),
{
    let rc = record_changes(r);
    let i = choose|i: int| 0 <= i < rc.len() && rc[i] == c;
}

proof fn lemma_path_rank_injective(x: char, y: char)
    requires
        path_rank(x) == path_rank(y),
    ensures
        x == y,
{
    assert((x as u32) <= 0x10FFFF && (y as u32) <= 0x10FFFF);
}

proof fn lemma_path_key_injective(a: Seq<char>, b: Seq<char>)
    requires
        path_key(a) == path_key(b),
    ensures
        a == b,
{
    assert(a.len() == path_key(a).len() && b.len() == path_key(b).len());
    assert forall|i: int| 0 <= i < a.len() implies a[i] == b[i] by {
        assert(path_key(a)[i] == path_rank(a[i]));
        assert(path_key(b)[i] == path_rank(b[i]));
        lemma_path_rank_injective(a[i], b[i]);
    }
    assert(a =~= b);
}

/// Among reported changes, the key (priority, path) determines the change.
proof fn lemma_changes_key_determines(rs: Seq<StatusRecord>)
    ensures
        key_determines(changes(rs).to_multiset()),
{
    broadcast use vstd::seq_lib::group_to_multiset_ensures;

    let cs = changes(rs);
    let m = cs.to_multiset();
    assert forall|x: Change, y: Change|
        m.contains(x) && m.contains(y) && #[trigger] change_key(x) == #[trigger] change_key(y) implies x
        == y by {
        assert(m.count(x) > 0 && m.count(y) > 0);
        assert(cs.contains(x) && cs.contains(y));
        lemma_path_key_injective(x.path, y.path);
        lemma_change_source(rs, x);
        lemma_change_source(rs, y);
        let p = choose|p: int| 0 <= p < rs.len() && #[trigger] record_changes(rs[p]).contains(x);
        let q = choose|q: int| 0 <= q < rs.len() && #[trigger] record_changes(rs[q]).contains(y);
        lemma_record_changes_reportable(rs[p], x);
        lemma_record_changes_reportable(rs[q], y);
    }
}

/// Two lists in snapshot order that hold the same changes, where a key
/// determines its change, are the same list.
proof fn lemma_ordered_unique(a: Seq<Change>, b: Seq<Change>)
    requires
        a.to_multiset() == b.to_multiset(),
        key_determines(a.to_multiset()),
        changes_in_order(a),
        changes_in_order(b),
    ensures
        a == b,
    decreases a.len(),
{
    broadcast use vstd::seq_lib::group_to_multiset_ensures;

    let m = a.to_multiset();
    vstd::seq_lib::to_multiset_len(a);
    vstd::seq_lib::to_multiset_len(b);
    assert(a.len() == b.len());
    if a.len() > 0 {
        assert(m.count(a[0]) > 0);
        assert(b.contains(a[0]));
        assert(m.count(b[0]) > 0);
        assert(a.contains(b[0]));
        let i = choose|i: int| 0 <= i < a.len() && a[i] == b[0];
        let j = choose|j: int| 0 <= j < b.len() && b[j] == a[0];
        if i > 0 && j > 0 {
            assert(!key_lt(change_key(a[i]), change_key(a[0])));
            assert(!key_lt(change_key(b[j]), change_key(b[0])));
            lemma_key_total(change_key(a[0]), change_key(b[0]));
            assert(m.contains(a[0]) && m.contains(b[0]));
        }
        assert(a[0] == b[0]);
        let ta = a.drop_first();
        let tb = b.drop_first();
        assert(a.remove(0) =~= ta);
        assert(b.remove(0) =~= tb);
        let tm = ta.to_multiset();
        assert(tm == m.remove(a[0]));
        assert(tb.to_multiset() == m.remove(a[0]));
        assert(key_determines(tm)) by {
            assert forall|x: Change, y: Change|
                tm.contains(x) && tm.contains(y) && #[trigger] change_key(x) == #[trigger] change_key(y)
                implies x == y by {
                assert(m.contains(x) && m.contains(y));
            }
        }
        assert(changes_in_order(ta)) by {
            assert forall|p: int, q: int| 0 <= p < q < ta.len() implies !key_lt(
                change_key(ta[q]),
                change_key(ta[p]),
            ) by {
                assert(ta[p] == a[p + 1] && ta[q] == a[q + 1]);
            }
        }
        assert(changes_in_order(tb)) by {
            assert forall|p: int, q: int| 0 <= p < q < tb.len() implies !key_lt(
                change_key(tb[q]),
                change_key(tb[p]),
            ) by {
                assert(tb[p] == b[p + 1] && tb[q] == b[q + 1]);
            }
        }
        lemma_ordered_unique(ta, tb);
        assert(a =~= b) by {
            assert forall|k: int| 0 <= k < a.len() implies a[k] == b[k] by {
                if k > 0 {
                    assert(a[k] == ta[k - 1] && b[k] == tb[k - 1]);
                }
            }
        }
    }
}

/// Indices come from the snapshot's own order, not from the order in which
/// the repository reports paths: the same changes, reported in any order,
/// give the same snapshot.
pub proof fn lemma_file_snapshot_order_independent(r1: Seq<StatusRecord>, r2: Seq<StatusRecord>)
    requires
        changes(r1).to_multiset() == changes(r2).to_multiset(),
    ensures
        file_snapshot(r1) == file_snapshot(r2),
{
    lemma_file_snapshot_order(r1);
    lemma_file_snapshot_order(r2);
    lemma_changes_key_determines(r1);
    lemma_ordered_unique(file_snapshot(r1), file_snapshot(r2));
}

/// Flags with only the given work-tree or index bit set.
pub open spec fn only_flag(index_new: bool, wt_new: bool, wt_modified: bool) -> StatusFlags {
    StatusFlags {
        index_new,
        index_modified: false,
        index_deleted: false,
        index_renamed: false,
        index_typechange: false,
        wt_new,
        wt_modified,
        wt_deleted: false,
        wt_typechange: false,
        wt_renamed: false,
        conflicted: false,
    }
}

/// A repository with an untracked `a.txt`, a staged new `b.txt` and an
/// unstaged modified `c.txt` lists `b.txt` (1), `c.txt` (2), `a.txt` (3).
pub proof fn lemma_three_file_snapshot(records: Seq<StatusRecord>, out: Seq<FileEntry>)
    requires
        records.len() == 3,
        records[0].path@ == "a.txt"@ && records[0].flags == only_flag(false, true, false),
        records[1].path@ == "b.txt"@ && records[1].flags == only_flag(true, false, false),
        records[2].path@ == "c.txt"@ && records[2].flags == only_flag(false, false, true),
        is_file_snapshot(records, out),
    ensures
        entry_changes(out) == seq![
            Change { status: GitStatus::Added, staged: true, path: "b.txt"@ },
            Change { status: GitStatus::Modified, staged: false, path: "c.txt"@ },
            Change { status: GitStatus::Untracked, staged: false, path: "a.txt"@ },
        ],
        out.len() == 3,
        out[0].index == 1 && out[1].index == 2 && out[2].index == 3,
{
    broadcast use vstd::seq_lib::group_to_multiset_ensures;

    let ca = Change { status: GitStatus::Untracked, staged: false, path: "a.txt"@ };
    let cb = Change { status: GitStatus::Added, staged: true, path: "b.txt"@ };
    let cc = Change { status: GitStatus::Modified, staged: false, path: "c.txt"@ };
    let e = seq![cb, cc, ca];
    assert(record_changes(records[0]) =~= seq![ca]);
    assert(record_changes(records[1]) =~= seq![cb]);
    assert(record_changes(records[2]) =~= seq![cc]);
    let r1 = records.take(1);
    let r2 = records.take(2);
    assert(r1.drop_last() =~= Seq::<StatusRecord>::empty());
    assert(r2.drop_last() =~= r1);
    assert(records.drop_last() =~= r2);
    assert(changes(Seq::<StatusRecord>::empty()) == Seq::<Change>::empty());
    assert(r1.last() == records[0] && r2.last() == records[1] && records.last() == records[2]);
    assert(changes(r1) =~= Seq::<Change>::empty() + record_changes(records[0]));
    assert(changes(r1) =~= seq![ca]);
    assert(changes(r2) =~= seq![ca, cb]);
    assert(changes(records) =~= seq![ca, cb, cc]);
    assert(seq![ca, cb, cc].to_multiset() =~= e.to_multiset()) by {
        assert(seq![ca, cb] =~= seq![ca].push(cb));
        assert(seq![ca, cb, cc] =~= seq![ca, cb].push(cc));
        assert(seq![cb, cc] =~= seq![cb].push(cc));
        assert(e =~= seq![cb, cc].push(ca));
        assert(seq![ca] =~= Seq::<Change>::empty().push(ca));
        assert(seq![cb] =~= Seq::<Change>::empty().push(cb));
    }
    assert(changes_in_order(e)) by {
        assert(key_lt(change_key(cb), change_key(cc)));
        assert(key_lt(change_key(cc), change_key(ca)));
        assert(key_lt(change_key(cb), change_key(ca)));
        assert forall|i: int, j: int| 0 <= i < j < e.len() implies !key_lt(
            change_key(e[j]),
            change_key(e[i]),
        ) by {
            lemma_key_irreflexive(change_key(e[i]));
            if key_lt(change_key(e[j]), change_key(e[i])) {
                lemma_key_transitive(change_key(e[i]), change_key(e[j]), change_key(e[i]));
            }
        }
    }
    lemma_file_snapshot_order(records);
    lemma_changes_key_determines(records);
    lemma_ordered_unique(file_snapshot(records), e);
    assert(entry_changes(out).len() == out.len());
}

pub open spec fn item_changes(s: Seq<Keyed<FileEntry>>) -> Seq<Change> {
    s.map_values(|k: Keyed<FileEntry>| change_of(k.item))
}

pub open spec fn keyed_wf(s: Seq<Keyed<FileEntry>>) -> bool {
    forall|k: int| 0 <= k < s.len() ==> key_of(#[trigger] s[k]) == change_key(change_of(s[k].item))
}

fn path_ranks(path: &String) -> (r: Vec<u32>)
    ensures
        r@ == path_key(path@),
{
    let s = path.as_str();
    let n = s.unicode_len();
    let mut r: Vec<u32> = Vec::new();
    let mut i: usize = 0;
    while i < n
        invariant
            n == path@.len(),
            s@ == path@,
            i <= n,
            r@ == path_key(path@.take(i as int)),
        decreases n - i,
    {
        let c = s.get_char(i);
        let k: u32 = if c == '/' {
            0
        } else {
            (c as u32) + 1
        };
        r.push(k);
        assert(path@.take(i + 1) =~= path@.take(i as int).push(c));
        assert(r@ =~= path_key(path@.take(i + 1)));
        i = i + 1;
    }
    assert(path@.take(n as int) =~= path@);
    r
}

fn keyed_change(status: GitStatus, staged: bool, path: &String) -> (r: Keyed<FileEntry>)
    ensures
        change_of(r.item) == (Change { status, staged, path: path@ }),
        r.item.index == 0,
        key_of(r) == change_key(change_of(r.item)),
{
    Keyed {
        major: status.sort_priority(staged),
        minor: path_ranks(path),
        item: FileEntry { index: 0, status, path: path.clone(), staged },
    }
}

/// Inserts a change where the snapshot order puts it.
fn add_change(v: &mut Vec<Keyed<FileEntry>>, status: GitStatus, staged: bool, path: &String, Ghost(
    done,
): Ghost<Seq<Change>>)
    requires
        keyed_wf(old(v)@),
        item_changes(old(v)@) == sort_keyed(done, change_key_fn()),
    ensures
        keyed_wf(final(v)@),
        item_changes(final(v)@) == sort_keyed(
            done.push(Change { status, staged, path: path@ }),
            change_key_fn(),
        ),
{
    let x = keyed_change(status, staged, path);
    let ghost c = change_of(x.item);
    let ghost before = v@;
    assert(keys_of(before) =~= item_changes(before).map_values(change_key_fn()));
    let ghost p = insert_pos(keys_of(before), key_of(x));
    proof {
        lemma_insert_pos_bounds(keys_of(before), key_of(x));
    }
    insert_keyed(v, x);
    assert(v@ == before.insert(p, x));
    assert(done.push(c).drop_last() =~= done);
    assert(item_changes(v@) =~= item_changes(before).insert(p, c));
}

/// Numbers the changes of a repository: `records` holds each reported path
/// with its flags, in any order; the result lists every staged and unstaged
/// change in snapshot order, indexed from 1.
pub fn build_file_snapshot(records: &Vec<StatusRecord>) -> (r: Vec<FileEntry>)
    ensures
        is_file_snapshot(records@, r@),
        changes_in_order(entry_changes(r@)),
        entry_changes(r@).to_multiset() == changes(records@).to_multiset(),
{
    proof {
        reveal(file_snapshot);
        lemma_file_snapshot_order(records@);
    }
    let mut v: Vec<Keyed<FileEntry>> = Vec::new();
    let mut i: usize = 0;
    assert(records@.take(0) =~= Seq::<StatusRecord>::empty());
    assert(item_changes(v@) =~= Seq::<Change>::empty());
    while i < records.len()
        invariant
            i <= records@.len(),
            keyed_wf(v@),
            item_changes(v@) == sort_keyed(changes(records@.take(i as int)), change_key_fn()),
        decreases records@.len() - i,
    {
        let rec = &records[i];
        let ghost done = changes(records@.take(i as int));
        assert(records@.take(i + 1).drop_last() =~= records@.take(i as int));
        assert(records@.take(i + 1).last() == *rec);
        let ghost mut cur = done;
        match GitStatus::from_git2_staged(rec.flags) {
            Some((status, staged)) => {
                add_change(&mut v, status, staged, &rec.path, Ghost(cur));
                proof {
                    cur = cur.push(Change { status, staged, path: rec.path@ });
                }
            },
            None => {},
        }
        match GitStatus::from_git2_unstaged(rec.flags) {
            Some((status, staged)) => {
                add_change(&mut v, status, staged, &rec.path, Ghost(cur));
                proof {
                    cur = cur.push(Change { status, staged, path: rec.path@ });
                }
            },
            None => {},
        }
        assert(cur =~= changes(records@.take(i + 1)));
        i = i + 1;
    }
    assert(records@.take(i as int) =~= records@);
    let mut out: Vec<FileEntry> = Vec::new();
    let mut k: usize = 0;
    while k < v.len()
        invariant
            k <= v@.len(),
            out@.len() == k,
            entry_changes(out@) == item_changes(v@).take(k as int),
            forall|j: int| 0 <= j < k ==> #[trigger] out@[j].index == j + 1,
        decreases v@.len() - k,
    {
        let e = &v[k].item;
        out.push(FileEntry { index: k + 1, status: e.status, path: e.path.clone(), staged: e.staged });
        assert(entry_changes(out@) =~= item_changes(v@).take(k + 1));
        k = k + 1;
    }
    assert(item_changes(v@).take(k as int) =~= item_changes(v@));
    proof {
        reveal(file_snapshot);
    }
    out
}

/// A branch entry as a snapshot shows it.
pub struct BranchView {
    pub index: usize,
    pub name: Seq<char>,
    pub is_current: bool,
}

pub open spec fn branch_view(b: BranchEntry) -> BranchView {
    BranchView { index: b.index, name: b.name@, is_current: b.is_current }
}

pub open spec fn branch_views(s: Seq<BranchEntry>) -> Seq<BranchView> {
    s.map_values(|b: BranchEntry| branch_view(b))
}

pub open spec fn string_views(s: Seq<String>) -> Seq<Seq<char>> {
    s.map_values(|n: String| n@)
}

/// Branch names sort by their characters' code points.
pub open spec fn name_key(n: Seq<char>) -> Key {
    Key { major: 0, minor: n.map_values(|c: char| c as u32) }
}

pub open spec fn name_key_fn() -> spec_fn(Seq<char>) -> Key {
    |n: Seq<char>| name_key(n)
}

/// The names of `sorted` other than `current`, numbered from 1 in order.
pub open spec fn numbered_others(sorted: Seq<Seq<char>>, current: Seq<char>) -> Seq<BranchView>
    decreases sorted.len(),
{
    if sorted.len() == 0 {
        Seq::empty()
    } else {
        let r = numbered_others(sorted.drop_last(), current);
        if sorted.last() == current {
            r
        } else {
            r.push(BranchView { index: (r.len() + 1) as usize, name: sorted.last(), is_current: false })
        }
    }
}

/// A branch snapshot: the current branch first, unnumbered, if it is among
/// `names`; then the other names in order, numbered from 1.
pub open spec fn branch_snapshot(names: Seq<Seq<char>>, current: Seq<char>) -> Seq<BranchView> {
    let head = if names.contains(current) {
        seq![BranchView { index: 0, name: current, is_current: true }]
    } else {
        Seq::empty()
    };
    head + numbered_others(sort_keyed(names, name_key_fn()), current)
}

pub open spec fn name_items(s: Seq<Keyed<String>>) -> Seq<Seq<char>> {
    s.map_values(|k: Keyed<String>| k.item@)
}

pub open spec fn name_keyed_wf(s: Seq<Keyed<String>>) -> bool {
    forall|k: int| 0 <= k < s.len() ==> key_of(#[trigger] s[k]) == name_key(s[k].item@)
}

pub open spec fn branch_names(s: Seq<BranchView>) -> Seq<Seq<char>> {
    s.map_values(|b: BranchView| b.name)
}

/// The numbered branches of a snapshot of `names` with `current` checked out.
pub open spec fn listed_others(names: Seq<Seq<char>>, current: Seq<char>) -> Seq<BranchView> {
    numbered_others(sort_keyed(names, name_key_fn()), current)
}

/// The numbered entries run from 1, are not current, are the names of `s`
/// other than `current` as often as they occur, and keep the order of `s`.
proof fn lemma_numbered_others(s: Seq<Seq<char>>, current: Seq<char>)
    requires
        s.len() <= usize::MAX,
    ensures
        forall|i: int| 0 <= i < numbered_others(s, current).len() ==> {
            let b = #[trigger] numbered_others(s, current)[i];
            b.index == i + 1 && !b.is_current && b.name != current && s.contains(b.name)
        },
        forall|n: Seq<char>| n != current ==> #[trigger] branch_names(numbered_others(s, current)).to_multiset().count(n)
            == s.to_multiset().count(n),
        keys_sorted(s.map_values(name_key_fn())) ==> forall|i: int, j: int|
            0 <= i < j < numbered_others(s, current).len() ==> !key_lt(
                name_key(#[trigger] numbered_others(s, current)[j].name),
                name_key(#[trigger] numbered_others(s, current)[i].name),
            ),
    decreases s.len(),
{
    broadcast use vstd::seq_lib::group_to_multiset_ensures;

    let o = numbered_others(s, current);
    if s.len() == 0 {
        assert(branch_names(o) =~= Seq::<Seq<char>>::empty());
        assert(s =~= Seq::<Seq<char>>::empty());
    } else {
        let t = s.drop_last();
        let x = s.last();
        let p = numbered_others(t, current);
        lemma_numbered_others(t, current);
        lemma_numbered_others_len(t, current);
        assert(t.push(x) =~= s);
        assert forall|i: int| 0 <= i < p.len() implies s.contains(#[trigger] p[i].name) by {
            let q = choose|q: int| 0 <= q < t.len() && t[q] == p[i].name;
            assert(s[q] == t[q]);
        }
        if x != current {
            assert(o == p.push(BranchView { index: (p.len() + 1) as usize, name: x, is_current: false }));
            assert(branch_names(o) =~= branch_names(p).push(x));
            assert(s.contains(x)) by {
                assert(s[s.len() - 1] == x);
            }
            assert forall|i: int| 0 <= i < o.len() implies {
                let b = #[trigger] o[i];
                b.index == i + 1 && !b.is_current && b.name != current && s.contains(b.name)
            } by {
                if i < p.len() {
                    assert(o[i] == p[i]);
                }
            }
        } else {
            assert(o == p);
            assert forall|i: int| 0 <= i < o.len() implies {
                let b = #[trigger] o[i];
                b.index == i + 1 && !b.is_current && b.name != current && s.contains(b.name)
            } by {
                assert(o[i] == p[i]);
            }
        }
        if keys_sorted(s.map_values(name_key_fn())) {
            let ks = s.map_values(name_key_fn());
            let kt = t.map_values(name_key_fn());
            assert(keys_sorted(kt)) by {
                assert forall|a: int, b: int| 0 <= a < b < kt.len() implies !key_lt(kt[b], kt[a]) by {
                    assert(kt[a] == ks[a] && kt[b] == ks[b]);
                }
            }
            if x != current {
                assert forall|i: int, j: int| 0 <= i < j < o.len() implies !key_lt(
                    name_key(#[trigger] o[j].name),
                    name_key(#[trigger] o[i].name),
                ) by {
                    if j == o.len() - 1 {
                        let q = choose|q: int| 0 <= q < t.len() && t[q] == p[i].name;
                        assert(ks[q] == name_key(t[q]));
                        assert(ks[s.len() - 1] == name_key(x));
                    } else {
                        assert(o[i] == p[i] && o[j] == p[j]);
                    }
                }
            }
        }
    }
}

proof fn lemma_numbered_others_len(sorted: Seq<Seq<char>>, current: Seq<char>)
    ensures
        numbered_others(sorted, current).len() <= sorted.len(),
    decreases sorted.len(),
{
    if sorted.len() > 0 {
        lemma_numbered_others_len(sorted.drop_last(), current);
    }
}

fn keyed_name(name: &String) -> (r: Keyed<String>)
    ensures
        r.item@ == name@,
        key_of(r) == name_key(name@),
{
    let s = name.as_str();
    let n = s.unicode_len();
    let mut minor: Vec<u32> = Vec::new();
    let mut i: usize = 0;
    while i < n
        invariant
            n == name@.len(),
            s@ == name@,
            i <= n,
            minor@ == name@.take(i as int).map_values(|c: char| c as u32),
        decreases n - i,
    {
        let c = s.get_char(i);
        minor.push(c as u32);
        assert(name@.take(i + 1) =~= name@.take(i as int).push(c));
        assert(minor@ =~= name@.take(i + 1).map_values(|c: char| c as u32));
        i = i + 1;
    }
    assert(name@.take(n as int) =~= name@);
    Keyed { major: 0, minor, item: name.clone() }
}

/// Numbers the local branches: `names` are the branch names, in any order,
/// and `current` is the name of the branch checked out.
pub fn build_branch_snapshot(names: &Vec<String>, current: &str) -> (r: Vec<BranchEntry>)
    ensures
        branch_views(r@) == branch_snapshot(string_views(names@), current@),
        forall|i: int| 0 <= i < listed_others(string_views(names@), current@).len() ==> {
            let b = #[trigger] listed_others(string_views(names@), current@)[i];
            b.index == i + 1 && !b.is_current && b.name != current@
        },
        forall|i: int, j: int|
            0 <= i < j < listed_others(string_views(names@), current@).len() ==> !key_lt(
                name_key(#[trigger] listed_others(string_views(names@), current@)[j].name),
                name_key(#[trigger] listed_others(string_views(names@), current@)[i].name),
            ),
        forall|n: Seq<char>| n != current@ ==> #[trigger] branch_names(
            listed_others(string_views(names@), current@),
        ).to_multiset().count(n) == string_views(names@).to_multiset().count(n),
{
    let ghost views = string_views(names@);
    let mut v: Vec<Keyed<String>> = Vec::new();
    let mut found = false;
    let mut i: usize = 0;
    assert(views.take(0) =~= Seq::<Seq<char>>::empty());
    assert(name_items(v@) =~= Seq::<Seq<char>>::empty());
    while i < names.len()
        invariant
            i <= names@.len(),
            views == string_views(names@),
            name_keyed_wf(v@),
            name_items(v@) == sort_keyed(views.take(i as int), name_key_fn()),
            found == views.take(i as int).contains(current@),
        decreases names@.len() - i,
    {
        let x = keyed_name(&names[i]);
        let ghost before = v@;
        let ghost done = views.take(i as int);
        assert(keys_of(before) =~= name_items(before).map_values(name_key_fn()));
        let ghost p = insert_pos(keys_of(before), key_of(x));
        proof {
            lemma_insert_pos_bounds(keys_of(before), key_of(x));
        }
        let same = same_text(names[i].as_str(), current);
        insert_keyed(&mut v, x);
        assert(v@ == before.insert(p, x));
        assert(views.take(i + 1).drop_last() =~= done);
        assert(views.take(i + 1).last() == names@[i as int]@);
        assert(name_items(v@) =~= name_items(before).insert(p, names@[i as int]@));
        assert(views.take(i + 1) =~= done.push(names@[i as int]@));
        proof {
            let t = views.take(i + 1);
            if same {
                assert(t[i as int] == current@);
            }
            if t.contains(current@) && !same {
                let j = choose|j: int| 0 <= j < t.len() && t[j] == current@;
                assert(done[j] == current@);
            }
        }
        found = found || same;
        i = i + 1;
    }
    assert(views.take(i as int) =~= views);
    proof {
        let sorted = sort_keyed(views, name_key_fn());
        lemma_sort_keyed_sorted(views, name_key_fn());
        lemma_sort_keyed_permutes(views, name_key_fn());
        lemma_numbered_others(sorted, current@);
    }
    let mut out: Vec<BranchEntry> = Vec::new();
    let mut base: usize = 0;
    if found {
        out.push(BranchEntry { index: 0, name: String::from_str(current), is_current: true });
        base = 1;
    }
    let ghost head = branch_views(out@);
    let ghost sorted = name_items(v@);
    let mut k: usize = 0;
    assert(sorted.take(0) =~= Seq::<Seq<char>>::empty());
    assert(head + numbered_others(sorted.take(0), current@) =~= head);
    while k < v.len()
        invariant
            k <= v@.len(),
            sorted == name_items(v@),
            head.len() == base as nat,
            base <= 1,
            branch_views(out@) == head + numbered_others(sorted.take(k as int), current@),
        decreases v@.len() - k,
    {
        let ghost prev = numbered_others(sorted.take(k as int), current@);
        proof {
            lemma_numbered_others_len(sorted.take(k as int), current@);
        }
        assert(sorted.take(k + 1).drop_last() =~= sorted.take(k as int));
        assert(sorted.take(k + 1).last() == v@[k as int].item@);
        let item = &v[k].item;
        assert(branch_views(out@).len() == out@.len());
        assert(out@.len() == base + prev.len());
        if !same_text(item.as_str(), current) {
            let index = out.len() - base + 1;
            let ghost old_out = out@;
            out.push(BranchEntry { index, name: item.clone(), is_current: false });
            assert(numbered_others(sorted.take(k + 1), current@) == prev.push(
                BranchView { index: (prev.len() + 1) as usize, name: item@, is_current: false },
            ));
            assert(branch_views(out@) =~= branch_views(old_out).push(
                BranchView { index, name: item@, is_current: false },
            ));
            assert(branch_views(out@) =~= head + numbered_others(sorted.take(k + 1), current@));
        }
        k = k + 1;
    }
    assert(sorted.take(k as int) =~= sorted);
    out
}

} // verus!
