//! A stable insertion sort on keys made of a small major rank and a sequence
//! of minor ranks compared lexicographically. The spec function `sort_keyed`
//! states the result exactly; the lemmas show that it is ordered and a
//! permutation of its input.

use vstd::prelude::*;

verus! {

broadcast use vstd::seq_lib::group_to_multiset_ensures;

/// A sort key: compared by `major`, then by `minor` lexicographically.
pub struct Key {
    pub major: u8,
    pub minor: Seq<u32>,
}

/// Lexicographic order on rank sequences; a proper prefix comes first.
pub open spec fn lex_lt(a: Seq<u32>, b: Seq<u32>) -> bool
    decreases a.len(),
{
    if a.len() == 0 {
        b.len() > 0
    } else if b.len() == 0 {
        false
    } else if a[0] < b[0] {
        true
    } else if a[0] > b[0] {
        false
    } else {
        lex_lt(a.drop_first(), b.drop_first())
    }
}

pub open spec fn key_lt(a: Key, b: Key) -> bool {
    a.major < b.major || (a.major == b.major && lex_lt(a.minor, b.minor))
}

/// Where a stable insertion puts `k`: after every key that is not above it.
pub open spec fn insert_pos(ks: Seq<Key>, k: Key) -> int
    decreases ks.len(),
{
    if ks.len() == 0 || !key_lt(k, ks.last()) {
        ks.len() as int
    } else {
        insert_pos(ks.drop_last(), k)
    }
}

/// `s` sorted by `key`, stably, by inserting its items one after another.
pub open spec fn sort_keyed<T>(s: Seq<T>, key: spec_fn(T) -> Key) -> Seq<T>
    decreases s.len(),
{
    if s.len() == 0 {
        s
    } else {
        let t = sort_keyed(s.drop_last(), key);
        t.insert(insert_pos(t.map_values(key), key(s.last())), s.last())
    }
}

pub open spec fn keys_sorted(ks: Seq<Key>) -> bool {
    forall|i: int, j: int| 0 <= i < j < ks.len() ==> !key_lt(ks[j], ks[i])
}

pub proof fn lemma_lex_irreflexive(a: Seq<u32>)
    ensures
        !lex_lt(a, a),
    decreases a.len(),
{
    if a.len() > 0 {
        lemma_lex_irreflexive(a.drop_first());
    }
}

pub proof fn lemma_lex_transitive(a: Seq<u32>, b: Seq<u32>, c: Seq<u32>)
    requires
        lex_lt(a, b),
        lex_lt(b, c),
    ensures
        lex_lt(a, c),
    decreases a.len(),
{
    if a.len() > 0 && b.len() > 0 && c.len() > 0 && a[0] == b[0] && b[0] == c[0] {
        lemma_lex_transitive(a.drop_first(), b.drop_first(), c.drop_first());
    }
}

pub proof fn lemma_lex_total(a: Seq<u32>, b: Seq<u32>)
    requires
        a != b,
    ensures
        lex_lt(a, b) || lex_lt(b, a),
    decreases a.len(),
{
    if a.len() == 0 {
        assert(b.len() > 0) by {
            if b.len() == 0 {
                assert(a =~= b);
            }
        }
    } else if b.len() > 0 && a[0] == b[0] {
        assert(a.drop_first() != b.drop_first()) by {
            if a.drop_first() == b.drop_first() {
                assert(a.drop_first().len() == b.drop_first().len());
                assert(a.len() == b.len());
                assert forall|i: int| 0 <= i < a.len() implies a[i] == b[i] by {
                    if i > 0 {
                        assert(a[i] == a.drop_first()[i - 1]);
                        assert(b[i] == b.drop_first()[i - 1]);
                    }
                }
                assert(a =~= b);
            }
        }
        lemma_lex_total(a.drop_first(), b.drop_first());
    }
}

pub proof fn lemma_key_irreflexive(a: Key)
    ensures
        !key_lt(a, a),
{
    lemma_lex_irreflexive(a.minor);
}

pub proof fn lemma_key_transitive(a: Key, b: Key, c: Key)
    requires
        key_lt(a, b),
        key_lt(b, c),
    ensures
        key_lt(a, c),
{
    if a.major == b.major && b.major == c.major {
        lemma_lex_transitive(a.minor, b.minor, c.minor);
    }
}

/// Keys that are not ordered either way are the same key.
pub proof fn lemma_key_total(a: Key, b: Key)
    requires
        !key_lt(a, b),
        !key_lt(b, a),
    ensures
        a == b,
{
    if a.minor != b.minor {
        lemma_lex_total(a.minor, b.minor);
    }
}

/// `x < a` and `a <= b` give `x < b`.
pub proof fn lemma_key_lt_le(x: Key, a: Key, b: Key)
    requires
        key_lt(x, a),
        !key_lt(b, a),
    ensures
        key_lt(x, b),
{
    if !key_lt(a, b) {
        lemma_key_total(a, b);
    } else {
        lemma_key_transitive(x, a, b);
    }
}

pub proof fn lemma_insert_pos_bounds(ks: Seq<Key>, k: Key)
    ensures
        0 <= insert_pos(ks, k) <= ks.len(),
        insert_pos(ks, k) == 0 || !key_lt(k, ks[insert_pos(ks, k) - 1]),
        forall|j: int| insert_pos(ks, k) <= j < ks.len() ==> key_lt(k, #[trigger] ks[j]),
    decreases ks.len(),
{
    if ks.len() > 0 && key_lt(k, ks.last()) {
        let t = ks.drop_last();
        lemma_insert_pos_bounds(t, k);
        assert forall|j: int| insert_pos(ks, k) <= j < ks.len() implies key_lt(k, #[trigger] ks[j]) by {
            if j < t.len() {
                assert(ks[j] == t[j]);
            }
        }
    }
}

proof fn lemma_insert_keeps_sorted(ks: Seq<Key>, k: Key)
    requires
        keys_sorted(ks),
    ensures
        keys_sorted(ks.insert(insert_pos(ks, k), k)),
{
    let p = insert_pos(ks, k);
    lemma_insert_pos_bounds(ks, k);
    let t = ks.insert(p, k);
    assert forall|i: int, j: int| 0 <= i < j < t.len() implies !key_lt(t[j], t[i]) by {
        if j < p {
        } else if j == p {
            if key_lt(k, ks[i]) {
                lemma_key_lt_le(k, ks[i], ks[p - 1]);
            }
        } else if i == p {
            if key_lt(ks[j - 1], k) {
                lemma_key_transitive(k, ks[j - 1], k);
                lemma_key_irreflexive(k);
            }
        } else if i < p {
        } else {
        }
    }
}

/// The stable sort orders its items by key.
pub proof fn lemma_sort_keyed_sorted<T>(s: Seq<T>, key: spec_fn(T) -> Key)
    ensures
        keys_sorted(sort_keyed(s, key).map_values(key)),
        sort_keyed(s, key).len() == s.len(),
    decreases s.len(),
{
    if s.len() > 0 {
        let t = sort_keyed(s.drop_last(), key);
        lemma_sort_keyed_sorted(s.drop_last(), key);
        let ks = t.map_values(key);
        let p = insert_pos(ks, key(s.last()));
        lemma_insert_pos_bounds(ks, key(s.last()));
        lemma_insert_keeps_sorted(ks, key(s.last()));
        assert(t.insert(p, s.last()).map_values(key) =~= ks.insert(p, key(s.last())));
    }
}

/// The stable sort keeps every item, as often as it occurs.
pub proof fn lemma_sort_keyed_permutes<T>(s: Seq<T>, key: spec_fn(T) -> Key)
    ensures
        sort_keyed(s, key).to_multiset() == s.to_multiset(),
    decreases s.len(),
{
    if s.len() > 0 {
        let t = sort_keyed(s.drop_last(), key);
        lemma_sort_keyed_permutes(s.drop_last(), key);
        lemma_sort_keyed_sorted(s.drop_last(), key);
        let ks = t.map_values(key);
        lemma_insert_pos_bounds(ks, key(s.last()));
        assert(s.drop_last().push(s.last()) =~= s);
    }
}

/// An item with its sort key in executable form.
pub struct Keyed<T> {
    pub major: u8,
    pub minor: Vec<u32>,
    pub item: T,
}

pub open spec fn key_of<T>(k: Keyed<T>) -> Key {
    Key { major: k.major, minor: k.minor@ }
}

pub open spec fn keys_of<T>(s: Seq<Keyed<T>>) -> Seq<Key> {
    s.map_values(|k: Keyed<T>| key_of(k))
}

fn lex_less(a: &Vec<u32>, b: &Vec<u32>) -> (r: bool)
    ensures
        r == lex_lt(a@, b@),
{
    let mut i: usize = 0;
    assert(a@.skip(0) =~= a@ && b@.skip(0) =~= b@);
    while i < a.len() && i < b.len()
        invariant
            i <= a@.len(),
            i <= b@.len(),
            lex_lt(a@, b@) == lex_lt(a@.skip(i as int), b@.skip(i as int)),
        decreases a@.len() - i,
    {
        let x = a[i];
        let y = b[i];
        assert(a@.skip(i as int)[0] == x && b@.skip(i as int)[0] == y);
        if x != y {
            return x < y;
        }
        assert(a@.skip(i as int).drop_first() =~= a@.skip(i + 1));
        assert(b@.skip(i as int).drop_first() =~= b@.skip(i + 1));
        i = i + 1;
    }
    i == a.len() && i < b.len()
}

fn key_less<T>(a: &Keyed<T>, b: &Keyed<T>) -> (r: bool)
    ensures
        r == key_lt(key_of(*a), key_of(*b)),
{
    a.major < b.major || (a.major == b.major && lex_less(&a.minor, &b.minor))
}

/// Inserts `x` where the stable sort puts it.
pub fn insert_keyed<T>(v: &mut Vec<Keyed<T>>, x: Keyed<T>)
    ensures
        final(v)@ == old(v)@.insert(insert_pos(keys_of(old(v)@), key_of(x)), x),
{
    let ghost ks = keys_of(v@);
    let mut p = v.len();
    assert(ks.take(p as int) =~= ks);
    while p > 0 && key_less(&x, &v[p - 1])
        invariant
            p <= v@.len(),
            ks == keys_of(v@),
            insert_pos(ks, key_of(x)) == insert_pos(ks.take(p as int), key_of(x)),
        decreases p,
    {
        assert(ks.take(p as int).drop_last() =~= ks.take(p - 1));
        assert(ks.take(p as int).last() == key_of(v@[p - 1]));
        p = p - 1;
    }
    proof {
        if p > 0 {
            assert(ks.take(p as int).last() == key_of(v@[p - 1]));
        }
    }
    v.insert(p, x);
}

} // verus!
