//! Sequences of (name, value) pairs ordered by name: a stable sort by name
//! and the facts the lock file and manifest printers rely on.
use crate::text::{lemma_seq_lt_irrefl, lemma_seq_lt_total, lemma_seq_lt_trans, seq_lt};
use vstd::prelude::*;

verus! {

/// Inserts `e` after every entry whose name does not exceed its own.
pub open spec fn insert_sorted<V>(s: Seq<(Seq<char>, V)>, e: (Seq<char>, V)) -> Seq<(Seq<char>, V)>
    decreases s.len(),
{
    if s.len() == 0 {
        seq![e]
    } else if seq_lt(e.0, s.last().0) {
        insert_sorted(s.drop_last(), e).push(s.last())
    } else {
        s.push(e)
    }
}

/// Stable sort by package name.
pub open spec fn sort_by_name<V>(s: Seq<(Seq<char>, V)>) -> Seq<(Seq<char>, V)>
    decreases s.len(),
{
    if s.len() == 0 {
        s
    } else {
        insert_sorted(sort_by_name(s.drop_last()), s.last())
    }
}

/// No package name occurs twice.
pub open spec fn names_unique<V>(s: Seq<(Seq<char>, V)>) -> bool {
    forall|i: int, j: int| 0 <= i < j < s.len() ==> s[i].0 != s[j].0
}

/// Entries in non-decreasing name order.
pub open spec fn sorted_by_name<V>(s: Seq<(Seq<char>, V)>) -> bool {
    forall|i: int, j: int| 0 <= i < j < s.len() ==> !seq_lt(s[j].0, s[i].0)
}

/// Where `insert_sorted` puts the new entry.
proof fn insert_pos<V>(s: Seq<(Seq<char>, V)>, e: (Seq<char>, V)) -> (p: int)
    ensures
        0 <= p <= s.len(),
        insert_sorted(s, e) == s.take(p).push(e) + s.skip(p),
        forall|j: int| p <= j < s.len() ==> seq_lt(e.0, #[trigger] s[j].0),
        p > 0 ==> !seq_lt(e.0, s[p - 1].0),
    decreases s.len(),
{
    if s.len() == 0 {
        assert(insert_sorted(s, e) =~= s.take(0).push(e) + s.skip(0));
        0
    } else if seq_lt(e.0, s.last().0) {
        let d = s.drop_last();
        let q = insert_pos(d, e);
        assert(insert_sorted(s, e) =~= s.take(q).push(e) + s.skip(q)) by {
            assert(d.take(q) =~= s.take(q));
            assert(d.skip(q).push(s.last()) =~= s.skip(q));
        }
        assert forall|j: int| q <= j < s.len() implies seq_lt(e.0, #[trigger] s[j].0) by {
            if j < s.len() - 1 {
                assert(s[j] == d[j]);
            }
        }
        if q > 0 {
            assert(s[q - 1] == d[q - 1]);
        }
        q
    } else {
        assert(insert_sorted(s, e) =~= s.take(s.len() as int).push(e) + s.skip(s.len() as int));
        s.len() as int
    }
}

proof fn lemma_lt_asym(a: Seq<char>, b: Seq<char>)
    requires
        seq_lt(a, b),
    ensures
        !seq_lt(b, a),
{
    if seq_lt(b, a) {
        lemma_seq_lt_trans(a, b, a);
        lemma_seq_lt_irrefl(a);
    }
}

/// `!(c < b)` and `!(b < a)` give `!(c < a)`.
proof fn lemma_nlt_trans(a: Seq<char>, b: Seq<char>, c: Seq<char>)
    requires
        !seq_lt(b, a),
        !seq_lt(c, b),
    ensures
        !seq_lt(c, a),
{
    lemma_seq_lt_total(a, b);
    lemma_seq_lt_total(b, c);
    if seq_lt(c, a) {
        if a != b {
            if b != c {
                lemma_seq_lt_trans(c, a, b);
            }
        }
    }
}

/// Sorting by name yields entries in name order.
pub proof fn lemma_sort_sorted<V>(es: Seq<(Seq<char>, V)>)
    ensures
        sorted_by_name(sort_by_name(es)),
        sort_by_name(es).len() == es.len(),
    decreases es.len(),
{
    if es.len() > 0 {
        let s = sort_by_name(es.drop_last());
        lemma_sort_sorted(es.drop_last());
        let e = es.last();
        let p = insert_pos(s, e);
        let r = sort_by_name(es);
        assert(r == s.take(p).push(e) + s.skip(p));
        assert forall|i: int, j: int| 0 <= i < j < r.len() implies !seq_lt(r[j].0, r[i].0) by {
            if j < p {
                assert(r[i] == s[i] && r[j] == s[j]);
            } else if j == p {
                assert(r[i] == s[i] && r[j] == e);
                if i < p - 1 {
                    lemma_nlt_trans(s[i].0, s[p - 1].0, e.0);
                }
            } else if i == p {
                assert(r[i] == e && r[j] == s[j - 1]);
                lemma_lt_asym(e.0, s[j - 1].0);
            } else if i < p {
                assert(r[i] == s[i] && r[j] == s[j - 1]);
            } else {
                assert(r[i] == s[i - 1] && r[j] == s[j - 1]);
            }
        }
    }
}

/// Sorting keeps the entries: every result entry comes from the input, and
/// distinct names stay distinct.
pub proof fn lemma_sort_keeps<V>(es: Seq<(Seq<char>, V)>)
    ensures
        forall|i: int| 0 <= i < sort_by_name(es).len() ==> es.contains(#[trigger] sort_by_name(es)[i]),
        names_unique(es) ==> names_unique(sort_by_name(es)),
    decreases es.len(),
{
    if es.len() > 0 {
        let d = es.drop_last();
        let s = sort_by_name(d);
        lemma_sort_keeps(d);
        lemma_sort_sorted(d);
        let e = es.last();
        let p = insert_pos(s, e);
        let r = sort_by_name(es);
        assert(r == s.take(p).push(e) + s.skip(p));
        assert forall|i: int| 0 <= i < r.len() implies es.contains(#[trigger] r[i]) by {
            if i == p {
                assert(es[es.len() - 1] == e);
            } else {
                let x = if i < p { s[i] } else { s[i - 1] };
                assert(r[i] == x);
                assert(d.contains(x));
                let k = choose|k: int| 0 <= k < d.len() && d[k] == x;
                assert(es[k] == x);
            }
        }
        if names_unique(es) {
            assert(names_unique(d)) by {
                assert forall|i: int, j: int| 0 <= i < j < d.len() implies d[i].0 != d[j].0 by {
                    assert(d[i] == es[i] && d[j] == es[j]);
                }
            }
            assert forall|k: int| 0 <= k < s.len() implies s[k].0 != e.0 by {
                assert(d.contains(s[k]));
                let m = choose|m: int| 0 <= m < d.len() && d[m] == s[k];
                assert(es[m] == s[k]);
            }
            assert forall|i: int, j: int| 0 <= i < j < r.len() implies r[i].0 != r[j].0 by {
                if j < p {
                    assert(r[i] == s[i] && r[j] == s[j]);
                } else if j == p {
                    assert(r[i] == s[i]);
                } else if i == p {
                    assert(r[j] == s[j - 1]);
                } else if i < p {
                    assert(r[i] == s[i] && r[j] == s[j - 1]);
                } else {
                    assert(r[i] == s[i - 1] && r[j] == s[j - 1]);
                }
            }
        }
    }
}

/// Sorting loses no entry.
pub proof fn lemma_sort_covers<V>(es: Seq<(Seq<char>, V)>)
    ensures
        forall|i: int| 0 <= i < es.len() ==> sort_by_name(es).contains(#[trigger] es[i]),
    decreases es.len(),
{
    if es.len() > 0 {
        let d = es.drop_last();
        let s = sort_by_name(d);
        lemma_sort_covers(d);
        let e = es.last();
        let p = insert_pos(s, e);
        let r = sort_by_name(es);
        assert(r == s.take(p).push(e) + s.skip(p));
        assert forall|i: int| 0 <= i < es.len() implies r.contains(#[trigger] es[i]) by {
            if i == es.len() - 1 {
                assert(r[p] == e);
            } else {
                assert(es[i] == d[i]);
                assert(s.contains(d[i]));
                let k = choose|k: int| 0 <= k < s.len() && s[k] == d[i];
                if k < p {
                    assert(r[k] == s[k]);
                } else {
                    assert(r[k + 1] == s[k]);
                }
            }
        }
    }
}

/// Entries already in name order are left as they are.
pub proof fn lemma_sort_sorted_id<V>(ss: Seq<(Seq<char>, V)>)
    requires
        sorted_by_name(ss),
    ensures
        sort_by_name(ss) == ss,
    decreases ss.len(),
{
    if ss.len() > 0 {
        let d = ss.drop_last();
        assert(sorted_by_name(d)) by {
            assert forall|i: int, j: int| 0 <= i < j < d.len() implies !seq_lt(d[j].0, d[i].0) by {
                assert(d[i] == ss[i] && d[j] == ss[j]);
            }
        }
        lemma_sort_sorted_id(d);
        if d.len() > 0 {
            assert(d.last() == ss[ss.len() - 2]);
            assert(!seq_lt(ss[ss.len() - 1].0, ss[ss.len() - 2].0));
            assert(d.push(ss.last()) =~= ss);
        } else {
            assert(seq![ss.last()] =~= ss);
        }
    }
}

/// Index of the first pair with key `k`, or `s.len()` when there is none.
pub open spec fn key_index<V>(s: Seq<(Seq<char>, V)>, k: Seq<char>) -> int
    decreases s.len(),
{
    if s.len() == 0 {
        0
    } else if s[0].0 == k {
        0
    } else {
        1 + key_index(s.drop_first(), k)
    }
}

/// Map-style insertion: replaces the value of an existing key in place,
/// otherwise appends the pair.
pub open spec fn keyed_insert<V>(s: Seq<(Seq<char>, V)>, k: Seq<char>, v: V) -> Seq<(Seq<char>, V)> {
    let i = key_index(s, k);
    if i < s.len() {
        s.update(i, (k, v))
    } else {
        s.push((k, v))
    }
}

pub proof fn lemma_key_index<V>(s: Seq<(Seq<char>, V)>, k: Seq<char>, i: int)
    requires
        0 <= i <= s.len(),
        forall|j: int| 0 <= j < i ==> s[j].0 != k,
        i == s.len() || s[i].0 == k,
    ensures
        key_index(s, k) == i,
    decreases s.len(),
{
    if s.len() > 0 && i > 0 {
        assert forall|j: int| 0 <= j < i - 1 implies s.drop_first()[j].0 != k by {
            assert(s.drop_first()[j] == s[j + 1]);
        }
        lemma_key_index(s.drop_first(), k, i - 1);
    }
}

/// Where `key_index` points: past every pair with another key, at a pair
/// with key `k` or at the end.
pub proof fn lemma_key_index_bounds<V>(s: Seq<(Seq<char>, V)>, k: Seq<char>)
    ensures
        0 <= key_index(s, k) <= s.len(),
        forall|j: int| 0 <= j < key_index(s, k) ==> s[j].0 != k,
        key_index(s, k) < s.len() ==> s[key_index(s, k)].0 == k,
    decreases s.len(),
{
    if s.len() > 0 && s[0].0 != k {
        let d = s.drop_first();
        lemma_key_index_bounds(d, k);
        assert forall|j: int| 0 <= j < key_index(s, k) implies s[j].0 != k by {
            if j > 0 {
                assert(s[j] == d[j - 1]);
            }
        }
    }
}

/// Insertion keeps keys distinct.
pub proof fn lemma_keyed_insert_unique<V>(s: Seq<(Seq<char>, V)>, k: Seq<char>, v: V, i: int)
    requires
        names_unique(s),
        i == key_index(s, k),
        0 <= i <= s.len(),
        forall|j: int| 0 <= j < i ==> s[j].0 != k,
        i == s.len() || s[i].0 == k,
    ensures
        names_unique(keyed_insert(s, k, v)),
{
    let r = keyed_insert(s, k, v);
    assert forall|a: int, b: int| 0 <= a < b < r.len() implies r[a].0 != r[b].0 by {
        if i < s.len() {
            if a == i {
                assert(s[b].0 != s[i].0);
            } else if b == i {
                assert(s[a].0 != s[i].0);
            }
        } else {
            if b == s.len() {
                assert(r[a] == s[a]);
            }
        }
    }
}

} // verus!
