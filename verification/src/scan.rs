//! The index builder: it receives what a walk of the content tree found,
//! one entry at a time, applies the pruning and indexing policy, and turns
//! the gathered candidates into a well-formed [`Snapshot`].
//!
//! The sorting that finishing performs — labels in lexicographic order,
//! entries by date with ties left in encounter order — is defined and
//! proved here, as are the laws that hold of a whole scan: hidden names
//! never reach a snapshot, and equal scans end in equal snapshots.

use vstd::prelude::*;

use crate::render::{doc_meta, render_markdown};
use crate::snapshot::{
    index_date_sorted, index_paths_clean, path_clean, path_clean_str, sections_visible,
    sections_wf, snapshot_wf, EntryView, IndexEntry, Snapshot, SnapshotView,
};
use crate::text::{
    ends_with, lex_le, lex_lt, lemma_lex_lt_asymmetric, lemma_lex_lt_total,
    lemma_lex_lt_transitive, split_on, str_eq, str_lt,
};

verus! {

/// Pairwise nondecreasing in lexicographic order.
pub open spec fn sorted_le(s: Seq<Seq<char>>) -> bool {
    forall|i: int, j: int| 0 <= i < j < s.len() ==> lex_le(#[trigger] s[i], #[trigger] s[j])
}

/// Inserts `x` after every element that does not exceed it.
pub open spec fn insert_lex(x: Seq<char>, s: Seq<Seq<char>>) -> Seq<Seq<char>>
    decreases s.len(),
{
    if s.len() > 0 && lex_le(s[0], x) {
        seq![s[0]] + insert_lex(x, s.skip(1))
    } else {
        seq![x] + s
    }
}

/// Insertion sort, left to right.
pub open spec fn sort_lex(s: Seq<Seq<char>>) -> Seq<Seq<char>>
    decreases s.len(),
{
    if s.len() == 0 {
        Seq::empty()
    } else {
        insert_lex(s.last(), sort_lex(s.drop_last()))
    }
}

/// Drops repeated neighbours of a sorted sequence.
pub open spec fn dedup_sorted(s: Seq<Seq<char>>) -> Seq<Seq<char>>
    decreases s.len(),
{
    if s.len() == 0 {
        Seq::empty()
    } else if s.len() == 1 {
        s
    } else if s[0] == s[1] {
        dedup_sorted(s.skip(1))
    } else {
        seq![s[0]] + dedup_sorted(s.skip(1))
    }
}

/// Inserting inserts: the result holds exactly the old elements and `x`.
pub proof fn lemma_insert_lex_elems(x: Seq<char>, s: Seq<Seq<char>>)
    ensures
        forall|y: Seq<char>|
            #[trigger] insert_lex(x, s).contains(y) <==> (s.contains(y) || y == x),
        insert_lex(x, s).len() == s.len() + 1,
    decreases s.len(),
{
    if s.len() > 0 && lex_le(s[0], x) {
        lemma_insert_lex_elems(x, s.skip(1));
        let r = insert_lex(x, s);
        let rest = insert_lex(x, s.skip(1));
        assert forall|y: Seq<char>| #[trigger] r.contains(y) implies (s.contains(y) || y == x) by {
            let k = choose|k: int| 0 <= k < r.len() && r[k] == y;
            if k == 0 {
                assert(s[0] == y);
            } else {
                assert(rest[k - 1] == y);
                assert(rest.contains(y));
                if s.skip(1).contains(y) {
                    let m = choose|m: int| 0 <= m < s.skip(1).len() && s.skip(1)[m] == y;
                    assert(s[m + 1] == y);
                }
            }
        }
        assert forall|y: Seq<char>| (s.contains(y) || y == x) implies #[trigger] r.contains(y) by {
            if y == x {
                assert(rest.contains(y));
                let m = choose|m: int| 0 <= m < rest.len() && rest[m] == y;
                assert(r[m + 1] == y);
            } else {
                let k = choose|k: int| 0 <= k < s.len() && s[k] == y;
                if k == 0 {
                    assert(r[0] == y);
                } else {
                    assert(s.skip(1)[k - 1] == y);
                    assert(s.skip(1).contains(y));
                    assert(rest.contains(y));
                    let m = choose|m: int| 0 <= m < rest.len() && rest[m] == y;
                    assert(r[m + 1] == y);
                }
            }
        }
    } else {
        let r = insert_lex(x, s);
        assert(r[0] == x);
        assert forall|y: Seq<char>| #[trigger] r.contains(y) implies (s.contains(y) || y == x) by {
            let k = choose|k: int| 0 <= k < r.len() && r[k] == y;
            if k > 0 {
                assert(s[k - 1] == y);
            }
        }
        assert forall|y: Seq<char>| (s.contains(y) || y == x) implies #[trigger] r.contains(y) by {
            if y != x {
                let k = choose|k: int| 0 <= k < s.len() && s[k] == y;
                assert(r[k + 1] == y);
            }
        }
    }
}

/// Where `x` lands: before the first element that exceeds it.
pub proof fn lemma_insert_lex_at(x: Seq<char>, s: Seq<Seq<char>>, k: int)
    requires
        0 <= k <= s.len(),
        forall|j: int| 0 <= j < k ==> lex_le(#[trigger] s[j], x),
        k == s.len() || !lex_le(s[k], x),
    ensures
        insert_lex(x, s) =~= s.take(k) + seq![x] + s.skip(k),
    decreases k,
{
    if k == 0 {
        assert(s.take(0) =~= Seq::<Seq<char>>::empty());
        assert(s.skip(0) =~= s);
    } else {
        assert(lex_le(s[0], x));
        lemma_insert_lex_at(x, s.skip(1), k - 1);
        assert(s.skip(1).take(k - 1) =~= s.take(k).skip(1));
        assert(s.skip(1).skip(k - 1) =~= s.skip(k));
    }
}

/// Insertion keeps a sorted sequence sorted.
pub proof fn lemma_insert_lex_sorted(x: Seq<char>, s: Seq<Seq<char>>, k: int)
    requires
        sorted_le(s),
        0 <= k <= s.len(),
        forall|j: int| 0 <= j < k ==> lex_le(#[trigger] s[j], x),
        k == s.len() || !lex_le(s[k], x),
    ensures
        sorted_le(insert_lex(x, s)),
{
    lemma_insert_lex_at(x, s, k);
    let r = s.take(k) + seq![x] + s.skip(k);
    assert forall|i: int, j: int| 0 <= i < j < r.len() implies lex_le(
        #[trigger] r[i],
        #[trigger] r[j],
    ) by {
        if i < k && j < k {
            assert(r[i] == s[i] && r[j] == s[j]);
        } else if i < k && j == k {
            assert(r[i] == s[i]);
        } else if i < k && j > k {
            assert(r[i] == s[i] && r[j] == s[j - 1]);
        } else if i == k && j > k {
            assert(r[j] == s[j - 1]);
            assert(!lex_le(s[k], x));
            lemma_lex_lt_total(x, s[k]);
            assert(lex_lt(x, s[k]));
            if k < j - 1 {
                assert(lex_le(s[k], s[j - 1]));
                if s[k] == s[j - 1] {
                } else {
                    lemma_lex_lt_transitive(x, s[k], s[j - 1]);
                }
            }
        } else if i > k && j > k {
            assert(r[i] == s[i - 1] && r[j] == s[j - 1]);
        }
    }
}

/// The sort sorts and keeps exactly the elements.
pub proof fn lemma_sort_lex_props(s: Seq<Seq<char>>)
    ensures
        sorted_le(sort_lex(s)),
        forall|y: Seq<char>| #[trigger] sort_lex(s).contains(y) <==> s.contains(y),
        sort_lex(s).len() == s.len(),
    decreases s.len(),
{
    if s.len() > 0 {
        lemma_sort_lex_props(s.drop_last());
        let sub = sort_lex(s.drop_last());
        let x = s.last();
        lemma_insert_lex_elems(x, sub);
        let k = lemma_first_exceeding(x, sub, 0);
        lemma_insert_lex_sorted(x, sub, k);
        assert forall|y: Seq<char>| s.contains(y) implies #[trigger] sort_lex(s).contains(y) by {
            let m = choose|m: int| 0 <= m < s.len() && s[m] == y;
            if m < s.len() - 1 {
                assert(s.drop_last()[m] == y);
                assert(s.drop_last().contains(y));
            }
        }
        assert forall|y: Seq<char>| #[trigger] sort_lex(s).contains(y) implies s.contains(y) by {
            if sub.contains(y) {
                let m = choose|m: int| 0 <= m < s.drop_last().len() && s.drop_last()[m] == y;
                assert(s[m] == y);
            } else {
                assert(y == x);
                assert(s[s.len() - 1] == y);
            }
        }
    }
}

/// A split point that fits the conditions of [`lemma_insert_lex_at`].
proof fn lemma_first_exceeding(x: Seq<char>, s: Seq<Seq<char>>, from: int) -> (k: int)
    requires
        0 <= from <= s.len(),
        forall|j: int| 0 <= j < from ==> lex_le(#[trigger] s[j], x),
    ensures
        0 <= k <= s.len(),
        forall|j: int| 0 <= j < k ==> lex_le(#[trigger] s[j], x),
        k == s.len() || !lex_le(s[k], x),
    decreases s.len() - from,
{
    if from == s.len() {
        from
    } else if !lex_le(s[from], x) {
        from
    } else {
        lemma_first_exceeding(x, s, from + 1)
    }
}

/// What deduplication promises of a sorted input: strictly increasing, the
/// same members.
pub proof fn lemma_dedup_props(s: Seq<Seq<char>>)
    requires
        sorted_le(s),
    ensures
        forall|i: int, j: int|
            0 <= i < j < dedup_sorted(s).len() ==> lex_lt(
                #[trigger] dedup_sorted(s)[i],
                #[trigger] dedup_sorted(s)[j],
            ),
        forall|y: Seq<char>| #[trigger] dedup_sorted(s).contains(y) <==> s.contains(y),
    decreases s.len(),
{
    let r = dedup_sorted(s);
    if s.len() <= 1 {
        assert forall|y: Seq<char>| s.contains(y) implies #[trigger] r.contains(y) by {}
    } else {
        let t = s.skip(1);
        assert(sorted_le(t)) by {
            assert forall|i: int, j: int| 0 <= i < j < t.len() implies lex_le(
                #[trigger] t[i],
                #[trigger] t[j],
            ) by {
                assert(t[i] == s[i + 1] && t[j] == s[j + 1]);
            }
        }
        lemma_dedup_props(t);
        if s[0] == s[1] {
            assert forall|y: Seq<char>| #[trigger] s.contains(y) implies t.contains(y) by {
                let k = choose|k: int| 0 <= k < s.len() && s[k] == y;
                if k == 0 {
                    assert(t[0] == s[1]);
                } else {
                    assert(t[k - 1] == y);
                }
            }
            assert forall|y: Seq<char>| #[trigger] t.contains(y) implies s.contains(y) by {
                let k = choose|k: int| 0 <= k < t.len() && t[k] == y;
                assert(s[k + 1] == y);
            }
        } else {
            let dt = dedup_sorted(t);
            assert(r =~= seq![s[0]] + dt);
            assert forall|i: int, j: int| 0 <= i < j < r.len() implies lex_lt(
                #[trigger] r[i],
                #[trigger] r[j],
            ) by {
                if i == 0 {
                    assert(r[j] == dt[j - 1]);
                    assert(dt.contains(dt[j - 1]));
                    assert(t.contains(dt[j - 1]));
                    let m = choose|m: int| 0 <= m < t.len() && t[m] == dt[j - 1];
                    assert(s[m + 1] == dt[j - 1]);
                    assert(lex_le(s[1], s[m + 1])) by {
                        if m > 0 {
                            assert(lex_le(s[1], s[m + 1]));
                        }
                    }
                    lemma_lex_lt_total(s[0], s[1]);
                    assert(lex_le(s[0], s[1]));
                    assert(lex_lt(s[0], s[1]));
                    if s[1] == s[m + 1] {
                    } else {
                        lemma_lex_lt_transitive(s[0], s[1], s[m + 1]);
                    }
                } else {
                    assert(r[i] == dt[i - 1] && r[j] == dt[j - 1]);
                }
            }
            assert forall|y: Seq<char>| #[trigger] r.contains(y) implies s.contains(y) by {
                let k = choose|k: int| 0 <= k < r.len() && r[k] == y;
                if k == 0 {
                    assert(s[0] == y);
                } else {
                    assert(dt[k - 1] == y);
                    assert(dt.contains(y));
                    assert(t.contains(y));
                    let m = choose|m: int| 0 <= m < t.len() && t[m] == y;
                    assert(s[m + 1] == y);
                }
            }
            assert forall|y: Seq<char>| #[trigger] s.contains(y) implies r.contains(y) by {
                let k = choose|k: int| 0 <= k < s.len() && s[k] == y;
                if k == 0 {
                    assert(r[0] == y);
                } else {
                    assert(t[k - 1] == y);
                    assert(t.contains(y));
                    assert(dt.contains(y));
                    let m = choose|m: int| 0 <= m < dt.len() && dt[m] == y;
                    assert(r[m + 1] == y);
                }
            }
        }
    }
}

/// Sorts labels in lexicographic order, pinned to [`sort_lex`].
fn sort_string_vec(v: Vec<String>) -> (r: Vec<String>)
    ensures
        r.deep_view() == sort_lex(v.deep_view()),
{
    let n = v.len();
    let mut out: Vec<String> = Vec::new();
    proof {
        assert(v.deep_view().take(0) =~= Seq::<Seq<char>>::empty());
    }
    let mut i: usize = 0;
    while i < n
        invariant
            i <= n,
            n == v.len(),
            out.deep_view() == sort_lex(v.deep_view().take(i as int)),
        decreases n - i,
    {
        let x = v[i].clone();
        let m = out.len();
        let mut j: usize = 0;
        while j < m && !str_lt(x.as_str(), out[j].as_str())
            invariant
                j <= m,
                m == out.len(),
                x@ == v.deep_view()[i as int],
                out.deep_view() == sort_lex(v.deep_view().take(i as int)),
                forall|q: int| 0 <= q < j ==> lex_le(#[trigger] out.deep_view()[q], x@),
            decreases m - j,
        {
            proof {
                lemma_lex_lt_total(out.deep_view()[j as int], x@);
            }
            j = j + 1;
        }
        proof {
            let ov = out.deep_view();
            if j < m {
                assert(lex_lt(x@, ov[j as int]));
                lemma_lex_lt_asymmetric(ov[j as int], x@);
                assert(!lex_le(ov[j as int], x@));
            }
            lemma_insert_lex_at(x@, ov, j as int);
        }
        let ghost pre_vec = out@;
        let ghost pre = out.deep_view();
        out.insert(j, x);
        proof {
            let xv = v.deep_view()[i as int];
            assert(out@ == pre_vec.insert(j as int, x));
            assert forall|q: int| 0 <= q < out@.len() implies out.deep_view()[q] == (pre.take(
                j as int,
            ) + seq![xv] + pre.skip(j as int))[q] by {
                if q < j {
                    assert(out@[q] == pre_vec[q]);
                } else if q == j {
                    assert(out@[q] == x);
                } else {
                    assert(out@[q] == pre_vec[q - 1]);
                }
            }
            assert(out.deep_view() =~= pre.take(j as int) + seq![xv] + pre.skip(j as int));
            let tv = v.deep_view().take(i + 1);
            assert(tv.drop_last() =~= v.deep_view().take(i as int));
            assert(tv.last() == xv);
            assert(out.deep_view() =~= insert_lex(xv, pre));
        }
        i = i + 1;
    }
    proof {
        assert(v.deep_view().take(n as int) =~= v.deep_view());
    }
    out
}

/// Inserts `e` after every entry whose date is not older.
pub open spec fn insert_dated(e: EntryView, s: Seq<EntryView>) -> Seq<EntryView>
    decreases s.len(),
{
    if s.len() > 0 && e.meta.date.spec_le(s[0].meta.date) {
        seq![s[0]] + insert_dated(e, s.skip(1))
    } else {
        seq![e] + s
    }
}

/// Stable insertion sort by date, newest first; an entry never overtakes an
/// earlier entry of the same date.
pub open spec fn sort_dated(s: Seq<EntryView>) -> Seq<EntryView>
    decreases s.len(),
{
    if s.len() == 0 {
        Seq::empty()
    } else {
        insert_dated(s.last(), sort_dated(s.drop_last()))
    }
}

/// Where `e` lands: before the first entry with an older date.
proof fn lemma_insert_dated_at(e: EntryView, s: Seq<EntryView>, k: int)
    requires
        0 <= k <= s.len(),
        forall|j: int| 0 <= j < k ==> e.meta.date.spec_le((#[trigger] s[j]).meta.date),
        k == s.len() || !e.meta.date.spec_le(s[k].meta.date),
    ensures
        insert_dated(e, s) =~= s.take(k) + seq![e] + s.skip(k),
    decreases k,
{
    if k == 0 {
        assert(s.take(0) =~= Seq::<EntryView>::empty());
        assert(s.skip(0) =~= s);
    } else {
        lemma_insert_dated_at(e, s.skip(1), k - 1);
        assert(s.skip(1).take(k - 1) =~= s.take(k).skip(1));
        assert(s.skip(1).skip(k - 1) =~= s.skip(k));
    }
}

/// Insertion keeps a date-sorted sequence date-sorted.
proof fn lemma_insert_dated_sorted(e: EntryView, s: Seq<EntryView>, k: int)
    requires
        index_date_sorted(s),
        0 <= k <= s.len(),
        forall|j: int| 0 <= j < k ==> e.meta.date.spec_le((#[trigger] s[j]).meta.date),
        k == s.len() || !e.meta.date.spec_le(s[k].meta.date),
    ensures
        index_date_sorted(insert_dated(e, s)),
{
    lemma_insert_dated_at(e, s, k);
    let r = s.take(k) + seq![e] + s.skip(k);
    assert forall|i: int, j: int| 0 <= i < j < r.len() implies (#[trigger] r[j]).meta.date.spec_le(
        (#[trigger] r[i]).meta.date,
    ) by {
        if i < k && j < k {
            assert(r[i] == s[i] && r[j] == s[j]);
        } else if i < k && j == k {
            assert(r[i] == s[i]);
        } else if i < k && j > k {
            assert(r[i] == s[i] && r[j] == s[j - 1]);
        } else if i == k && j > k {
            assert(r[j] == s[j - 1]);
        } else if i > k && j > k {
            assert(r[i] == s[i - 1] && r[j] == s[j - 1]);
        }
    }
}

/// The sort sorts by date and keeps exactly the entries.
pub proof fn lemma_sort_dated_props(s: Seq<EntryView>)
    ensures
        index_date_sorted(sort_dated(s)),
        forall|y: EntryView| #[trigger] sort_dated(s).contains(y) <==> s.contains(y),
        sort_dated(s).len() == s.len(),
    decreases s.len(),
{
    if s.len() > 0 {
        lemma_sort_dated_props(s.drop_last());
        let sub = sort_dated(s.drop_last());
        let e = s.last();
        let k = lemma_first_older(e, sub, 0);
        lemma_insert_dated_sorted(e, sub, k);
        lemma_insert_dated_at(e, sub, k);
        let r = insert_dated(e, sub);
        assert forall|y: EntryView| s.contains(y) implies #[trigger] r.contains(y) by {
            let m = choose|m: int| 0 <= m < s.len() && s[m] == y;
            if m < s.len() - 1 {
                assert(s.drop_last()[m] == y);
                assert(s.drop_last().contains(y));
                assert(sub.contains(y));
                let q = choose|q: int| 0 <= q < sub.len() && sub[q] == y;
                if q < k {
                    assert(r[q] == y);
                } else {
                    assert(r[q + 1] == y);
                }
            } else {
                assert(y == e);
                assert(r[k] == e);
            }
        }
        assert forall|y: EntryView| #[trigger] r.contains(y) implies s.contains(y) by {
            let q = choose|q: int| 0 <= q < r.len() && r[q] == y;
            if q == k {
                assert(y == e);
                assert(s[s.len() - 1] == y);
            } else {
                let m: int = if q < k {
                    q
                } else {
                    q - 1
                };
                assert(sub[m] == y);
                assert(sub.contains(y));
                assert(s.drop_last().contains(y));
                let w = choose|w: int| 0 <= w < s.drop_last().len() && s.drop_last()[w] == y;
                assert(s[w] == y);
            }
        }
    }
}

/// A split point that fits the conditions of [`lemma_insert_dated_at`].
proof fn lemma_first_older(e: EntryView, s: Seq<EntryView>, from: int) -> (k: int)
    requires
        0 <= from <= s.len(),
        forall|j: int| 0 <= j < from ==> e.meta.date.spec_le((#[trigger] s[j]).meta.date),
    ensures
        0 <= k <= s.len(),
        forall|j: int| 0 <= j < k ==> e.meta.date.spec_le((#[trigger] s[j]).meta.date),
        k == s.len() || !e.meta.date.spec_le(s[k].meta.date),
    decreases s.len() - from,
{
    if from == s.len() {
        from
    } else if !e.meta.date.spec_le(s[from].meta.date) {
        from
    } else {
        lemma_first_older(e, s, from + 1)
    }
}

/// Sorts the index by date, newest first, pinned to [`sort_dated`].
fn sort_entry_vec(v: Vec<IndexEntry>) -> (r: Vec<IndexEntry>)
    ensures
        r.deep_view() == sort_dated(v.deep_view()),
{
    let n = v.len();
    let mut out: Vec<IndexEntry> = Vec::new();
    proof {
        assert(v.deep_view().take(0) =~= Seq::<EntryView>::empty());
    }
    let mut i: usize = 0;
    while i < n
        invariant
            i <= n,
            n == v.len(),
            out.deep_view() == sort_dated(v.deep_view().take(i as int)),
        decreases n - i,
    {
        let x = v[i].clone();
        let m = out.len();
        let mut j: usize = 0;
        while j < m && x.meta.date.le(&out[j].meta.date)
            invariant
                j <= m,
                m == out.len(),
                x@ == v.deep_view()[i as int],
                out.deep_view() == sort_dated(v.deep_view().take(i as int)),
                forall|q: int|
                    0 <= q < j ==> x@.meta.date.spec_le(
                        (#[trigger] out.deep_view()[q]).meta.date,
                    ),
            decreases m - j,
        {
            j = j + 1;
        }
        proof {
            let ov = out.deep_view();
            lemma_insert_dated_at(x@, ov, j as int);
        }
        let ghost pre_vec = out@;
        let ghost pre = out.deep_view();
        out.insert(j, x);
        proof {
            let xv = v.deep_view()[i as int];
            assert(out@ == pre_vec.insert(j as int, x));
            assert forall|q: int| 0 <= q < out@.len() implies out.deep_view()[q] == (pre.take(
                j as int,
            ) + seq![xv] + pre.skip(j as int))[q] by {
                if q < j {
                    assert(out@[q] == pre_vec[q]);
                } else if q == j {
                    assert(out@[q] == x);
                } else {
                    assert(out@[q] == pre_vec[q - 1]);
                }
            }
            assert(out.deep_view() =~= pre.take(j as int) + seq![xv] + pre.skip(j as int));
            let tv = v.deep_view().take(i + 1);
            assert(tv.drop_last() =~= v.deep_view().take(i as int));
            assert(tv.last() == xv);
            assert(out.deep_view() =~= insert_dated(xv, pre));
        }
        i = i + 1;
    }
    proof {
        assert(v.deep_view().take(n as int) =~= v.deep_view());
    }
    out
}

/// The `/`-joined form of a list of path segments.
pub open spec fn join_segs(parts: Seq<Seq<char>>) -> Seq<char>
    decreases parts.len(),
{
    if parts.len() == 0 {
        Seq::empty()
    } else if parts.len() == 1 {
        parts[0]
    } else {
        parts[0] + seq!['/'] + join_segs(parts.skip(1))
    }
}

/// Joining then appending one more segment.
proof fn lemma_join_snoc(parts: Seq<Seq<char>>, x: Seq<char>)
    ensures
        parts.len() == 0 ==> join_segs(parts.push(x)) == x,
        parts.len() > 0 ==> join_segs(parts.push(x)) =~= join_segs(parts) + seq!['/'] + x,
    decreases parts.len(),
{
    let p = parts.push(x);
    if parts.len() == 0 {
        assert(p.len() == 1);
        assert(p[0] == x);
    } else if parts.len() == 1 {
        assert(p.len() == 2);
        assert(p.skip(1) =~= seq![x]);
        assert(join_segs(p.skip(1)) == x);
        assert(join_segs(p) =~= parts[0] + seq!['/'] + x);
    } else {
        lemma_join_snoc(parts.skip(1), x);
        assert(p.skip(1) =~= parts.skip(1).push(x));
        assert(join_segs(p) == p[0] + seq!['/'] + join_segs(p.skip(1)));
    }
}

/// Joins path segments with `/`, pinned to [`join_segs`].
fn join_path(segs: &Vec<String>) -> (r: String)
    ensures
        r@ == join_segs(segs.deep_view()),
{
    let n = segs.len();
    let mut out = String::new();
    proof {
        assert(segs.deep_view().take(0) =~= Seq::<Seq<char>>::empty());
        assert(out@ =~= join_segs(segs.deep_view().take(0)));
    }
    let mut i: usize = 0;
    while i < n
        invariant
            i <= n,
            n == segs.len(),
            out@ == join_segs(segs.deep_view().take(i as int)),
        decreases n - i,
    {
        let ghost pre = out@;
        if i > 0 {
            out.append("/");
        }
        out.append(segs[i].as_str());
        proof {
            reveal_strlit("/");
            let sv = segs.deep_view();
            lemma_join_snoc(sv.take(i as int), sv[i as int]);
            assert(sv.take(i + 1) =~= sv.take(i as int).push(sv[i as int]));
            if i == 0 {
                assert(out@ =~= Seq::<char>::empty() + sv[0]);
                assert(out@ =~= join_segs(sv.take(1)));
            } else {
                assert(out@ =~= pre + seq!['/'] + sv[i as int]);
            }
        }
        i = i + 1;
    }
    proof {
        assert(segs.deep_view().take(n as int) =~= segs.deep_view());
    }
    out
}

/// Splitting around one separator splits each side.
pub proof fn lemma_split_on_concat(a: Seq<char>, b: Seq<char>, sep: char)
    ensures
        split_on(a + seq![sep] + b, sep) =~= split_on(a, sep) + split_on(b, sep),
    decreases a.len(),
{
    let s = a + seq![sep] + b;
    if a.len() == 0 {
        assert(s =~= seq![sep] + b);
        assert(s[0] == sep);
        assert(s.skip(1) =~= b);
        assert(split_on(a, sep) == seq![Seq::<char>::empty()]);
        assert(split_on(s, sep) =~= seq![Seq::<char>::empty()] + split_on(b, sep));
    } else {
        assert(s[0] == a[0]);
        assert(s.skip(1) =~= a.skip(1) + seq![sep] + b);
        lemma_split_on_concat(a.skip(1), b, sep);
        crate::text::lemma_split_on_len(a.skip(1), sep);
        let rest = split_on(s.skip(1), sep);
        let ar = split_on(a.skip(1), sep);
        assert(rest =~= ar + split_on(b, sep));
        if a[0] == sep {
            assert(split_on(s, sep) == seq![Seq::<char>::empty()] + rest);
            assert(split_on(a, sep) == seq![Seq::<char>::empty()] + ar);
        } else {
            assert(rest[0] == ar[0]);
            assert(rest.skip(1) =~= ar.skip(1) + split_on(b, sep));
            assert(split_on(s, sep) == seq![seq![s[0]] + rest[0]] + rest.skip(1));
            assert(split_on(a, sep) == seq![seq![a[0]] + ar[0]] + ar.skip(1));
        }
    }
}

/// A clean joined path begins with a clean first segment.
pub proof fn lemma_clean_head(segs: Seq<Seq<char>>)
    requires
        segs.len() >= 2,
        path_clean(join_segs(segs)),
    ensures
        path_clean(segs[0]),
{
    let rest = join_segs(segs.skip(1));
    lemma_split_on_concat(segs[0], rest, '/');
    let left = split_on(segs[0], '/');
    let right = split_on(rest, '/');
    let whole = split_on(join_segs(segs), '/');
    assert(whole =~= left + right);
    assert forall|i: int| 0 <= i < left.len() implies (#[trigger] left[i]).len() > 0 && left[i][0]
        != '.' by {
        assert(whole[i] == left[i]);
    }
}

/// The gathered candidates of a scan in progress: section names seen so far
/// and index entries found so far.
#[verifier::ext_equal]
pub struct BuilderView {
    pub sections: Seq<Seq<char>>,
    pub index: Seq<EntryView>,
}

/// What the walker is told about a file: read it as a document, or pass it
/// by.
#[derive(PartialEq, Eq, Structural, Clone, Copy, Debug)]
pub enum FileKind {
    /// A Markdown document the builder wants the contents of.
    Markdown,
    /// Anything else: nothing to read.
    Other,
}

/// The builder of one snapshot. The surrounding program walks the content
/// tree and reports what it finds; every decision is made here.
pub struct ScanBuilder {
    sections: Vec<String>,
    index: Vec<IndexEntry>,
}

impl View for ScanBuilder {
    type V = BuilderView;

    closed spec fn view(&self) -> BuilderView {
        BuilderView { sections: self.sections.deep_view(), index: self.index.deep_view() }
    }
}

/// The name whose presence marks a section.
pub open spec fn spec_marker_name() -> Seq<char> {
    ".section.toml"@
}

/// Whether the walk may descend into a directory: its name must not be
/// hidden.
pub open spec fn spec_descend(segs: Seq<Seq<char>>) -> bool {
    segs.len() > 0 && segs.last().len() > 0 && segs.last()[0] != '.'
}

/// How a file visit changes the candidates: a section-marker file records
/// the first path component as a candidate section name.
pub open spec fn spec_visit_file(b: BuilderView, segs: Seq<Seq<char>>) -> BuilderView {
    if segs.len() > 0 && segs.last() == spec_marker_name() {
        BuilderView { sections: b.sections.push(segs[0]), ..b }
    } else {
        b
    }
}

/// What kind of file the walk reported: a Markdown document worth reading,
/// unless the name is hidden.
pub open spec fn spec_file_kind(segs: Seq<Seq<char>>) -> FileKind {
    if segs.len() == 0 {
        FileKind::Other
    } else if segs.last().len() > 0 && segs.last()[0] == '.' {
        FileKind::Other
    } else if ".md"@.is_suffix_of(segs.last()) || ".markdown"@.is_suffix_of(segs.last()) {
        FileKind::Markdown
    } else {
        FileKind::Other
    }
}

/// How a document changes the candidates: an entry appears exactly when the
/// document carries front matter and its joined path is clean.
pub open spec fn spec_add_document(
    b: BuilderView,
    segs: Seq<Seq<char>>,
    contents: Seq<char>,
) -> BuilderView {
    let path = join_segs(segs);
    match doc_meta(contents) {
        Some(m) => if path_clean(path) && segs.len() > 0 {
            let section = if segs.len() > 1 {
                segs[0]
            } else {
                Seq::<char>::empty()
            };
            BuilderView {
                index: b.index.push(EntryView { meta: m, section, path }),
                ..b
            }
        } else {
            b
        },
        None => b,
    }
}

/// Dropping candidate sections that no indexed document belongs to.
pub open spec fn spec_retain_real(b: BuilderView) -> BuilderView {
    BuilderView {
        sections: b.sections.filter(
            |s: Seq<char>|
                exists|k: int| 0 <= k < b.index.len() && (#[trigger] b.index[k]).section == s,
        ),
        ..b
    }
}

/// Dropping ignored section names.
pub open spec fn spec_remove_ignored_sections(b: BuilderView, ig: Seq<Seq<char>>) -> BuilderView {
    BuilderView { sections: b.sections.filter(|s: Seq<char>| !ig.contains(s)), ..b }
}

/// Dropping index entries with ignored paths.
pub open spec fn spec_remove_ignored_paths(b: BuilderView, ig: Seq<Seq<char>>) -> BuilderView {
    BuilderView { index: b.index.filter(|e: EntryView| !ig.contains(e.path)), ..b }
}

/// What finishing yields: the root label joins the sections, which are
/// sorted and deduplicated; the index is sorted by date, newest first.
pub open spec fn spec_finish(b: BuilderView) -> SnapshotView {
    SnapshotView {
        sections: dedup_sorted(sort_lex(b.sections.push(Seq::<char>::empty()))),
        index: sort_dated(b.index),
    }
}

/// Entries whose paths and sections are clean; every builder operation
/// preserves this.
pub open spec fn entries_clean(ix: Seq<EntryView>) -> bool {
    forall|i: int|
        0 <= i < ix.len() ==> path_clean((#[trigger] ix[i]).path) && (ix[i].section.len() == 0
            || path_clean(ix[i].section))
}

impl ScanBuilder {
    /// The candidates gathered so far satisfy the builder's invariant.
    pub open spec fn wf(&self) -> bool {
        entries_clean(self@.index)
    }

    /// Starts a scan with no candidates.
    pub fn new() -> (r: ScanBuilder)
        ensures
            r@.sections =~= Seq::<Seq<char>>::empty(),
            r@.index =~= Seq::<EntryView>::empty(),
            r.wf(),
    {
        let r = ScanBuilder { sections: Vec::new(), index: Vec::new() };
        proof {
            assert(r@.sections =~= Seq::<Seq<char>>::empty());
            assert(r@.index =~= Seq::<EntryView>::empty());
        }
        r
    }

    /// Whether the walk may descend into the directory the segments name:
    /// hidden directories are pruned.
    pub fn visit_dir(segs: &Vec<String>) -> (r: bool)
        ensures
            r == spec_descend(segs.deep_view()),
    {
        let n = segs.len();
        if n == 0 {
            return false;
        }
        let last = &segs[n - 1];
        let llen = last.as_str().unicode_len();
        llen > 0 && last.as_str().get_char(0) != '.'
    }

    /// Takes note of one file of the walk: a section-marker file records a
    /// candidate section, and the answer says whether the file is a
    /// Markdown document whose contents the builder wants.
    pub fn visit_file(&mut self, segs: &Vec<String>) -> (k: FileKind)
        requires
            old(self).wf(),
        ensures
            final(self).wf(),
            final(self)@ == spec_visit_file(old(self)@, segs.deep_view()),
            k == spec_file_kind(segs.deep_view()),
    {
        let n = segs.len();
        if n == 0 {
            proof {
                assert(self@ =~= spec_visit_file(old(self)@, segs.deep_view()));
            }
            return FileKind::Other;
        }
        let last = &segs[n - 1];
        let ghost pre = self@;
        if str_eq(last.as_str(), ".section.toml") {
            let ghost pre_sections = self.sections.deep_view();
            self.sections.push(segs[0].clone());
            proof {
                assert(self.sections.deep_view() =~= pre_sections.push(
                    segs.deep_view()[0],
                ));
                assert(self@ =~= spec_visit_file(pre, segs.deep_view()));
            }
        } else {
            proof {
                assert(self@ =~= spec_visit_file(pre, segs.deep_view()));
            }
        }
        let llen = last.as_str().unicode_len();
        if llen > 0 && last.as_str().get_char(0) == '.' {
            return FileKind::Other;
        }
        if ends_with(last.as_str(), ".md") || ends_with(last.as_str(), ".markdown") {
            FileKind::Markdown
        } else {
            FileKind::Other
        }
    }

    /// Feeds the contents of one Markdown document to the builder: it is
    /// rendered, and joins the index exactly when it carries front matter
    /// and its joined path is clean.
    pub fn add_document(&mut self, segs: &Vec<String>, contents: &str)
        requires
            old(self).wf(),
        ensures
            final(self).wf(),
            final(self)@ == spec_add_document(old(self)@, segs.deep_view(), contents@),
    {
        let ghost pre = self@;
        let ghost sv = segs.deep_view();
        let (_, meta) = render_markdown(contents);
        match meta {
            None => {
                proof {
                    assert(self@ =~= spec_add_document(pre, sv, contents@));
                }
            },
            Some(m) => {
                let path = join_path(segs);
                let n = segs.len();
                if n > 0 && path_clean_str(path.as_str()) {
                    let section = if n > 1 {
                        segs[0].clone()
                    } else {
                        String::new()
                    };
                    let entry = IndexEntry { meta: m, section, path };
                    let ghost ev = entry@;
                    let ghost pre_index = self.index.deep_view();
                    proof {
                        if n > 1 {
                            lemma_clean_head(sv);
                        }
                    }
                    self.index.push(entry);
                    proof {
                        assert(self.index.deep_view() =~= pre_index.push(ev));
                        assert(self@ =~= spec_add_document(pre, sv, contents@));
                    }
                } else {
                    proof {
                        assert(self@ =~= spec_add_document(pre, sv, contents@));
                    }
                }
            },
        }
    }
}

/// One step of filtering: what joining one more element does.
proof fn lemma_filter_step<A>(s: Seq<A>, i: int, pred: spec_fn(A) -> bool)
    requires
        0 <= i < s.len(),
    ensures
        s.take(i + 1).filter(pred) == if pred(s[i]) {
            s.take(i).filter(pred).push(s[i])
        } else {
            s.take(i).filter(pred)
        },
{
    assert(s.take(i + 1) =~= s.take(i) + seq![s[i]]);
    Seq::<A>::filter_distributes_over_add(s.take(i), seq![s[i]], pred);
    reveal(Seq::filter);
    assert(seq![s[i]].drop_last() =~= Seq::<A>::empty());
    assert(seq![s[i]].last() == s[i]);
    assert(Seq::<A>::empty().filter(pred) == Seq::<A>::empty());
    if pred(s[i]) {
        assert(seq![s[i]].filter(pred) == Seq::<A>::empty().push(s[i]));
        assert(s.take(i).filter(pred) + Seq::<A>::empty().push(s[i]) =~= s.take(i).filter(
            pred,
        ).push(s[i]));
    } else {
        assert(seq![s[i]].filter(pred) == Seq::<A>::empty());
        assert(s.take(i).filter(pred) + Seq::<A>::empty() =~= s.take(i).filter(pred));
    }
}

/// Whether some entry belongs to the section `s`.
fn index_has_section(index: &Vec<IndexEntry>, s: &str) -> (r: bool)
    ensures
        r == exists|k: int|
            0 <= k < index.deep_view().len() && (#[trigger] index.deep_view()[k]).section == s@,
{
    let n = index.len();
    let mut i: usize = 0;
    while i < n
        invariant
            i <= n,
            n == index.len(),
            forall|j: int| 0 <= j < i ==> (#[trigger] index.deep_view()[j]).section != s@,
        decreases n - i,
    {
        if str_eq(index[i].section.as_str(), s) {
            assert(index.deep_view()[i as int].section == s@);
            return true;
        }
        i = i + 1;
    }
    false
}

/// Whether a list of labels holds `s`.
fn labels_contain(labels: &Vec<String>, s: &str) -> (r: bool)
    ensures
        r == labels.deep_view().contains(s@),
{
    let n = labels.len();
    let mut i: usize = 0;
    while i < n
        invariant
            i <= n,
            n == labels.len(),
            forall|j: int| 0 <= j < i ==> labels.deep_view()[j] != s@,
        decreases n - i,
    {
        if str_eq(labels[i].as_str(), s) {
            assert(labels.deep_view()[i as int] == s@);
            return true;
        }
        i = i + 1;
    }
    false
}

impl ScanBuilder {
    /// The candidate section names gathered so far, for the ignore check.
    pub fn section_candidates(&self) -> (r: Vec<String>)
        ensures
            r.deep_view() == self@.sections,
    {
        let n = self.sections.len();
        let mut out: Vec<String> = Vec::new();
        let mut i: usize = 0;
        while i < n
            invariant
                i <= n,
                n == self@.sections.len(),
                out.deep_view() =~= self@.sections.take(i as int),
            decreases n - i,
        {
            let ghost pre = out.deep_view();
            out.push(self.sections[i].clone());
            proof {
                assert(out.deep_view() =~= pre.push(self@.sections[i as int]));
                assert(self@.sections.take(i + 1) =~= pre.push(self@.sections[i as int]));
            }
            i = i + 1;
        }
        proof {
            assert(self@.sections.take(n as int) =~= self@.sections);
        }
        out
    }

    /// The paths of the entries gathered so far, for the ignore check.
    pub fn entry_paths(&self) -> (r: Vec<String>)
        ensures
            r.deep_view() == self@.index.map_values(|e: EntryView| e.path),
    {
        let n = self.index.len();
        let mut out: Vec<String> = Vec::new();
        let ghost f = |e: EntryView| e.path;
        let mut i: usize = 0;
        while i < n
            invariant
                i <= n,
                n == self@.index.len(),
                out.deep_view() =~= self@.index.take(i as int).map_values(f),
                f == (|e: EntryView| e.path),
            decreases n - i,
        {
            let ghost pre = out.deep_view();
            out.push(self.index[i].path.clone());
            proof {
                assert(out.deep_view() =~= pre.push(self@.index[i as int].path));
                assert(self@.index.take(i + 1).map_values(f) =~= pre.push(
                    self@.index[i as int].path,
                ));
            }
            i = i + 1;
        }
        proof {
            assert(self@.index.take(n as int) =~= self@.index);
        }
        out
    }

    /// Drops every candidate section that no indexed document belongs to: a
    /// marker file alone does not make a section real.
    pub fn retain_real_sections(&mut self)
        requires
            old(self).wf(),
        ensures
            final(self).wf(),
            final(self)@ == spec_retain_real(old(self)@),
    {
        let ghost pre = self@;
        let ghost pred = |s: Seq<char>|
            exists|k: int| 0 <= k < pre.index.len() && (#[trigger] pre.index[k]).section == s;
        let n = self.sections.len();
        let mut kept: Vec<String> = Vec::new();
        proof {
            assert(pre.sections.take(0).filter(pred) =~= Seq::<Seq<char>>::empty());
            reveal(Seq::filter);
        }
        let mut i: usize = 0;
        while i < n
            invariant
                i <= n,
                n == pre.sections.len(),
                self@ == pre,
                kept.deep_view() == pre.sections.take(i as int).filter(pred),
                pred == (|s: Seq<char>|
                    exists|k: int|
                        0 <= k < pre.index.len() && (#[trigger] pre.index[k]).section == s),
            decreases n - i,
        {
            let keep = index_has_section(&self.index, self.sections[i].as_str());
            let ghost prev = kept.deep_view();
            if keep {
                kept.push(self.sections[i].clone());
            }
            proof {
                lemma_filter_step(pre.sections, i as int, pred);
                if keep {
                    assert(kept.deep_view() =~= prev.push(pre.sections[i as int]));
                }
            }
            i = i + 1;
        }
        proof {
            assert(pre.sections.take(n as int) =~= pre.sections);
        }
        self.sections = kept;
        proof {
            assert(self@ =~= spec_retain_real(pre));
        }
    }

    /// Drops the candidate sections whose names the ignore check returned.
    pub fn remove_ignored_sections(&mut self, ignored: &Vec<String>)
        requires
            old(self).wf(),
        ensures
            final(self).wf(),
            final(self)@ == spec_remove_ignored_sections(old(self)@, ignored.deep_view()),
    {
        let ghost pre = self@;
        let ghost ig = ignored.deep_view();
        let ghost pred = |s: Seq<char>| !ig.contains(s);
        let n = self.sections.len();
        let mut kept: Vec<String> = Vec::new();
        proof {
            assert(pre.sections.take(0).filter(pred) =~= Seq::<Seq<char>>::empty());
            reveal(Seq::filter);
        }
        let mut i: usize = 0;
        while i < n
            invariant
                i <= n,
                n == pre.sections.len(),
                self@ == pre,
                ig == ignored.deep_view(),
                kept.deep_view() == pre.sections.take(i as int).filter(pred),
                pred == (|s: Seq<char>| !ig.contains(s)),
            decreases n - i,
        {
            let keep = !labels_contain(ignored, self.sections[i].as_str());
            let ghost prev = kept.deep_view();
            if keep {
                kept.push(self.sections[i].clone());
            }
            proof {
                lemma_filter_step(pre.sections, i as int, pred);
                if keep {
                    assert(kept.deep_view() =~= prev.push(pre.sections[i as int]));
                }
            }
            i = i + 1;
        }
        proof {
            assert(pre.sections.take(n as int) =~= pre.sections);
        }
        self.sections = kept;
        proof {
            assert(self@ =~= spec_remove_ignored_sections(pre, ig));
        }
    }

    /// Drops the index entries whose paths the ignore check returned.
    pub fn remove_ignored_paths(&mut self, ignored: &Vec<String>)
        requires
            old(self).wf(),
        ensures
            final(self).wf(),
            final(self)@ == spec_remove_ignored_paths(old(self)@, ignored.deep_view()),
    {
        let ghost pre = self@;
        let ghost ig = ignored.deep_view();
        let ghost pred = |e: EntryView| !ig.contains(e.path);
        let n = self.index.len();
        let mut kept: Vec<IndexEntry> = Vec::new();
        proof {
            assert(pre.index.take(0).filter(pred) =~= Seq::<EntryView>::empty());
            reveal(Seq::filter);
        }
        let mut i: usize = 0;
        while i < n
            invariant
                i <= n,
                n == pre.index.len(),
                self@ == pre,
                ig == ignored.deep_view(),
                kept.deep_view() == pre.index.take(i as int).filter(pred),
                pred == (|e: EntryView| !ig.contains(e.path)),
            decreases n - i,
        {
            let keep = !labels_contain(ignored, self.index[i].path.as_str());
            let ghost prev = kept.deep_view();
            if keep {
                kept.push(self.index[i].clone());
            }
            proof {
                lemma_filter_step(pre.index, i as int, pred);
                if keep {
                    assert(kept.deep_view() =~= prev.push(pre.index[i as int]));
                }
            }
            i = i + 1;
        }
        proof {
            assert(pre.index.take(n as int) =~= pre.index);
        }
        self.index = kept;
        proof {
            assert(self@ =~= spec_remove_ignored_paths(pre, ig));
            assert(entries_clean(self@.index)) by {
                assert forall|q: int| 0 <= q < self@.index.len() implies path_clean(
                    (#[trigger] self@.index[q]).path,
                ) && (self@.index[q].section.len() == 0 || path_clean(
                    self@.index[q].section,
                )) by {
                    assert(self@.index.contains(self@.index[q]));
                    pre.index.lemma_filter_contains_rev(pred, self@.index[q]);
                    let m = choose|m: int|
                        0 <= m < pre.index.len() && pre.index[m] == self@.index[q];
                    assert(path_clean(pre.index[m].path));
                }
            }
        }
    }

    /// Ends the scan: the root label joins the sections, which come out
    /// sorted and unique; the index comes out sorted by date, newest first;
    /// every indexed path is clean.
    pub fn finish(self) -> (r: Snapshot)
        requires
            self.wf(),
        ensures
            r@ == spec_finish(self@),
            snapshot_wf(r@),
    {
        let ghost pre = self@;
        let ScanBuilder { mut sections, index } = self;
        let ghost pre_sections = sections.deep_view();
        sections.push(String::new());
        proof {
            assert(sections.deep_view() =~= pre.sections.push(Seq::<char>::empty()));
        }
        let sorted = sort_string_vec(sections);
        let deduped = dedup_string_vec(sorted);
        let sorted_index = sort_entry_vec(index);
        let r = Snapshot { sections: deduped, index: sorted_index };
        proof {
            assert(r@ =~= spec_finish(pre));
            let with_root = pre.sections.push(Seq::<char>::empty());
            lemma_sort_lex_props(with_root);
            lemma_dedup_props(sort_lex(with_root));
            assert(with_root.contains(Seq::<char>::empty())) by {
                assert(with_root[with_root.len() - 1] == Seq::<char>::empty());
            }
            lemma_sort_dated_props(pre.index);
            assert(index_paths_clean(r@.index)) by {
                assert forall|q: int| 0 <= q < r@.index.len() implies path_clean(
                    (#[trigger] r@.index[q]).path,
                ) by {
                    assert(r@.index.contains(r@.index[q]));
                    assert(pre.index.contains(r@.index[q]));
                    let m = choose|m: int|
                        0 <= m < pre.index.len() && pre.index[m] == r@.index[q];
                    assert(path_clean(pre.index[m].path));
                }
            }
            assert(sections_wf(r@.sections)) by {
                assert(sort_lex(with_root).contains(Seq::<char>::empty()));
                assert(r@.sections.contains(Seq::<char>::empty()));
                assert forall|i: int, j: int| 0 <= i < j < r@.sections.len() implies lex_lt(
                    #[trigger] r@.sections[i],
                    #[trigger] r@.sections[j],
                ) by {}
            }
        }
        r
    }
}

/// Drops equal neighbours, pinned to [`dedup_sorted`].
fn dedup_string_vec(v: Vec<String>) -> (r: Vec<String>)
    ensures
        r.deep_view() == dedup_sorted(v.deep_view()),
{
    let n = v.len();
    let mut out: Vec<String> = Vec::new();
    proof {
        assert(v.deep_view().skip(0) =~= v.deep_view());
        assert(out.deep_view() + dedup_sorted(v.deep_view()) =~= dedup_sorted(v.deep_view()));
    }
    let mut i: usize = 0;
    while i < n
        invariant
            i <= n,
            n == v.len(),
            dedup_sorted(v.deep_view()) == out.deep_view() + dedup_sorted(
                v.deep_view().skip(i as int),
            ),
        decreases n - i,
    {
        let ghost sv = v.deep_view();
        let ghost rem = sv.skip(i as int);
        proof {
            assert(rem[0] == sv[i as int]);
            assert(rem.skip(1) =~= sv.skip(i + 1));
        }
        if i + 1 < n && str_eq(v[i].as_str(), v[i + 1].as_str()) {
            proof {
                assert(rem[1] == sv[i + 1]);
                assert(dedup_sorted(rem) == dedup_sorted(sv.skip(i + 1)));
            }
        } else {
            let ghost pre = out.deep_view();
            out.push(v[i].clone());
            proof {
                assert(out.deep_view() =~= pre.push(sv[i as int]));
                if i + 1 < n {
                    assert(rem[1] == sv[i + 1]);
                    assert(dedup_sorted(rem) == seq![rem[0]] + dedup_sorted(rem.skip(1)));
                } else {
                    assert(rem.len() == 1);
                    assert(dedup_sorted(rem) == rem);
                    assert(sv.skip(i + 1) =~= Seq::<Seq<char>>::empty());
                    assert(dedup_sorted(rem) =~= seq![rem[0]] + dedup_sorted(sv.skip(i + 1)));
                }
                assert(out.deep_view() + dedup_sorted(sv.skip(i + 1)) =~= pre + (seq![rem[0]]
                    + dedup_sorted(sv.skip(i + 1))));
            }
        }
        i = i + 1;
    }
    proof {
        assert(v.deep_view().skip(n as int) =~= Seq::<Seq<char>>::empty());
        assert(out.deep_view() + Seq::<Seq<char>>::empty() =~= out.deep_view());
    }
    out
}

/// A clean path is nonempty and does not begin with the hidden marker.
proof fn lemma_clean_first_char(s: Seq<char>)
    requires
        path_clean(s),
    ensures
        s.len() > 0,
        s[0] != '.',
{
    let parts = split_on(s, '/');
    if s.len() == 0 {
        assert(parts[0].len() == 0);
    } else if s[0] == '/' {
        assert(parts[0].len() == 0);
    } else {
        let rest = split_on(s.skip(1), '/');
        crate::text::lemma_split_on_len(s.skip(1), '/');
        assert(parts == seq![seq![s[0]] + rest[0]] + rest.skip(1));
        assert(parts[0] == seq![s[0]] + rest[0]);
        assert(parts[0][0] == s[0]);
    }
}

/// After dropping sections without documents, every remaining section is
/// visible: it names the first component of some clean document path, or
/// is empty.
proof fn lemma_retain_sections_visible(b: BuilderView)
    requires
        entries_clean(b.index),
    ensures
        sections_visible(spec_retain_real(b).sections),
{
    let kept = spec_retain_real(b).sections;
    let pred = |s: Seq<char>|
        exists|k: int| 0 <= k < b.index.len() && (#[trigger] b.index[k]).section == s;
    assert forall|i: int| 0 <= i < kept.len() implies ((#[trigger] kept[i]).len() == 0 || kept[i][0]
        != '.') by {
        assert(kept.contains(kept[i]));
        b.sections.lemma_filter_contains_rev(pred, kept[i]);
        b.sections.lemma_filter_pred(pred, i);
        let k = choose|k: int| 0 <= k < b.index.len() && (#[trigger] b.index[k]).section == kept[i];
        if b.index[k].section.len() > 0 {
            lemma_clean_first_char(b.index[k].section);
        }
    }
}

/// Filtering keeps visible sections visible.
proof fn lemma_filter_sections_visible(ss: Seq<Seq<char>>, pred: spec_fn(Seq<char>) -> bool)
    requires
        sections_visible(ss),
    ensures
        sections_visible(ss.filter(pred)),
{
    let kept = ss.filter(pred);
    assert forall|i: int| 0 <= i < kept.len() implies ((#[trigger] kept[i]).len() == 0 || kept[i][0]
        != '.') by {
        assert(kept.contains(kept[i]));
        ss.lemma_filter_contains_rev(pred, kept[i]);
        let k = choose|k: int| 0 <= k < ss.len() && ss[k] == kept[i];
        assert(ss[k].len() == 0 || ss[k][0] != '.');
    }
}

/// Finishing keeps visible sections visible: the root label it adds is
/// empty, and sorting and deduplication add nothing else.
proof fn lemma_finish_sections_visible(b: BuilderView)
    requires
        sections_visible(b.sections),
    ensures
        sections_visible(spec_finish(b).sections),
{
    let with_root = b.sections.push(Seq::<char>::empty());
    lemma_sort_lex_props(with_root);
    lemma_dedup_props(sort_lex(with_root));
    let out = spec_finish(b).sections;
    assert forall|i: int| 0 <= i < out.len() implies ((#[trigger] out[i]).len() == 0 || out[i][0]
        != '.') by {
        assert(out.contains(out[i]));
        assert(sort_lex(with_root).contains(out[i]));
        assert(with_root.contains(out[i]));
        let k = choose|k: int| 0 <= k < with_root.len() && with_root[k] == out[i];
        if k < b.sections.len() {
            assert(b.sections[k] == out[i]);
        } else {
            assert(out[i].len() == 0);
        }
    }
}

/// The hidden-path invariant over a whole scan, driven as the builder is
/// driven: dropping the sections without documents, then the ignored
/// sections and paths, then finishing, leaves no hidden name among the
/// sections and no path with a hidden or empty segment in the index.
pub proof fn lemma_hidden_paths_excluded(
    b: BuilderView,
    ignored_sections: Seq<Seq<char>>,
    ignored_paths: Seq<Seq<char>>,
)
    requires
        entries_clean(b.index),
    ensures
        ({
            let b1 = spec_retain_real(b);
            let b2 = spec_remove_ignored_sections(b1, ignored_sections);
            let b3 = spec_remove_ignored_paths(b2, ignored_paths);
            let snap = spec_finish(b3);
            sections_visible(snap.sections) && index_paths_clean(snap.index)
        }),
{
    let b1 = spec_retain_real(b);
    let b2 = spec_remove_ignored_sections(b1, ignored_sections);
    let b3 = spec_remove_ignored_paths(b2, ignored_paths);
    let snap = spec_finish(b3);
    lemma_retain_sections_visible(b);
    lemma_filter_sections_visible(b1.sections, |s: Seq<char>| !ignored_sections.contains(s));
    lemma_finish_sections_visible(b3);
    let ppred = |e: EntryView| !ignored_paths.contains(e.path);
    lemma_sort_dated_props(b3.index);
    assert forall|q: int| 0 <= q < snap.index.len() implies path_clean(
        (#[trigger] snap.index[q]).path,
    ) by {
        assert(snap.index.contains(snap.index[q]));
        assert(b3.index.contains(snap.index[q]));
        b2.index.lemma_filter_contains_rev(ppred, snap.index[q]);
        let m = choose|m: int| 0 <= m < b.index.len() && b.index[m] == snap.index[q];
        assert(path_clean(b.index[m].path));
    }
}

/// One step of a scan, as the builder is driven.
pub enum ScanOp {
    /// A file was visited, by its path segments.
    VisitFile(Seq<Seq<char>>),
    /// A Markdown document was read, by its path segments and contents.
    AddDocument(Seq<Seq<char>>, Seq<char>),
    /// Candidate sections without documents were dropped.
    RetainReal,
    /// The ignore check's section names were dropped.
    RemoveIgnoredSections(Seq<Seq<char>>),
    /// The ignore check's paths were dropped.
    RemoveIgnoredPaths(Seq<Seq<char>>),
}

/// What one step leaves of the candidates.
pub open spec fn apply_op(b: BuilderView, op: ScanOp) -> BuilderView {
    match op {
        ScanOp::VisitFile(segs) => spec_visit_file(b, segs),
        ScanOp::AddDocument(segs, contents) => spec_add_document(b, segs, contents),
        ScanOp::RetainReal => spec_retain_real(b),
        ScanOp::RemoveIgnoredSections(ig) => spec_remove_ignored_sections(b, ig),
        ScanOp::RemoveIgnoredPaths(ig) => spec_remove_ignored_paths(b, ig),
    }
}

/// What a whole scan leaves of the candidates, step by step from the
/// start.
pub open spec fn apply_scan(b: BuilderView, ops: Seq<ScanOp>) -> BuilderView
    decreases ops.len(),
{
    if ops.len() == 0 {
        b
    } else {
        apply_scan(apply_op(b, ops[0]), ops.skip(1))
    }
}

/// The candidates before any step.
pub open spec fn builder_init() -> BuilderView {
    BuilderView { sections: Seq::empty(), index: Seq::empty() }
}

/// What every finished scan guarantees, whatever was gathered: the root
/// label is present and the sections are strictly sorted, so sorted and
/// unique; and the index is sorted by date, newest first.
pub proof fn lemma_finish_well_formed(b: BuilderView)
    ensures
        sections_wf(spec_finish(b).sections),
        index_date_sorted(spec_finish(b).index),
{
    let with_root = b.sections.push(Seq::<char>::empty());
    lemma_sort_lex_props(with_root);
    lemma_dedup_props(sort_lex(with_root));
    assert(with_root.contains(Seq::<char>::empty())) by {
        assert(with_root[with_root.len() - 1] == Seq::<char>::empty());
    }
    lemma_sort_dated_props(b.index);
}

/// Idempotence of scanning: every step is a function of the candidates and
/// of the walk's reports alone — the parsed event stream, the front
/// matter, the ignore lists — so two scans that see the same tree in the
/// same order end in identical snapshots: same sections, same index, same
/// order throughout, ties between equal dates included.
pub proof fn lemma_scan_idempotent(ops_first: Seq<ScanOp>, ops_second: Seq<ScanOp>)
    requires
        ops_first == ops_second,
    ensures
        spec_finish(apply_scan(builder_init(), ops_first)) == spec_finish(
            apply_scan(builder_init(), ops_second),
        ),
{
}

} // verus!
