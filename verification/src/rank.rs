//! Ranking machinery: stable sorting of `(name, count)` entries by count,
//! ascending or descending, and truncation to a requested limit.
//!
//! The sort is pinned to an exact specification — a stable insertion sort —
//! so a ranking is a deterministic function of the entry list: entries with
//! equal counts keep their relative order.

use vstd::prelude::*;

verus! {

use std::string::String;
use std::vec::Vec;

/// The mathematical shape of an entry list: each name as its character
/// sequence, with its count.
pub open spec fn spec_entries_view(s: Seq<(String, usize)>) -> Seq<(Seq<char>, usize)> {
    s.map_values(|e: (String, usize)| (e.0@, e.1))
}

/// Whether entry `a` may stay in front of `e` in a ranking: ascending means
/// smaller counts first. On ties `a` stays in front, which makes the sort
/// stable.
pub open spec fn spec_comes_before(
    a: (Seq<char>, usize),
    e: (Seq<char>, usize),
    asc: bool,
) -> bool {
    if asc {
        a.1 <= e.1
    } else {
        a.1 >= e.1
    }
}

/// Insertion of `e` into an already sorted entry list: `e` goes behind
/// every entry that may stay in front of it.
pub open spec fn spec_insert_entry(
    e: (Seq<char>, usize),
    s: Seq<(Seq<char>, usize)>,
    asc: bool,
) -> Seq<(Seq<char>, usize)>
    decreases s.len(),
{
    if s.len() == 0 {
        seq![e]
    } else if spec_comes_before(s[0], e, asc) {
        seq![s[0]] + spec_insert_entry(e, s.drop_first(), asc)
    } else {
        seq![e] + s
    }
}

/// Stable insertion sort of an entry list by count.
pub open spec fn spec_sort_entries(s: Seq<(Seq<char>, usize)>, asc: bool) -> Seq<
    (Seq<char>, usize),
>
    decreases s.len(),
{
    if s.len() == 0 {
        s
    } else {
        spec_insert_entry(s.last(), spec_sort_entries(s.drop_last(), asc), asc)
    }
}

/// A ranking truncated to `limit` entries; a limit of 0 means no
/// truncation.
pub open spec fn spec_truncated<T>(s: Seq<T>, limit: usize) -> Seq<T> {
    if limit == 0 || limit >= s.len() {
        s
    } else {
        s.take(limit as int)
    }
}

/// An entry list is sorted when every pair of positions is ordered.
pub open spec fn spec_sorted_entries(s: Seq<(Seq<char>, usize)>, asc: bool) -> bool {
    forall|i: int, j: int|
        0 <= i < j < s.len() ==> spec_comes_before(#[trigger] s[i], #[trigger] s[j], asc)
}

/// Inserting at the position the specification's recursion picks: the
/// first position whose entry may not stay in front of `e`.
proof fn lemma_insert_entry_at(
    e: (Seq<char>, usize),
    s: Seq<(Seq<char>, usize)>,
    asc: bool,
    p: int,
)
    requires
        0 <= p <= s.len(),
        forall|i: int| 0 <= i < p ==> spec_comes_before(#[trigger] s[i], e, asc),
        p < s.len() ==> !spec_comes_before(s[p], e, asc),
    ensures
        spec_insert_entry(e, s, asc) == s.insert(p, e),
    decreases s.len(),
{
    if s.len() == 0 {
        assert(spec_insert_entry(e, s, asc) =~= s.insert(0, e));
    } else if p == 0 {
        assert(spec_insert_entry(e, s, asc) =~= s.insert(0, e));
    } else {
        assert(spec_comes_before(s[0], e, asc));
        lemma_insert_entry_at(e, s.drop_first(), asc, p - 1);
        assert(seq![s[0]] + s.drop_first().insert(p - 1, e) =~= s.insert(p, e));
    }
}

/// Insertion grows the list by exactly one entry.
proof fn lemma_insert_entry_len(e: (Seq<char>, usize), s: Seq<(Seq<char>, usize)>, asc: bool)
    ensures
        spec_insert_entry(e, s, asc).len() == s.len() + 1,
    decreases s.len(),
{
    if s.len() != 0 && spec_comes_before(s[0], e, asc) {
        lemma_insert_entry_len(e, s.drop_first(), asc);
    }
}

/// Every entry of an insertion's result is the inserted entry or one of the
/// list's own; used to push order facts through the recursion.
proof fn lemma_insert_entry_membership(
    e: (Seq<char>, usize),
    s: Seq<(Seq<char>, usize)>,
    asc: bool,
    i: int,
)
    requires
        0 <= i < spec_insert_entry(e, s, asc).len(),
    ensures
        spec_insert_entry(e, s, asc)[i] == e || s.contains(spec_insert_entry(e, s, asc)[i]),
    decreases s.len(),
{
    lemma_insert_entry_len(e, s, asc);
    if s.len() == 0 {
    } else if spec_comes_before(s[0], e, asc) {
        lemma_insert_entry_len(e, s.drop_first(), asc);
        if i > 0 {
            lemma_insert_entry_membership(e, s.drop_first(), asc, i - 1);
            let x = spec_insert_entry(e, s.drop_first(), asc)[i - 1];
            if s.drop_first().contains(x) {
                let k = choose|k: int| 0 <= k < s.drop_first().len() && s.drop_first()[k] == x;
                assert(s[k + 1] == x);
            }
        } else {
            assert(s.contains(s[0]));
        }
    } else {
        if i > 0 {
            assert(s.contains(s[i - 1]));
        }
    }
}

/// Insertion keeps a sorted list sorted.
proof fn lemma_insert_entry_sorted(e: (Seq<char>, usize), s: Seq<(Seq<char>, usize)>, asc: bool)
    requires
        spec_sorted_entries(s, asc),
    ensures
        spec_sorted_entries(spec_insert_entry(e, s, asc), asc),
    decreases s.len(),
{
    if s.len() == 0 {
    } else if spec_comes_before(s[0], e, asc) {
        lemma_insert_entry_sorted(e, s.drop_first(), asc);
        let t = spec_insert_entry(e, s.drop_first(), asc);
        let r = seq![s[0]] + t;
        assert forall|i: int, j: int| 0 <= i < j < r.len() implies spec_comes_before(
            #[trigger] r[i],
            #[trigger] r[j],
            asc,
        ) by {
            if i == 0 {
                lemma_insert_entry_membership(e, s.drop_first(), asc, j - 1);
            } else {
                assert(r[i] == t[i - 1] && r[j] == t[j - 1]);
            }
        }
    } else {
        let r = seq![e] + s;
        assert forall|i: int, j: int| 0 <= i < j < r.len() implies spec_comes_before(
            #[trigger] r[i],
            #[trigger] r[j],
            asc,
        ) by {
            if i == 0 {
                if j == 1 {
                } else {
                    assert(spec_comes_before(s[0], s[j - 1], asc));
                }
            } else {
                assert(r[i] == s[i - 1] && r[j] == s[j - 1]);
            }
        }
    }
}

/// Insertion adds exactly the inserted entry, with multiplicity.
proof fn lemma_insert_entry_multiset(e: (Seq<char>, usize), s: Seq<(Seq<char>, usize)>, asc: bool)
    ensures
        spec_insert_entry(e, s, asc).to_multiset() == s.to_multiset().insert(e),
    decreases s.len(),
{
    broadcast use vstd::seq_lib::group_to_multiset_ensures;

    if s.len() == 0 {
        assert(spec_insert_entry(e, s, asc) =~= Seq::<(Seq<char>, usize)>::empty().push(e));
        assert(Seq::<(Seq<char>, usize)>::empty().push(e).to_multiset() =~= s.to_multiset().insert(
            e,
        ));
    } else if spec_comes_before(s[0], e, asc) {
        lemma_insert_entry_multiset(e, s.drop_first(), asc);
        let t = spec_insert_entry(e, s.drop_first(), asc);
        vstd::seq_lib::lemma_multiset_commutative(seq![s[0]], t);
        vstd::seq_lib::lemma_multiset_commutative(seq![s[0]], s.drop_first());
        assert(seq![s[0]] + s.drop_first() =~= s);
        assert((seq![s[0]] + t).to_multiset() =~= s.to_multiset().insert(e));
    } else {
        vstd::seq_lib::lemma_multiset_commutative(seq![e], s);
        assert((seq![e] + s).to_multiset() =~= s.to_multiset().insert(e));
    }
}

/// Sorting is a permutation: the sorted list holds exactly the entries of
/// the input, with multiplicity.
pub proof fn lemma_sort_entries_multiset(s: Seq<(Seq<char>, usize)>, asc: bool)
    ensures
        spec_sort_entries(s, asc).to_multiset() == s.to_multiset(),
        spec_sort_entries(s, asc).len() == s.len(),
    decreases s.len(),
{
    broadcast use vstd::seq_lib::group_to_multiset_ensures;

    if s.len() != 0 {
        lemma_sort_entries_multiset(s.drop_last(), asc);
        lemma_insert_entry_multiset(s.last(), spec_sort_entries(s.drop_last(), asc), asc);
        assert(s.drop_last().push(s.last()) =~= s);
        assert(s.drop_last().push(s.last()).to_multiset() == s.drop_last().to_multiset().insert(
            s.last(),
        ));
        let t = spec_sort_entries(s, asc);
        assert(t.to_multiset() == s.to_multiset());
        assert(t.to_multiset().len() == t.len());
        assert(s.to_multiset().len() == s.len());
    }
}

/// Sorting sorts: the result is ordered for the requested direction.
pub proof fn lemma_sort_entries_sorted(s: Seq<(Seq<char>, usize)>, asc: bool)
    ensures
        spec_sorted_entries(spec_sort_entries(s, asc), asc),
    decreases s.len(),
{
    if s.len() != 0 {
        lemma_sort_entries_sorted(s.drop_last(), asc);
        lemma_insert_entry_sorted(s.last(), spec_sort_entries(s.drop_last(), asc), asc);
    }
}

/// Rankings are reproducible: a ranking is a function of the entry list,
/// the direction and the limit alone, so two runs over equal inputs agree;
/// and a limit of zero truncates nothing.
pub proof fn lemma_ranking_deterministic(
    a: Seq<(Seq<char>, usize)>,
    b: Seq<(Seq<char>, usize)>,
    asc: bool,
    limit: usize,
)
    requires
        a == b,
    ensures
        spec_truncated(spec_sort_entries(a, asc), limit) == spec_truncated(
            spec_sort_entries(b, asc),
            limit,
        ),
        limit == 0 ==> spec_truncated(spec_sort_entries(a, asc), limit) == spec_sort_entries(
            a,
            asc,
        ),
{
}

/// Whether entry `a` may stay in front of `e` for the requested direction.
fn comes_before(a: &(String, usize), e: &(String, usize), asc: bool) -> (r: bool)
    ensures
        r == spec_comes_before((a.0@, a.1), (e.0@, e.1), asc),
{
    if asc {
        a.1 <= e.1
    } else {
        a.1 >= e.1
    }
}

/// Sorts an entry list by count, stably, in the requested direction.
pub fn sort_entries(v: Vec<(String, usize)>, asc: bool) -> (r: Vec<(String, usize)>)
    ensures
        spec_entries_view(r@) == spec_sort_entries(spec_entries_view(v@), asc),
{
    let ghost orig: Seq<(Seq<char>, usize)> = spec_entries_view(v@);
    let mut rest = v;
    let mut out: Vec<(String, usize)> = Vec::new();
    proof {
        assert(orig.take(0) =~= Seq::<(Seq<char>, usize)>::empty());
        assert(spec_entries_view(out@) =~= Seq::<(Seq<char>, usize)>::empty());
    }
    while rest.len() > 0
        invariant
            rest@.len() <= orig.len(),
            spec_entries_view(rest@) =~= orig.skip(orig.len() - rest@.len()),
            spec_entries_view(out@) == spec_sort_entries(
                orig.take(orig.len() - rest@.len()),
                asc,
            ),
        decreases rest@.len(),
    {
        let ghost k = orig.len() - rest@.len();
        let ghost prevv = rest@;
        let ghost prev = spec_entries_view(rest@);
        let e = rest.remove(0);
        proof {
            assert(spec_entries_view(rest@) =~= prev.drop_first());
            assert(prev.drop_first() =~= orig.skip(k + 1));
            assert(prev[0] == (prevv[0].0@, prevv[0].1));
            assert((e.0@, e.1) == orig[k]);
        }
        let n: usize = out.len();
        let mut p: usize = 0;
        while p < n && comes_before(&out[p], &e, asc)
            invariant
                0 <= p <= n,
                n == out@.len(),
                forall|i: int|
                    0 <= i < p ==> spec_comes_before(
                        #[trigger] spec_entries_view(out@)[i],
                        (e.0@, e.1),
                        asc,
                    ),
            decreases n - p,
        {
            p = p + 1;
        }
        proof {
            lemma_insert_entry_at((e.0@, e.1), spec_entries_view(out@), asc, p as int);
        }
        let ghost before = spec_entries_view(out@);
        out.insert(p, e);
        proof {
            assert(spec_entries_view(out@) =~= before.insert(p as int, (e.0@, e.1)));
            assert(orig.take(k + 1).drop_last() =~= orig.take(k));
            assert(orig.take(k + 1).last() == orig[k]);
        }
    }
    proof {
        assert(orig.take(orig.len() - 0) =~= orig);
    }
    out
}

/// Truncates a ranking to `limit` entries; a limit of 0 keeps them all.
pub fn truncate_entries(v: &mut Vec<(String, usize)>, limit: usize)
    ensures
        spec_entries_view(final(v)@) == spec_truncated(spec_entries_view(old(v)@), limit),
{
    let ghost before = spec_entries_view(v@);
    if limit != 0 && limit < v.len() {
        v.truncate(limit);
        proof {
            assert(spec_entries_view(v@) =~= before.take(limit as int));
        }
    }
}

} // verus!
