//! Lexicographic order on capture names, and sorted, deduplicated name
//! sets built with it.
//!
//! A theme's supported-capture set is kept sorted by character value and
//! free of repeats, so the set a theme supports is canonical: two equal
//! sets are the same list.

use vstd::prelude::*;

verus! {

use std::string::String;
use std::vec::Vec;
use vstd::string::StrSliceExecFns;

/// Lexicographic order on names, by character value.
pub open spec fn spec_name_le(a: Seq<char>, b: Seq<char>) -> bool
    decreases a.len(),
{
    if a.len() == 0 {
        true
    } else if b.len() == 0 {
        false
    } else if (a[0] as u32) < (b[0] as u32) {
        true
    } else if (a[0] as u32) > (b[0] as u32) {
        false
    } else {
        spec_name_le(a.drop_first(), b.drop_first())
    }
}

/// Two characters with the same code are the same character.
proof fn lemma_char_code_eq(a: char, b: char)
    requires
        a as u32 == b as u32,
    ensures
        a == b,
{
    vstd::utf8::char_u32_cast(a, a as u32);
    vstd::utf8::char_u32_cast(b, b as u32);
}

/// The order is total: one of the two directions always holds.
pub proof fn lemma_name_le_total(a: Seq<char>, b: Seq<char>)
    ensures
        spec_name_le(a, b) || spec_name_le(b, a),
    decreases a.len(),
{
    if a.len() != 0 && b.len() != 0 && (a[0] as u32) == (b[0] as u32) {
        lemma_char_code_eq(a[0], b[0]);
        lemma_name_le_total(a.drop_first(), b.drop_first());
    }
}

/// The order is reflexive.
pub proof fn lemma_name_le_reflexive(a: Seq<char>)
    ensures
        spec_name_le(a, a),
    decreases a.len(),
{
    if a.len() != 0 {
        lemma_name_le_reflexive(a.drop_first());
    }
}

/// The order is antisymmetric: mutual order means equality.
pub proof fn lemma_name_le_antisymmetric(a: Seq<char>, b: Seq<char>)
    requires
        spec_name_le(a, b),
        spec_name_le(b, a),
    ensures
        a == b,
    decreases a.len(),
{
    if a.len() == 0 {
        assert(b.len() == 0);
        assert(a =~= b);
    } else {
        assert(b.len() != 0);
        lemma_char_code_eq(a[0], b[0]);
        lemma_name_le_antisymmetric(a.drop_first(), b.drop_first());
        assert(a.len() == b.len());
        assert forall|i: int| 0 <= i < a.len() implies a[i] == b[i] by {
            if i > 0 {
                assert(a[i] == a.drop_first()[i - 1]);
                assert(b[i] == b.drop_first()[i - 1]);
            }
        }
        assert(a =~= b);
    }
}

/// The order is transitive.
pub proof fn lemma_name_le_transitive(a: Seq<char>, b: Seq<char>, c: Seq<char>)
    requires
        spec_name_le(a, b),
        spec_name_le(b, c),
    ensures
        spec_name_le(a, c),
    decreases a.len(),
{
    if a.len() != 0 && (a[0] as u32) == (b[0] as u32) && (b[0] as u32) == (c[0] as u32) {
        lemma_char_code_eq(a[0], b[0]);
        lemma_char_code_eq(b[0], c[0]);
        lemma_name_le_transitive(a.drop_first(), b.drop_first(), c.drop_first());
    }
}

/// Lexicographic comparison of two names.
pub fn name_le(a: &String, b: &String) -> (r: bool)
    ensures
        r == spec_name_le(a@, b@),
{
    let la: usize = a.as_str().unicode_len();
    let lb: usize = b.as_str().unicode_len();
    let mut i: usize = 0;
    proof {
        assert(a@.skip(0) =~= a@);
        assert(b@.skip(0) =~= b@);
    }
    while i < la && i < lb
        invariant
            0 <= i <= la,
            0 <= i <= lb,
            la == a@.len(),
            lb == b@.len(),
            spec_name_le(a@, b@) == spec_name_le(a@.skip(i as int), b@.skip(i as int)),
        decreases la - i,
    {
        let ca = a.as_str().get_char(i);
        let cb = b.as_str().get_char(i);
        proof {
            assert(a@.skip(i as int)[0] == a@[i as int]);
            assert(b@.skip(i as int)[0] == b@[i as int]);
        }
        if (ca as u32) < (cb as u32) {
            return true;
        }
        if (ca as u32) > (cb as u32) {
            return false;
        }
        proof {
            assert(a@.skip(i as int).drop_first() =~= a@.skip(i + 1));
            assert(b@.skip(i as int).drop_first() =~= b@.skip(i + 1));
        }
        i = i + 1;
    }
    proof {
        if i == la {
            assert(a@.skip(i as int).len() == 0);
        } else {
            assert(b@.skip(i as int).len() == 0);
            assert(a@.skip(i as int).len() > 0);
        }
    }
    la <= lb
}

/// Strict lexicographic order: ordered and not equal.
pub fn name_lt(a: &String, b: &String) -> (r: bool)
    ensures
        r == (spec_name_le(a@, b@) && a@ != b@),
{
    if name_le(a, b) {
        let back = name_le(b, a);
        proof {
            if spec_name_le(b@, a@) {
                lemma_name_le_antisymmetric(a@, b@);
            }
        }
        !back
    } else {
        false
    }
}

/// The character sequences of a list of names.
pub open spec fn spec_names_view(s: Seq<String>) -> Seq<Seq<char>> {
    s.map_values(|x: String| x@)
}

/// A name list that is sorted and free of repeats.
pub open spec fn spec_sorted_unique(s: Seq<Seq<char>>) -> bool {
    forall|i: int, j: int|
        0 <= i < j < s.len() ==> spec_name_le(#[trigger] s[i], #[trigger] s[j]) && s[i] != s[j]
}

/// A sorted, repeat-free name list is canonical: two such lists holding
/// the same names are the same list. The set a theme supports therefore
/// determines its index entry outright.
pub proof fn lemma_sorted_unique_canonical(a: Seq<Seq<char>>, b: Seq<Seq<char>>)
    requires
        spec_sorted_unique(a),
        spec_sorted_unique(b),
        forall|x: Seq<char>| #[trigger] a.contains(x) <==> b.contains(x),
    ensures
        a == b,
    decreases a.len(),
{
    if a.len() == 0 {
        if b.len() != 0 {
            assert(b.contains(b[0]));
            assert(a.contains(b[0]));
        }
        assert(a =~= b);
    } else {
        assert(a.contains(a[0]));
        assert(b.contains(a[0]));
        let j = choose|j: int| 0 <= j < b.len() && b[j] == a[0];
        assert(b.contains(b[0]));
        assert(a.contains(b[0]));
        let i = choose|i: int| 0 <= i < a.len() && a[i] == b[0];
        lemma_name_le_reflexive(a[0]);
        lemma_name_le_reflexive(b[0]);
        assert(spec_name_le(a[0], b[0]));
        assert(spec_name_le(b[0], a[0]));
        lemma_name_le_antisymmetric(a[0], b[0]);
        let at = a.drop_first();
        let bt = b.drop_first();
        assert forall|s: int, t: int| 0 <= s < t < at.len() implies spec_name_le(
            #[trigger] at[s],
            #[trigger] at[t],
        ) && at[s] != at[t] by {
            assert(at[s] == a[s + 1] && at[t] == a[t + 1]);
        }
        assert forall|s: int, t: int| 0 <= s < t < bt.len() implies spec_name_le(
            #[trigger] bt[s],
            #[trigger] bt[t],
        ) && bt[s] != bt[t] by {
            assert(bt[s] == b[s + 1] && bt[t] == b[t + 1]);
        }
        assert forall|x: Seq<char>| #[trigger] at.contains(x) implies bt.contains(x) by {
            let s = choose|s: int| 0 <= s < at.len() && at[s] == x;
            assert(a[s + 1] == x);
            assert(a.contains(x));
            assert(x != a[0]);
            assert(b.contains(x));
            let t = choose|t: int| 0 <= t < b.len() && b[t] == x;
            assert(t != 0);
            assert(bt[t - 1] == x);
        }
        assert forall|x: Seq<char>| #[trigger] bt.contains(x) implies at.contains(x) by {
            let t = choose|t: int| 0 <= t < bt.len() && bt[t] == x;
            assert(b[t + 1] == x);
            assert(b.contains(x));
            assert(x != b[0]);
            assert(a.contains(x));
            let s = choose|s: int| 0 <= s < a.len() && a[s] == x;
            assert(s != 0);
            assert(at[s - 1] == x);
        }
        lemma_sorted_unique_canonical(at, bt);
        assert forall|s: int| 0 <= s < a.len() implies a[s] == b[s] by {
            if s > 0 {
                assert(a[s] == at[s - 1] && b[s] == bt[s - 1]);
            }
        }
        assert(a =~= b);
    }
}

/// Inserts a name into a sorted, repeat-free list, keeping it so; a name
/// already present is left alone.
pub fn sorted_insert(v: &mut Vec<String>, name: &String)
    requires
        spec_sorted_unique(spec_names_view(old(v)@)),
    ensures
        spec_sorted_unique(spec_names_view(final(v)@)),
        forall|x: Seq<char>|
            #[trigger] spec_names_view(final(v)@).contains(x) <==> (spec_names_view(
                old(v)@,
            ).contains(x) || x == name@),
{
    let ghost sv: Seq<Seq<char>> = spec_names_view(v@);
    let n: usize = v.len();
    let mut p: usize = 0;
    while p < n && name_lt(&v[p], name)
        invariant
            0 <= p <= n,
            n == v@.len(),
            sv == spec_names_view(v@),
            forall|j: int| 0 <= j < p ==> spec_name_le(#[trigger] sv[j], name@) && sv[j] != name@,
        decreases n - p,
    {
        p = p + 1;
    }
    if p < n {
        let eq_here = !name_lt(name, &v[p]) && !name_lt(&v[p], name);
        proof {
            lemma_name_le_total(sv[p as int], name@);
        }
        if eq_here {
            proof {
                assert(sv[p as int] == name@);
                assert(sv.contains(name@));
                assert(forall|x: Seq<char>| sv.contains(x) <==> (sv.contains(x) || x == name@));
            }
            return ;
        }
    }
    proof {
        lemma_name_le_total(name@, sv[p as int]);
        if p < sv.len() {
            assert(spec_name_le(name@, sv[p as int]) && sv[p as int] != name@);
        }
    }
    v.insert(p, name.clone());
    proof {
        let nv = spec_names_view(v@);
        assert(nv =~= sv.insert(p as int, name@));
        assert forall|i: int, j: int| 0 <= i < j < nv.len() implies spec_name_le(
            #[trigger] nv[i],
            #[trigger] nv[j],
        ) && nv[i] != nv[j] by {
            if i < p && j == p {
            } else if i == p && j > p {
                assert(nv[j] == sv[j - 1]);
                if p < sv.len() {
                    if j - 1 > p {
                        lemma_name_le_transitive(name@, sv[p as int], sv[j - 1]);
                        if name@ == sv[j - 1] {
                            lemma_name_le_antisymmetric(name@, sv[p as int]);
                        }
                    }
                }
            } else if i < p && j > p {
                assert(nv[i] == sv[i] && nv[j] == sv[j - 1]);
                if i == j - 1 {
                    lemma_name_le_transitive(sv[i], name@, name@);
                } else {
                    assert(spec_name_le(sv[i], sv[j - 1]) && sv[i] != sv[j - 1]);
                }
            } else if i < p && j < p {
                assert(nv[i] == sv[i] && nv[j] == sv[j]);
            } else {
                assert(nv[i] == sv[i - 1] && nv[j] == sv[j - 1]);
            }
        }
        assert forall|x: Seq<char>| #[trigger] nv.contains(x) implies (sv.contains(x) || x
            == name@) by {
            let k = choose|k: int| 0 <= k < nv.len() && nv[k] == x;
            if k < p {
                assert(sv[k] == x);
            } else if k > p {
                assert(sv[k - 1] == x);
            }
        }
        assert forall|x: Seq<char>| sv.contains(x) implies #[trigger] nv.contains(x) by {
            let k = choose|k: int| 0 <= k < sv.len() && sv[k] == x;
            if k < p {
                assert(nv[k] == x);
            } else {
                assert(nv[k + 1] == x);
            }
        }
        assert(nv[p as int] == name@);
        assert(nv.contains(name@));
    }
}

/// Builds the sorted, deduplicated set of a list of names.
pub fn sorted_name_set(names: &Vec<String>) -> (r: Vec<String>)
    ensures
        spec_sorted_unique(spec_names_view(r@)),
        forall|x: Seq<char>|
            #[trigger] spec_names_view(r@).contains(x) <==> spec_names_view(names@).contains(x),
{
    let n: usize = names.len();
    let mut out: Vec<String> = Vec::new();
    let mut k: usize = 0;
    while k < n
        invariant
            0 <= k <= n,
            n == names@.len(),
            spec_sorted_unique(spec_names_view(out@)),
            forall|x: Seq<char>|
                #[trigger] spec_names_view(out@).contains(x) <==> spec_names_view(
                    names@,
                ).take(k as int).contains(x),
        decreases n - k,
    {
        sorted_insert(&mut out, &names[k]);
        proof {
            let nv = spec_names_view(names@);
            assert(nv.take(k + 1).drop_last() =~= nv.take(k as int));
            assert(nv.take(k + 1).last() == nv[k as int]);
            assert forall|x: Seq<char>| #[trigger] nv.take(k + 1).contains(x) implies (nv.take(
                k as int,
            ).contains(x) || x == nv[k as int]) by {
                let t = choose|t: int|
                    0 <= t < nv.take(k + 1).len() && (#[trigger] nv.take(k + 1)[t]) == x;
                if t < k {
                    assert(nv.take(k as int)[t] == x);
                }
            }
            assert forall|x: Seq<char>| nv.take(k as int).contains(x) implies #[trigger] nv.take(
                k + 1,
            ).contains(x) by {
                let t = choose|t: int|
                    0 <= t < nv.take(k as int).len() && (#[trigger] nv.take(k as int)[t]) == x;
                assert(nv.take(k + 1)[t] == x);
            }
            assert(nv.take(k + 1).contains(nv[k as int]));
        }
        k = k + 1;
    }
    proof {
        assert(spec_names_view(names@).take(n as int) =~= spec_names_view(names@));
    }
    out
}

} // verus!
