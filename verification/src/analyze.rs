//! The corpus aggregator: per-language and per-theme capture indices built
//! once from the extension list, and the ranking and lookup queries over
//! them.
//!
//! The language index maps each `Language`-kind extension's id to the
//! capture names its highlight queries declare, deduplicated within that
//! language, in first-appearance order. The theme index maps each
//! `Theme`-kind extension's id to the sorted, deduplicated set of capture
//! names its successfully parsed theme families style.

use vstd::prelude::*;

verus! {

use crate::captures::{dedup_names, extract_capture_names, lemma_dedup_contains, spec_dedup,
    spec_extracted_captures, vec_contains_string};
use crate::order::{lemma_sorted_unique_canonical, sorted_name_set, spec_names_view,
    spec_sorted_unique};
use crate::query::{AnalysisQuery, SortOrder};
use crate::rank::{sort_entries, spec_entries_view, spec_sort_entries, spec_truncated,
    truncate_entries};
use crate::render::{count_or_list, render_entries, spec_decimal, spec_entry_lines,
    spec_join_lines};
use crate::types::{Extension, ExtensionType, Language, Theme, ThemeContent, ThemeExtension,
    LanguageExtension, ThemeFamilyContent};
use std::string::String;
use std::vec::Vec;

/// The mathematical shape of an index: each id as its character sequence,
/// with its list of capture names.
pub open spec fn spec_index_view(v: Seq<(String, Vec<String>)>) -> Seq<
    (Seq<char>, Seq<Seq<char>>),
> {
    v.map_values(|p: (String, Vec<String>)| (p.0@, spec_names_view(p.1@)))
}

/// The capture names one language definition contributes: what extraction
/// yields for its highlight query text, nothing when it has no such text or
/// the text does not parse.
pub open spec fn spec_language_captures(l: Language) -> Seq<Seq<char>> {
    match l.highlights_queries {
        Some(h) => match spec_extracted_captures(h@) {
            Some(names) => names,
            Option::None => Seq::empty(),
        },
        Option::None => Seq::empty(),
    }
}

/// The concatenated capture names of a language extension's definitions,
/// repeats and all.
pub open spec fn spec_language_raw_captures(langs: Seq<Language>) -> Seq<Seq<char>>
    decreases langs.len(),
{
    if langs.len() == 0 {
        Seq::empty()
    } else {
        spec_language_raw_captures(langs.drop_last()) + spec_language_captures(langs.last())
    }
}

/// The capture names styled by the themes of one parsed family.
pub open spec fn spec_family_captures(themes: Seq<ThemeContent>) -> Seq<Seq<char>>
    decreases themes.len(),
{
    if themes.len() == 0 {
        Seq::empty()
    } else {
        spec_family_captures(themes.drop_last()) + spec_names_view(
            themes.last().syntax_captures@,
        )
    }
}

/// The capture names one resolved theme file contributes: those of its
/// family when it parsed under either schema generation, none otherwise.
pub open spec fn spec_theme_captures(t: Theme) -> Seq<Seq<char>> {
    match t {
        Theme::V1(Some(f)) => spec_family_captures(f.themes@),
        Theme::V2(Some(f)) => spec_family_captures(f.themes@),
        _ => Seq::empty(),
    }
}

/// The concatenated capture names of a theme extension's files, repeats
/// and all.
pub open spec fn spec_theme_raw_captures(themes: Seq<Theme>) -> Seq<Seq<char>>
    decreases themes.len(),
{
    if themes.len() == 0 {
        Seq::empty()
    } else {
        spec_theme_raw_captures(themes.drop_last()) + spec_theme_captures(themes.last())
    }
}

/// The language index of a corpus: one entry per `Language`-kind extension,
/// in corpus order, with that language's deduplicated capture list.
pub open spec fn spec_language_index(exts: Seq<Extension>) -> Seq<(Seq<char>, Seq<Seq<char>>)>
    decreases exts.len(),
{
    if exts.len() == 0 {
        Seq::empty()
    } else {
        spec_language_index(exts.drop_last()) + match exts.last().kind {
            ExtensionType::Language(le) => seq![
                (exts.last().id@, spec_dedup(spec_language_raw_captures(le.languages@))),
            ],
            _ => Seq::empty(),
        }
    }
}

/// The theme index before set normalization: one entry per `Theme`-kind
/// extension, in corpus order, with the raw concatenation of its styled
/// capture names.
pub open spec fn spec_theme_raw_index(exts: Seq<Extension>) -> Seq<(Seq<char>, Seq<Seq<char>>)>
    decreases exts.len(),
{
    if exts.len() == 0 {
        Seq::empty()
    } else {
        spec_theme_raw_index(exts.drop_last()) + match exts.last().kind {
            ExtensionType::Theme(te) => seq![
                (exts.last().id@, spec_theme_raw_captures(te.themes@)),
            ],
            _ => Seq::empty(),
        }
    }
}

/// Appends every name of `names` to `acc`, in order.
fn append_names(acc: &mut Vec<String>, names: &Vec<String>)
    ensures
        spec_names_view(final(acc)@) == spec_names_view(old(acc)@) + spec_names_view(names@),
{
    let n: usize = names.len();
    let mut j: usize = 0;
    proof {
        assert(spec_names_view(names@).take(0) =~= Seq::<Seq<char>>::empty());
        assert(spec_names_view(acc@) =~= spec_names_view(old(acc)@) + spec_names_view(
            names@,
        ).take(0));
    }
    while j < n
        invariant
            0 <= j <= n,
            n == names@.len(),
            spec_names_view(acc@) == spec_names_view(old(acc)@) + spec_names_view(names@).take(
                j as int,
            ),
        decreases n - j,
    {
        let ghost prevv = acc@;
        acc.push(names[j].clone());
        proof {
            assert(spec_names_view(acc@) =~= spec_names_view(prevv).push(names@[j as int]@));
            assert(spec_names_view(names@).take(j + 1) =~= spec_names_view(names@).take(
                j as int,
            ).push(names@[j as int]@));
            assert(spec_names_view(acc@) =~= spec_names_view(old(acc)@) + spec_names_view(
                names@,
            ).take(j + 1));
        }
        j = j + 1;
    }
    proof {
        assert(spec_names_view(names@).take(n as int) =~= spec_names_view(names@));
    }
}

/// Collects the capture names a language extension's definitions declare,
/// repeats and all.
fn collect_language_captures(le: &LanguageExtension) -> (r: Vec<String>)
    ensures
        spec_names_view(r@) == spec_language_raw_captures(le.languages@),
{
    let n: usize = le.languages.len();
    let mut acc: Vec<String> = Vec::new();
    let mut k: usize = 0;
    proof {
        assert(le.languages@.take(0) =~= Seq::<Language>::empty());
        assert(spec_names_view(acc@) =~= spec_language_raw_captures(le.languages@.take(0)));
    }
    while k < n
        invariant
            0 <= k <= n,
            n == le.languages@.len(),
            spec_names_view(acc@) == spec_language_raw_captures(le.languages@.take(k as int)),
        decreases n - k,
    {
        proof {
            assert(le.languages@.take(k + 1).drop_last() =~= le.languages@.take(k as int));
            assert(le.languages@.take(k + 1).last() == le.languages@[k as int]);
        }
        match &le.languages[k].highlights_queries {
            Some(h) => {
                match extract_capture_names(h.as_str()) {
                    Some(names) => {
                        append_names(&mut acc, &names);
                    },
                    None => {
                        proof {
                            assert(spec_names_view(acc@) =~= spec_names_view(acc@)
                                + Seq::<Seq<char>>::empty());
                        }
                    },
                }
            },
            None => {
                proof {
                    assert(spec_names_view(acc@) =~= spec_names_view(acc@) + Seq::<
                        Seq<char>,
                    >::empty());
                }
            },
        }
        k = k + 1;
    }
    proof {
        assert(le.languages@.take(n as int) =~= le.languages@);
    }
    acc
}

/// Collects the capture names styled by one parsed theme family.
fn collect_family_captures(acc: &mut Vec<String>, f: &ThemeFamilyContent)
    ensures
        spec_names_view(final(acc)@) == spec_names_view(old(acc)@) + spec_family_captures(
            f.themes@,
        ),
{
    let n: usize = f.themes.len();
    let mut k: usize = 0;
    proof {
        assert(f.themes@.take(0) =~= Seq::<ThemeContent>::empty());
        assert(spec_names_view(acc@) =~= spec_names_view(old(acc)@) + spec_family_captures(
            f.themes@.take(0),
        ));
    }
    while k < n
        invariant
            0 <= k <= n,
            n == f.themes@.len(),
            spec_names_view(acc@) == spec_names_view(old(acc)@) + spec_family_captures(
                f.themes@.take(k as int),
            ),
        decreases n - k,
    {
        proof {
            assert(f.themes@.take(k + 1).drop_last() =~= f.themes@.take(k as int));
            assert(f.themes@.take(k + 1).last() == f.themes@[k as int]);
        }
        append_names(acc, &f.themes[k].syntax_captures);
        k = k + 1;
    }
    proof {
        assert(f.themes@.take(n as int) =~= f.themes@);
    }
}

/// Collects the capture names a theme extension's resolved files style,
/// repeats and all.
fn collect_theme_captures(te: &ThemeExtension) -> (r: Vec<String>)
    ensures
        spec_names_view(r@) == spec_theme_raw_captures(te.themes@),
{
    let n: usize = te.themes.len();
    let mut acc: Vec<String> = Vec::new();
    let mut k: usize = 0;
    proof {
        assert(te.themes@.take(0) =~= Seq::<Theme>::empty());
        assert(spec_names_view(acc@) =~= spec_theme_raw_captures(te.themes@.take(0)));
    }
    while k < n
        invariant
            0 <= k <= n,
            n == te.themes@.len(),
            spec_names_view(acc@) == spec_theme_raw_captures(te.themes@.take(k as int)),
        decreases n - k,
    {
        proof {
            assert(te.themes@.take(k + 1).drop_last() =~= te.themes@.take(k as int));
            assert(te.themes@.take(k + 1).last() == te.themes@[k as int]);
        }
        match &te.themes[k] {
            Theme::V1(Some(f)) => {
                collect_family_captures(&mut acc, f);
            },
            Theme::V2(Some(f)) => {
                collect_family_captures(&mut acc, f);
            },
            _ => {
                proof {
                    assert(spec_names_view(acc@) =~= spec_names_view(acc@) + Seq::<
                        Seq<char>,
                    >::empty());
                }
            },
        }
        k = k + 1;
    }
    proof {
        assert(te.themes@.take(n as int) =~= te.themes@);
    }
    acc
}

/// The aggregated corpus: the two capture indices, built once from the
/// extension list and immutable afterwards.
pub struct Corpus {
    pub captures_by_language: Vec<(String, Vec<String>)>,
    pub captures_by_theme: Vec<(String, Vec<String>)>,
}

impl Corpus {
    /// The language index's mathematical shape.
    pub open spec fn languages(&self) -> Seq<(Seq<char>, Seq<Seq<char>>)> {
        spec_index_view(self.captures_by_language@)
    }

    /// The theme index's mathematical shape.
    pub open spec fn themes(&self) -> Seq<(Seq<char>, Seq<Seq<char>>)> {
        spec_index_view(self.captures_by_theme@)
    }

    /// Builds the two indices from the extension list. The language index
    /// is pinned exactly; each theme entry is pinned to the sorted,
    /// deduplicated set of the raw capture names its extension styles.
    pub fn new(extensions: &Vec<Extension>) -> (r: Corpus)
        ensures
            r.languages() == spec_language_index(extensions@),
            r.themes().len() == spec_theme_raw_index(extensions@).len(),
            forall|k: int|
                0 <= k < r.themes().len() ==> (#[trigger] r.themes()[k]).0
                    == spec_theme_raw_index(extensions@)[k].0,
            forall|k: int|
                0 <= k < r.themes().len() ==> spec_sorted_unique((#[trigger] r.themes()[k]).1),
            forall|k: int, x: Seq<char>|
                0 <= k < r.themes().len() ==> (#[trigger] r.themes()[k].1.contains(x)
                    <==> spec_theme_raw_index(extensions@)[k].1.contains(x)),
    {
        let n: usize = extensions.len();
        let mut langs: Vec<(String, Vec<String>)> = Vec::new();
        let mut themes: Vec<(String, Vec<String>)> = Vec::new();
        let mut k: usize = 0;
        proof {
            assert(extensions@.take(0) =~= Seq::<Extension>::empty());
            assert(spec_index_view(langs@) =~= spec_language_index(extensions@.take(0)));
            assert(spec_index_view(themes@) =~= spec_theme_raw_index(extensions@.take(0)));
        }
        while k < n
            invariant
                0 <= k <= n,
                n == extensions@.len(),
                spec_index_view(langs@) == spec_language_index(extensions@.take(k as int)),
                spec_index_view(themes@).len() == spec_theme_raw_index(
                    extensions@.take(k as int),
                ).len(),
                forall|t: int|
                    0 <= t < spec_index_view(themes@).len() ==> (#[trigger] spec_index_view(
                        themes@,
                    )[t]).0 == spec_theme_raw_index(extensions@.take(k as int))[t].0,
                forall|t: int|
                    0 <= t < spec_index_view(themes@).len() ==> spec_sorted_unique(
                        (#[trigger] spec_index_view(themes@)[t]).1,
                    ),
                forall|t: int, x: Seq<char>|
                    0 <= t < spec_index_view(themes@).len() ==> (#[trigger] spec_index_view(
                        themes@,
                    )[t].1.contains(x) <==> spec_theme_raw_index(extensions@.take(k as int))[
                        t].1.contains(x)),
            decreases n - k,
        {
            proof {
                assert(extensions@.take(k + 1).drop_last() =~= extensions@.take(k as int));
                assert(extensions@.take(k + 1).last() == extensions@[k as int]);
            }
            let ghost prev_langs = spec_index_view(langs@);
            let ghost prev_themes = spec_index_view(themes@);
            match &extensions[k].kind {
                ExtensionType::Language(le) => {
                    let raw = collect_language_captures(le);
                    let deduped = dedup_names(&raw);
                    langs.push((extensions[k].id.clone(), deduped));
                    proof {
                        assert(spec_index_view(langs@) =~= prev_langs + seq![
                            (
                                extensions@[k as int].id@,
                                spec_dedup(spec_language_raw_captures(le.languages@)),
                            ),
                        ]);
                        assert(spec_index_view(themes@) =~= prev_themes);
                        assert(spec_theme_raw_index(extensions@.take(k + 1))
                            =~= spec_theme_raw_index(extensions@.take(k as int)));
                    }
                },
                ExtensionType::Theme(te) => {
                    let raw = collect_theme_captures(te);
                    let set = sorted_name_set(&raw);
                    themes.push((extensions[k].id.clone(), set));
                    proof {
                        assert(spec_index_view(langs@) =~= prev_langs);
                        assert(spec_language_index(extensions@.take(k + 1))
                            =~= spec_language_index(extensions@.take(k as int)));
                        assert(spec_index_view(themes@) =~= prev_themes.push(
                            (extensions@[k as int].id@, spec_names_view(set@)),
                        ));
                        assert(spec_theme_raw_index(extensions@.take(k + 1))
                            =~= spec_theme_raw_index(extensions@.take(k as int)).push(
                            (extensions@[k as int].id@, spec_theme_raw_captures(te.themes@)),
                        ));
                    }
                },
                _ => {
                    proof {
                        assert(spec_language_index(extensions@.take(k + 1))
                            =~= spec_language_index(extensions@.take(k as int)));
                        assert(spec_theme_raw_index(extensions@.take(k + 1))
                            =~= spec_theme_raw_index(extensions@.take(k as int)));
                    }
                },
            }
            k = k + 1;
        }
        proof {
            assert(extensions@.take(n as int) =~= extensions@);
        }
        Corpus { captures_by_language: langs, captures_by_theme: themes }
    }
}

/// The theme index is pinned by its contract: any two indices that carry
/// the raw index's ids in order, with each entry's set sorted, repeat-free
/// and holding exactly the raw entry's names, are the same index.
pub proof fn lemma_theme_index_determined(
    a: Seq<(Seq<char>, Seq<Seq<char>>)>,
    b: Seq<(Seq<char>, Seq<Seq<char>>)>,
    raw: Seq<(Seq<char>, Seq<Seq<char>>)>,
)
    requires
        a.len() == raw.len(),
        b.len() == raw.len(),
        forall|k: int| 0 <= k < a.len() ==> (#[trigger] a[k]).0 == raw[k].0,
        forall|k: int| 0 <= k < b.len() ==> (#[trigger] b[k]).0 == raw[k].0,
        forall|k: int| 0 <= k < a.len() ==> spec_sorted_unique((#[trigger] a[k]).1),
        forall|k: int| 0 <= k < b.len() ==> spec_sorted_unique((#[trigger] b[k]).1),
        forall|k: int, x: Seq<char>|
            0 <= k < a.len() ==> (#[trigger] a[k].1.contains(x) <==> raw[k].1.contains(x)),
        forall|k: int, x: Seq<char>|
            0 <= k < b.len() ==> (#[trigger] b[k].1.contains(x) <==> raw[k].1.contains(x)),
    ensures
        a == b,
{
    assert forall|k: int| 0 <= k < a.len() implies #[trigger] a[k] == b[k] by {
        assert forall|x: Seq<char>| #[trigger] a[k].1.contains(x) <==> b[k].1.contains(x) by {
            assert(a[k].1.contains(x) <==> raw[k].1.contains(x));
            assert(b[k].1.contains(x) <==> raw[k].1.contains(x));
        }
        lemma_sorted_unique_canonical(a[k].1, b[k].1);
        assert(a[k].0 == b[k].0);
    }
    assert(a =~= b);
}

/// How many index entries hold the capture `c`.
pub open spec fn spec_count_containing(index: Seq<(Seq<char>, Seq<Seq<char>>)>, c: Seq<char>) -> nat
    decreases index.len(),
{
    if index.len() == 0 {
        0
    } else {
        spec_count_containing(index.drop_last(), c) + if index.last().1.contains(c) {
            1nat
        } else {
            0nat
        }
    }
}

/// A containment count never exceeds the index's length.
pub proof fn lemma_count_containing_bound(index: Seq<(Seq<char>, Seq<Seq<char>>)>, c: Seq<char>)
    ensures
        spec_count_containing(index, c) <= index.len(),
    decreases index.len(),
{
    if index.len() != 0 {
        lemma_count_containing_bound(index.drop_last(), c);
    }
}

/// Counting sees only membership: two indices of equal length whose entries
/// hold the capture alike count it alike. In particular, a language whose
/// query text repeats a capture contributes exactly once, since membership
/// in its list ignores the repeats.
pub proof fn lemma_count_containing_membership(
    a: Seq<(Seq<char>, Seq<Seq<char>>)>,
    b: Seq<(Seq<char>, Seq<Seq<char>>)>,
    c: Seq<char>,
)
    requires
        a.len() == b.len(),
        forall|k: int| 0 <= k < a.len() ==> ((#[trigger] a[k].1.contains(c)) <==> b[k].1.contains(c)),
    ensures
        spec_count_containing(a, c) == spec_count_containing(b, c),
    decreases a.len(),
{
    if a.len() != 0 {
        assert(a.drop_last().len() == b.drop_last().len());
        assert forall|k: int| 0 <= k < a.drop_last().len() implies ((#[trigger] a.drop_last()[
            k].1.contains(c)) <==> b.drop_last()[k].1.contains(c)) by {
            assert(a.drop_last()[k] == a[k]);
            assert(b.drop_last()[k] == b[k]);
        }
        lemma_count_containing_membership(a.drop_last(), b.drop_last(), c);
        assert(a.last() == a[a.len() - 1] && b.last() == b[b.len() - 1]);
    }
}

/// Usage counting ignores repeats: a capture's count is the same over the
/// deduplicated language index and over the raw capture lists it was built
/// from, so how often a language's query text repeats a capture never
/// changes the capture's usage count.
pub proof fn lemma_usage_counts_ignore_repeats(
    dedup_index: Seq<(Seq<char>, Seq<Seq<char>>)>,
    raw_index: Seq<(Seq<char>, Seq<Seq<char>>)>,
    c: Seq<char>,
)
    requires
        dedup_index.len() == raw_index.len(),
        forall|k: int|
            0 <= k < raw_index.len() ==> (#[trigger] dedup_index[k].1) == spec_dedup(
                raw_index[k].1,
            ),
    ensures
        spec_count_containing(dedup_index, c) == spec_count_containing(raw_index, c),
{
    assert forall|k: int| 0 <= k < dedup_index.len() implies ((#[trigger] dedup_index[
        k].1.contains(c)) <==> raw_index[k].1.contains(c)) by {
        lemma_dedup_contains(raw_index[k].1);
    }
    lemma_count_containing_membership(dedup_index, raw_index, c);
}

/// A language with no captures is never scored by division: its score is
/// defined to be zero outright.
pub proof fn lemma_empty_capture_score(
    themes: Seq<(Seq<char>, Seq<Seq<char>>)>,
    caps: Seq<Seq<char>>,
)
    requires
        caps.len() == 0,
    ensures
        spec_score(themes, caps) == 0,
{
}

/// How many index entries hold the capture named by `name`.
fn count_containing(index: &Vec<(String, Vec<String>)>, name: &String) -> (r: usize)
    ensures
        r == spec_count_containing(spec_index_view(index@), name@),
{
    let ghost iv = spec_index_view(index@);
    let n: usize = index.len();
    let mut cnt: usize = 0;
    let mut k: usize = 0;
    proof {
        assert(iv.take(0) =~= Seq::<(Seq<char>, Seq<Seq<char>>)>::empty());
    }
    while k < n
        invariant
            0 <= k <= n,
            n == index@.len(),
            iv == spec_index_view(index@),
            cnt <= k,
            cnt == spec_count_containing(iv.take(k as int), name@),
        decreases n - k,
    {
        proof {
            assert(iv.take(k + 1).drop_last() =~= iv.take(k as int));
            assert(iv.take(k + 1).last() == iv[k as int]);
            assert(iv[k as int].1 == spec_names_view(index@[k as int].1@));
        }
        if vec_contains_string(&index[k].1, name) {
            cnt = cnt + 1;
        }
        k = k + 1;
    }
    proof {
        assert(iv.take(n as int) =~= iv);
    }
    cnt
}

/// The concatenation of every entry's capture list, in index order.
pub open spec fn spec_all_captures(index: Seq<(Seq<char>, Seq<Seq<char>>)>) -> Seq<Seq<char>>
    decreases index.len(),
{
    if index.len() == 0 {
        Seq::empty()
    } else {
        spec_all_captures(index.drop_last()) + index.last().1
    }
}

/// Collects every capture name of an index, repeats and all.
fn collect_all_captures(index: &Vec<(String, Vec<String>)>) -> (r: Vec<String>)
    ensures
        spec_names_view(r@) == spec_all_captures(spec_index_view(index@)),
{
    let ghost iv = spec_index_view(index@);
    let n: usize = index.len();
    let mut acc: Vec<String> = Vec::new();
    let mut k: usize = 0;
    proof {
        assert(iv.take(0) =~= Seq::<(Seq<char>, Seq<Seq<char>>)>::empty());
        assert(spec_names_view(acc@) =~= spec_all_captures(iv.take(0)));
    }
    while k < n
        invariant
            0 <= k <= n,
            n == index@.len(),
            iv == spec_index_view(index@),
            spec_names_view(acc@) == spec_all_captures(iv.take(k as int)),
        decreases n - k,
    {
        proof {
            assert(iv.take(k + 1).drop_last() =~= iv.take(k as int));
            assert(iv.take(k + 1).last() == iv[k as int]);
            assert(iv[k as int].1 == spec_names_view(index@[k as int].1@));
        }
        append_names(&mut acc, &index[k].1);
        k = k + 1;
    }
    proof {
        assert(iv.take(n as int) =~= iv);
    }
    acc
}

/// The count entries of a name list over an index: each name with the
/// number of entries holding it.
pub open spec fn spec_count_entries(
    index: Seq<(Seq<char>, Seq<Seq<char>>)>,
    names: Seq<Seq<char>>,
) -> Seq<(Seq<char>, usize)> {
    names.map_values(|c: Seq<char>| (c, spec_count_containing(index, c) as usize))
}

/// Builds the count entries of a name list over an index.
fn make_count_entries(index: &Vec<(String, Vec<String>)>, names: &Vec<String>) -> (r: Vec<
    (String, usize),
>)
    ensures
        spec_entries_view(r@) == spec_count_entries(
            spec_index_view(index@),
            spec_names_view(names@),
        ),
{
    let ghost iv = spec_index_view(index@);
    let ghost nv = spec_names_view(names@);
    let n: usize = names.len();
    let mut out: Vec<(String, usize)> = Vec::new();
    let mut i: usize = 0;
    while i < n
        invariant
            0 <= i <= n,
            n == names@.len(),
            iv == spec_index_view(index@),
            nv == spec_names_view(names@),
            out@.len() == i,
            forall|j: int|
                0 <= j < i ==> ((#[trigger] out@[j]).0@ == nv[j] && out@[j].1
                    == spec_count_containing(iv, nv[j])),
        decreases n - i,
    {
        let cnt = count_containing(index, &names[i]);
        proof {
            assert(nv[i as int] == names@[i as int]@);
        }
        out.push((names[i].clone(), cnt));
        i = i + 1;
    }
    proof {
        assert(spec_entries_view(out@) =~= spec_count_entries(iv, nv));
    }
    out
}

/// The ids of the index entries holding the capture `c`, in index order.
pub open spec fn spec_ids_containing(
    index: Seq<(Seq<char>, Seq<Seq<char>>)>,
    c: Seq<char>,
) -> Seq<Seq<char>>
    decreases index.len(),
{
    if index.len() == 0 {
        Seq::empty()
    } else {
        spec_ids_containing(index.drop_last(), c) + if index.last().1.contains(c) {
            seq![index.last().0]
        } else {
            Seq::empty()
        }
    }
}

/// The ids of the index entries holding the capture named by `name`.
fn ids_containing(index: &Vec<(String, Vec<String>)>, name: &String) -> (r: Vec<String>)
    ensures
        spec_names_view(r@) == spec_ids_containing(spec_index_view(index@), name@),
{
    let ghost iv = spec_index_view(index@);
    let n: usize = index.len();
    let mut out: Vec<String> = Vec::new();
    let mut k: usize = 0;
    proof {
        assert(iv.take(0) =~= Seq::<(Seq<char>, Seq<Seq<char>>)>::empty());
        assert(spec_names_view(out@) =~= spec_ids_containing(iv.take(0), name@));
    }
    while k < n
        invariant
            0 <= k <= n,
            n == index@.len(),
            iv == spec_index_view(index@),
            spec_names_view(out@) == spec_ids_containing(iv.take(k as int), name@),
        decreases n - k,
    {
        let ghost prevv = out@;
        proof {
            assert(iv.take(k + 1).drop_last() =~= iv.take(k as int));
            assert(iv.take(k + 1).last() == iv[k as int]);
            assert(iv[k as int].1 == spec_names_view(index@[k as int].1@));
            assert(iv[k as int].0 == index@[k as int].0@);
        }
        if vec_contains_string(&index[k].1, name) {
            out.push(index[k].0.clone());
            proof {
                assert(spec_names_view(out@) =~= spec_names_view(prevv).push(
                    index@[k as int].0@,
                ));
                assert(spec_names_view(out@) =~= spec_ids_containing(iv.take(k + 1), name@));
            }
        } else {
            proof {
                assert(spec_names_view(out@) =~= spec_ids_containing(iv.take(k + 1), name@));
            }
        }
        k = k + 1;
    }
    proof {
        assert(iv.take(n as int) =~= iv);
    }
    out
}

/// Whether a support set holds any of the given captures.
pub open spec fn spec_intersects(set: Seq<Seq<char>>, caps: Seq<Seq<char>>) -> bool {
    exists|i: int| 0 <= i < caps.len() && set.contains(#[trigger] caps[i])
}

/// How many index entries hold at least one of the given captures.
pub open spec fn spec_breadth(
    themes: Seq<(Seq<char>, Seq<Seq<char>>)>,
    caps: Seq<Seq<char>>,
) -> nat
    decreases themes.len(),
{
    if themes.len() == 0 {
        0
    } else {
        spec_breadth(themes.drop_last(), caps) + if spec_intersects(themes.last().1, caps) {
            1nat
        } else {
            0nat
        }
    }
}

/// The summed support of a capture list: for each capture, the number of
/// index entries holding it.
pub open spec fn spec_depth(themes: Seq<(Seq<char>, Seq<Seq<char>>)>, caps: Seq<Seq<char>>) -> nat
    decreases caps.len(),
{
    if caps.len() == 0 {
        0
    } else {
        spec_depth(themes, caps.drop_last()) + spec_count_containing(themes, caps.last())
    }
}

/// The theme-support score of a language with capture set `caps`: zero for
/// an empty set (the guarded case), else seven times the summed support,
/// divided — truncating — by the number of captures, plus three times the
/// number of themes supporting at least one capture. The integer-division
/// variant of the formula is the one this library implements.
pub open spec fn spec_score(themes: Seq<(Seq<char>, Seq<Seq<char>>)>, caps: Seq<Seq<char>>) -> nat {
    if caps.len() == 0 {
        0
    } else {
        (((7 * spec_depth(themes, caps)) as int / (caps.len() as int)) + 3 * (spec_breadth(
            themes,
            caps,
        ) as int)) as nat
    }
}

/// The summed support never exceeds captures times entries.
proof fn lemma_depth_bound(themes: Seq<(Seq<char>, Seq<Seq<char>>)>, caps: Seq<Seq<char>>)
    ensures
        spec_depth(themes, caps) <= caps.len() * themes.len(),
    decreases caps.len(),
{
    if caps.len() != 0 {
        lemma_depth_bound(themes, caps.drop_last());
        lemma_count_containing_bound(themes, caps.last());
        assert((caps.len() - 1) * themes.len() + themes.len() == caps.len() * themes.len())
            by (nonlinear_arith);
    }
}

/// The breadth never exceeds the number of entries.
proof fn lemma_breadth_bound(themes: Seq<(Seq<char>, Seq<Seq<char>>)>, caps: Seq<Seq<char>>)
    ensures
        spec_breadth(themes, caps) <= themes.len(),
    decreases themes.len(),
{
    if themes.len() != 0 {
        lemma_breadth_bound(themes.drop_last(), caps);
    }
}

/// Whether the support set holds any of the given captures.
fn lists_intersect(set: &Vec<String>, caps: &Vec<String>) -> (r: bool)
    ensures
        r == spec_intersects(spec_names_view(set@), spec_names_view(caps@)),
{
    let ghost sv = spec_names_view(set@);
    let ghost cv = spec_names_view(caps@);
    let n: usize = caps.len();
    let mut j: usize = 0;
    while j < n
        invariant
            0 <= j <= n,
            n == caps@.len(),
            sv == spec_names_view(set@),
            cv == spec_names_view(caps@),
            forall|t: int| 0 <= t < j ==> !sv.contains(#[trigger] cv[t]),
        decreases n - j,
    {
        if vec_contains_string(set, &caps[j]) {
            proof {
                assert(sv.contains(cv[j as int]));
            }
            return true;
        }
        j = j + 1;
    }
    false
}

/// How many index entries hold at least one of the given captures.
fn count_intersecting(themes: &Vec<(String, Vec<String>)>, caps: &Vec<String>) -> (r: usize)
    ensures
        r == spec_breadth(spec_index_view(themes@), spec_names_view(caps@)),
{
    let ghost tv = spec_index_view(themes@);
    let n: usize = themes.len();
    let mut cnt: usize = 0;
    let mut k: usize = 0;
    proof {
        assert(tv.take(0) =~= Seq::<(Seq<char>, Seq<Seq<char>>)>::empty());
    }
    while k < n
        invariant
            0 <= k <= n,
            n == themes@.len(),
            tv == spec_index_view(themes@),
            cnt <= k,
            cnt == spec_breadth(tv.take(k as int), spec_names_view(caps@)),
        decreases n - k,
    {
        proof {
            assert(tv.take(k + 1).drop_last() =~= tv.take(k as int));
            assert(tv.take(k + 1).last() == tv[k as int]);
            assert(tv[k as int].1 == spec_names_view(themes@[k as int].1@));
        }
        if lists_intersect(&themes[k].1, caps) {
            cnt = cnt + 1;
        }
        k = k + 1;
    }
    proof {
        assert(tv.take(n as int) =~= tv);
    }
    cnt
}

/// The theme-support score of one language's capture list.
fn language_score(themes: &Vec<(String, Vec<String>)>, caps: &Vec<String>) -> (r: usize)
    requires
        themes@.len() <= usize::MAX / 10,
    ensures
        r == spec_score(spec_index_view(themes@), spec_names_view(caps@)),
{
    let ghost tv = spec_index_view(themes@);
    let ghost cv = spec_names_view(caps@);
    let cl: usize = caps.len();
    if cl == 0 {
        return 0;
    }
    let tlen: usize = themes.len();
    let mut depth: u128 = 0;
    let mut j: usize = 0;
    proof {
        assert(cv.take(0) =~= Seq::<Seq<char>>::empty());
    }
    while j < cl
        invariant
            0 < cl,
            0 <= j <= cl,
            cl == caps@.len(),
            tv == spec_index_view(themes@),
            cv == spec_names_view(caps@),
            tlen == tv.len(),
            tlen <= usize::MAX / 10,
            depth == spec_depth(tv, cv.take(j as int)),
            depth <= (j as int) * (tlen as int),
        decreases cl - j,
    {
        let c: usize = count_containing(themes, &caps[j]);
        proof {
            lemma_count_containing_bound(tv, cv[j as int]);
            assert(cv.take(j + 1).drop_last() =~= cv.take(j as int));
            assert(cv.take(j + 1).last() == cv[j as int]);
            assert((j as int) * (tlen as int) + tlen == (j + 1) * (tlen as int))
                by (nonlinear_arith);
            assert((j + 1) * (tlen as int) <= (usize::MAX as int) * (usize::MAX as int / 10))
                by (nonlinear_arith)
                requires
                    0 <= j,
                    j + 1 <= usize::MAX as int,
                    0 <= tlen <= usize::MAX as int / 10,
            ;
            assert((usize::MAX as int) * (usize::MAX as int / 10) < u128::MAX)
                by (nonlinear_arith)
                requires
                    usize::MAX as int <= 0xffff_ffff_ffff_ffff,
            ;
        }
        depth = depth + (c as u128);
        j = j + 1;
    }
    proof {
        assert(cv.take(cl as int) =~= cv);
        lemma_depth_bound(tv, cv);
        assert((cl as int) * (tlen as int) <= (usize::MAX as int) * (usize::MAX as int / 10))
            by (nonlinear_arith)
            requires
                0 < cl <= usize::MAX as int,
                0 <= tlen <= usize::MAX as int / 10,
        ;
        assert(7 * ((usize::MAX as int) * (usize::MAX as int / 10)) < u128::MAX)
            by (nonlinear_arith)
            requires
                usize::MAX as int <= 0xffff_ffff_ffff_ffff,
        ;
    }
    let scaled: u128 = 7 * depth;
    let q: u128 = scaled / (cl as u128);
    proof {
        assert(7 * (depth as int) <= 7 * ((cl as int) * (tlen as int))) by (nonlinear_arith)
            requires
                0 <= depth as int <= (cl as int) * (tlen as int),
        ;
        assert(7 * ((cl as int) * (tlen as int)) == (7 * (tlen as int)) * (cl as int))
            by (nonlinear_arith);
        vstd::arithmetic::div_mod::lemma_div_is_ordered(
            scaled as int,
            (7 * (tlen as int)) * (cl as int),
            cl as int,
        );
        vstd::arithmetic::div_mod::lemma_div_by_multiple(7 * (tlen as int), cl as int);
        assert(q <= 7 * (tlen as int));
    }
    let breadth: usize = count_intersecting(themes, caps);
    proof {
        lemma_breadth_bound(tv, cv);
    }
    let qs: usize = q as usize;
    let r: usize = qs + 3 * breadth;
    proof {
        assert(r == spec_score(tv, cv));
    }
    r
}

/// How many of a support set's names are used: appear in the given list.
pub open spec fn spec_used_count(set: Seq<Seq<char>>, used: Seq<Seq<char>>) -> nat
    decreases set.len(),
{
    if set.len() == 0 {
        0
    } else {
        spec_used_count(set.drop_last(), used) + if used.contains(set.last()) {
            1nat
        } else {
            0nat
        }
    }
}

/// How many of a support set's names appear in the `used` list.
fn count_used(set: &Vec<String>, used: &Vec<String>) -> (r: usize)
    ensures
        r == spec_used_count(spec_names_view(set@), spec_names_view(used@)),
{
    let ghost sv = spec_names_view(set@);
    let n: usize = set.len();
    let mut cnt: usize = 0;
    let mut k: usize = 0;
    proof {
        assert(sv.take(0) =~= Seq::<Seq<char>>::empty());
    }
    while k < n
        invariant
            0 <= k <= n,
            n == set@.len(),
            sv == spec_names_view(set@),
            cnt <= k,
            cnt == spec_used_count(sv.take(k as int), spec_names_view(used@)),
        decreases n - k,
    {
        proof {
            assert(sv.take(k + 1).drop_last() =~= sv.take(k as int));
            assert(sv.take(k + 1).last() == sv[k as int]);
        }
        if vec_contains_string(used, &set[k]) {
            cnt = cnt + 1;
        }
        k = k + 1;
    }
    proof {
        assert(sv.take(n as int) =~= sv);
    }
    cnt
}

impl Corpus {
    /// The usage ranking's entries, unsorted: each capture any language
    /// uses, first appearance first, with the number of distinct languages
    /// whose list holds it.
    pub open spec fn spec_usage_entries(&self) -> Seq<(Seq<char>, usize)> {
        spec_count_entries(self.languages(), spec_dedup(spec_all_captures(self.languages())))
    }

    /// The theme-support ranking's entries, unsorted: each capture any
    /// theme supports, with the number of themes whose set holds it.
    pub open spec fn spec_theme_support_entries(&self) -> Seq<(Seq<char>, usize)> {
        spec_count_entries(self.themes(), spec_dedup(spec_all_captures(self.themes())))
    }

    /// The language score ranking's entries, unsorted: each language with
    /// its theme-support score.
    pub open spec fn spec_language_score_entries(&self) -> Seq<(Seq<char>, usize)> {
        self.languages().map_values(
            |p: (Seq<char>, Seq<Seq<char>>)| (p.0, spec_score(self.themes(), p.1) as usize),
        )
    }

    /// The used-capture-support ranking's entries, unsorted: each theme
    /// with how many of its supported captures any language uses.
    pub open spec fn spec_theme_used_entries(&self) -> Seq<(Seq<char>, usize)> {
        self.themes().map_values(
            |p: (Seq<char>, Seq<Seq<char>>)| (
                p.0,
                spec_used_count(p.1, spec_all_captures(self.languages())) as usize,
            ),
        )
    }

    /// Ranks captures by how many distinct languages use them, sorted in
    /// the requested direction and truncated to `limit` (0 keeps all).
    pub fn captures_by_usage(&self, order: &SortOrder, limit: usize) -> (r: Vec<(String, usize)>)
        ensures
            spec_entries_view(r@) == spec_truncated(
                spec_sort_entries(self.spec_usage_entries(), order.spec_is_ascending()),
                limit,
            ),
    {
        let all = collect_all_captures(&self.captures_by_language);
        let uniq = dedup_names(&all);
        let entries = make_count_entries(&self.captures_by_language, &uniq);
        let mut sorted = sort_entries(entries, order.is_ascending());
        truncate_entries(&mut sorted, limit);
        sorted
    }

    /// Ranks captures by how many themes support them, sorted in the
    /// requested direction and truncated to `limit` (0 keeps all).
    pub fn captures_by_theme_support(&self, order: &SortOrder, limit: usize) -> (r: Vec<
        (String, usize),
    >)
        ensures
            spec_entries_view(r@) == spec_truncated(
                spec_sort_entries(self.spec_theme_support_entries(), order.spec_is_ascending()),
                limit,
            ),
    {
        let all = collect_all_captures(&self.captures_by_theme);
        let uniq = dedup_names(&all);
        let entries = make_count_entries(&self.captures_by_theme, &uniq);
        let mut sorted = sort_entries(entries, order.is_ascending());
        truncate_entries(&mut sorted, limit);
        sorted
    }

    /// The ids of the themes whose support set holds the capture, in index
    /// order.
    pub fn themes_supporting_capture(&self, capture: &String) -> (r: Vec<String>)
        ensures
            spec_names_view(r@) == spec_ids_containing(self.themes(), capture@),
    {
        ids_containing(&self.captures_by_theme, capture)
    }

    /// The ids of the languages whose capture list holds the capture, in
    /// index order.
    pub fn languages_using_capture(&self, capture: &String) -> (r: Vec<String>)
        ensures
            spec_names_view(r@) == spec_ids_containing(self.languages(), capture@),
    {
        ids_containing(&self.captures_by_language, capture)
    }

    /// Ranks languages by their theme-support score, sorted in the
    /// requested direction and truncated to `limit` (0 keeps all). The
    /// bound on the theme count is what lets every score fit a machine
    /// word.
    pub fn languages_by_theme_support(&self, order: &SortOrder, limit: usize) -> (r: Vec<
        (String, usize),
    >)
        requires
            self.themes().len() <= usize::MAX / 10,
        ensures
            spec_entries_view(r@) == spec_truncated(
                spec_sort_entries(self.spec_language_score_entries(), order.spec_is_ascending()),
                limit,
            ),
    {
        let n: usize = self.captures_by_language.len();
        let mut entries: Vec<(String, usize)> = Vec::new();
        let mut k: usize = 0;
        while k < n
            invariant
                0 <= k <= n,
                n == self.captures_by_language@.len(),
                self.themes().len() <= usize::MAX / 10,
                entries@.len() == k,
                forall|j: int|
                    0 <= j < k ==> ((#[trigger] entries@[j]).0@ == self.languages()[j].0
                        && entries@[j].1 == spec_score(self.themes(), self.languages()[j].1)),
            decreases n - k,
        {
            proof {
                assert(self.languages()[k as int] == (
                    self.captures_by_language@[k as int].0@,
                    spec_names_view(self.captures_by_language@[k as int].1@),
                ));
            }
            let s = language_score(&self.captures_by_theme, &self.captures_by_language[k].1);
            entries.push((self.captures_by_language[k].0.clone(), s));
            k = k + 1;
        }
        proof {
            assert(spec_entries_view(entries@) =~= self.spec_language_score_entries());
        }
        let mut sorted = sort_entries(entries, order.is_ascending());
        truncate_entries(&mut sorted, limit);
        sorted
    }

    /// Ranks themes by how many of their supported captures any language
    /// uses, sorted in the requested direction and truncated to `limit`
    /// (0 keeps all).
    pub fn themes_by_capture_support(&self, order: &SortOrder, limit: usize) -> (r: Vec<
        (String, usize),
    >)
        ensures
            spec_entries_view(r@) == spec_truncated(
                spec_sort_entries(self.spec_theme_used_entries(), order.spec_is_ascending()),
                limit,
            ),
    {
        let used = collect_all_captures(&self.captures_by_language);
        let n: usize = self.captures_by_theme.len();
        let mut entries: Vec<(String, usize)> = Vec::new();
        let mut k: usize = 0;
        while k < n
            invariant
                0 <= k <= n,
                n == self.captures_by_theme@.len(),
                spec_names_view(used@) == spec_all_captures(self.languages()),
                entries@.len() == k,
                forall|j: int|
                    0 <= j < k ==> ((#[trigger] entries@[j]).0@ == self.themes()[j].0
                        && entries@[j].1 == spec_used_count(
                        self.themes()[j].1,
                        spec_all_captures(self.languages()),
                    )),
            decreases n - k,
        {
            proof {
                assert(self.themes()[k as int] == (
                    self.captures_by_theme@[k as int].0@,
                    spec_names_view(self.captures_by_theme@[k as int].1@),
                ));
            }
            let cnt = count_used(&self.captures_by_theme[k].1, &used);
            entries.push((self.captures_by_theme[k].0.clone(), cnt));
            k = k + 1;
        }
        proof {
            assert(spec_entries_view(entries@) =~= self.spec_theme_used_entries());
        }
        let mut sorted = sort_entries(entries, order.is_ascending());
        truncate_entries(&mut sorted, limit);
        sorted
    }

    /// The text an analysis query answers with: ranking queries render one
    /// `name: count` line per entry; the two lookup queries list ids, or
    /// their number when a count is asked for.
    pub open spec fn spec_query_output(&self, q: AnalysisQuery) -> Seq<char> {
        match q {
            AnalysisQuery::CapturesByUsage { order, limit } => spec_join_lines(
                spec_entry_lines(
                    spec_truncated(
                        spec_sort_entries(self.spec_usage_entries(), order.spec_is_ascending()),
                        limit,
                    ),
                ),
            ),
            AnalysisQuery::CapturesByThemeSupport { order, limit } => spec_join_lines(
                spec_entry_lines(
                    spec_truncated(
                        spec_sort_entries(
                            self.spec_theme_support_entries(),
                            order.spec_is_ascending(),
                        ),
                        limit,
                    ),
                ),
            ),
            AnalysisQuery::ThemesSupportingCapture { capture, count } => if count {
                spec_decimal(spec_ids_containing(self.themes(), capture@).len())
            } else {
                spec_join_lines(spec_ids_containing(self.themes(), capture@))
            },
            AnalysisQuery::LanguagesUsingCapture { capture, count } => if count {
                spec_decimal(spec_ids_containing(self.languages(), capture@).len())
            } else {
                spec_join_lines(spec_ids_containing(self.languages(), capture@))
            },
            AnalysisQuery::LanguagesByThemeSupport { order, limit } => spec_join_lines(
                spec_entry_lines(
                    spec_truncated(
                        spec_sort_entries(
                            self.spec_language_score_entries(),
                            order.spec_is_ascending(),
                        ),
                        limit,
                    ),
                ),
            ),
            AnalysisQuery::ThemesByCaptureSupport { order, limit } => spec_join_lines(
                spec_entry_lines(
                    spec_truncated(
                        spec_sort_entries(
                            self.spec_theme_used_entries(),
                            order.spec_is_ascending(),
                        ),
                        limit,
                    ),
                ),
            ),
        }
    }

    /// Answers one analysis query as rendered text. The bound on the theme
    /// count is what lets every score fit a machine word.
    pub fn handle_query(&self, query: &AnalysisQuery) -> (r: String)
        requires
            self.themes().len() <= usize::MAX / 10,
        ensures
            r@ == self.spec_query_output(*query),
    {
        match query {
            AnalysisQuery::CapturesByUsage { order, limit } => {
                let entries = self.captures_by_usage(order, *limit);
                render_entries(&entries)
            },
            AnalysisQuery::CapturesByThemeSupport { order, limit } => {
                let entries = self.captures_by_theme_support(order, *limit);
                render_entries(&entries)
            },
            AnalysisQuery::ThemesSupportingCapture { capture, count } => {
                let ids = self.themes_supporting_capture(capture);
                count_or_list(ids, *count)
            },
            AnalysisQuery::LanguagesUsingCapture { capture, count } => {
                let ids = self.languages_using_capture(capture);
                count_or_list(ids, *count)
            },
            AnalysisQuery::LanguagesByThemeSupport { order, limit } => {
                let entries = self.languages_by_theme_support(order, *limit);
                render_entries(&entries)
            },
            AnalysisQuery::ThemesByCaptureSupport { order, limit } => {
                let entries = self.themes_by_capture_support(order, *limit);
                render_entries(&entries)
            },
        }
    }
}

} // verus!
