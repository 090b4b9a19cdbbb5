//! Capture extraction from highlight query text.
//!
//! A language's highlight query declares capture names with `@name` syntax.
//! The query text is itself parsed with the query-language grammar, and every
//! capture identifier in it is collected, in text order. Names that begin
//! with an underscore are private by convention and are excluded. Text that
//! does not parse yields no captures.

use vstd::prelude::*;

verus! {

use crate::json::str_eq;
use std::string::String;
use std::vec::Vec;
use vstd::string::StrSliceExecFns;

/// What the query parser captures in `text` when the query pattern `pattern`
/// is run over it: the captured node texts in match order, or `None` when
/// the machinery fails on this input. A deterministic function of the two
/// texts alone.
pub uninterp spec fn raw_captures_of(pattern: Seq<char>, text: Seq<char>) -> Option<
    Seq<Seq<char>>,
>;

/// Relies on tree-sitter's `Parser::parse`, `Query::new` and
/// `QueryCursor::captures`, with the query-language grammar from
/// `tree_sitter_query::language`: parsing is deterministic, so the captured
/// node texts are a function of the pattern and the text alone.
#[verifier::external_body]
fn ts_query_captures(pattern: &str, text: &str) -> (r: Option<Vec<String>>)
    ensures
        match r {
            Some(names) => raw_captures_of(pattern@, text@) == Some(
                names@.map_values(|s: String| s@),
            ),
            None => raw_captures_of(pattern@, text@) is None,
        },
{
    let mut parser = tree_sitter::Parser::new();
    parser.set_language(tree_sitter_query::language()).ok()?;
    let query = tree_sitter::Query::new(tree_sitter_query::language(), pattern).ok()?;
    let tree = parser.parse(text, None)?;
    let mut cursor = tree_sitter::QueryCursor::new();
    let bytes = text.as_bytes();
    let mut out: Vec<String> = Vec::new();
    for (m, _) in cursor.captures(&query, tree.root_node(), bytes) {
        for c in m.captures {
            out.push(c.node.utf8_text(bytes).ok()?.to_string());
        }
    }
    Some(out)
}

/// The fixed pattern that picks every capture's identifier out of a parsed
/// query text.
pub open spec fn capture_pattern() -> Seq<char> {
    "(capture (identifier) @name)"@
}

/// A capture name is private when it begins with an underscore.
pub open spec fn spec_is_private(name: Seq<char>) -> bool {
    name.len() > 0 && name[0] == '_'
}

/// The capture names extraction owes for a given highlight query text: the
/// raw captured identifiers with the private ones filtered out, or `None`
/// when the text does not parse as a query.
pub open spec fn spec_extracted_captures(text: Seq<char>) -> Option<Seq<Seq<char>>> {
    match raw_captures_of(capture_pattern(), text) {
        Some(names) => Some(names.filter(|nm: Seq<char>| !spec_is_private(nm))),
        None => Option::None,
    }
}

/// Whether a name is private (begins with `_`).
pub fn is_private_name(s: &String) -> (r: bool)
    ensures
        r == spec_is_private(s@),
{
    if s.as_str().is_empty() {
        false
    } else {
        s.as_str().get_char(0) == '_'
    }
}

/// Extracts the capture names a highlight query text declares, in text
/// order, excluding private ones. `None` means the text did not parse; a
/// present but captureless query yields `Some` of an empty list.
pub fn extract_capture_names(text: &str) -> (r: Option<Vec<String>>)
    ensures
        match r {
            Some(names) => spec_extracted_captures(text@) == Some(
                names@.map_values(|s: String| s@),
            ),
            None => spec_extracted_captures(text@) is None,
        },
{
    let raw = match ts_query_captures("(capture (identifier) @name)", text) {
        Some(v) => v,
        None => {
            return None;
        },
    };
    let ghost rv: Seq<Seq<char>> = raw@.map_values(|s: String| s@);
    let n: usize = raw.len();
    let mut out: Vec<String> = Vec::new();
    let mut k: usize = 0;
    proof {
        reveal(Seq::filter);
        assert(rv.take(0) =~= Seq::<Seq<char>>::empty());
        assert(out@.map_values(|s: String| s@) =~= Seq::<Seq<char>>::empty());
    }
    while k < n
        invariant
            0 <= k <= n,
            n == raw@.len(),
            rv == raw@.map_values(|s: String| s@),
            out@.map_values(|s: String| s@) == rv.take(k as int).filter(
                |nm: Seq<char>| !spec_is_private(nm),
            ),
        decreases n - k,
    {
        let name = &raw[k];
        let keep = !is_private_name(name);
        proof {
            reveal(Seq::filter);
            assert(rv.take(k + 1).drop_last() =~= rv.take(k as int));
            assert(rv.take(k + 1).last() == rv[k as int]);
        }
        if keep {
            out.push(name.clone());
            proof {
                assert(out@.map_values(|s: String| s@) =~= rv.take(k + 1).filter(
                    |nm: Seq<char>| !spec_is_private(nm),
                ));
            }
        }
        k = k + 1;
    }
    proof {
        assert(rv.take(n as int) =~= rv);
    }
    Some(out)
}

/// Every name extraction returns is public: none begins with an underscore.
pub proof fn lemma_extracted_captures_public(text: Seq<char>, i: int)
    requires
        spec_extracted_captures(text) is Some,
        0 <= i < spec_extracted_captures(text).unwrap().len(),
    ensures
        !spec_is_private(spec_extracted_captures(text).unwrap()[i]),
{
    let names = raw_captures_of(capture_pattern(), text).unwrap();
    names.lemma_filter_pred(|nm: Seq<char>| !spec_is_private(nm), i);
}

/// First-occurrence deduplication: keeps each name's first appearance, in
/// order, and drops the repeats.
pub open spec fn spec_dedup(s: Seq<Seq<char>>) -> Seq<Seq<char>>
    decreases s.len(),
{
    if s.len() == 0 {
        s
    } else {
        let rest = spec_dedup(s.drop_last());
        if s.drop_last().contains(s.last()) {
            rest
        } else {
            rest.push(s.last())
        }
    }
}

/// Deduplication keeps exactly the names of the input.
pub proof fn lemma_dedup_contains(s: Seq<Seq<char>>)
    ensures
        forall|x: Seq<char>| #[trigger] spec_dedup(s).contains(x) <==> s.contains(x),
    decreases s.len(),
{
    if s.len() != 0 {
        let d = spec_dedup(s);
        let dl = s.drop_last();
        let rest = spec_dedup(dl);
        lemma_dedup_contains(dl);
        assert forall|x: Seq<char>| s.contains(x) implies #[trigger] d.contains(x) by {
            let i = choose|i: int| 0 <= i < s.len() && s[i] == x;
            if i < s.len() - 1 {
                assert(dl[i] == x);
                assert(dl.contains(x));
                assert(rest.contains(x));
                let j = choose|j: int| 0 <= j < rest.len() && rest[j] == x;
                assert(d[j] == x);
            } else if dl.contains(x) {
                assert(rest.contains(x));
                let j = choose|j: int| 0 <= j < rest.len() && rest[j] == x;
                assert(d[j] == x);
            } else {
                assert(d[d.len() - 1] == x);
            }
        }
        assert forall|x: Seq<char>| #[trigger] d.contains(x) implies s.contains(x) by {
            let j = choose|j: int| 0 <= j < d.len() && d[j] == x;
            if j < rest.len() {
                assert(rest[j] == x);
                assert(rest.contains(x));
                let i = choose|i: int| 0 <= i < dl.len() && dl[i] == x;
                assert(s[i] == x);
            } else {
                assert(x == s.last());
                assert(s[s.len() - 1] == x);
            }
        }
    }
}

/// Deduplication never returns the same name twice.
pub proof fn lemma_dedup_no_duplicates(s: Seq<Seq<char>>)
    ensures
        spec_dedup(s).no_duplicates(),
    decreases s.len(),
{
    if s.len() != 0 {
        let d = spec_dedup(s);
        let dl = s.drop_last();
        let rest = spec_dedup(dl);
        lemma_dedup_no_duplicates(dl);
        lemma_dedup_contains(dl);
        if !dl.contains(s.last()) {
            assert forall|i: int, j: int|
                0 <= i < d.len() && 0 <= j < d.len() && i != j implies #[trigger] d[i]
                != #[trigger] d[j] by {
                if i < rest.len() && j < rest.len() {
                    assert(rest[i] == d[i] && rest[j] == d[j]);
                } else if i < rest.len() {
                    assert(d[j] == s.last());
                    if d[i] == s.last() {
                        assert(rest[i] == s.last());
                        assert(rest.contains(s.last()));
                    }
                } else {
                    assert(d[i] == s.last());
                    if d[j] == s.last() {
                        assert(rest[j] == s.last());
                        assert(rest.contains(s.last()));
                    }
                }
            }
        }
    }
}

/// Whether a list of names holds `s`, compared by contents.
pub fn vec_contains_string(v: &Vec<String>, s: &String) -> (r: bool)
    ensures
        r == v@.map_values(|x: String| x@).contains(s@),
{
    let n: usize = v.len();
    let mut i: usize = 0;
    while i < n
        invariant
            0 <= i <= n,
            n == v@.len(),
            forall|j: int| 0 <= j < i ==> (#[trigger] v@[j])@ != s@,
        decreases n - i,
    {
        if str_eq(v[i].as_str(), s.as_str()) {
            proof {
                assert(v@.map_values(|x: String| x@)[i as int] == s@);
            }
            return true;
        }
        i = i + 1;
    }
    false
}

/// First-occurrence deduplication of a list of names.
pub fn dedup_names(v: &Vec<String>) -> (r: Vec<String>)
    ensures
        r@.map_values(|x: String| x@) == spec_dedup(v@.map_values(|x: String| x@)),
{
    let ghost sv: Seq<Seq<char>> = v@.map_values(|x: String| x@);
    let n: usize = v.len();
    let mut out: Vec<String> = Vec::new();
    let mut k: usize = 0;
    proof {
        assert(sv.take(0) =~= Seq::<Seq<char>>::empty());
        assert(out@.map_values(|x: String| x@) =~= Seq::<Seq<char>>::empty());
    }
    while k < n
        invariant
            0 <= k <= n,
            n == v@.len(),
            sv == v@.map_values(|x: String| x@),
            out@.map_values(|x: String| x@) == spec_dedup(sv.take(k as int)),
        decreases n - k,
    {
        let name = &v[k];
        proof {
            assert(sv.take(k + 1).drop_last() =~= sv.take(k as int));
            assert(sv.take(k + 1).last() == sv[k as int]);
            lemma_dedup_contains(sv.take(k as int));
        }
        if !vec_contains_string(&out, name) {
            out.push(name.clone());
            proof {
                assert(out@.map_values(|x: String| x@) =~= spec_dedup(sv.take(k as int)).push(
                    sv[k as int],
                ));
            }
        }
        k = k + 1;
    }
    proof {
        assert(sv.take(n as int) =~= sv);
    }
    out
}

} // verus!
