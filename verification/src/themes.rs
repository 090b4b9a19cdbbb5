//! Theme schema resolution.
//!
//! A theme family file is first probed for its `$schema` tag. A recognized
//! tag selects that schema generation outright; otherwise the document is
//! tried blind against the first generation and then the second. The
//! structural rules this library enforces for a family are: an object with a
//! string `name` and an array `themes`; each theme an object with a string
//! `name`, an `appearance` of `"light"` or `"dark"`, and an object `style`
//! whose optional `syntax` member is an object. The two generations differ
//! in the values a `syntax` entry may hold: the first requires an object,
//! the second also accepts `null`. Unknown members are ignored everywhere.

use vstd::prelude::*;

verus! {

use crate::json::{json_of, parse_json_lenient, object_get, spec_object_get, str_eq, JsonValue};
use crate::types::{JsonSchema, Theme, ThemeContent, ThemeContentView, ThemeFamilyContent,
    ThemeFamilyContentView, ThemeView};
use std::string::String;
use std::vec::Vec;

/// The `$schema` identifier of the first theme schema generation.
pub open spec fn v1_schema_uri() -> Seq<char> {
    "https://zed.dev/schema/themes/v0.1.0.json"@
}

/// The `$schema` identifier of the second theme schema generation.
pub open spec fn v2_schema_uri() -> Seq<char> {
    "https://zed.dev/schema/themes/v0.2.0.json"@
}

/// Whether one `syntax` entry's value is acceptable: an object always, and
/// `null` only under the second schema generation.
pub open spec fn spec_highlight_ok(j: JsonValue, v2: bool) -> bool {
    match j {
        JsonValue::Object(_) => true,
        JsonValue::Null => v2,
        _ => false,
    }
}

/// The capture names a theme's `style` declares: the keys of its `syntax`
/// object in file order, an empty sequence when `syntax` is absent, and
/// `None` when `syntax` is not an object or an entry's value is unacceptable.
pub open spec fn spec_style_captures(style: Seq<(String, JsonValue)>, v2: bool) -> Option<
    Seq<Seq<char>>,
> {
    match spec_object_get(style, "syntax"@) {
        Option::None => Some(Seq::empty()),
        Some(JsonValue::Object(syn)) => if forall|i: int|
            0 <= i < syn@.len() ==> spec_highlight_ok((#[trigger] syn@[i]).1, v2) {
            Some(syn@.map_values(|f: (String, JsonValue)| f.0@))
        } else {
            Option::None
        },
        Some(_) => Option::None,
    }
}

/// Structural parse of one theme of a family.
pub open spec fn spec_theme_content(j: JsonValue, v2: bool) -> Option<ThemeContentView> {
    match j {
        JsonValue::Object(fields) => match (
            spec_object_get(fields@, "name"@),
            spec_object_get(fields@, "appearance"@),
            spec_object_get(fields@, "style"@),
        ) {
            (
                Some(JsonValue::Str(nm)),
                Some(JsonValue::Str(ap)),
                Some(JsonValue::Object(style)),
            ) => if ap@ == "light"@ || ap@ == "dark"@ {
                match spec_style_captures(style@, v2) {
                    Some(caps) => Some(
                        ThemeContentView { name: nm@, appearance: ap@, syntax_captures: caps },
                    ),
                    Option::None => Option::None,
                }
            } else {
                Option::None
            },
            _ => Option::None,
        },
        _ => Option::None,
    }
}

/// Structural parse of a whole theme family document.
pub open spec fn spec_theme_family(j: JsonValue, v2: bool) -> Option<ThemeFamilyContentView> {
    match j {
        JsonValue::Object(fields) => match (
            spec_object_get(fields@, "name"@),
            spec_object_get(fields@, "themes"@),
        ) {
            (Some(JsonValue::Str(nm)), Some(JsonValue::Array(arr))) => if forall|i: int|
                0 <= i < arr@.len() ==> spec_theme_content(#[trigger] arr@[i], v2) is Some {
                Some(
                    ThemeFamilyContentView {
                        name: nm@,
                        themes: Seq::new(
                            arr@.len(),
                            |i: int| spec_theme_content(arr@[i], v2).unwrap(),
                        ),
                    },
                )
            } else {
                Option::None
            },
            _ => Option::None,
        },
        _ => Option::None,
    }
}

/// The `$schema` tag of a document: the string value of the top-level
/// `$schema` member, when the document is an object that has one.
pub open spec fn spec_probe_schema(j: JsonValue) -> Option<Seq<char>> {
    match j {
        JsonValue::Object(fields) => match spec_object_get(fields@, "$schema"@) {
            Some(JsonValue::Str(s)) => Some(s@),
            _ => Option::None,
        },
        _ => Option::None,
    }
}

/// Resolution policy over an already parsed document: a recognized tag
/// selects its generation; otherwise the first generation is tried before
/// the second, and `Invalid` is the outcome when nothing matches.
pub open spec fn spec_resolve_theme(parsed: Option<JsonValue>) -> ThemeView {
    match parsed {
        Option::None => ThemeView::Invalid,
        Some(j) => if spec_probe_schema(j) == Some(v1_schema_uri()) {
            ThemeView::V1(spec_theme_family(j, false))
        } else if spec_probe_schema(j) == Some(v2_schema_uri()) {
            ThemeView::V2(spec_theme_family(j, true))
        } else if spec_theme_family(j, false) is Some {
            ThemeView::V1(spec_theme_family(j, false))
        } else if spec_theme_family(j, true) is Some {
            ThemeView::V2(spec_theme_family(j, true))
        } else {
            ThemeView::Invalid
        },
    }
}

/// Reads the `$schema` probe out of a parsed document.
pub fn probe_schema(j: &JsonValue) -> (r: Option<JsonSchema>)
    ensures
        match r {
            Some(p) => spec_probe_schema(*j) == Some(p.schema@),
            Option::None => spec_probe_schema(*j) is None,
        },
{
    match j {
        JsonValue::Object(fields) => match object_get(fields, "$schema") {
            Some(JsonValue::Str(s)) => Some(JsonSchema { schema: s.clone() }),
            _ => None,
        },
        _ => None,
    }
}

/// Structural parse of one theme of a family against one schema generation.
pub fn parse_theme_content(j: &JsonValue, v2: bool) -> (r: Option<ThemeContent>)
    ensures
        match r {
            Some(t) => spec_theme_content(*j, v2) == Some(t@),
            Option::None => spec_theme_content(*j, v2) is None,
        },
{
    let fields = match j {
        JsonValue::Object(fields) => fields,
        _ => {
            return None;
        },
    };
    let nm = match object_get(fields, "name") {
        Some(JsonValue::Str(s)) => s,
        _ => {
            return None;
        },
    };
    let ap = match object_get(fields, "appearance") {
        Some(JsonValue::Str(s)) => s,
        _ => {
            return None;
        },
    };
    if !(str_eq(ap.as_str(), "light") || str_eq(ap.as_str(), "dark")) {
        return None;
    }
    let style = match object_get(fields, "style") {
        Some(JsonValue::Object(sf)) => sf,
        _ => {
            return None;
        },
    };
    let mut syntax_captures: Vec<String> = Vec::new();
    match object_get(style, "syntax") {
        None => {
            proof {
                assert(syntax_captures@.map_values(|c: String| c@) =~= Seq::<Seq<char>>::empty());
                assert(spec_style_captures(style@, v2) == Some(
                    syntax_captures@.map_values(|c: String| c@),
                ));
            }
        },
        Some(JsonValue::Object(syn)) => {
            let n: usize = syn.len();
            let mut k: usize = 0;
            while k < n
                invariant
                    0 <= k <= n,
                    n == syn@.len(),
                    forall|i: int| 0 <= i < k ==> spec_highlight_ok((#[trigger] syn@[i]).1, v2),
                    syntax_captures@.len() == k,
                    forall|i: int|
                        0 <= i < k ==> (#[trigger] syntax_captures@[i])@ == syn@[i].0@,
                decreases n - k,
            {
                let entry = &syn[k];
                let ok = match &entry.1 {
                    JsonValue::Object(_) => true,
                    JsonValue::Null => v2,
                    _ => false,
                };
                if !ok {
                    proof {
                        assert(!spec_highlight_ok(syn@[k as int].1, v2));
                        assert(!(forall|i: int|
                            0 <= i < syn@.len() ==> spec_highlight_ok(
                                (#[trigger] syn@[i]).1,
                                v2,
                            )));
                        assert(spec_style_captures(style@, v2) is None);
                    }
                    return None;
                }
                syntax_captures.push(entry.0.clone());
                k = k + 1;
            }
            proof {
                assert(syntax_captures@.map_values(|c: String| c@) =~= syn@.map_values(
                    |f: (String, JsonValue)| f.0@,
                ));
                assert(spec_style_captures(style@, v2) == Some(
                    syntax_captures@.map_values(|c: String| c@),
                ));
            }
        },
        Some(_) => {
            return None;
        },
    }
    let content = ThemeContent { name: nm.clone(), appearance: ap.clone(), syntax_captures };
    proof {
        assert(spec_theme_content(*j, v2) == Some(content@));
    }
    Some(content)
}

/// Structural parse of a whole theme family document against one schema
/// generation.
pub fn parse_theme_family(j: &JsonValue, v2: bool) -> (r: Option<ThemeFamilyContent>)
    ensures
        match r {
            Some(f) => spec_theme_family(*j, v2) == Some(f@),
            Option::None => spec_theme_family(*j, v2) is None,
        },
{
    let fields = match j {
        JsonValue::Object(fields) => fields,
        _ => {
            return None;
        },
    };
    let nm = match object_get(fields, "name") {
        Some(JsonValue::Str(s)) => s,
        _ => {
            return None;
        },
    };
    let arr = match object_get(fields, "themes") {
        Some(JsonValue::Array(a)) => a,
        _ => {
            return None;
        },
    };
    let n: usize = arr.len();
    let mut themes: Vec<ThemeContent> = Vec::new();
    let mut k: usize = 0;
    while k < n
        invariant
            0 <= k <= n,
            n == arr@.len(),
            themes@.len() == k,
            forall|i: int| 0 <= i < k ==> spec_theme_content(#[trigger] arr@[i], v2) is Some,
            forall|i: int|
                0 <= i < k ==> (#[trigger] themes@[i])@ == spec_theme_content(
                    arr@[i],
                    v2,
                ).unwrap(),
        decreases n - k,
    {
        match parse_theme_content(&arr[k], v2) {
            Some(t) => themes.push(t),
            None => {
                proof {
                    assert(spec_theme_content(arr@[k as int], v2) is None);
                    assert(!(forall|i: int|
                        0 <= i < arr@.len() ==> spec_theme_content(
                            #[trigger] arr@[i],
                            v2,
                        ) is Some));
                }
                return None;
            },
        }
        k = k + 1;
    }
    let family = ThemeFamilyContent { name: nm.clone(), themes };
    proof {
        assert(family@.themes =~= Seq::new(
            arr@.len(),
            |i: int| spec_theme_content(arr@[i], v2).unwrap(),
        ));
    }
    Some(family)
}

/// Resolves raw theme file text to a [`Theme`] variant, per the policy of
/// [`spec_resolve_theme`]: probe the `$schema` tag, honor a recognized tag,
/// and otherwise fall back to trying the first generation, then the second.
pub fn resolve_theme(text: &str) -> (r: Theme)
    ensures
        r@ == spec_resolve_theme(json_of(text@)),
{
    let parsed = parse_json_lenient(text);
    let j = match parsed {
        Some(j) => j,
        None => {
            return Theme::Invalid;
        },
    };
    let mut tagged_v1: bool = false;
    let mut tagged_v2: bool = false;
    match probe_schema(&j) {
        Some(p) => {
            tagged_v1 = str_eq(p.schema.as_str(), "https://zed.dev/schema/themes/v0.1.0.json");
            tagged_v2 = !tagged_v1 && str_eq(
                p.schema.as_str(),
                "https://zed.dev/schema/themes/v0.2.0.json",
            );
        },
        None => {},
    }
    if tagged_v1 {
        Theme::V1(parse_theme_family(&j, false))
    } else if tagged_v2 {
        Theme::V2(parse_theme_family(&j, true))
    } else {
        match parse_theme_family(&j, false) {
            Some(f) => Theme::V1(Some(f)),
            None => match parse_theme_family(&j, true) {
                Some(f) => Theme::V2(Some(f)),
                None => Theme::Invalid,
            },
        }
    }
}

/// Blind fallback prefers the first schema generation: a document whose
/// `$schema` tag is absent or unrecognized and that validates under both
/// generations always resolves to the first generation's variant, never the
/// second's.
pub proof fn lemma_schema_priority(j: JsonValue)
    requires
        spec_probe_schema(j) != Some(v1_schema_uri()),
        spec_probe_schema(j) != Some(v2_schema_uri()),
        spec_theme_family(j, false) is Some,
        spec_theme_family(j, true) is Some,
    ensures
        spec_resolve_theme(Some(j)) == ThemeView::V1(spec_theme_family(j, false)),
{
}

} // verus!
