//! The query surface the corpus answers: commands, sort order, and the
//! analysis queries, as plain data.

use vstd::prelude::*;

verus! {

use crate::json::str_eq;
use crate::order::spec_names_view;
use crate::types::{Extension, ExtensionMetadata, ExtensionType, Theme};
use std::string::String;
use std::vec::Vec;

/// A corpus command: look one extension up, filter the corpus, or run an
/// analysis query.
pub enum Commands {
    Show { id: String },
    Find {
        manifest: Option<BasicManifestType>,
        kind: Option<BasicExtensionType>,
        git_provider: Option<String>,
        theme_schema: Option<BasicThemeSchema>,
        builtin: Option<bool>,
        count: bool,
    },
    Analyze { query: AnalysisQuery },
}

/// Requested direction of a ranking.
#[derive(Clone, Copy, PartialEq, Eq, Structural, Debug)]
pub enum SortOrder {
    Asc,
    Desc,
    Ascending,
    Descending,
}

/// Manifest dialect filter.
#[derive(Clone, Copy, PartialEq, Eq, Structural, Debug)]
pub enum BasicManifestType {
    Json,
    Toml,
}

/// Capability category, without payload: the classifier's verdict.
#[derive(Clone, Copy, PartialEq, Eq, Structural, Debug)]
pub enum BasicExtensionType {
    Theme,
    Language,
    SlashCommand,
    ContextServer,
}

/// Theme schema version filter: the two recognized generations, or `Other`
/// for themes that parsed under neither.
#[derive(Clone, Copy, PartialEq, Eq, Structural, Debug)]
pub enum BasicThemeSchema {
    V1,
    V2,
    Other,
}

/// The six analysis queries over the aggregated corpus. A `limit` of 0
/// means no truncation.
pub enum AnalysisQuery {
    CapturesByUsage { order: SortOrder, limit: usize },
    CapturesByThemeSupport { order: SortOrder, limit: usize },
    ThemesSupportingCapture { capture: String, count: bool },
    LanguagesUsingCapture { capture: String, count: bool },
    LanguagesByThemeSupport { order: SortOrder, limit: usize },
    ThemesByCaptureSupport { order: SortOrder, limit: usize },
}

impl SortOrder {
    /// Whether this order sorts smallest-first.
    pub open spec fn spec_is_ascending(self) -> bool {
        self is Asc || self is Ascending
    }

    /// Whether this order sorts smallest-first.
    pub fn is_ascending(&self) -> (r: bool)
        ensures
            r == self.spec_is_ascending(),
    {
        match self {
            SortOrder::Asc | SortOrder::Ascending => true,
            SortOrder::Desc | SortOrder::Descending => false,
        }
    }
}

/// The character sequence of an optional string.
pub open spec fn spec_opt_view(o: Option<String>) -> Option<Seq<char>> {
    match o {
        Some(s) => Some(s@),
        Option::None => Option::None,
    }
}

/// Whether a theme file parsed under the first schema generation.
pub open spec fn spec_theme_parsed_v1(t: Theme) -> bool {
    match t {
        Theme::V1(Some(_)) => true,
        _ => false,
    }
}

/// Whether a theme file parsed under the second schema generation.
pub open spec fn spec_theme_parsed_v2(t: Theme) -> bool {
    match t {
        Theme::V2(Some(_)) => true,
        _ => false,
    }
}

/// Whether a resolved theme file matches a requested schema version:
/// `Other` stands for files that parsed under neither generation.
pub open spec fn spec_theme_matches_schema(t: Theme, s: BasicThemeSchema) -> bool {
    match s {
        BasicThemeSchema::V1 => spec_theme_parsed_v1(t),
        BasicThemeSchema::V2 => spec_theme_parsed_v2(t),
        BasicThemeSchema::Other => !spec_theme_parsed_v1(t) && !spec_theme_parsed_v2(t),
    }
}

/// The conjunctive corpus filter: an extension matches when it satisfies
/// every given criterion. The theme-schema criterion asks that the
/// extension be `Theme`-kind and that at least one of its theme files
/// match the requested version.
pub open spec fn spec_matches_find(
    e: Extension,
    manifest: Option<BasicManifestType>,
    kind: Option<BasicExtensionType>,
    git_provider: Option<Seq<char>>,
    theme_schema: Option<BasicThemeSchema>,
    builtin: Option<bool>,
) -> bool {
    &&& match manifest {
        Some(BasicManifestType::Json) => e.metadata is JsonManifest,
        Some(BasicManifestType::Toml) => e.metadata is TomlManifest,
        Option::None => true,
    }
    &&& match kind {
        Some(BasicExtensionType::Theme) => e.kind is Theme,
        Some(BasicExtensionType::Language) => e.kind is Language,
        Some(BasicExtensionType::SlashCommand) => e.kind is SlashCommand,
        Some(BasicExtensionType::ContextServer) => e.kind is ContextServer,
        Option::None => true,
    }
    &&& match git_provider {
        Some(g) => match e.git_provider {
            Some(p) => p@ == g,
            Option::None => false,
        },
        Option::None => true,
    }
    &&& match theme_schema {
        Some(s) => match e.kind {
            ExtensionType::Theme(te) => exists|i: int|
                0 <= i < te.themes@.len() && spec_theme_matches_schema(#[trigger] te.themes@[i], s),
            _ => false,
        },
        Option::None => true,
    }
    &&& match builtin {
        Some(b) => e.builtin == b,
        Option::None => true,
    }
}

/// The ids of the extensions the filter keeps, in corpus order.
pub open spec fn spec_find_ids(
    exts: Seq<Extension>,
    manifest: Option<BasicManifestType>,
    kind: Option<BasicExtensionType>,
    git_provider: Option<Seq<char>>,
    theme_schema: Option<BasicThemeSchema>,
    builtin: Option<bool>,
) -> Seq<Seq<char>>
    decreases exts.len(),
{
    if exts.len() == 0 {
        Seq::empty()
    } else {
        spec_find_ids(exts.drop_last(), manifest, kind, git_provider, theme_schema, builtin)
            + if spec_matches_find(
            exts.last(),
            manifest,
            kind,
            git_provider,
            theme_schema,
            builtin,
        ) {
            seq![exts.last().id@]
        } else {
            Seq::empty()
        }
    }
}

/// Whether a resolved theme file matches a requested schema version.
fn theme_matches_schema(t: &Theme, s: &BasicThemeSchema) -> (r: bool)
    ensures
        r == spec_theme_matches_schema(*t, *s),
{
    let parsed_v1 = matches!(t, Theme::V1(Some(_)));
    let parsed_v2 = matches!(t, Theme::V2(Some(_)));
    match s {
        BasicThemeSchema::V1 => parsed_v1,
        BasicThemeSchema::V2 => parsed_v2,
        BasicThemeSchema::Other => !parsed_v1 && !parsed_v2,
    }
}

/// Whether an extension satisfies every given criterion.
fn matches_find(
    e: &Extension,
    manifest: &Option<BasicManifestType>,
    kind: &Option<BasicExtensionType>,
    git_provider: &Option<String>,
    theme_schema: &Option<BasicThemeSchema>,
    builtin: &Option<bool>,
) -> (r: bool)
    ensures
        r == spec_matches_find(
            *e,
            *manifest,
            *kind,
            spec_opt_view(*git_provider),
            *theme_schema,
            *builtin,
        ),
{
    match manifest {
        Some(BasicManifestType::Json) => {
            if !matches!(e.metadata, ExtensionMetadata::JsonManifest(_)) {
                return false;
            }
        },
        Some(BasicManifestType::Toml) => {
            if !matches!(e.metadata, ExtensionMetadata::TomlManifest(_)) {
                return false;
            }
        },
        None => {},
    }
    match kind {
        Some(BasicExtensionType::Theme) => {
            if !matches!(e.kind, ExtensionType::Theme(_)) {
                return false;
            }
        },
        Some(BasicExtensionType::Language) => {
            if !matches!(e.kind, ExtensionType::Language(_)) {
                return false;
            }
        },
        Some(BasicExtensionType::SlashCommand) => {
            if !matches!(e.kind, ExtensionType::SlashCommand) {
                return false;
            }
        },
        Some(BasicExtensionType::ContextServer) => {
            if !matches!(e.kind, ExtensionType::ContextServer) {
                return false;
            }
        },
        None => {},
    }
    match git_provider {
        Some(g) => {
            match &e.git_provider {
                Some(p) => {
                    if !str_eq(p.as_str(), g.as_str()) {
                        return false;
                    }
                },
                None => {
                    return false;
                },
            }
        },
        None => {},
    }
    match theme_schema {
        Some(s) => {
            match &e.kind {
                ExtensionType::Theme(te) => {
                    let n: usize = te.themes.len();
                    let mut i: usize = 0;
                    let mut found: bool = false;
                    while i < n && !found
                        invariant
                            0 <= i <= n,
                            n == te.themes@.len(),
                            !found ==> forall|j: int|
                                0 <= j < i ==> !spec_theme_matches_schema(
                                    #[trigger] te.themes@[j],
                                    *s,
                                ),
                            found ==> exists|j: int|
                                0 <= j < n && spec_theme_matches_schema(
                                    #[trigger] te.themes@[j],
                                    *s,
                                ),
                        decreases n - i,
                    {
                        if theme_matches_schema(&te.themes[i], s) {
                            found = true;
                        }
                        i = i + 1;
                    }
                    if !found {
                        return false;
                    }
                },
                _ => {
                    return false;
                },
            }
        },
        None => {},
    }
    match builtin {
        Some(b) => {
            if e.builtin != *b {
                return false;
            }
        },
        None => {},
    }
    true
}

/// Filters the corpus: the ids of the extensions that satisfy every given
/// criterion, in corpus order.
pub fn find_extensions(
    extensions: &Vec<Extension>,
    manifest: &Option<BasicManifestType>,
    kind: &Option<BasicExtensionType>,
    git_provider: &Option<String>,
    theme_schema: &Option<BasicThemeSchema>,
    builtin: &Option<bool>,
) -> (r: Vec<String>)
    ensures
        spec_names_view(r@) == spec_find_ids(
            extensions@,
            *manifest,
            *kind,
            spec_opt_view(*git_provider),
            *theme_schema,
            *builtin,
        ),
{
    let ghost gv = spec_opt_view(*git_provider);
    let n: usize = extensions.len();
    let mut out: Vec<String> = Vec::new();
    let mut k: usize = 0;
    proof {
        assert(extensions@.take(0) =~= Seq::<Extension>::empty());
        assert(spec_names_view(out@) =~= spec_find_ids(
            extensions@.take(0),
            *manifest,
            *kind,
            gv,
            *theme_schema,
            *builtin,
        ));
    }
    while k < n
        invariant
            0 <= k <= n,
            n == extensions@.len(),
            gv == spec_opt_view(*git_provider),
            spec_names_view(out@) == spec_find_ids(
                extensions@.take(k as int),
                *manifest,
                *kind,
                gv,
                *theme_schema,
                *builtin,
            ),
        decreases n - k,
    {
        let ghost prevv = out@;
        proof {
            assert(extensions@.take(k + 1).drop_last() =~= extensions@.take(k as int));
            assert(extensions@.take(k + 1).last() == extensions@[k as int]);
        }
        if matches_find(&extensions[k], manifest, kind, git_provider, theme_schema, builtin) {
            out.push(extensions[k].id.clone());
            proof {
                assert(spec_names_view(out@) =~= spec_names_view(prevv).push(
                    extensions@[k as int].id@,
                ));
                assert(spec_names_view(out@) =~= spec_find_ids(
                    extensions@.take(k + 1),
                    *manifest,
                    *kind,
                    gv,
                    *theme_schema,
                    *builtin,
                ));
            }
        } else {
            proof {
                assert(spec_names_view(out@) =~= spec_find_ids(
                    extensions@.take(k + 1),
                    *manifest,
                    *kind,
                    gv,
                    *theme_schema,
                    *builtin,
                ));
            }
        }
        k = k + 1;
    }
    proof {
        assert(extensions@.take(n as int) =~= extensions@);
    }
    out
}

/// Looks an extension up by id: the position of the first extension whose
/// id is `id`, or `None` when no extension has it.
pub fn extension_index_by_id(extensions: &Vec<Extension>, id: &str) -> (r: Option<usize>)
    ensures
        match r {
            Some(i) => i < extensions@.len() && extensions@[i as int].id@ == id@ && (forall|
                j: int,
            |
                0 <= j < i ==> (#[trigger] extensions@[j]).id@ != id@),
            Option::None => forall|j: int|
                0 <= j < extensions@.len() ==> (#[trigger] extensions@[j]).id@ != id@,
        },
{
    let n: usize = extensions.len();
    let mut k: usize = 0;
    while k < n
        invariant
            0 <= k <= n,
            n == extensions@.len(),
            forall|j: int| 0 <= j < k ==> (#[trigger] extensions@[j]).id@ != id@,
        decreases n - k,
    {
        if str_eq(extensions[k].id.as_str(), id) {
            return Some(k);
        }
        k = k + 1;
    }
    None
}

} // verus!
