//! Typed model of the extension corpus: manifests, theme files and language
//! definitions, as the aggregation queries consume them.

use vstd::prelude::*;

verus! {

use std::collections::HashMap;
use std::string::String;
use std::vec::Vec;

/// The registry's `extensions.toml` structure: one entry per tracked
/// extension submodule, keyed by extension id.
pub struct ExtensionsMetadata(pub HashMap<String, ExtensionsMetadataEntry>);

/// Entry for one extension submodule in [`ExtensionsMetadata`].
pub struct ExtensionsMetadataEntry {
    pub submodule: String,
    pub path: Option<String>,
    pub version: String,
}

/// One extension of the corpus: identity, manifest, and its capability
/// payload. The id is the unique key that every index of the corpus uses.
pub struct Extension {
    pub id: String,
    pub metadata: ExtensionMetadata,
    pub builtin: bool,
    pub git_provider: Option<String>,
    pub kind: ExtensionType,
}

/// The capability category of an extension, with the scanned payload for the
/// two categories that carry one.
pub enum ExtensionType {
    Theme(ThemeExtension),
    Language(LanguageExtension),
    SlashCommand,
    ContextServer,
}

/// The manifest dialect an extension was described with: exactly one of the
/// two is parsed per extension.
pub enum ExtensionMetadata {
    TomlManifest(TomlManifest),
    JsonManifest(JsonManifest),
}

/// The current manifest dialect (`extension.toml`).
pub struct TomlManifest {
    pub id: Option<String>,
    pub name: String,
    pub description: Option<String>,
    pub version: String,
    pub schema_version: Option<usize>,
    pub authors: Vec<String>,
    pub repository: String,
    pub grammars: Option<HashMap<String, GrammarEntry>>,
    pub language_servers: Option<HashMap<String, LanguageServerEntry>>,
    pub context_servers: Option<HashMap<String, ContextServerEntry>>,
    pub slash_commands: Option<HashMap<String, SlashCommandEntry>>,
}

/// The legacy manifest dialect (`extension.json`): capability maps are plain
/// name-to-path string maps.
pub struct JsonManifest {
    pub name: String,
    pub description: Option<String>,
    pub version: String,
    pub authors: Vec<String>,
    pub repository: String,
    pub themes: Option<HashMap<String, String>>,
    pub languages: Option<HashMap<String, String>>,
    pub grammars: Option<HashMap<String, String>>,
}

/// Entry for a grammar in a [`TomlManifest`].
pub struct GrammarEntry {
    pub repository: String,
    pub commit: Option<String>,
    pub rev: Option<String>,
}

/// Entry for a language server in a [`TomlManifest`].
pub struct LanguageServerEntry {
    pub name: Option<String>,
    pub language: Option<String>,
    pub languages: Option<Vec<String>>,
}

/// Entry for a context server in a [`TomlManifest`].
pub struct ContextServerEntry {
    pub name: Option<String>,
}

/// Entry for a slash command in a [`TomlManifest`].
pub struct SlashCommandEntry {
    pub description: Option<String>,
    pub requires_argument: Option<bool>,
}

/// Payload of a `Theme`-kind extension: one resolved [`Theme`] per theme
/// family file found under its theme directory, in directory order.
pub struct ThemeExtension {
    pub themes: Vec<Theme>,
}

/// Outcome of resolving one theme family file against the two schema
/// generations. `V1(None)` and `V2(None)` record that the file declared that
/// schema version but failed the structural parse; `Invalid` records that no
/// schema matched at all.
pub enum Theme {
    V1(Option<ThemeFamilyContent>),
    V2(Option<ThemeFamilyContent>),
    Invalid,
}

/// A structurally parsed theme family: the parts of the file the aggregation
/// queries read.
pub struct ThemeFamilyContent {
    pub name: String,
    pub themes: Vec<ThemeContent>,
}

/// One theme of a family: its name, its declared appearance, and the capture
/// names its style's syntax table maps, in the file's key order.
pub struct ThemeContent {
    pub name: String,
    pub appearance: String,
    pub syntax_captures: Vec<String>,
}

/// The probe structure read before full theme parsing: only the `$schema`
/// tag of the file.
pub struct JsonSchema {
    pub schema: String,
}

/// Payload of a `Language`-kind extension: one [`Language`] per language
/// subdirectory, in directory order.
pub struct LanguageExtension {
    pub languages: Vec<Language>,
}

/// One language definition: its configuration plus the five optional raw
/// query texts.
pub struct Language {
    pub config: LanguageConfig,
    pub highlights_queries: Option<String>,
    pub injections_queries: Option<String>,
    pub folds_queries: Option<String>,
    pub outline_queries: Option<String>,
    pub brackets_queries: Option<String>,
}

/// A language's `config.toml` contents.
pub struct LanguageConfig {
    pub name: String,
    pub grammar: String,
    pub path_suffixes: Option<Vec<String>>,
    pub line_comments: Option<Vec<String>>,
    pub tab_size: Option<usize>,
    pub hard_tabs: Option<bool>,
    pub first_line_pattern: Option<String>,
}

impl Extension {
    /// The invariant the corpus builder maintains: every non-builtin
    /// extension carries a git provider.
    pub open spec fn wf(&self) -> bool {
        !self.builtin ==> self.git_provider is Some
    }
}

/// Mathematical shape of a [`ThemeContent`].
pub struct ThemeContentView {
    pub name: Seq<char>,
    pub appearance: Seq<char>,
    pub syntax_captures: Seq<Seq<char>>,
}

/// Mathematical shape of a [`ThemeFamilyContent`].
pub struct ThemeFamilyContentView {
    pub name: Seq<char>,
    pub themes: Seq<ThemeContentView>,
}

/// Mathematical shape of a [`Theme`].
pub enum ThemeView {
    V1(Option<ThemeFamilyContentView>),
    V2(Option<ThemeFamilyContentView>),
    Invalid,
}

impl View for ThemeContent {
    type V = ThemeContentView;

    open spec fn view(&self) -> ThemeContentView {
        ThemeContentView {
            name: self.name@,
            appearance: self.appearance@,
            syntax_captures: self.syntax_captures@.map_values(|c: String| c@),
        }
    }
}

impl View for ThemeFamilyContent {
    type V = ThemeFamilyContentView;

    open spec fn view(&self) -> ThemeFamilyContentView {
        ThemeFamilyContentView {
            name: self.name@,
            themes: self.themes@.map_values(|t: ThemeContent| t@),
        }
    }
}

impl View for Theme {
    type V = ThemeView;

    open spec fn view(&self) -> ThemeView {
        match self {
            Theme::V1(f) => ThemeView::V1(
                match f {
                    Some(family) => Some(family@),
                    None => None,
                },
            ),
            Theme::V2(f) => ThemeView::V2(
                match f {
                    Some(family) => Some(family@),
                    None => None,
                },
            ),
            Theme::Invalid => ThemeView::Invalid,
        }
    }
}

} // verus!
