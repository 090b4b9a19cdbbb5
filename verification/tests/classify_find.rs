use std::collections::HashMap;

use zeta::classify::{classify, CorpusError};
use zeta::query::{extension_index_by_id, find_extensions, BasicExtensionType, BasicManifestType,
    BasicThemeSchema};
use zeta::render::count_or_list;
use zeta::types::{ContextServerEntry, Extension, ExtensionMetadata, ExtensionType, GrammarEntry,
    JsonManifest, LanguageExtension, SlashCommandEntry, Theme, ThemeContent, ThemeExtension,
    ThemeFamilyContent, TomlManifest};

fn toml_manifest() -> TomlManifest {
    TomlManifest {
        id: None,
        name: "ext".to_string(),
        description: None,
        version: "1.0.0".to_string(),
        schema_version: None,
        authors: Vec::new(),
        repository: "https://example.com/repo".to_string(),
        grammars: None,
        language_servers: None,
        context_servers: None,
        slash_commands: None,
    }
}

fn json_manifest() -> JsonManifest {
    JsonManifest {
        name: "ext".to_string(),
        description: None,
        version: "1.0.0".to_string(),
        authors: Vec::new(),
        repository: "https://example.com/repo".to_string(),
        themes: None,
        languages: None,
        grammars: None,
    }
}

#[test]
fn languages_directory_wins() {
    let id = "ext".to_string();
    let metadata = ExtensionMetadata::TomlManifest(toml_manifest());
    let kind = classify(&id, true, true, &metadata).unwrap();
    assert!(matches!(kind, BasicExtensionType::Language));
}

#[test]
fn themes_directory_wins_when_no_languages_directory() {
    let id = "ext".to_string();
    let metadata = ExtensionMetadata::TomlManifest(toml_manifest());
    let kind = classify(&id, false, true, &metadata).unwrap();
    assert!(matches!(kind, BasicExtensionType::Theme));
}

#[test]
fn toml_manifest_capabilities_decide_in_order() {
    let id = "ext".to_string();

    let mut with_grammars = toml_manifest();
    let mut grammars: HashMap<String, GrammarEntry> = HashMap::new();
    grammars.insert(
        "g".to_string(),
        GrammarEntry { repository: "r".to_string(), commit: None, rev: None },
    );
    with_grammars.grammars = Some(grammars);
    let metadata = ExtensionMetadata::TomlManifest(with_grammars);
    assert!(matches!(
        classify(&id, false, false, &metadata).unwrap(),
        BasicExtensionType::Language
    ));

    let mut with_slash = toml_manifest();
    let mut slash: HashMap<String, SlashCommandEntry> = HashMap::new();
    slash.insert(
        "s".to_string(),
        SlashCommandEntry { description: None, requires_argument: None },
    );
    with_slash.slash_commands = Some(slash);
    let metadata = ExtensionMetadata::TomlManifest(with_slash);
    assert!(matches!(
        classify(&id, false, false, &metadata).unwrap(),
        BasicExtensionType::SlashCommand
    ));

    let mut with_context = toml_manifest();
    let mut context: HashMap<String, ContextServerEntry> = HashMap::new();
    context.insert("c".to_string(), ContextServerEntry { name: None });
    with_context.context_servers = Some(context);
    let metadata = ExtensionMetadata::TomlManifest(with_context);
    assert!(matches!(
        classify(&id, false, false, &metadata).unwrap(),
        BasicExtensionType::ContextServer
    ));
}

#[test]
fn json_manifest_capabilities_decide() {
    let id = "ext".to_string();

    let mut with_themes = json_manifest();
    let mut themes: HashMap<String, String> = HashMap::new();
    themes.insert("t".to_string(), "themes/t.json".to_string());
    with_themes.themes = Some(themes);
    let metadata = ExtensionMetadata::JsonManifest(with_themes);
    assert!(matches!(classify(&id, false, false, &metadata).unwrap(), BasicExtensionType::Theme));

    let mut with_languages = json_manifest();
    let mut languages: HashMap<String, String> = HashMap::new();
    languages.insert("l".to_string(), "languages/l".to_string());
    with_languages.languages = Some(languages);
    let metadata = ExtensionMetadata::JsonManifest(with_languages);
    assert!(matches!(
        classify(&id, false, false, &metadata).unwrap(),
        BasicExtensionType::Language
    ));
}

#[test]
fn no_evidence_reports_the_extension_unclassifiable() {
    let id = "mystery".to_string();
    let metadata = ExtensionMetadata::JsonManifest(json_manifest());
    match classify(&id, false, false, &metadata) {
        Err(CorpusError::UnclassifiableExtension { id: eid }) => assert_eq!(eid, "mystery"),
        _ => panic!("expected an unclassifiable-extension error"),
    }
}

#[test]
fn classification_is_repeatable() {
    let id = "ext".to_string();
    let metadata = ExtensionMetadata::TomlManifest(toml_manifest());
    let first = classify(&id, false, true, &metadata).unwrap();
    let second = classify(&id, false, true, &metadata).unwrap();
    assert_eq!(format!("{:?}", first), format!("{:?}", second));
}

fn sample_extensions() -> Vec<Extension> {
    let theme_family = ThemeFamilyContent {
        name: "fam".to_string(),
        themes: vec![ThemeContent {
            name: "fam dark".to_string(),
            appearance: "dark".to_string(),
            syntax_captures: vec!["keyword".to_string()],
        }],
    };
    vec![
        Extension {
            id: "builtin-languages".to_string(),
            metadata: ExtensionMetadata::TomlManifest(toml_manifest()),
            builtin: true,
            git_provider: None,
            kind: ExtensionType::Language(LanguageExtension { languages: Vec::new() }),
        },
        Extension {
            id: "night-theme".to_string(),
            metadata: ExtensionMetadata::JsonManifest(json_manifest()),
            builtin: false,
            git_provider: Some("github.com".to_string()),
            kind: ExtensionType::Theme(ThemeExtension {
                themes: vec![Theme::V1(Some(theme_family))],
            }),
        },
        Extension {
            id: "broken-theme".to_string(),
            metadata: ExtensionMetadata::JsonManifest(json_manifest()),
            builtin: false,
            git_provider: Some("gitlab.com".to_string()),
            kind: ExtensionType::Theme(ThemeExtension { themes: vec![Theme::Invalid] }),
        },
        Extension {
            id: "assistant".to_string(),
            metadata: ExtensionMetadata::TomlManifest(toml_manifest()),
            builtin: false,
            git_provider: Some("github.com".to_string()),
            kind: ExtensionType::SlashCommand,
        },
    ]
}

#[test]
fn find_filters_by_manifest_dialect() {
    let exts = sample_extensions();
    let ids = find_extensions(&exts, &Some(BasicManifestType::Json), &None, &None, &None, &None);
    assert_eq!(ids, vec!["night-theme".to_string(), "broken-theme".to_string()]);
}

#[test]
fn find_filters_by_kind_and_builtin() {
    let exts = sample_extensions();
    let ids = find_extensions(
        &exts,
        &None,
        &Some(BasicExtensionType::Language),
        &None,
        &None,
        &Some(false),
    );
    assert_eq!(ids.len(), 0);
    let ids = find_extensions(
        &exts,
        &None,
        &Some(BasicExtensionType::Language),
        &None,
        &None,
        &Some(true),
    );
    assert_eq!(ids, vec!["builtin-languages".to_string()]);
}

#[test]
fn find_filters_by_git_provider() {
    let exts = sample_extensions();
    let ids = find_extensions(&exts, &None, &None, &Some("gitlab.com".to_string()), &None, &None);
    assert_eq!(ids, vec!["broken-theme".to_string()]);
}

#[test]
fn find_filters_by_theme_schema() {
    let exts = sample_extensions();
    let ids = find_extensions(&exts, &None, &None, &None, &Some(BasicThemeSchema::V1), &None);
    assert_eq!(ids, vec!["night-theme".to_string()]);
    let ids = find_extensions(&exts, &None, &None, &None, &Some(BasicThemeSchema::V2), &None);
    assert_eq!(ids.len(), 0);
    // `Other` selects theme extensions whose files parsed under neither
    // generation.
    let ids = find_extensions(&exts, &None, &None, &None, &Some(BasicThemeSchema::Other), &None);
    assert_eq!(ids, vec!["broken-theme".to_string()]);
}

#[test]
fn find_is_conjunctive() {
    let exts = sample_extensions();
    let ids = find_extensions(
        &exts,
        &Some(BasicManifestType::Json),
        &Some(BasicExtensionType::Theme),
        &Some("github.com".to_string()),
        &None,
        &Some(false),
    );
    assert_eq!(ids, vec!["night-theme".to_string()]);
}

#[test]
fn extension_lookup_finds_the_first_match() {
    let exts = sample_extensions();
    assert_eq!(extension_index_by_id(&exts, "assistant"), Some(3));
    assert_eq!(extension_index_by_id(&exts, "nobody"), None);
}

#[test]
fn count_or_list_counts_or_joins() {
    let items = vec!["a".to_string(), "b".to_string(), "c".to_string()];
    assert_eq!(count_or_list(items.clone(), true), "3");
    assert_eq!(count_or_list(items, false), "a\nb\nc");
    assert_eq!(count_or_list(Vec::new(), true), "0");
    assert_eq!(count_or_list(Vec::new(), false), "");

    let twelve: Vec<String> = (0..12).map(|i| format!("x{}", i)).collect();
    assert_eq!(count_or_list(twelve, true), "12");
}
