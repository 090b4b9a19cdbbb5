use zeta::analyze::Corpus;
use zeta::query::{AnalysisQuery, SortOrder};
use zeta::types::{Extension, ExtensionMetadata, ExtensionType, Language, LanguageConfig,
    LanguageExtension, Theme, ThemeContent, ThemeExtension, ThemeFamilyContent, TomlManifest};

fn toml_manifest(name: &str) -> ExtensionMetadata {
    ExtensionMetadata::TomlManifest(TomlManifest {
        id: None,
        name: name.to_string(),
        description: None,
        version: "1.0.0".to_string(),
        schema_version: None,
        authors: Vec::new(),
        repository: "https://example.com/repo".to_string(),
        grammars: None,
        language_servers: None,
        context_servers: None,
        slash_commands: None,
    })
}

fn language_extension(id: &str, highlights: &[Option<&str>]) -> Extension {
    let languages = highlights
        .iter()
        .map(|h| Language {
            config: LanguageConfig {
                name: id.to_string(),
                grammar: id.to_string(),
                path_suffixes: None,
                line_comments: None,
                tab_size: None,
                hard_tabs: None,
                first_line_pattern: None,
            },
            highlights_queries: h.map(|s| s.to_string()),
            injections_queries: None,
            folds_queries: None,
            outline_queries: None,
            brackets_queries: None,
        })
        .collect();
    Extension {
        id: id.to_string(),
        metadata: toml_manifest(id),
        builtin: false,
        git_provider: Some("github.com".to_string()),
        kind: ExtensionType::Language(LanguageExtension { languages }),
    }
}

fn theme_extension(id: &str, captures: &[&str]) -> Extension {
    let content = ThemeContent {
        name: id.to_string(),
        appearance: "dark".to_string(),
        syntax_captures: captures.iter().map(|c| c.to_string()).collect(),
    };
    let family = ThemeFamilyContent { name: id.to_string(), themes: vec![content] };
    Extension {
        id: id.to_string(),
        metadata: toml_manifest(id),
        builtin: false,
        git_provider: Some("github.com".to_string()),
        kind: ExtensionType::Theme(ThemeExtension { themes: vec![Theme::V1(Some(family))] }),
    }
}

#[test]
fn usage_counting_ignores_repeats() {
    // One language whose query text uses @x three times: it contributes
    // exactly one count toward x's usage ranking.
    let exts = vec![language_extension("lang", &[Some("(a) @x (b) @x (c) @x")])];
    let corpus = Corpus::new(&exts);
    let ranked = corpus.captures_by_usage(&SortOrder::Desc, 0);
    assert_eq!(ranked.len(), 1);
    assert_eq!(ranked[0].0, "x");
    assert_eq!(ranked[0].1, 1);
}

#[test]
fn language_capture_lists_are_deduplicated_within_the_language() {
    let exts = vec![language_extension("lang", &[Some("(a) @x (b) @y (c) @x")])];
    let corpus = Corpus::new(&exts);
    assert_eq!(corpus.captures_by_language.len(), 1);
    assert_eq!(corpus.captures_by_language[0].1, vec!["x".to_string(), "y".to_string()]);
}

#[test]
fn theme_capture_sets_are_sorted_and_deduplicated() {
    let exts = vec![theme_extension("night", &["string", "keyword", "string", "comment"])];
    let corpus = Corpus::new(&exts);
    assert_eq!(corpus.captures_by_theme.len(), 1);
    assert_eq!(
        corpus.captures_by_theme[0].1,
        vec!["comment".to_string(), "keyword".to_string(), "string".to_string()]
    );
}

#[test]
fn ranking_is_deterministic_and_respects_limits() {
    // Capture counts a:5, b:5, c:1.
    let mut exts: Vec<Extension> = Vec::new();
    for i in 0..5 {
        let id = format!("lang-{}", i);
        exts.push(language_extension(&id, &[Some("(n) @a (m) @b")]));
    }
    exts.push(language_extension("lang-c", &[Some("(n) @c")]));

    let corpus = Corpus::new(&exts);

    let top2 = corpus.captures_by_usage(&SortOrder::Desc, 2);
    assert_eq!(top2.len(), 2);
    assert_eq!(top2[0], ("a".to_string(), 5));
    assert_eq!(top2[1], ("b".to_string(), 5));

    // The same query again returns the same ranking.
    let again = corpus.captures_by_usage(&SortOrder::Desc, 2);
    assert_eq!(top2, again);

    // Limit 0 means all entries.
    let all = corpus.captures_by_usage(&SortOrder::Desc, 0);
    assert_eq!(all.len(), 3);
    assert_eq!(all[2], ("c".to_string(), 1));

    // Ascending puts the rarest capture first.
    let asc = corpus.captures_by_usage(&SortOrder::Asc, 1);
    assert_eq!(asc, vec![("c".to_string(), 1)]);
}

#[test]
fn empty_capture_list_scores_zero_without_fault() {
    // A language with no highlight queries has an empty capture list; the
    // score is defined to be zero rather than dividing by zero.
    let exts = vec![
        language_extension("empty-lang", &[None]),
        theme_extension("some-theme", &["keyword"]),
    ];
    let corpus = Corpus::new(&exts);
    let ranked = corpus.languages_by_theme_support(&SortOrder::Desc, 0);
    assert_eq!(ranked, vec![("empty-lang".to_string(), 0)]);
}

#[test]
fn end_to_end_theme_support() {
    // One theme supporting {keyword, string}; one language using
    // {keyword, function}.
    let exts = vec![
        theme_extension("night-theme", &["keyword", "string"]),
        language_extension("rusty", &[Some("(k) @keyword (f) @function")]),
    ];
    let corpus = Corpus::new(&exts);

    let themes = corpus.themes_supporting_capture(&"keyword".to_string());
    assert_eq!(themes, vec!["night-theme".to_string()]);

    let nobody = corpus.themes_supporting_capture(&"function".to_string());
    assert_eq!(nobody.len(), 0);

    let langs = corpus.languages_using_capture(&"function".to_string());
    assert_eq!(langs, vec!["rusty".to_string()]);

    // depth = 1 (only keyword is supported, by one theme), breadth = 1,
    // |captures| = 2: score = 7 * 1 / 2 + 3 * 1 = 6.
    let scored = corpus.languages_by_theme_support(&SortOrder::Desc, 0);
    assert_eq!(scored, vec![("rusty".to_string(), 6)]);
}

#[test]
fn captures_by_theme_support_counts_themes() {
    let exts = vec![
        theme_extension("one", &["keyword", "string"]),
        theme_extension("two", &["keyword"]),
    ];
    let corpus = Corpus::new(&exts);
    let ranked = corpus.captures_by_theme_support(&SortOrder::Desc, 0);
    assert_eq!(ranked[0], ("keyword".to_string(), 2));
    assert_eq!(ranked[1], ("string".to_string(), 1));
}

#[test]
fn themes_by_capture_support_counts_only_used_captures() {
    let exts = vec![
        theme_extension("broad", &["keyword", "string", "comment"]),
        theme_extension("narrow", &["keyword"]),
        language_extension("lang", &[Some("(k) @keyword (c) @comment")]),
    ];
    let corpus = Corpus::new(&exts);
    let ranked = corpus.themes_by_capture_support(&SortOrder::Desc, 0);
    // "broad" supports two used captures (keyword, comment); "narrow" one.
    assert_eq!(ranked[0], ("broad".to_string(), 2));
    assert_eq!(ranked[1], ("narrow".to_string(), 1));
}

#[test]
fn handle_query_renders_count_lines() {
    let exts = vec![
        language_extension("l1", &[Some("(n) @a (m) @b")]),
        language_extension("l2", &[Some("(n) @a")]),
    ];
    let corpus = Corpus::new(&exts);
    let out = corpus.handle_query(&AnalysisQuery::CapturesByUsage {
        order: SortOrder::Desc,
        limit: 0,
    });
    assert_eq!(out, "a: 2\nb: 1");
}

#[test]
fn handle_query_counts_and_lists_supporting_themes() {
    let exts = vec![
        theme_extension("t1", &["keyword"]),
        theme_extension("t2", &["keyword", "string"]),
    ];
    let corpus = Corpus::new(&exts);
    let listed = corpus.handle_query(&AnalysisQuery::ThemesSupportingCapture {
        capture: "keyword".to_string(),
        count: false,
    });
    assert_eq!(listed, "t1\nt2");
    let counted = corpus.handle_query(&AnalysisQuery::ThemesSupportingCapture {
        capture: "keyword".to_string(),
        count: true,
    });
    assert_eq!(counted, "2");
}

#[test]
fn unparsed_theme_files_contribute_nothing() {
    let family = ThemeFamilyContent {
        name: "good".to_string(),
        themes: vec![ThemeContent {
            name: "good dark".to_string(),
            appearance: "dark".to_string(),
            syntax_captures: vec!["keyword".to_string()],
        }],
    };
    let ext = Extension {
        id: "mixed".to_string(),
        metadata: toml_manifest("mixed"),
        builtin: false,
        git_provider: Some("github.com".to_string()),
        kind: ExtensionType::Theme(ThemeExtension {
            themes: vec![Theme::V1(None), Theme::Invalid, Theme::V2(Some(family))],
        }),
    };
    let corpus = Corpus::new(&vec![ext]);
    assert_eq!(corpus.captures_by_theme[0].1, vec!["keyword".to_string()]);
}

#[test]
fn malformed_query_text_contributes_no_captures() {
    // A language definition whose highlight text is not query syntax at
    // all still leaves corpus construction intact.
    let exts = vec![language_extension("odd", &[Some("@@@ ((( not a query")])];
    let corpus = Corpus::new(&exts);
    assert_eq!(corpus.captures_by_language.len(), 1);
    let ranked = corpus.captures_by_usage(&SortOrder::Desc, 0);
    for entry in &ranked {
        assert_eq!(entry.1, 1);
    }
}

#[test]
fn empty_corpus_answers_every_query_with_nothing() {
    let corpus = Corpus::new(&Vec::new());
    assert_eq!(corpus.captures_by_usage(&SortOrder::Desc, 0).len(), 0);
    assert_eq!(corpus.captures_by_theme_support(&SortOrder::Asc, 5).len(), 0);
    assert_eq!(corpus.themes_supporting_capture(&"keyword".to_string()).len(), 0);
    assert_eq!(corpus.languages_by_theme_support(&SortOrder::Desc, 0).len(), 0);
    let out = corpus.handle_query(&AnalysisQuery::CapturesByUsage {
        order: SortOrder::Desc,
        limit: 0,
    });
    assert_eq!(out, "");
}

#[test]
fn command_extensions_contribute_to_no_index() {
    let slash = Extension {
        id: "assistant".to_string(),
        metadata: toml_manifest("assistant"),
        builtin: false,
        git_provider: Some("github.com".to_string()),
        kind: ExtensionType::SlashCommand,
    };
    let context = Extension {
        id: "helper".to_string(),
        metadata: toml_manifest("helper"),
        builtin: false,
        git_provider: Some("github.com".to_string()),
        kind: ExtensionType::ContextServer,
    };
    let corpus = Corpus::new(&vec![slash, context]);
    assert_eq!(corpus.captures_by_language.len(), 0);
    assert_eq!(corpus.captures_by_theme.len(), 0);
}
