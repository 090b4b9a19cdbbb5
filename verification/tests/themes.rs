use zeta::themes::resolve_theme;
use zeta::types::Theme;

fn family_captures(theme: &Theme) -> Vec<String> {
    let family = match theme {
        Theme::V1(Some(f)) => f,
        Theme::V2(Some(f)) => f,
        _ => panic!("expected a parsed family"),
    };
    let mut names: Vec<String> = Vec::new();
    for tc in &family.themes {
        for c in &tc.syntax_captures {
            names.push(c.clone());
        }
    }
    names
}

#[test]
fn v1_tagged_file_resolves_to_v1() {
    let text = r#"{
        "$schema": "https://zed.dev/schema/themes/v0.1.0.json",
        "name": "Nightfall",
        "author": "someone",
        "themes": [
            {
                "name": "Nightfall Dark",
                "appearance": "dark",
                "style": {
                    "syntax": {
                        "keyword": { "color": "red" },
                        "string": { "color": "green" }
                    }
                }
            }
        ]
    }"#;
    let theme = resolve_theme(text);
    assert!(matches!(theme, Theme::V1(Some(_))));
    assert_eq!(family_captures(&theme), vec!["keyword".to_string(), "string".to_string()]);
}

#[test]
fn v2_tagged_file_resolves_to_v2() {
    let text = r#"{
        "$schema": "https://zed.dev/schema/themes/v0.2.0.json",
        "name": "Daylight",
        "themes": [
            {
                "name": "Daylight Light",
                "appearance": "light",
                "style": { "syntax": { "comment": {} } }
            }
        ]
    }"#;
    let theme = resolve_theme(text);
    assert!(matches!(theme, Theme::V2(Some(_))));
    assert_eq!(family_captures(&theme), vec!["comment".to_string()]);
}

#[test]
fn v1_tagged_but_malformed_keeps_the_tag() {
    // The tag matches the first generation, but "themes" is not an array:
    // the structural parse fails and the fact that the tag matched is kept.
    let text = r#"{
        "$schema": "https://zed.dev/schema/themes/v0.1.0.json",
        "name": "Broken",
        "themes": "not-an-array"
    }"#;
    assert!(matches!(resolve_theme(text), Theme::V1(None)));
}

#[test]
fn v2_tagged_but_malformed_keeps_the_tag() {
    let text = r#"{
        "$schema": "https://zed.dev/schema/themes/v0.2.0.json",
        "themes": []
    }"#;
    assert!(matches!(resolve_theme(text), Theme::V2(None)));
}

#[test]
fn untagged_file_valid_under_both_resolves_to_v1() {
    // No "$schema" tag, and the structure is acceptable to both schema
    // generations: blind fallback tries the first generation first.
    let text = r#"{
        "name": "Ambiguous",
        "themes": [
            {
                "name": "Ambiguous Dark",
                "appearance": "dark",
                "style": { "syntax": { "keyword": {} } }
            }
        ]
    }"#;
    assert!(matches!(resolve_theme(text), Theme::V1(Some(_))));
}

#[test]
fn untagged_file_valid_only_under_v2_resolves_to_v2() {
    // A null syntax entry is acceptable only to the second generation.
    let text = r#"{
        "name": "Null Styles",
        "themes": [
            {
                "name": "Null Dark",
                "appearance": "dark",
                "style": { "syntax": { "keyword": null } }
            }
        ]
    }"#;
    assert!(matches!(resolve_theme(text), Theme::V2(Some(_))));
}

#[test]
fn unrecognized_tag_falls_back_to_blind_parsing() {
    let text = r#"{
        "$schema": "https://example.com/some-other-schema.json",
        "name": "Tagged Oddly",
        "themes": [
            {
                "name": "Odd Dark",
                "appearance": "dark",
                "style": {}
            }
        ]
    }"#;
    assert!(matches!(resolve_theme(text), Theme::V1(Some(_))));
}

#[test]
fn file_matching_no_schema_is_invalid() {
    assert!(matches!(resolve_theme(r#"{ "colors": [1, 2, 3] }"#), Theme::Invalid));
}

#[test]
fn text_that_is_not_json_is_invalid() {
    assert!(matches!(resolve_theme("not json at all {"), Theme::Invalid));
}

#[test]
fn lenient_parsing_accepts_comments_and_trailing_commas() {
    let text = r#"{
        // A hand-written theme file.
        "name": "Relaxed",
        "themes": [
            {
                "name": "Relaxed Dark",
                "appearance": "dark",
                "style": { "syntax": { "keyword": {}, } },
            },
        ],
    }"#;
    let theme = resolve_theme(text);
    assert!(matches!(theme, Theme::V1(Some(_))));
    assert_eq!(family_captures(&theme), vec!["keyword".to_string()]);
}

#[test]
fn appearance_must_be_light_or_dark() {
    let text = r#"{
        "name": "Wrong Appearance",
        "themes": [
            {
                "name": "Sepia",
                "appearance": "sepia",
                "style": {}
            }
        ]
    }"#;
    assert!(matches!(resolve_theme(text), Theme::Invalid));
}

#[test]
fn missing_syntax_table_means_no_captures() {
    let text = r#"{
        "name": "Plain",
        "themes": [
            {
                "name": "Plain Dark",
                "appearance": "dark",
                "style": {}
            }
        ]
    }"#;
    let theme = resolve_theme(text);
    assert!(matches!(theme, Theme::V1(Some(_))));
    assert_eq!(family_captures(&theme).len(), 0);
}
