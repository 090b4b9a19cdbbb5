//! Extension classification: deciding an extension's capability category
//! from its directory and manifest evidence.

use vstd::prelude::*;

verus! {

use crate::query::BasicExtensionType;
use crate::types::ExtensionMetadata;
use std::string::String;

/// Per-extension failures of corpus construction. They are collected and
/// reported; one failing extension does not abort the batch.
#[derive(Debug)]
pub enum CorpusError {
    /// Neither manifest file exists for the extension.
    MissingManifest { id: String },
    /// No directory or manifest evidence yields a capability category.
    UnclassifiableExtension { id: String },
    /// A manifest file exists but does not deserialize against its dialect.
    ManifestStructureError { id: String },
}

/// The classification decision. Directory evidence wins: a `languages`
/// directory means `Language`, else a `themes` directory means `Theme`.
/// Otherwise the manifest's capability fields decide, in dialect-specific
/// order; no evidence at all classifies nothing.
pub open spec fn spec_classify(
    has_languages_dir: bool,
    has_themes_dir: bool,
    metadata: ExtensionMetadata,
) -> Option<BasicExtensionType> {
    if has_languages_dir {
        Some(BasicExtensionType::Language)
    } else if has_themes_dir {
        Some(BasicExtensionType::Theme)
    } else {
        match metadata {
            ExtensionMetadata::TomlManifest(m) => if m.grammars is Some
                || m.language_servers is Some {
                Some(BasicExtensionType::Language)
            } else if m.slash_commands is Some {
                Some(BasicExtensionType::SlashCommand)
            } else if m.context_servers is Some {
                Some(BasicExtensionType::ContextServer)
            } else {
                Option::None
            },
            ExtensionMetadata::JsonManifest(m) => if m.grammars is Some || m.languages is Some {
                Some(BasicExtensionType::Language)
            } else if m.themes is Some {
                Some(BasicExtensionType::Theme)
            } else {
                Option::None
            },
        }
    }
}

/// Classifies one extension from its evidence, or reports it
/// unclassifiable under its id.
pub fn classify(
    id: &String,
    has_languages_dir: bool,
    has_themes_dir: bool,
    metadata: &ExtensionMetadata,
) -> (r: Result<BasicExtensionType, CorpusError>)
    ensures
        match spec_classify(has_languages_dir, has_themes_dir, *metadata) {
            Some(k) => r == Ok::<BasicExtensionType, CorpusError>(k),
            Option::None => r matches Err(CorpusError::UnclassifiableExtension { id: eid })
                && eid@ == id@,
        },
{
    if has_languages_dir {
        Ok(BasicExtensionType::Language)
    } else if has_themes_dir {
        Ok(BasicExtensionType::Theme)
    } else {
        match metadata {
            ExtensionMetadata::TomlManifest(m) => {
                if m.grammars.is_some() || m.language_servers.is_some() {
                    Ok(BasicExtensionType::Language)
                } else if m.slash_commands.is_some() {
                    Ok(BasicExtensionType::SlashCommand)
                } else if m.context_servers.is_some() {
                    Ok(BasicExtensionType::ContextServer)
                } else {
                    Err(CorpusError::UnclassifiableExtension { id: id.clone() })
                }
            },
            ExtensionMetadata::JsonManifest(m) => {
                if m.grammars.is_some() || m.languages.is_some() {
                    Ok(BasicExtensionType::Language)
                } else if m.themes.is_some() {
                    Ok(BasicExtensionType::Theme)
                } else {
                    Err(CorpusError::UnclassifiableExtension { id: id.clone() })
                }
            },
        }
    }
}

/// Classification is a pure function of the evidence: two runs over equal
/// evidence always decide the same category.
pub proof fn lemma_classify_deterministic(
    l1: bool,
    t1: bool,
    m1: ExtensionMetadata,
    l2: bool,
    t2: bool,
    m2: ExtensionMetadata,
)
    requires
        l1 == l2,
        t1 == t2,
        m1 == m2,
    ensures
        spec_classify(l1, t1, m1) == spec_classify(l2, t2, m2),
{
}

} // verus!
