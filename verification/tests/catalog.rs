use touchbar::catalog::{
    Catalog, CatalogEntry, CatalogError, CatalogState, CatalogTier, MAX_CATALOG_BYTES,
};
use touchbar::source::GithubSource;

const VALID: &str = r#"
catalog_version = 1

[[plugin]]
alias = "media-controls"
source = "github:alice/touchbar-media"
name = "Media Controls"
description = "Playback controls and timeline scrubbing"
categories = ["audio", "media"]
tier = "curated"
state = "active"

[[plugin]]
alias = "system-controls"
source = "github:cameroncooper/touchbar-controls"
name = "System Controls"
description = "Volume, brightness, microphone, and power controls"
categories = ["audio", "system"]
tier = "first-party"
state = "active"
"#;

fn text(value: &toml::Value) -> String {
    value.as_str().unwrap().to_string()
}

/// A catalog as it stands in a document.
fn from_toml(document: &str) -> Result<Catalog, CatalogError> {
    Catalog::check_length(document)?;
    let table: toml::Table = document.parse().unwrap();
    let entry = |value: &toml::Value| {
        let source = text(&value["source"]);
        let (owner, repository) =
            source.strip_prefix("github:").unwrap().split_once('/').unwrap();
        CatalogEntry {
            alias: text(&value["alias"]),
            source: GithubSource::named(owner, repository),
            name: text(&value["name"]),
            description: text(&value["description"]),
            categories: value["categories"].as_array().unwrap().iter().map(text).collect(),
            tier: match text(&value["tier"]).as_str() {
                "listed" => CatalogTier::Listed,
                "curated" => CatalogTier::Curated,
                "first-party" => CatalogTier::FirstParty,
                other => panic!("{other}"),
            },
            state: match text(&value["state"]).as_str() {
                "active" => CatalogState::Active,
                "retired" => CatalogState::Retired,
                other => panic!("{other}"),
            },
        }
    };
    let plugins = table["plugin"].as_array().unwrap().iter().map(entry).collect();
    let catalog_version = table["catalog_version"].as_integer().unwrap() as u32;
    Catalog { catalog_version, plugins }.accept()
}

#[test]
fn aliases_are_exact_and_search_is_deterministic() {
    let catalog = from_toml(VALID).unwrap();
    assert_eq!(catalog.find("media-controls").unwrap().tier, CatalogTier::Curated);
    assert!(catalog.find("Media-Controls").is_none());
    let matches = catalog.search("controls", Some("audio"));
    assert_eq!(
        matches.iter().map(|entry| entry.alias.as_str()).collect::<Vec<_>>(),
        ["system-controls", "media-controls"]
    );
}

#[test]
fn duplicate_unsorted_and_forged_first_party_entries_are_rejected() {
    let invalid = VALID
        .replace("media-controls", "system-controls")
        .replace("github:alice/touchbar-media", "github:bob/touchbar-media")
        .replace("tier = \"curated\"", "tier = \"first-party\"");
    let error = from_toml(&invalid).unwrap_err().message();
    assert!(error.contains("duplicate catalog alias"));
    assert!(error.contains("first-party entries must be owned"));
    assert!(error.contains("uniquely sorted by alias"));
}

#[test]
fn categories_must_be_sorted_unique_identifiers() {
    let invalid = VALID.replace(
        "categories = [\"audio\", \"media\"]",
        "categories = [\"media\", \"audio\", \"audio\", \"Bad Category\"]",
    );
    let error = from_toml(&invalid).unwrap_err().message();
    assert!(error.contains("categories must be uniquely sorted"));
    assert!(error.contains("duplicate category"));
    assert!(error.contains("lowercase kebab-case"));
}

#[test]
fn display_metadata_rejects_invisible_and_bidi_control_characters() {
    for dangerous in ['\u{200b}', '\u{202e}', '\u{2067}', '\u{feff}'] {
        let invalid = VALID.replace("Media Controls", &format!("Media{dangerous} Controls"));
        assert!(from_toml(&invalid).is_err());
    }
}

#[test]
fn accepted_aliases_are_permanent_and_retirement_is_one_way() {
    let previous = from_toml(VALID).unwrap();
    let removed = from_toml(
        &VALID.split("[[plugin]]").take(2).collect::<Vec<_>>().join("[[plugin]]"),
    )
    .unwrap();
    assert!(removed.validate_transition(&previous).is_err());

    let retired = from_toml(&VALID.replace(
        "tier = \"curated\"\nstate = \"active\"",
        "tier = \"curated\"\nstate = \"retired\"",
    ))
    .unwrap();
    assert!(retired.validate_transition(&previous).is_ok());
    assert!(retired.resolve("media-controls").is_none());
    assert!(previous.validate_transition(&retired).is_err());

    let retargeted = from_toml(
        &VALID.replace("github:alice/touchbar-media", "github:alice/other-media"),
    )
    .unwrap();
    assert!(retargeted.validate_transition(&previous).is_err());
}

#[test]
fn oversized_documents_are_not_read() {
    assert!(Catalog::check_length(&"x".repeat(MAX_CATALOG_BYTES)).is_ok());
    let error = Catalog::check_length(&"x".repeat(MAX_CATALOG_BYTES + 1)).unwrap_err();
    assert_eq!(error.message(), format!("catalog exceeds {MAX_CATALOG_BYTES} bytes"));
    // the length is that of the encoded text
    assert!(Catalog::check_length(&"\u{e9}".repeat(MAX_CATALOG_BYTES / 2 + 1)).is_err());
    assert_eq!(
        CatalogError::Parse("bad".into()).message(),
        "could not parse catalog: bad"
    );
}

#[test]
fn sources_are_found_and_versions_are_fixed() {
    let catalog = from_toml(VALID).unwrap();
    let source = GithubSource::named("alice", "touchbar-media");
    assert_eq!(catalog.find_source(&source).unwrap().alias, "media-controls");
    assert!(catalog.find_source(&GithubSource::named("alice", "x")).is_none());
    let error = from_toml(&VALID.replace("catalog_version = 1", "catalog_version = 2"))
        .unwrap_err()
        .message();
    assert!(error.contains("unsupported catalog version 2; this build supports 1"));
    assert_eq!(
        [
            CatalogTier::Listed,
            CatalogTier::Curated,
            CatalogTier::FirstParty,
        ].map(|tier| tier.as_str()),
        ["listed", "curated", "first-party"]
    );
}
