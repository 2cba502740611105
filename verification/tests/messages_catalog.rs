use leansticky_core::messages::{LocalizedMessage, MessageCatalog};
use leansticky_core::model::ResolvedLocale;

/// Builds a catalog from YAML text of the bundled-messages format
/// (`key: { ja: ..., en: ... }`).
fn catalog_from_yaml(input: &str) -> MessageCatalog {
    let value: serde_yaml::Value = serde_yaml::from_str(input).expect("catalog should parse");
    let mut catalog = MessageCatalog::default();
    let mapping = value.as_mapping().expect("catalog should be a mapping");
    for (key, entry) in mapping {
        let key = key.as_str().expect("keys are strings").to_owned();
        let ja = entry.get("ja").and_then(|v| v.as_str()).map(|s| s.to_owned());
        let en = entry
            .get("en")
            .and_then(|v| v.as_str())
            .unwrap_or("")
            .to_owned();
        catalog.insert(key, LocalizedMessage { ja, en });
    }
    catalog
}

fn message(ja: Option<&str>, en: &str) -> LocalizedMessage {
    LocalizedMessage {
        ja: ja.map(|s| s.to_owned()),
        en: en.to_owned(),
    }
}

#[test]
fn falls_back_to_english_when_ja_is_missing() {
    let catalog = catalog_from_yaml(
        r#"
sample:
  en: English
"#,
    );

    assert_eq!(catalog.text(ResolvedLocale::Ja, "sample"), "English");
}

#[test]
fn japanese_text_is_used_when_present() {
    let mut catalog = MessageCatalog::default();
    catalog.insert("greeting".to_owned(), message(Some("こんにちは"), "Hello"));
    assert_eq!(catalog.text(ResolvedLocale::Ja, "greeting"), "こんにちは");
    assert_eq!(catalog.text(ResolvedLocale::En, "greeting"), "Hello");
}

#[test]
fn blank_japanese_falls_back_to_english() {
    let mut catalog = MessageCatalog::default();
    catalog.insert("greeting".to_owned(), message(Some(" \t\u{3000}"), "Hello"));
    assert_eq!(catalog.text(ResolvedLocale::Ja, "greeting"), "Hello");
}

#[test]
fn blank_english_shows_the_key() {
    let mut catalog = MessageCatalog::default();
    catalog.insert("greeting".to_owned(), message(Some("やあ"), "  "));
    assert_eq!(catalog.text(ResolvedLocale::En, "greeting"), "greeting");
    // Japanese falls back to the (blank) English text, not to the key.
    let mut other = MessageCatalog::default();
    other.insert("greeting".to_owned(), message(None, "  "));
    assert_eq!(other.text(ResolvedLocale::Ja, "greeting"), "  ");
}

#[test]
fn missing_key_shows_the_key() {
    let catalog = MessageCatalog::default();
    assert_eq!(catalog.text(ResolvedLocale::Ja, "nothing_here"), "nothing_here");
    assert_eq!(catalog.text(ResolvedLocale::En, "nothing_here"), "nothing_here");
}

#[test]
fn insert_replaces_an_existing_message() {
    let mut catalog = MessageCatalog::default();
    catalog.insert("k".to_owned(), message(None, "first"));
    catalog.insert("other".to_owned(), message(None, "other"));
    catalog.insert("k".to_owned(), message(None, "second"));
    assert_eq!(catalog.entries.len(), 2);
    assert_eq!(catalog.text(ResolvedLocale::En, "k"), "second");
    assert_eq!(catalog.text(ResolvedLocale::En, "other"), "other");
}
