use memoria_derived::{normalize_tag, TagDictionary, TagId};

#[test]
fn normalization_collapses_whitespace_and_case() {
    assert_eq!(normalize_tag("  Rust \t Systems ").unwrap(), "rust systems");
    assert!(normalize_tag(" \n ").is_err());
}

#[test]
fn interning_is_stable_and_idempotent() {
    let mut dictionary = TagDictionary::new();
    let first = dictionary.intern("Career").unwrap();
    let second = dictionary.intern("  career ").unwrap();
    assert_eq!(first, second);
    assert_eq!(first, TagId::from_normalized("career"));
    assert_eq!(dictionary.len(), 1);
    assert_eq!(dictionary.resolve("CAREER"), Some(first));
    assert_eq!(dictionary.resolve("other"), None);
    assert_eq!(dictionary.value(first), Some("career"));
    assert!(dictionary.intern("   ").is_err());
    assert!(!dictionary.is_empty());
}

#[test]
fn tag_identity_text_is_prefixed_hex() {
    let id = TagId::from_bytes([0xab; 32]);
    assert_eq!(id.display_text(), format!("T_{}", "ab".repeat(32)));
}
