use zenith::models::{
    CacheMetadata, CacheSizeSemantics, Category, CleanupDisposition, CleanupEligibility, CleanupUnit,
    CleanupUnitKind, EligibilityGate, EntryKind, FileSize, ObservationQuality, RiskTier, UnitRelationship,
};
use zenith::relationship::{actual_entry_name, ListedEntry, filesystem_relationship, path_key_text, same_directory_entry, text_relationship, unit_relationship, FileIdentity, UnitFacts};
use zenith::scan_types::ScanItem;

fn item(signature: &str, path: &str) -> ScanItem {
    ScanItem {
        id: format!("{signature}:{path}"),
        signature_id: signature.to_string(),
        name: signature.to_string(),
        category: Category::System,
        risk: RiskTier::Safe,
        path: path.to_string(),
        size: FileSize::new(1_024, Some(1_024)),
        file_count: 1,
        description: String::new(),
        cache_metadata: CacheMetadata { size_semantics: CacheSizeSemantics::Exact },
        disposition: CleanupDisposition { eligibility: CleanupEligibility::Blocked, cleanable_bytes: None, reason: None },
        unit: CleanupUnit { kind: CleanupUnitKind::FixedPath, root: path.to_string(), path: path.to_string() },
        age: None,
        stale: None,
        structured_state: None,
        entry_kind: EntryKind::Directory,
        gate: EligibilityGate::Open,
        owner_running: false,
        is_selected: false,
        last_modified: None,
        exists: true,
        quality: ObservationQuality::Fresh,
        incomplete_reason: None,
        skipped_entry_count: 0,
    }
}

fn id(index: u64) -> FileIdentity {
    FileIdentity { volume: 1, index }
}

fn facts(entity: u64, parent: u64, name: &str, ancestors: &[u64]) -> UnitFacts {
    UnitFacts {
        entity: Some(id(entity)),
        parent: Some(id(parent)),
        entry_name: Some(name.to_string()),
        ancestors: ancestors.iter().map(|a| Some(id(*a))).collect(),
    }
}

#[test]
fn missing_identity_falls_back_to_case_sensitive_text() {
    let upper = item("test.upper", r"C:\work\Cache");
    let lower = item("test.lower", r"C:\work\cache");
    let nested = item("test.nested", r"C:\work\Cache\nested");
    let unavailable = UnitFacts::unavailable();

    assert_eq!(
        unit_relationship(&upper, &unavailable, &lower, &unavailable),
        UnitRelationship::Distinct,
        "an unavailable identity does not fold two spellings into one"
    );
    assert_eq!(unit_relationship(&nested, &unavailable, &upper, &unavailable), UnitRelationship::Contained);
}

#[test]
fn stable_identity_finds_one_entry_under_two_spellings() {
    let stored = item("test.stored", "/fixture/Cache");
    let alternate = item("test.alternate", "/fixture/cache");
    let one_entry = facts(7, 2, "Cache", &[2, 1]);
    assert_eq!(unit_relationship(&stored, &one_entry, &alternate, &one_entry), UnitRelationship::Equivalent);
}

#[test]
fn containment_follows_the_real_ancestors() {
    let parent = facts(7, 2, "Cache", &[2, 1]);
    let child = facts(8, 7, "nested", &[7, 2, 1]);
    let sibling = facts(9, 2, "CacheX", &[2, 1]);
    assert_eq!(filesystem_relationship(&child, &parent), Some(UnitRelationship::Contained));
    assert_eq!(
        filesystem_relationship(&sibling, &parent),
        Some(UnitRelationship::Distinct),
        "a shared name prefix is not containment"
    );
}

#[test]
fn distinct_hardlinks_are_distinct_entries() {
    let first = facts(7, 2, "first", &[2]);
    let second = facts(7, 2, "second", &[2]);
    assert!(!same_directory_entry(&first, &second));
    assert_eq!(filesystem_relationship(&first, &second), Some(UnitRelationship::Distinct));
}

#[test]
fn one_unknown_identity_defers_to_text() {
    let known = facts(7, 2, "Cache", &[2]);
    assert_eq!(filesystem_relationship(&known, &UnitFacts::unavailable()), None);
}

#[test]
fn text_keys_unify_separators_and_drop_trailing_ones() {
    assert_eq!(path_key_text(r"C:\work\Cache\\"), "C:/work/Cache".chars().collect::<Vec<char>>());
    assert_eq!(text_relationship("/a/b/", "/a/b"), UnitRelationship::Equivalent);
    assert_eq!(text_relationship("/a/bc", "/a/b"), UnitRelationship::Distinct);
    assert_eq!(text_relationship("/a", "/"), UnitRelationship::Contained);
}

#[test]
fn the_stored_spelling_of_an_entry_is_found() {
    let listing = vec![
        ListedEntry { name: "Cache".to_string(), entity: Some(id(7)) },
        ListedEntry { name: "other".to_string(), entity: Some(id(8)) },
    ];
    assert_eq!(actual_entry_name("cache", &listing, id(7)), Some("Cache".to_string()));
    assert_eq!(actual_entry_name("Cache", &listing, id(7)), Some("Cache".to_string()));
    assert_eq!(actual_entry_name("cache", &listing, id(9)), None);
    let ambiguous = vec![
        ListedEntry { name: "CACHE".to_string(), entity: Some(id(7)) },
        ListedEntry { name: "Cache".to_string(), entity: Some(id(7)) },
    ];
    assert_eq!(actual_entry_name("cache", &ambiguous, id(7)), None);
    assert_eq!(actual_entry_name("Cache", &ambiguous, id(7)), Some("Cache".to_string()));
}
