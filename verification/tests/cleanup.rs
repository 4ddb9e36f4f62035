use zenith::cleanup::{admit_plan, decide_intent, select_quick_clean_safe_candidates, CleanupIntent};
use zenith::models::CleanStrategy;
use zenith::eligibility::{eligibility_summary, EligibilitySummary};
use zenith::models::{
    CacheMetadata, CacheSizeSemantics, Category, CleanupDisposition, CleanupEligibility, CleanupUnit, CleanupUnitKind,
    EligibilityGate, EntryKind, FileSize, ObservationQuality, RiskTier,
};
use zenith::scan_types::{CategoryResult, ScanItem, ScanMetrics, ScanResult};
use zenith::settings::ZenithSettings;

fn make_test_item(id: &str, risk: RiskTier, bytes: u64) -> ScanItem {
    let item = ScanItem {
        id: id.to_string(),
        signature_id: "test_sig".to_string(),
        name: "Test Item".to_string(),
        category: Category::System,
        risk,
        path: "/tmp/test".to_string(),
        size: FileSize::new(bytes, Some(bytes)),
        file_count: 1,
        description: String::new(),
        cache_metadata: CacheMetadata { size_semantics: CacheSizeSemantics::Exact },
        disposition: CleanupDisposition { eligibility: CleanupEligibility::Blocked, cleanable_bytes: None, reason: None },
        unit: CleanupUnit { kind: CleanupUnitKind::FixedPath, root: "/tmp/test".to_string(), path: "/tmp/test".to_string() },
        age: None,
        stale: None,
        structured_state: None,
        entry_kind: EntryKind::Directory,
        gate: EligibilityGate::Open,
        owner_running: false,
        is_selected: false,
        last_modified: None,
        exists: true,
        quality: ObservationQuality::Fresh,
        incomplete_reason: None,
        skipped_entry_count: 0,
    };
    item.with_derived_disposition()
}

fn make_test_scan(items: Vec<ScanItem>, category: Category) -> ScanResult {
    let cleanable = items.iter().map(|i| i.cleanable_bytes()).sum();
    ScanResult {
        cancelled: false,
        metrics: ScanMetrics { duration_ms: 0, visited_entries: 0, directories_read: 0, peak_outstanding_directory_tasks: 0 },
        scan_id: "scan_123".to_string(),
        valid_for_seconds: ScanResult::VALID_FOR_SECONDS,
        started_at: 995,
        finished_at: 1000,
        total_bytes: cleanable,
        cleanable_bytes: cleanable,
        safe_bytes: cleanable,
        rebuild_bytes: 0,
        manual_bytes: 0,
        categories: vec![CategoryResult {
            category,
            total_bytes: cleanable,
            cleanable_bytes: cleanable,
            safe_bytes: cleanable,
            rebuild_bytes: 0,
            manual_bytes: 0,
            quality: ObservationQuality::Fresh,
            skipped_entry_count: 0,
            incomplete_item_count: 0,
            suppressed_duplicate_count: 0,
            suppressed_duplicate_bytes: 0,
            suppressed_overlap_count: 0,
            suppressed_overlap_bytes: 0,
            ambiguous_overlap_count: 0,
            ambiguous_overlap_bytes: 0,
            eligibility: eligibility_summary(&items),
            items,
        }],
        incomplete_reasons: Vec::new(),
        gaps: Vec::new(),
        quality: ObservationQuality::Fresh,
        skipped_entry_count: 0,
        incomplete_item_count: 0,
        suppressed_duplicate_count: 0,
        suppressed_duplicate_bytes: 0,
        suppressed_overlap_count: 0,
        suppressed_overlap_bytes: 0,
        ambiguous_overlap_count: 0,
        ambiguous_overlap_bytes: 0,
        eligibility: EligibilitySummary { buckets: Vec::new() },
    }
}

#[test]
fn select_quick_clean_filters_categories_and_risk() {
    let safe_item = make_test_item("item_safe", RiskTier::Safe, 100);
    let rebuild_item = make_test_item("item_rebuild", RiskTier::Rebuild, 200);
    let scan = make_test_scan(vec![safe_item, rebuild_item], Category::System);

    let settings = ZenithSettings::default();
    let selected = select_quick_clean_safe_candidates(&scan, &settings);
    assert_eq!(selected, vec!["item_safe"]);
}

#[test]
fn quick_clean_skips_disabled_categories_and_stale_dispositions() {
    let scan = make_test_scan(vec![make_test_item("dev", RiskTier::Safe, 100)], Category::Developer);
    let settings = ZenithSettings { clean_developer_tools: false, ..ZenithSettings::default() };
    assert!(select_quick_clean_safe_candidates(&scan, &settings).is_empty());

    let mut stale = make_test_item("stale", RiskTier::Safe, 100);
    stale.size = FileSize::new(300, Some(300));
    let empty = make_test_item("empty", RiskTier::Safe, 0);
    let scan = make_test_scan(vec![stale, empty], Category::System);
    assert!(select_quick_clean_safe_candidates(&scan, &ZenithSettings::default()).is_empty());
}

#[test]
fn quick_clean_refuses_a_missing_expired_or_partial_scan() {
    let settings = ZenithSettings::default();
    let scan = make_test_scan(vec![make_test_item("safe", RiskTier::Safe, 100)], Category::System);
    assert_eq!(
        decide_intent(&CleanupIntent::QuickSafe, false, None, &settings, 1000).unwrap_err(),
        "The scan is no longer current. Scan again before cleaning."
    );
    assert_eq!(
        decide_intent(&CleanupIntent::QuickSafe, false, Some(&scan), &settings, 1300).unwrap_err(),
        "The scan has expired. Scan again before cleaning."
    );
    let mut partial = make_test_scan(vec![make_test_item("safe", RiskTier::Safe, 100)], Category::System);
    partial.quality = ObservationQuality::Partial;
    assert_eq!(
        decide_intent(&CleanupIntent::QuickSafe, false, Some(&partial), &settings, 1050).unwrap_err(),
        "Quick Clean needs a complete scan. Scan again before cleaning."
    );
    assert_eq!(
        decide_intent(&CleanupIntent::QuickSafe, false, Some(&scan), &settings, 1050).unwrap(),
        vec!["safe".to_string()]
    );
    let empty = make_test_scan(vec![], Category::System);
    assert!(decide_intent(&CleanupIntent::QuickSafe, false, Some(&empty), &settings, 1050).unwrap().is_empty());
}

#[test]
fn a_reviewed_plan_needing_confirmation_waits_for_it() {
    let settings = ZenithSettings::default();
    let unconfirmed = CleanupIntent::ReviewedSelection { confirmed: false };
    assert!(decide_intent(&unconfirmed, true, None, &settings, 0).unwrap_err().contains("requires explicit confirmation"));
    assert!(decide_intent(&unconfirmed, false, None, &settings, 0).unwrap().is_empty());
    assert!(decide_intent(&CleanupIntent::ReviewedSelection { confirmed: true }, true, None, &settings, 0).unwrap().is_empty());
}

#[test]
fn a_plan_is_admitted_only_when_it_mutates_and_quick_clean_needs_no_confirmation() {
    let refused = admit_plan(&CleanupIntent::QuickSafe, true, true, "a deletion", &[CleanStrategy::DeleteContents]);
    assert_eq!(refused, Err("Quick Clean cannot execute actions that require explicit confirmation.".to_string()));
    let reviewed = admit_plan(&CleanupIntent::ReviewedSelection { confirmed: true }, true, true, "a deletion", &[CleanStrategy::DeleteContents]);
    assert_eq!(reviewed, Ok(false));
    let projection = admit_plan(&CleanupIntent::ReviewedSelection { confirmed: true }, false, false, "a preview", &[]);
    assert_eq!(projection, Err("This plan is a preview and cannot be executed".to_string()));
    let prune = admit_plan(&CleanupIntent::QuickSafe, false, true, "a deletion", &[CleanStrategy::DeleteContents, CleanStrategy::DockerPrune]);
    assert_eq!(prune, Ok(true), "a Docker prune drops the shared Docker observation");
}
