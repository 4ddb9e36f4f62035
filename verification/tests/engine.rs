use zenith::engine::{
    OverlapTotals, ScanEngine, ScanPass, ScanStep,
    add_scan_gap, aggregate_quality, containment_policies_are_compatible, exact_authorities_can_fold,
    same_string_set, scan_gap_kind, scan_unit_relationship, CategoryAccumulator,
};
use zenith::models::{
    CacheMetadata, CacheSizeSemantics, Category, CleanStrategy, CleanerFamily, CleanupDisposition,
    CleanupEligibility, CleanupUnit, CleanupUnitKind, DiscoveryScope, EligibilityGate, EntryKind, FileSize,
    ManagementMode, ObservationQuality, RiskTier, ScanGap, ScanGapKind, UnitRelationship,
};
use zenith::models::PlatformKind;
use zenith::registry::SignatureRegistry;
use zenith::relationship::UnitFacts;
use zenith::scan_types::{ScanEvent, ScanItem};
use zenith::signature::Signature;

fn item(id: &str, signature: &str, name: &str, risk: RiskTier, path: &str, bytes: u64) -> ScanItem {
    ScanItem {
        id: id.to_string(),
        signature_id: signature.to_string(),
        name: name.to_string(),
        category: Category::System,
        risk,
        path: path.to_string(),
        size: FileSize::new(bytes, Some(bytes)),
        file_count: 1,
        description: String::new(),
        cache_metadata: CacheMetadata { size_semantics: CacheSizeSemantics::Exact },
        disposition: CleanupDisposition {
            eligibility: CleanupEligibility::Blocked,
            cleanable_bytes: None,
            reason: None,
        },
        unit: CleanupUnit { kind: CleanupUnitKind::FixedPath, root: path.to_string(), path: path.to_string() },
        age: None,
        stale: None,
        structured_state: None,
        entry_kind: EntryKind::Directory,
        gate: EligibilityGate::Open,
        owner_running: false,
        is_selected: false,
        last_modified: None,
        exists: true,
        quality: ObservationQuality::Fresh,
        incomplete_reason: None,
        skipped_entry_count: 0,
    }
}

fn signature(id: &str) -> Signature {
    Signature {
        id: id.to_string(),
        name: id.to_string(),
        category: Category::System,
        family: CleanerFamily::System,
        risk: RiskTier::Safe,
        strategy: CleanStrategy::DeleteContents,
        paths: vec!["/tmp/cache".to_string()],
        exclusions: vec![],
        description: String::new(),
        min_age_days: None,
        include_prefixes: vec![],
        exclude_prefixes: vec![],
        intensive_only: false,
        platforms: vec![],
        discovery: DiscoveryScope::ModeGated,
        unit: None,
        owner: String::new(),
        priority: 0,
        fail_if_running: Vec::new(),
        provider: String::new(),
        provider_id: None,
        management_mode: ManagementMode::Generic,
        consequence: String::new(),
        reclaimable_is_lower_bound: false,
    }
}

#[test]
fn scan_gap_counts_merge_without_requiring_frontend_prose_parsing() {
    let mut gaps = Vec::new();
    add_scan_gap(&mut gaps, ScanGapKind::DepthLimit, 1);
    add_scan_gap(&mut gaps, ScanGapKind::DepthLimit, 2);
    add_scan_gap(&mut gaps, ScanGapKind::PermissionDenied, 1);
    assert_eq!(
        gaps,
        vec![
            ScanGap { kind: ScanGapKind::DepthLimit, count: 3 },
            ScanGap { kind: ScanGapKind::PermissionDenied, count: 1 },
        ]
    );
}

#[test]
fn observation_quality_aggregation_distinguishes_total_and_partial_failure() {
    assert_eq!(aggregate_quality(&[]), ObservationQuality::Fresh);
    assert_eq!(
        aggregate_quality(&[ObservationQuality::Fresh, ObservationQuality::Fresh]),
        ObservationQuality::Fresh
    );
    assert_eq!(
        aggregate_quality(&[ObservationQuality::Unavailable, ObservationQuality::Unavailable]),
        ObservationQuality::Unavailable
    );
    assert_eq!(
        aggregate_quality(&[ObservationQuality::Fresh, ObservationQuality::Unavailable]),
        ObservationQuality::Partial
    );
}

#[test]
fn a_zero_count_adds_no_gap_and_a_count_saturates() {
    let mut gaps = Vec::new();
    add_scan_gap(&mut gaps, ScanGapKind::IoError, 0);
    assert!(gaps.is_empty());
    add_scan_gap(&mut gaps, ScanGapKind::IoError, u64::MAX);
    add_scan_gap(&mut gaps, ScanGapKind::IoError, 5);
    assert_eq!(gaps, vec![ScanGap { kind: ScanGapKind::IoError, count: u64::MAX }]);
}

#[test]
fn scan_gaps_are_classified_from_the_reason_text() {
    let mut protected = item("gap", "gap", "Gap", RiskTier::Safe, "/Users/x/Library/Caches", 0);
    protected.quality = ObservationQuality::Unavailable;
    protected.incomplete_reason = Some("Operation not permitted".to_string());
    assert_eq!(scan_gap_kind(&protected, true), Some(ScanGapKind::FullDiskAccess));
    assert_eq!(scan_gap_kind(&protected, false), Some(ScanGapKind::PermissionDenied));
    protected.incomplete_reason = Some("Directory depth limit exceeded".to_string());
    assert_eq!(scan_gap_kind(&protected, true), Some(ScanGapKind::DepthLimit));
    protected.incomplete_reason = Some("Scan CANCELLED while measuring".to_string());
    assert_eq!(scan_gap_kind(&protected, true), Some(ScanGapKind::Cancelled));
    protected.incomplete_reason = Some("I/O failure".to_string());
    assert_eq!(scan_gap_kind(&protected, true), Some(ScanGapKind::IoError));
    let fresh = item("ok", "ok", "Ok", RiskTier::Safe, "/tmp/ok", 1);
    assert_eq!(scan_gap_kind(&fresh, true), None);
}

#[test]
fn string_sets_compare_with_multiplicity_and_without_order() {
    let a = vec!["x".to_string(), "y".to_string()];
    let b = vec!["y".to_string(), "x".to_string()];
    let c = vec!["x".to_string(), "x".to_string()];
    assert!(same_string_set(&a, &b));
    assert!(!same_string_set(&a, &c));
    assert!(!same_string_set(&a, &a[..1]));
}

#[test]
fn the_accumulator_retains_actionable_items_and_sorts_them() {
    let mut accumulator = CategoryAccumulator::new();
    assert!(accumulator.push(item("small", "s", "b-small", RiskTier::Safe, "/tmp/a", 100)).is_some());
    assert!(accumulator.push(item("large", "s", "a-large", RiskTier::Rebuild, "/tmp/b", 300)).is_some());
    assert!(accumulator.push(item("tie", "s", "a-tie", RiskTier::Safe, "/tmp/c", 100)).is_some());
    assert!(accumulator.push(item("empty", "s", "empty", RiskTier::Safe, "/tmp/d", 0)).is_none());
    let mut manual = item("manual", "m", "manual", RiskTier::Manual, "/tmp/e", 50);
    manual.quality = ObservationQuality::Partial;
    assert!(accumulator.push(manual).is_some());
    let mut gone = item("gone", "s", "gone", RiskTier::Safe, "/tmp/f", 10);
    gone.exists = false;
    assert!(accumulator.push(gone).is_none());

    let result = accumulator.finalize(Category::System, None);
    let ids: Vec<&str> = result.items.iter().map(|i| i.id.as_str()).collect();
    assert_eq!(ids, vec!["large", "tie", "small", "manual"]);
    assert_eq!(result.total_bytes, 550);
    assert_eq!(result.cleanable_bytes, 500);
    assert_eq!(result.safe_bytes, 200);
    assert_eq!(result.rebuild_bytes, 300);
    assert_eq!(result.manual_bytes, 50);
    assert_eq!(result.incomplete_item_count, 1);
    assert_eq!(result.quality, ObservationQuality::Partial);
    assert_eq!(result.items[0].disposition.eligibility, CleanupEligibility::Selectable);
    assert_eq!(result.items[1].disposition.eligibility, CleanupEligibility::AutoCleanable);
}

#[test]
fn a_forced_quality_overrides_the_items() {
    let mut accumulator = CategoryAccumulator::new();
    accumulator.push(item("a", "s", "a", RiskTier::Safe, "/tmp/a", 1));
    let result = accumulator.finalize(Category::Developer, Some(ObservationQuality::Partial));
    assert_eq!(result.quality, ObservationQuality::Partial);
    assert_eq!(result.category, Category::Developer);
}

#[test]
fn one_rule_folds_and_differing_rules_conflict() {
    let mut registry = SignatureRegistry::new();
    registry.register(signature("rule.a"));
    let mut stricter = signature("rule.b");
    stricter.fail_if_running = vec!["cargo".to_string()];
    registry.register(stricter);
    registry.register(signature("rule.c"));

    let a = item("a", "rule.a", "a", RiskTier::Safe, "/tmp/cache", 1);
    let a_again = item("a2", "rule.a", "a2", RiskTier::Safe, "/tmp/cache", 1);
    let b = item("b", "rule.b", "b", RiskTier::Safe, "/tmp/cache", 1);
    let c = item("c", "rule.c", "c", RiskTier::Safe, "/tmp/cache", 1);
    assert!(exact_authorities_can_fold(&a, &a_again, &registry));
    assert!(!exact_authorities_can_fold(&a, &b, &registry));
    assert!(exact_authorities_can_fold(&a, &c, &registry), "two entries that state one rule fold");
    assert!(!containment_policies_are_compatible(&b, &a, &registry));

    let unknown = item("u", "rule.unknown", "u", RiskTier::Safe, "/tmp/cache", 1);
    assert!(!containment_policies_are_compatible(&unknown, &a, &registry));

    let mut closed = b;
    closed.gate = EligibilityGate::IntensiveCleanupDisabled;
    assert!(containment_policies_are_compatible(&closed, &a, &registry), "a switched-off rule constrains nothing");
}

#[test]
fn the_scan_relationship_adds_policy_to_the_structure() {
    let mut registry = SignatureRegistry::new();
    registry.register(signature("rule.a"));
    let mut stricter = signature("rule.b");
    stricter.min_age_days = Some(7);
    registry.register(stricter);
    let unavailable = UnitFacts::unavailable();

    let parent = item("p", "rule.a", "p", RiskTier::Safe, "/tmp/cache", 1);
    let child = item("c", "rule.b", "c", RiskTier::Safe, "/tmp/cache/nested", 1);
    let twin = item("t", "rule.b", "t", RiskTier::Safe, "/tmp/cache/", 1);
    let sibling = item("s", "rule.a", "s", RiskTier::Safe, "/tmp/cacheX", 1);
    assert_eq!(
        scan_unit_relationship(&child, &unavailable, &parent, &unavailable, &registry),
        Some(UnitRelationship::AuthorityConflict)
    );
    assert_eq!(
        scan_unit_relationship(&twin, &unavailable, &parent, &unavailable, &registry),
        Some(UnitRelationship::EquivalentConflict)
    );
    assert_eq!(
        scan_unit_relationship(&sibling, &unavailable, &parent, &unavailable, &registry),
        Some(UnitRelationship::Distinct)
    );
    let nested_same_rule = item("n", "rule.a", "n", RiskTier::Safe, "/tmp/cache/nested", 1);
    assert_eq!(
        scan_unit_relationship(&nested_same_rule, &unavailable, &parent, &unavailable, &registry),
        Some(UnitRelationship::Contained)
    );
}

fn category(category: Category, items: Vec<ScanItem>, quality: ObservationQuality) -> zenith::scan_types::CategoryResult {
    let total: u64 = items.iter().map(|i| i.observed_bytes()).sum();
    let skipped: u64 = items.iter().map(|i| i.skipped_entry_count).sum();
    zenith::scan_types::CategoryResult {
        category,
        eligibility: zenith::eligibility::eligibility_summary(&items),
        items,
        total_bytes: total,
        cleanable_bytes: total,
        safe_bytes: total,
        rebuild_bytes: 0,
        manual_bytes: 0,
        quality,
        skipped_entry_count: skipped,
        incomplete_item_count: 0,
        suppressed_duplicate_count: 0,
        suppressed_duplicate_bytes: 0,
        suppressed_overlap_count: 0,
        suppressed_overlap_bytes: 0,
        ambiguous_overlap_count: 0,
        ambiguous_overlap_bytes: 0,
    }
}

fn metrics() -> zenith::scan_types::ScanMetrics {
    zenith::scan_types::ScanMetrics { duration_ms: 1, visited_entries: 2, directories_read: 3, peak_outstanding_directory_tasks: 4 }
}

#[test]
fn a_finished_scan_sums_its_categories_and_states_its_gaps() {
    let mut denied = item("d", "s", "d", RiskTier::Safe, "/Users/x/Library/Caches", 10);
    denied.quality = ObservationQuality::Unavailable;
    denied.incomplete_reason = Some("Permission denied".to_string());
    let mut denied_again = item("d2", "s", "d2", RiskTier::Safe, "/tmp/x", 5);
    denied_again.quality = ObservationQuality::Partial;
    denied_again.incomplete_reason = Some("Permission denied".to_string());
    let fine = item("f", "s", "f", RiskTier::Safe, "/tmp/f", 20);
    let categories = vec![
        category(Category::System, vec![denied, fine], ObservationQuality::Partial),
        category(Category::Developer, vec![denied_again], ObservationQuality::Partial),
    ];
    let overlap = OverlapTotals { suppressed_count: 1, suppressed_bytes: 7, ambiguous_count: 0, ambiguous_bytes: 0 };
    let result = ScanEngine::summarize(categories, true, 1, &[true, false, false], overlap, "scan".to_string(), 10, 20, metrics());
    assert_eq!(result.total_bytes, 35);
    assert_eq!(result.quality, ObservationQuality::Partial);
    assert_eq!(
        result.incomplete_reasons,
        vec![
            "Permission denied".to_string(),
            "Scan was cancelled before completion".to_string(),
            "A pattern's traversal stopped before it covered every root it names".to_string(),
        ]
    );
    assert_eq!(
        result.gaps,
        vec![
            ScanGap { kind: ScanGapKind::FullDiskAccess, count: 1 },
            ScanGap { kind: ScanGapKind::PermissionDenied, count: 1 },
            ScanGap { kind: ScanGapKind::Cancelled, count: 1 },
        ]
    );
    assert_eq!(result.suppressed_overlap_bytes, 7);
    assert!(result.cancelled);
    assert_eq!(result.categories.len(), 2);
}

#[test]
fn a_complete_scan_aggregates_its_quality() {
    let categories = vec![category(Category::System, vec![item("f", "s", "f", RiskTier::Safe, "/tmp/f", 20)], ObservationQuality::Fresh)];
    let overlap = OverlapTotals { suppressed_count: 0, suppressed_bytes: 0, ambiguous_count: 0, ambiguous_bytes: 0 };
    let result = ScanEngine::summarize(categories, false, 0, &[false], overlap, "scan".to_string(), 10, 20, metrics());
    assert_eq!(result.quality, ObservationQuality::Fresh);
    assert!(result.incomplete_reasons.is_empty());
    assert!(result.gaps.is_empty());
}

#[test]
fn a_pass_skips_excluded_signatures() {
    let mut registry = SignatureRegistry::new();
    let mut high = signature("rule.high");
    high.priority = 5;
    registry.register(high);
    registry.register(signature("rule.low"));
    registry.register(signature("rule.skip"));
    let excluded = vec!["rule.skip".to_string()];
    let planned: Vec<&str> = ScanEngine::planned_signatures(&registry, Category::System, false, PlatformKind::Linux, &excluded)
        .iter()
        .map(|s| s.id.as_str())
        .collect();
    assert_eq!(planned, vec!["rule.high", "rule.low"]);
}

fn slice(id: &str, started_at: u64, finished_at: u64, cancelled: bool, peak: u64) -> zenith::scan_types::ScanResult {
    let overlap = OverlapTotals { suppressed_count: 0, suppressed_bytes: 0, ambiguous_count: 0, ambiguous_bytes: 0 };
    let metrics = zenith::scan_types::ScanMetrics {
        duration_ms: 100,
        visited_entries: 10,
        directories_read: 2,
        peak_outstanding_directory_tasks: peak,
    };
    ScanEngine::summarize(Vec::new(), cancelled, 0, &[], overlap, id.to_string(), started_at, finished_at, metrics)
}

#[test]
fn slices_merge_into_one_snapshot_of_the_latest_scan() {
    let slices = vec![slice("first", 50, 60, false, 3), slice("second", 40, 90, false, 7), slice("third", 70, 120, false, 5)];
    let categories = vec![
        category(Category::System, vec![item("a", "s", "a", RiskTier::Safe, "/tmp/a", 30)], ObservationQuality::Fresh),
        category(Category::Developer, vec![item("b", "s", "b", RiskTier::Safe, "/tmp/b", 12)], ObservationQuality::Fresh),
    ];
    let overlap = OverlapTotals { suppressed_count: 2, suppressed_bytes: 9, ambiguous_count: 1, ambiguous_bytes: 4 };
    let merged = ScanEngine::merge_slices(&slices, categories, overlap, &[false, false]).expect("slices merge");
    assert_eq!(merged.scan_id, "third");
    assert_eq!(merged.started_at, 40, "the snapshot starts when the earliest slice did");
    assert_eq!(merged.finished_at, 120);
    assert_eq!(merged.total_bytes, 42);
    assert_eq!(merged.cleanable_bytes, 42);
    assert_eq!(merged.metrics.duration_ms, 300);
    assert_eq!(merged.metrics.visited_entries, 30);
    assert_eq!(merged.metrics.directories_read, 6);
    assert_eq!(merged.metrics.peak_outstanding_directory_tasks, 7);
    assert_eq!(merged.suppressed_overlap_count, 2);
    assert_eq!(merged.ambiguous_overlap_bytes, 4);
    assert_eq!(merged.quality, ObservationQuality::Fresh);
    assert!(!merged.cancelled);
    assert!(merged.incomplete_reasons.is_empty());
    assert!(merged.gaps.is_empty());
}

#[test]
fn a_cancelled_slice_makes_the_merged_scan_partial() {
    let slices = vec![slice("first", 10, 20, true, 1), slice("second", 30, 40, false, 1)];
    let categories = vec![category(Category::System, vec![item("a", "s", "a", RiskTier::Safe, "/tmp/a", 30)], ObservationQuality::Fresh)];
    let overlap = OverlapTotals { suppressed_count: 0, suppressed_bytes: 0, ambiguous_count: 0, ambiguous_bytes: 0 };
    let merged = ScanEngine::merge_slices(&slices, categories, overlap, &[false]).expect("slices merge");
    assert!(merged.cancelled);
    assert_eq!(merged.quality, ObservationQuality::Partial);
    assert_eq!(merged.incomplete_reasons, vec!["Scan was cancelled before completion".to_string()]);
    assert_eq!(merged.gaps, vec![ScanGap { kind: ScanGapKind::Cancelled, count: 1 }]);
}

#[test]
fn merged_totals_saturate_and_nothing_merges_from_no_slices() {
    let overlap = OverlapTotals { suppressed_count: 0, suppressed_bytes: 0, ambiguous_count: 0, ambiguous_bytes: 0 };
    assert!(ScanEngine::merge_slices(&[], Vec::new(), overlap, &[]).is_none());

    let mut huge = category(Category::System, vec![], ObservationQuality::Fresh);
    huge.total_bytes = u64::MAX - 1;
    let mut more = category(Category::Developer, vec![], ObservationQuality::Fresh);
    more.total_bytes = 5;
    let overlap = OverlapTotals { suppressed_count: 0, suppressed_bytes: 0, ambiguous_count: 0, ambiguous_bytes: 0 };
    let merged = ScanEngine::merge_slices(&[slice("only", 1, 2, false, 0)], vec![huge, more], overlap, &[]).expect("one slice merges");
    assert_eq!(merged.total_bytes, u64::MAX);
}

#[test]
fn a_scan_pass_runs_each_category_and_stops_on_cancellation() {
    let (mut pass, first) = ScanPass::start("scan-1".to_string(), None);
    assert!(matches!(first, ScanEvent::Started { ref scan_id } if scan_id == "scan-1"));
    assert_eq!(pass.targets, vec![Category::Ai, Category::Developer, Category::Container, Category::System]);
    let mut started = Vec::new();
    let mut found = 0;
    let mut round = 0;
    loop {
        let cancelled_now = round == 2;
        match pass.next_step(false) {
            (ScanStep::Done, event) => {
                assert!(event.is_none());
                break;
            }
            (ScanStep::Category(category), event) => {
                assert!(matches!(event, Some(ScanEvent::CategoryStarted { category: c }) if c == category));
                started.push(category);
                let mut accumulator = CategoryAccumulator::new();
                let retained = pass.record_item(&mut accumulator, item(&format!("i{round}"), "s", "n", RiskTier::Safe, "/tmp/x", 10));
                if let Some(ScanEvent::ItemFound { item }) = retained {
                    assert_eq!(item.id, format!("i{round}"));
                    found += 1;
                }
                pass.complete_category(accumulator, cancelled_now);
            }
        }
        round += 1;
    }
    assert_eq!(found, 3);
    assert_eq!(started, vec![Category::Ai, Category::Developer, Category::Container]);
    assert!(pass.cancelled);
    assert_eq!(pass.results.len(), 3);
    assert_eq!(pass.results[2].quality, ObservationQuality::Partial, "the interrupted category is partial");
    let finished = pass.finished_categories();
    assert_eq!(finished, vec![(Category::Ai, 10, 1), (Category::Developer, 10, 1)]);

    let categories = pass.results.clone();
    let overlap = OverlapTotals { suppressed_count: 0, suppressed_bytes: 0, ambiguous_count: 0, ambiguous_bytes: 0 };
    let (result, events) = pass.finish(categories, 0, &[false, false, false], overlap, 5, 9, metrics());
    assert!(pass.finished);
    assert_eq!(events.len(), 3);
    assert!(matches!(events[0], ScanEvent::CategoryFinished { category: Category::Ai, bytes: 10, item_count: 1 }));
    assert!(matches!(events[1], ScanEvent::CategoryFinished { category: Category::Developer, bytes: 10, item_count: 1 }));
    match &events[2] {
        ScanEvent::Finished { result: shown } => {
            assert_eq!(shown.scan_id, "scan-1");
            assert_eq!(shown.total_bytes, 30);
        }
        _ => panic!("the stream ends with the finish"),
    }
    assert!(result.cancelled);
    assert_eq!(result.total_bytes, 30);
    assert_eq!(result.quality, ObservationQuality::Partial);

    let (mut stopped_early, _) = ScanPass::start("scan-2".to_string(), Some(vec![Category::System]));
    assert!(matches!(stopped_early.next_step(true), (ScanStep::Done, None)));
    assert!(stopped_early.cancelled);
    assert!(stopped_early.results.is_empty());
}

/// A scan cancelled before its first category reports only its start and its
/// finish, and its result is an empty, partial, cancelled one.
#[test]
fn scan_engine_honors_cancellation_probe() {
    let mut stream = Vec::new();
    let (mut pass, first) = ScanPass::start("cancelled-scan".to_string(), None);
    stream.push(first);
    loop {
        let (step, event) = pass.next_step(true);
        if let Some(event) = event {
            stream.push(event);
        }
        if matches!(step, ScanStep::Done) {
            break;
        }
    }
    let overlap = OverlapTotals { suppressed_count: 0, suppressed_bytes: 0, ambiguous_count: 0, ambiguous_bytes: 0 };
    let (result, events) = pass.finish(Vec::new(), 0, &[], overlap, 1, 2, metrics());
    stream.extend(events);
    assert_eq!(stream.len(), 2);
    assert!(matches!(&stream[0], ScanEvent::Started { scan_id } if scan_id == "cancelled-scan"));
    assert!(matches!(&stream[1], ScanEvent::Finished { result } if result.cancelled));
    assert!(result.cancelled);
    assert_eq!(result.quality, ObservationQuality::Partial);
    assert_eq!(result.gaps, vec![ScanGap { kind: ScanGapKind::Cancelled, count: 1 }]);
    assert!(result.incomplete_reasons.iter().any(|s| s.contains("cancelled")));
    assert!(result.categories.is_empty());
    assert_eq!(result.total_bytes, 0);
}

/// When no filesystem object exists, text is a conservative case-sensitive
/// fallback rather than an OS-wide guess about the volume.
#[test]
fn unresolved_case_variant_units_remain_distinct() {
    let mut upper = item("case-upper", "test.case", "Cache", RiskTier::Safe, r"C:\Users\tester\Cache", 1_024);
    upper.file_count = 1;
    let mut lower = item("case-lower", "test.case", "Cache", RiskTier::Safe, r"c:\users\tester\cache", 1_024);
    lower.file_count = 1;
    let unavailable = UnitFacts::unavailable();
    let registry = SignatureRegistry::new();
    assert_eq!(
        scan_unit_relationship(&upper, &unavailable, &lower, &unavailable, &registry),
        Some(UnitRelationship::Distinct)
    );
    let mut accumulator = CategoryAccumulator::new();
    accumulator.push(upper);
    accumulator.push(lower);
    let categories = vec![accumulator.finalize(Category::Developer, None)];
    assert_eq!(categories[0].items.len(), 2);
    assert_eq!(categories[0].suppressed_duplicate_count, 0);
}

/// The breakdown explains the total: every observed byte lands in exactly
/// one eligibility bucket, and only the cleanable states carry cleanable
/// bytes.
#[test]
fn the_scan_reports_an_eligibility_breakdown_that_sums_to_the_total() {
    let cleanable = item("cleanable", "test.breakdown.cleanable", "Cleanable cache", RiskTier::Safe, "/tmp/cleanable-cache", 4_096);
    let mut blocked = item("blocked", "test.breakdown.blocked", "Structured state", RiskTier::Safe, "/tmp/blocked-cache/session.sqlite", 2_048);
    blocked.structured_state = Some(zenith::models::StructuredStateKind::Database);
    let mut accumulator = CategoryAccumulator::new();
    accumulator.push(cleanable);
    accumulator.push(blocked);
    let developer = accumulator.finalize(Category::Developer, None);

    let summary = developer.eligibility.copy();
    let bucket_total: u64 = summary.buckets.iter().map(|bucket| bucket.observed_bytes).sum();
    assert_eq!(bucket_total, developer.total_bytes);

    let auto = CleanupEligibility::AutoCleanable;
    let blocked_state = CleanupEligibility::Blocked;
    let cleanable_item = developer.items.iter().find(|item| item.disposition.eligibility == auto).expect("the cleanable cache is auto-cleanable");
    let blocked_item = developer.items.iter().find(|item| item.disposition.eligibility == blocked_state).expect("the structured file is blocked");
    assert_eq!(developer.eligibility_observed_bytes(auto), cleanable_item.observed_bytes());
    assert_eq!(developer.eligibility_observed_bytes(blocked_state), blocked_item.observed_bytes());
    assert_eq!(blocked_item.structured_state, Some(zenith::models::StructuredStateKind::Database));
    assert_eq!(cleanable_item.structured_state, None);
    assert_eq!(summary.cleanable_bytes(blocked_state), 0, "a blocked state never reports cleanable bytes");
    assert_eq!(developer.eligibility_items(auto), 1);
    assert_eq!(developer.eligibility_items(blocked_state), 1);

    let overlap = OverlapTotals { suppressed_count: 0, suppressed_bytes: 0, ambiguous_count: 0, ambiguous_bytes: 0 };
    let result = ScanEngine::summarize(vec![developer], false, 0, &[false, false], overlap, "s".to_string(), 1, 2, metrics());
    assert_eq!(result.eligibility_observed_bytes(auto), 4_096);
    assert_eq!(result.eligibility_observed_bytes(blocked_state), 2_048);
    let result_blocked = result.eligibility.buckets.iter().find(|bucket| bucket.eligibility == blocked_state).expect("a bucket per eligibility");
    assert_eq!(result_blocked.observed_bytes, 2_048);
    assert_eq!(result_blocked.cleanable_bytes, 0);
    assert_eq!(result.eligibility.buckets.len(), 5);
}

#[test]
fn scan_gap_classification_is_typed_and_full_disk_access_is_context_aware() {
    let mut protected = item("gap.protected", "gap.protected", "Protected", RiskTier::Safe, "/Users/fixture/Library/Containers/com.example/Data/Library/Caches", 0);
    protected.quality = ObservationQuality::Unavailable;
    protected.incomplete_reason = Some("Operation not permitted".to_string());
    assert_eq!(scan_gap_kind(&protected, true), Some(ScanGapKind::FullDiskAccess));

    protected.incomplete_reason = Some("Directory depth limit exceeded".to_string());
    assert_eq!(scan_gap_kind(&protected, true), Some(ScanGapKind::DepthLimit));

    protected.path = "/Users/fixture/ordinary".to_string();
    protected.incomplete_reason = Some("I/O failure".to_string());
    assert_eq!(scan_gap_kind(&protected, false), Some(ScanGapKind::IoError));
    protected.incomplete_reason = Some("Permission denied".to_string());
    assert_eq!(scan_gap_kind(&protected, false), Some(ScanGapKind::PermissionDenied));
}
