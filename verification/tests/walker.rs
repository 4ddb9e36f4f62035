use zenith::models::{
    CacheSizeSemantics, Category, CleanStrategy, CleanerFamily, CleanupEligibility, CleanupUnitKind, DiscoveryScope,
    EligibilityGate, FileSize, ManagementMode, ObservationQuality, RiskTier,
};
use zenith::signature::Signature;
use zenith::size::SizeCalculator;
use zenith::walker::{
    format_bytes, is_excluded_entry, is_excluded_namespace, tree_precheck, AgedChild, DirectoryScanner, TreeEvent, TreeStats,
    TreeTally,
};

fn signature(paths: &[&str], min_age_days: Option<u32>) -> Signature {
    Signature {
        id: "test.walk".to_string(),
        name: "Walk".to_string(),
        category: Category::Developer,
        family: CleanerFamily::Developer,
        risk: RiskTier::Safe,
        strategy: CleanStrategy::DeleteContents,
        paths: paths.iter().map(|p| p.to_string()).collect(),
        exclusions: vec![],
        description: "Caches.".to_string(),
        min_age_days,
        include_prefixes: vec![],
        exclude_prefixes: vec![],
        intensive_only: false,
        platforms: vec![],
        discovery: DiscoveryScope::ModeGated,
        unit: None,
        owner: String::new(),
        priority: 0,
        fail_if_running: Vec::new(),
        provider: String::new(),
        provider_id: None,
        management_mode: ManagementMode::Generic,
        consequence: String::new(),
        reclaimable_is_lower_bound: false,
    }
}

#[test]
fn format_bytes_produces_readable_units() {
    assert_eq!(format_bytes(0), "0 B");
    assert_eq!(format_bytes(512), "512 B");
    assert_eq!(format_bytes(1024), "1 KB");
    assert_eq!(format_bytes(1536), "1.5 KB");
    assert_eq!(format_bytes(1048576), "1 MB");
    assert_eq!(format_bytes(524288000), "500 MB");
    assert_eq!(format_bytes(1073741824), "1 GB");
}

#[test]
fn format_bytes_rounds_to_one_decimal() {
    assert_eq!(format_bytes(1023), "1023 B");
    assert_eq!(format_bytes(1280), "1.2 KB", "an exact tie rounds to the even tenth");
    assert_eq!(format_bytes(1792), "1.8 KB", "an exact tie rounds to the even tenth");
    assert_eq!(format_bytes(1100), "1.1 KB");
    assert_eq!(format_bytes(1048575), "1024 KB");
    assert_eq!(format_bytes(1099511627776), "1 TB");
    assert_eq!(format_bytes(1099511627776 * 1500), "1500 TB");
}

#[test]
fn item_ids_name_the_pattern_key_and_child() {
    let single = signature(&["/tmp/a"], None);
    let double = signature(&["/tmp/a", "/tmp/b"], None);
    assert_eq!(DirectoryScanner::item_id_for(&single, 0, None, None), "test.walk");
    assert_eq!(DirectoryScanner::item_id_for(&double, 1, None, None), "test.walk.1");
    assert_eq!(DirectoryScanner::item_id_for(&single, 0, Some("key"), Some("child")), "test.walk.0.key.child");
    assert_eq!(DirectoryScanner::item_id_for(&single, 3, None, Some("child")), "test.walk.child");
}

#[test]
fn display_names_qualify_several_roots() {
    let single = signature(&["/tmp/a"], None);
    let double = signature(&["/tmp/a", "/tmp/b"], None);
    assert_eq!(DirectoryScanner::display_name_for(&single, Some("a"), None), "Walk");
    assert_eq!(DirectoryScanner::display_name_for(&double, Some("b"), None), "Walk (b)");
    assert_eq!(DirectoryScanner::display_name_for(&single, Some("a"), Some("key")), "Walk (key)");
}

#[test]
fn inaccessible_selector_pattern_produces_unavailable_item() {
    let sig = signature(&["/tmp/*/cache"], Some(3));
    let item = DirectoryScanner::unavailable_selector_item(
        &sig,
        "/tmp/locked",
        Some("locked"),
        0,
        1,
        2,
        "Permission denied".to_string(),
        EligibilityGate::Open,
    );
    assert_eq!(item.id, "test.walk.0.unavailable.1");
    assert_eq!(item.name, "Walk (locked)");
    assert_eq!(item.quality, ObservationQuality::Unavailable);
    assert_eq!(item.disposition.eligibility, CleanupEligibility::Blocked);
    assert_eq!(item.cache_metadata.size_semantics, CacheSizeSemantics::Informational);
    assert_eq!(item.description, "Caches. Age eligibility could not be verified, so cleanup is blocked.");
    assert_eq!(item.skipped_entry_count, 1);
    assert_eq!(item.unit.kind, CleanupUnitKind::ChildNamespace);
    assert_eq!(item.incomplete_reason.as_deref(), Some("Permission denied"));

    let lone = DirectoryScanner::unavailable_selector_item(&sig, "/tmp/Walk", Some("Walk"), 0, 0, 1, "x".to_string(), EligibilityGate::Open);
    assert_eq!(lone.id, "test.walk.unavailable");
    assert_eq!(lone.name, "Walk");
}

#[test]
fn an_unverified_age_blocks_the_candidate() {
    let sig = signature(&["/tmp/root"], Some(3));
    let item = DirectoryScanner::unavailable_aged_item(
        &sig,
        "/tmp/root/child",
        "test.walk.child".to_string(),
        "child".to_string(),
        FileSize::new(10, Some(12)),
        2,
        Some(5),
        1,
        "unreadable".to_string(),
        EligibilityGate::Open,
        true,
    );
    assert_eq!(item.disposition.eligibility, CleanupEligibility::Blocked);
    assert_eq!(item.cleanable_bytes(), 0);
    assert_eq!(item.size.allocated, Some(12));
    assert!(item.owner_running);
}

#[test]
fn namespace_exclusion_ignores_case() {
    let prefixes = vec!["FamilyCircle".to_string()];
    assert!(is_excluded_namespace("familycircled", &prefixes));
    assert!(!is_excluded_namespace("other", &prefixes));
}

#[test]
fn entry_exclusion_matches_names_and_path_text() {
    let exclusions = vec!["keep.bin".to_string(), "/protected/".to_string()];
    assert!(is_excluded_entry(Some("keep.bin"), "/tmp/keep.bin", &exclusions));
    assert!(is_excluded_entry(Some("x"), "/tmp/protected/x", &exclusions));
    assert!(!is_excluded_entry(Some("x"), "/tmp/x", &exclusions));
}

#[test]
fn tree_statistics_fold_children() {
    let mut stats = TreeStats::empty();
    stats.absorb(TreeStats::file(10, 16, Some(5), true));
    stats.absorb(TreeStats::file(20, 32, Some(9), false));
    stats.skip_entry();
    stats.absorb(TreeStats::stopped("depth".to_string()));
    assert_eq!(stats.logical, 30);
    assert_eq!(stats.allocated, 48);
    assert_eq!(stats.file_count, 2);
    assert_eq!(stats.stale_bytes, 16);
    assert_eq!(stats.stale_file_count, 1);
    assert_eq!(stats.newest_mtime, Some(9));
    assert_eq!(stats.skipped_entries, 2);
    assert!(!stats.complete);
    assert_eq!(stats.incomplete_reason.as_deref(), Some("depth"));
}

#[test]
fn a_resolved_exclusion_protects_its_subtree() {
    let exclusions = vec!["~/.cache/tool/keep".to_string(), "lock".to_string()];
    let resolved = vec![Some("/home/u/.cache/tool/keep".to_string()), None];
    assert!(SizeCalculator::is_excluded("/home/u/.cache/tool/keep/a", Some("a"), &exclusions, &resolved));
    assert!(SizeCalculator::is_excluded("/home/u/.cache/tool/keep", Some("keep"), &exclusions, &resolved));
    assert!(!SizeCalculator::is_excluded("/home/u/.cache/tool/keeper", Some("keeper"), &exclusions, &resolved));
    assert!(SizeCalculator::is_excluded("/home/u/.cache/tool/lock", Some("lock"), &exclusions, &resolved));
}

fn float_format(bytes: u64) -> String {
    const KIB: f64 = 1024.0;
    const MIB: f64 = 1024.0 * KIB;
    const GIB: f64 = 1024.0 * MIB;
    const TIB: f64 = 1024.0 * GIB;
    let b = bytes as f64;
    let (val, unit) = if b >= TIB {
        (b / TIB, "TB")
    } else if b >= GIB {
        (b / GIB, "GB")
    } else if b >= MIB {
        (b / MIB, "MB")
    } else if b >= KIB {
        (b / KIB, "KB")
    } else {
        return format!("{bytes} B");
    };
    let formatted = format!("{val:.1}");
    let trimmed = formatted.strip_suffix(".0").unwrap_or(&formatted);
    format!("{trimmed} {unit}")
}

#[test]
fn format_bytes_agrees_with_decimal_formatting_of_the_exact_ratio() {
    let mut samples: Vec<u64> = (0..5000).collect();
    for scale in [1u64 << 10, 1 << 20, 1 << 30, 1 << 40] {
        for tenth in 0..200u64 {
            let base = scale * tenth / 10;
            for delta in [0u64, 1, scale / 20, scale / 20 + 1, scale / 20 - 1] {
                samples.push(base.saturating_add(delta));
                samples.push(base.saturating_sub(delta));
            }
        }
    }
    samples.push(u64::MAX >> 11);
    for bytes in samples {
        assert_eq!(format_bytes(bytes), float_format(bytes), "{bytes}");
    }
}

#[test]
fn a_tree_tally_skips_excluded_entries_and_stops_on_cancellation() {
    let exclusions = vec!["keep".to_string()];
    let mut tally = TreeTally::new(Some(100));
    tally.observe("/root", &exclusions, TreeEvent::Entry {
        name: Some("data.bin".to_string()),
        path: "/root/data.bin".to_string(),
        stats: Some(TreeStats::leaf(10, 16, Some(50), 50 + 8 * 86400, Some(7))),
    });
    tally.observe("/root", &exclusions, TreeEvent::Entry {
        name: Some("keep".to_string()),
        path: "/root/keep".to_string(),
        stats: Some(TreeStats::leaf(99, 99, Some(500), 1000, None)),
    });
    tally.observe("/root", &exclusions, TreeEvent::Unreadable { error: "Permission denied".to_string() });
    tally.observe("/root", &exclusions, TreeEvent::Cancelled);
    tally.observe("/root", &exclusions, TreeEvent::Entry {
        name: Some("late.bin".to_string()),
        path: "/root/late.bin".to_string(),
        stats: Some(TreeStats::leaf(5, 5, Some(900), 1000, None)),
    });
    let stats = tally.finish();
    assert_eq!(stats.logical, 10, "an excluded entry and one read after a cancellation add nothing");
    assert_eq!(stats.allocated, 16);
    assert_eq!(stats.file_count, 1);
    assert_eq!(stats.stale_bytes, 16, "a file eight days old is stale under a seven-day policy");
    assert_eq!(stats.stale_file_count, 1);
    assert_eq!(stats.newest_mtime, Some(100));
    assert_eq!(stats.skipped_entries, 3);
    assert!(!stats.complete);
    assert_eq!(stats.incomplete_reason.as_deref(), Some("Failed to read entry in /root: Permission denied"));
}

#[test]
fn a_leaf_is_stale_only_when_its_own_age_reaches_the_policy() {
    let day = 86400;
    assert_eq!(TreeStats::leaf(1, 8, Some(0), 7 * day, Some(7)).stale_bytes, 8);
    assert_eq!(TreeStats::leaf(1, 8, Some(0), 7 * day - 1, Some(7)).stale_bytes, 0);
    assert_eq!(TreeStats::leaf(1, 8, None, 7 * day, Some(7)).stale_bytes, 0);
    assert_eq!(TreeStats::leaf(1, 8, Some(10 * day), 0, Some(7)).stale_bytes, 0, "a clock that went back ages nothing");
    assert_eq!(TreeStats::leaf(1, 8, Some(0), 70 * day, None).stale_bytes, 0);
}

#[test]
fn a_tree_walk_stops_at_a_cancelled_or_too_deep_root() {
    let cancelled = tree_precheck("/root", 0, 4, true).expect("stops");
    assert_eq!(cancelled.incomplete_reason.as_deref(), Some("Scan cancelled while measuring /root"));
    assert_eq!(cancelled.skipped_entries, 1);
    let deep = tree_precheck("/root/a", 5, 4, false).expect("stops");
    assert_eq!(deep.incomplete_reason.as_deref(), Some("Directory depth limit of 4 exceeded at /root/a"));
    assert!(tree_precheck("/root", 4, 4, false).is_none());
}

#[test]
fn absorbed_statistics_saturate() {
    let mut stats = TreeStats::file(u64::MAX - 1, u64::MAX, None, false);
    stats.absorb(TreeStats::file(5, 5, None, false));
    assert_eq!(stats.logical, u64::MAX);
    assert_eq!(stats.allocated, u64::MAX);
    assert_eq!(stats.file_count, 2);
}

#[test]
fn a_fixed_unit_states_how_complete_its_measurement_was() {
    let sig = signature(&["/tmp/one", "/tmp/two"], None);
    let complete = zenith::size::PathMeasurement::complete(FileSize::new(100, Some(128)), 3);
    let item = DirectoryScanner::fixed_unit_item(&sig, "/tmp/two", Some("two"), 1, None, true, complete, zenith::models::EntryKind::Directory, None, Some(7), EligibilityGate::Open);
    assert_eq!(item.id, "test.walk.1");
    assert_eq!(item.name, "Walk (two)");
    assert_eq!(item.quality, ObservationQuality::Fresh);
    assert_eq!(item.incomplete_reason, None);
    assert_eq!(item.last_modified, Some(7));
    assert_eq!(item.cache_metadata.size_semantics, CacheSizeSemantics::Exact);

    let partial = zenith::size::PathMeasurement::incomplete(FileSize::new(100, Some(128)), 3, "Permission denied".to_string());
    let item = DirectoryScanner::fixed_unit_item(&sig, "/tmp/two", Some("two"), 1, Some("key"), true, partial, zenith::models::EntryKind::Directory, None, None, EligibilityGate::Open);
    assert_eq!(item.id, "test.walk.1.key");
    assert_eq!(item.quality, ObservationQuality::Partial);
    assert_eq!(item.incomplete_reason.as_deref(), Some("Permission denied"));
    assert_eq!(item.cache_metadata.size_semantics, CacheSizeSemantics::ConservativeLowerBound);

    let nothing = zenith::size::PathMeasurement::incomplete(FileSize::zero(), 0, "Denied".to_string());
    let item = DirectoryScanner::fixed_unit_item(&sig, "/tmp/two", None, 1, None, true, nothing, zenith::models::EntryKind::Directory, None, None, EligibilityGate::Open);
    assert_eq!(item.quality, ObservationQuality::Unavailable);
    assert_eq!(item.cache_metadata.size_semantics, CacheSizeSemantics::Informational);
    assert_eq!(item.disposition.eligibility, CleanupEligibility::Blocked);

    let absent = zenith::size::PathMeasurement::incomplete(FileSize::zero(), 0, "gone".to_string());
    let item = DirectoryScanner::fixed_unit_item(&sig, "/tmp/two", None, 1, None, false, absent, zenith::models::EntryKind::Directory, None, Some(9), EligibilityGate::Open);
    assert_eq!(item.quality, ObservationQuality::Fresh, "an absent path is a complete observation of nothing");
    assert!(!item.exists);
    assert_eq!(item.last_modified, None);
}

#[test]
fn an_aged_child_is_described_by_its_age_and_its_stale_bytes() {
    let day = 86400;
    let mut sig = signature(&["/tmp/caches"], Some(7));
    sig.description = "App cache".to_string();
    sig.exclude_prefixes = vec!["com.apple.".to_string()];
    let mut stats = TreeStats::leaf(1024, 1024, Some(0), 30 * day, Some(7));
    let running = vec!["com.example.client".to_string()];

    match DirectoryScanner::aged_child(&sig, 7, "com.example.client", "/tmp/caches/com.example.client", &stats, 30 * day, &running) {
        AgedChild::Reported { description, owner_running, age_satisfied } => {
            assert_eq!(description, "App cache (unchanged for at least 7 days)");
            assert!(owner_running);
            assert!(age_satisfied);
        }
        _ => panic!("reported"),
    }
    // A namespace the signature excludes, whatever its case, is skipped.
    assert!(matches!(
        DirectoryScanner::aged_child(&sig, 7, "COM.APPLE.Safari", "/tmp/caches/x", &stats, 30 * day, &running),
        AgedChild::Skipped
    ));
    // Recent use keeps the child.
    match DirectoryScanner::aged_child(&sig, 7, "recent", "/tmp/caches/recent", &stats, 3 * day, &[]) {
        AgedChild::Reported { description, age_satisfied, owner_running } => {
            assert_eq!(description, "App cache (used within the last 7 days; kept until it is stale)");
            assert!(!age_satisfied && !owner_running);
        }
        _ => panic!("reported"),
    }
    // A signature that removes stale entries states how much is stale.
    sig.strategy = CleanStrategy::DeleteStaleContents;
    match DirectoryScanner::aged_child(&sig, 7, "com.example.client", "/tmp/caches/c", &stats, 30 * day, &[]) {
        AgedChild::Reported { description, .. } => {
            assert!(description.contains("of it has been inactive for at least 7 days"));
            assert!(!description.contains("7 of it has been inactive"));
            assert_eq!(description, "App cache (1 KB of it has been inactive for at least 7 days)");
        }
        _ => panic!("reported"),
    }
    // An incomplete tree cannot prove its age.
    stats.note_incomplete("Permission denied".to_string());
    match DirectoryScanner::aged_child(&sig, 7, "c", "/tmp/caches/c", &stats, 30 * day, &[]) {
        AgedChild::Unverified { reason } => assert_eq!(reason, "Permission denied"),
        _ => panic!("unverified"),
    }
    // An empty child unchanged for the window holds nothing to act on.
    let empty = TreeTally::new(Some(0)).finish();
    assert!(matches!(
        DirectoryScanner::aged_child(&sig, 7, "empty", "/tmp/caches/empty", &empty, 30 * day, &[]),
        AgedChild::Skipped
    ));
}

/// The aged walk's items carry the facts their disposition rests on: a
/// stale child is preselected, a recent one is kept with the window in its
/// reason, a running owner makes a child selectable only, and structured
/// state blocks it.
#[test]
fn aged_child_items_apply_age_owner_and_structured_state() {
    let day = 86400;
    let sig = signature(&["/tmp/caches"], Some(7));
    let stats = TreeStats::leaf(4096, 4096, Some(0), 30 * day, Some(7));

    let stale = DirectoryScanner::aged_child_item(&sig, 7, "stale.cache", "/tmp/caches/stale.cache", "/tmp/caches", 0, None, &stats, 30 * day, &[], None, EligibilityGate::Open)
        .expect("the stale child is inventoried");
    assert_eq!(stale.disposition.eligibility, CleanupEligibility::AutoCleanable);
    assert!(stale.is_selected);
    assert!(stale.cleanable_bytes() > 0);
    assert_eq!(stale.id, "test.walk.stale.cache");
    assert_eq!(stale.unit.root, "/tmp/caches");

    let recent = DirectoryScanner::aged_child_item(&sig, 7, "recent.cache", "/tmp/caches/recent.cache", "/tmp/caches", 0, Some("key"), &stats, 3 * day, &[], None, EligibilityGate::Open)
        .expect("the recent child is inventoried rather than dropped");
    assert_eq!(recent.disposition.eligibility, CleanupEligibility::Recent);
    assert_eq!(recent.cleanable_bytes(), 0);
    assert!(!recent.is_selected);
    assert!(recent.observed_bytes() > 0);
    assert!(recent.disposition.reason.as_deref().is_some_and(|reason| reason.contains('7')));
    assert_eq!(recent.name, "recent.cache (key)");
    let age = recent.age.expect("the age verdict travels with the unit");
    assert_eq!(age.min_age_days, 7);
    assert!(!age.satisfied);

    let owned = DirectoryScanner::aged_child_item(&sig, 7, "com.example.client", "/tmp/caches/c", "/tmp/caches", 0, None, &stats, 30 * day, &["com.example.client".to_string()], None, EligibilityGate::Open)
        .expect("reported");
    assert!(owned.owner_running);
    assert_eq!(owned.disposition.eligibility, CleanupEligibility::Selectable);
    assert!(!owned.is_selected);

    let database = DirectoryScanner::aged_child_item(&sig, 7, "session.sqlite", "/tmp/caches/session.sqlite", "/tmp/caches", 0, None, &stats, 30 * day, &[], Some(zenith::models::StructuredStateKind::Database), EligibilityGate::Open)
        .expect("the structured candidate is retained as a blocked observation");
    assert_eq!(database.disposition.eligibility, CleanupEligibility::Blocked);
    assert_eq!(database.cleanable_bytes(), 0);
    assert!(database.disposition.reason.as_deref().is_some_and(|reason| reason.contains("structured state")));

    let mut incomplete = TreeStats::leaf(4096, 4096, Some(0), 30 * day, Some(7));
    incomplete.complete = false;
    let unverified = DirectoryScanner::aged_child_item(&sig, 7, "partial", "/tmp/caches/partial", "/tmp/caches", 0, None, &incomplete, 30 * day, &[], None, EligibilityGate::Open)
        .expect("an incomplete tree is reported");
    assert_eq!(unverified.quality, ObservationQuality::Unavailable);
    assert_eq!(unverified.disposition.eligibility, CleanupEligibility::Blocked);
    assert_eq!(unverified.incomplete_reason.as_deref(), Some("Could not completely inspect /tmp/caches/partial"));

    let empty = TreeStats::leaf(0, 0, Some(0), 30 * day, Some(7));
    assert!(DirectoryScanner::aged_child_item(&sig, 7, "empty", "/tmp/caches/empty", "/tmp/caches", 0, None, &empty, 30 * day, &[], None, EligibilityGate::Open).is_none());
}

#[test]
fn an_aged_unit_root_carries_its_age_verdict() {
    let day = 86400;
    let sig = signature(&["/tmp/caches/GPUCache"], Some(7));
    let stats = TreeStats::leaf(4096, 4096, Some(0), 30 * day, Some(7));
    let aged = DirectoryScanner::aged_unit_item(&sig, 7, "/tmp/caches/GPUCache", Some("GPUCache"), 0, None, &stats, 30 * day, zenith::models::EntryKind::Directory, None, EligibilityGate::Open);
    assert_eq!(aged.disposition.eligibility, CleanupEligibility::AutoCleanable);
    assert_eq!(aged.description, "Caches. (unchanged for at least 7 days)");
    assert!(!aged.is_selected);
    let fresh = DirectoryScanner::aged_unit_item(&sig, 7, "/tmp/caches/GPUCache", Some("GPUCache"), 0, None, &stats, 2 * day, zenith::models::EntryKind::Directory, None, EligibilityGate::Open);
    assert_eq!(fresh.disposition.eligibility, CleanupEligibility::Recent);
    assert_eq!(fresh.disposition.reason.as_deref(), Some("Used within the last 7 days; kept until it is stale"));
    let executable = DirectoryScanner::aged_unit_item(&sig, 7, "/tmp/caches/GPUCache", None, 0, None, &stats, 30 * day, zenith::models::EntryKind::File, Some(zenith::models::StructuredStateKind::Executable), EligibilityGate::Open);
    assert_eq!(executable.disposition.eligibility, CleanupEligibility::Blocked);
    assert_eq!(executable.structured_state, Some(zenith::models::StructuredStateKind::Executable));
}

#[test]
fn blocked_candidates_and_incomplete_listings_are_reported_unavailable() {
    let mut sig = signature(&["/tmp/caches"], Some(7));
    let link = DirectoryScanner::blocked_child_item(&sig, "linked", "/tmp/caches/linked", 0, None, &zenith::walker::BlockedCandidate::Link, EligibilityGate::Open)
        .expect("a link is reported");
    assert_eq!(link.incomplete_reason.as_deref(), Some("Candidate /tmp/caches/linked is a link, junction, or mount point; cleanup is blocked"));
    assert_eq!(link.disposition.eligibility, CleanupEligibility::Blocked);
    assert_eq!(link.id, "test.walk.linked");
    assert_eq!(link.skipped_entry_count, 1);
    let denied = zenith::walker::BlockedCandidate::Inaccessible { message: "Permission denied".to_string() };
    let item = DirectoryScanner::blocked_child_item(&sig, "locked", "/tmp/caches/locked", 0, None, &denied, EligibilityGate::Open)
        .expect("an inaccessible child is reported");
    assert_eq!(item.incomplete_reason.as_deref(), Some("Could not inspect /tmp/caches/locked: Permission denied"));
    sig.include_prefixes = vec!["com.".to_string()];
    assert!(DirectoryScanner::blocked_child_item(&sig, "other", "/tmp/caches/other", 0, None, &denied, EligibilityGate::Open).is_none());

    let failure = DirectoryScanner::entry_failure("/tmp/caches", "Input/output error");
    assert_eq!(failure, "Could not read an entry in /tmp/caches: Input/output error");
    let root = DirectoryScanner::unavailable_root_item(&sig, "/tmp/caches", Some("caches"), 0, None, true, failure, EligibilityGate::Open);
    assert_eq!(root.id, "test.walk.unavailable");
    assert_eq!(root.name, "Walk (scan incomplete)");
    assert_eq!(root.quality, ObservationQuality::Unavailable);
    let reason = DirectoryScanner::blocked_reason("Configured path", "/tmp/caches", &zenith::walker::BlockedCandidate::Link);
    assert_eq!(reason, "Configured path /tmp/caches is a link, junction, or mount point; cleanup is blocked");
}

#[test]
fn a_missing_aged_root_names_its_path() {
    assert_eq!(DirectoryScanner::missing_root_reason("/tmp/gone"), "Configured path /tmp/gone does not exist");
}

#[test]
fn a_walk_refuses_application_bundles_and_names_what_failed() {
    assert!(zenith::walker::is_app_bundle("/Applications/Safari.app"));
    assert!(zenith::walker::is_app_bundle("/Applications/Tool.APP/"));
    assert!(!zenith::walker::is_app_bundle("/tmp/.app"));
    assert!(!zenith::walker::is_app_bundle("/tmp/app"));
    assert!(!zenith::walker::is_app_bundle("/tmp/bundle.apps"));
    assert!(!zenith::walker::is_app_bundle("/tmp/x.app/.."));
    let stats = TreeStats::refused("/Applications/Safari.app", zenith::walker::TreeRefusal::AppBundle);
    assert!(!stats.complete);
    assert_eq!(stats.skipped_entries, 1);
    assert_eq!(stats.incomplete_reason.as_deref(), Some("Protected application bundle encountered in /Applications/Safari.app"));
    let stats = TreeStats::refused("/tmp/x", zenith::walker::TreeRefusal::ListingUnreadable { error: "denied".to_string() });
    assert_eq!(stats.incomplete_reason.as_deref(), Some("Failed to read directory /tmp/x: denied"));
    let stats = TreeStats::refused("/tmp/x", zenith::walker::TreeRefusal::MetadataUnreadable { error: "gone".to_string() });
    assert_eq!(stats.incomplete_reason.as_deref(), Some("Failed to read metadata for /tmp/x: gone"));
}
