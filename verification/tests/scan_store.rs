use zenith::models::{Category, ObservationQuality};
use zenith::scan_store::{ScanCheckpoint, ScanStore};
use zenith::scan_types::{ResumeScanRequest, ScanDiscovery, ScanMetrics, ScanRequest, ScanResult};

fn make_test_scan(scan_id: &str, finished_at: u64) -> ScanResult {
    ScanResult {
        cancelled: false,
        metrics: ScanMetrics {
            duration_ms: 0,
            visited_entries: 0,
            directories_read: 0,
            peak_outstanding_directory_tasks: 0,
        },
        scan_id: scan_id.to_string(),
        valid_for_seconds: ScanResult::VALID_FOR_SECONDS,
        started_at: finished_at.saturating_sub(5),
        finished_at,
        total_bytes: 500,
        cleanable_bytes: 500,
        safe_bytes: 500,
        rebuild_bytes: 0,
        manual_bytes: 0,
        categories: vec![],
        incomplete_reasons: vec![],
        gaps: vec![],
        quality: ObservationQuality::Fresh,
        skipped_entry_count: 0,
        incomplete_item_count: 0,
        suppressed_duplicate_count: 0,
        suppressed_duplicate_bytes: 0,
        suppressed_overlap_count: 0,
        suppressed_overlap_bytes: 0,
        ambiguous_overlap_count: 0,
        ambiguous_overlap_bytes: 0,
        eligibility: zenith::eligibility::EligibilitySummary { buckets: Vec::new() },
    }
}

fn checkpoint(anchor: u64) -> ScanCheckpoint {
    ScanCheckpoint {
        request: ScanRequest { categories: None, excluded_signatures: vec![], intensive_cleanup: false },
        remaining_categories: vec![Category::System],
        slices: vec![],
        freshness_anchor: anchor,
    }
}

#[test]
fn set_get_and_invalidate() {
    let mut store = ScanStore::new();
    assert!(store.get().is_none());
    store.set(make_test_scan("s1", 1000));
    assert_eq!(store.get().unwrap().scan_id, "s1");
    store.invalidate();
    assert!(store.get().is_none());
}

#[test]
fn continuation_is_one_shot_and_mismatch_does_not_consume_it() {
    let mut store = ScanStore::new();
    let lease = store.begin();
    let published = store.publish(lease, make_test_scan("s1", 1000), Some(checkpoint(1000))).unwrap();
    let ScanDiscovery::Paused { continuation_id } = published.discovery else {
        panic!("expected paused scan")
    };
    assert!(store
        .claim(&ResumeScanRequest { scan_id: "s1".into(), continuation_id: "wrong".into() }, 1001)
        .is_err());
    let request = ResumeScanRequest { scan_id: "s1".into(), continuation_id };
    assert!(store.claim(&request, 1001).is_ok());
    assert!(store.claim(&request, 1001).is_err());
}

#[test]
fn late_worker_cannot_publish_after_new_generation() {
    let mut store = ScanStore::new();
    let old = store.begin();
    let current = store.begin();
    assert!(store.publish(old, make_test_scan("old", 1000), None).is_err());
    assert!(store.publish(current, make_test_scan("new", 1000), None).is_ok());
    assert_eq!(store.get().unwrap().scan_id, "new");
}

#[test]
fn resume_preserves_original_freshness_anchor() {
    let mut store = ScanStore::new();
    let lease = store.begin();
    let published = store.publish(lease, make_test_scan("s1", 1000), Some(checkpoint(1000))).unwrap();
    let ScanDiscovery::Paused { continuation_id } = published.discovery else {
        panic!("expected paused scan")
    };
    let claimed = store.claim(&ResumeScanRequest { scan_id: "s1".into(), continuation_id }, 1001).unwrap();
    let resumed = store.publish(claimed.lease, make_test_scan("s2", 1100), Some(checkpoint(1000))).unwrap();
    assert_eq!(resumed.result.finished_at, 1000);
}

#[test]
fn continuation_expires_at_the_absolute_boundary_and_never_authorizes_cleanup() {
    let mut store = ScanStore::new();
    let lease = store.begin();
    let published = store.publish(lease, make_test_scan("s1", 1000), Some(checkpoint(1000))).unwrap();
    let ScanDiscovery::Paused { continuation_id } = published.discovery else {
        panic!("expected paused scan")
    };
    assert!(store.get().is_none(), "paused discovery cannot authorize cleanup");
    assert!(store.claim(&ResumeScanRequest { scan_id: "s1".into(), continuation_id }, 1300).is_err());
    assert!(matches!(store.get_published().unwrap().discovery, ScanDiscovery::Stopped { .. }));
}

#[test]
fn validate_and_invalidate_for_cleanup_atomically_clears() {
    let mut store = ScanStore::new();
    store.set(make_test_scan("s1", 1000));
    let validated = store.validate_and_invalidate_for_cleanup(&"s1".to_string(), 1010).unwrap();
    assert_eq!(validated.scan_id, "s1");
    assert!(store.get().is_none());
    assert!(store.validate_and_invalidate_for_cleanup(&"s1".to_string(), 1015).is_err());
}

#[test]
fn a_scan_past_its_validity_window_does_not_authorize_cleanup() {
    let mut store = ScanStore::new();
    store.set(make_test_scan("s1", 1000));
    assert!(store.validate_and_invalidate_for_cleanup(&"s1".to_string(), 1300).is_err());
    assert!(store.validate_and_invalidate_for_cleanup(&"other".to_string(), 1010).is_err());
    assert_eq!(store.get().unwrap().scan_id, "s1", "a refusal changes nothing");
}

#[test]
fn a_running_pass_withholds_the_published_scan() {
    let mut store = ScanStore::new();
    store.set(make_test_scan("s1", 1000));
    let lease = store.begin();
    assert!(store.get().is_none());
    store.stop(lease, "cancelled".to_string());
    assert!(store.get().is_none(), "a new generation published nothing");
}

#[test]
fn a_stopped_pass_publishes_its_reason() {
    let mut store = ScanStore::new();
    let lease = store.begin();
    let published = store.publish_stopped(lease, make_test_scan("s1", 1000), "cancelled".to_string()).unwrap();
    assert!(matches!(published.discovery, ScanDiscovery::Stopped { ref reason } if reason == "cancelled"));
    assert!(store.get().is_none(), "a stopped discovery does not authorize cleanup");
}
