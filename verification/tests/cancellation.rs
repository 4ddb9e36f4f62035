use std::sync::atomic::AtomicBool;
use std::sync::Arc;
use zenith::cancellation::{is_within_window, CancellationProbe, CancellationRegistry, ScanCancellation};

#[test]
fn a_registered_scan_is_cancelled_by_id() {
    let mut registry = CancellationRegistry::for_scans();
    let signal = Arc::new(AtomicBool::new(false));
    registry.register("scan-1".to_string(), signal.clone());
    let probe = ScanCancellation::new(signal);

    assert!(!probe.is_cancelled());
    assert!(registry.request("scan-1"));
    assert!(probe.is_cancelled());
}

#[test]
fn cancelling_an_unknown_scan_reports_that_nothing_was_running() {
    let mut registry = CancellationRegistry::for_scans();
    assert!(!registry.request("never-registered"));

    let signal = Arc::new(AtomicBool::new(false));
    registry.register("scan-2".to_string(), signal);
    registry.remove("scan-2");
    assert!(!registry.request("scan-2"));
}

#[test]
fn a_cancelled_scan_stays_cancelled_after_its_entry_is_removed() {
    let mut registry = CancellationRegistry::for_scans();
    let signal = Arc::new(AtomicBool::new(false));
    registry.register("scan-3".to_string(), signal.clone());
    let probe = ScanCancellation::new(signal);
    assert!(registry.request("scan-3"));
    registry.remove("scan-3");
    assert!(probe.is_cancelled());
}

#[test]
fn the_registry_evicts_the_oldest_entry_at_its_cap() {
    let mut registry = CancellationRegistry::new(60, 2);
    for id in ["first", "second", "third"] {
        registry.register(id.to_string(), Arc::new(AtomicBool::new(false)));
    }
    assert!(
        registry.signal("first").is_none(),
        "registrations in the same second are ordered by id, so the oldest is still the one evicted"
    );
    assert!(registry.signal("second").is_some());
    assert!(registry.signal("third").is_some());
}

#[test]
fn an_expired_entry_is_no_longer_cancellable() {
    let mut registry = CancellationRegistry::new(0, 4);
    let signal = Arc::new(AtomicBool::new(false));
    registry.register("scan-4".to_string(), signal.clone());
    assert!(!registry.request("scan-4"));
    assert!(!signal.load(std::sync::atomic::Ordering::SeqCst));
}

#[test]
fn a_registration_is_cancellable_until_its_window_closes() {
    let mut registry = CancellationRegistry::new(10, 4);
    let signal = Arc::new(AtomicBool::new(false));
    registry.register_at("scan-5".to_string(), signal.clone(), 100);
    assert!(registry.request_at("scan-5", 109));
    assert!(signal.load(std::sync::atomic::Ordering::SeqCst));
    assert!(!registry.request_at("scan-5", 110));
    assert_eq!(registry.len(), 0, "the expired entry was dropped");
}

#[test]
fn an_earlier_registration_is_evicted_before_a_later_one() {
    let mut registry = CancellationRegistry::new(60, 2);
    registry.register_at("zulu".to_string(), Arc::new(AtomicBool::new(false)), 10);
    registry.register_at("alpha".to_string(), Arc::new(AtomicBool::new(false)), 20);
    registry.register_at("mike".to_string(), Arc::new(AtomicBool::new(false)), 30);
    assert!(registry.signal_at("zulu", 30).is_none());
    assert!(registry.signal_at("alpha", 30).is_some());
    assert!(registry.signal_at("mike", 30).is_some());
}

#[test]
fn a_clock_that_went_back_keeps_the_window_open() {
    assert!(is_within_window(100, 50, 1));
    assert!(is_within_window(100, 100, 1));
    assert!(!is_within_window(100, 101, 1));
    assert!(!is_within_window(100, 100, 0));
}

/// The handle a scan registers is the one its cancel reaches, and removing
/// it ends that.
#[test]
fn a_registered_scan_cancel_reaches_the_signal_it_registered() {
    let mut registry = CancellationRegistry::for_scans();
    let signal = Arc::new(AtomicBool::new(false));
    registry.register("scan-1".to_string(), signal.clone());

    let reached = registry.signal("scan-1").expect("the registered handle is reachable");
    reached.store(true, std::sync::atomic::Ordering::Relaxed);
    assert!(signal.load(std::sync::atomic::Ordering::Relaxed));

    registry.remove("scan-1");
    assert!(
        registry.signal("scan-1").is_none(),
        "a finished scan's handle is removed, not left to expire"
    );
}
