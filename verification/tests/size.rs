use zenith::models::FileSize;
use zenith::size::{
    beyond_depth_limit, cancelled_before_reading, directory_precheck, measurement_for_metadata_error, reclaimed_between,
    unreadable_directory, DirectoryTally, EntryEvent, FailureRecord, MeasurementState, MetadataError, PathMeasurement,
};

#[test]
fn reclaimed_bytes_need_two_complete_measurements() {
    let before = PathMeasurement::complete(FileSize::new(100, Some(4096)), 3);
    let after = PathMeasurement::complete(FileSize::new(10, Some(1024)), 1);
    assert_eq!(reclaimed_between(&before, &after), Some(3072));
    assert_eq!(reclaimed_between(&after, &before), Some(0));
    let partial = PathMeasurement::incomplete(FileSize::new(10, None), 1, "x".to_string());
    assert_eq!(reclaimed_between(&before, &partial), None);
    assert_eq!(reclaimed_between(&partial, &after), None);
}

#[test]
fn a_missing_path_is_an_empty_observation() {
    let missing = measurement_for_metadata_error("/tmp/gone", &MetadataError::NotFound);
    assert!(missing.complete);
    assert_eq!(missing.file_count, 0);
    let denied = measurement_for_metadata_error("/tmp/x", &MetadataError::Other("denied".to_string()));
    assert!(!denied.complete);
    assert_eq!(denied.skipped_entries, 1);
    assert_eq!(denied.incomplete_reason.as_deref(), Some("Could not read metadata for /tmp/x: denied"));
}

#[test]
fn a_directory_walk_tallies_its_entries() {
    let mut tally = DirectoryTally::new();
    tally.observe("/d", EntryEvent::File { logical: 10, allocated: 4096 });
    tally.observe("/d", EntryEvent::Skipped);
    tally.observe("/d", EntryEvent::Link { logical: 5, allocated: 0 });
    let child = PathMeasurement::complete(FileSize::new(20, Some(8192)), 2);
    tally.observe("/d", EntryEvent::Directory { measurement: child });
    tally.observe("/d", EntryEvent::Other);
    let measured = tally.finish();
    assert!(measured.complete);
    assert_eq!(measured.size, FileSize::new(35, Some(12288)));
    assert_eq!(measured.file_count, 4);
    assert_eq!(measured.skipped_entries, 1);
}

#[test]
fn a_cancelled_walk_stops_and_keeps_its_first_reason() {
    let mut tally = DirectoryTally::new();
    tally.observe("/d", EntryEvent::Unreadable { error: "io".to_string() });
    tally.observe("/d", EntryEvent::Cancelled);
    tally.observe("/d", EntryEvent::File { logical: 10, allocated: 10 });
    assert!(tally.stopped);
    let measured = tally.finish();
    assert!(!measured.complete);
    assert_eq!(measured.file_count, 0, "nothing is accounted after the stop");
    assert_eq!(measured.skipped_entries, 2);
}

#[test]
fn a_directory_is_read_only_within_the_scan() {
    assert!(directory_precheck("/d", 1, 2, false).is_none());
    let cancelled = directory_precheck("/d", 1, 2, true).unwrap();
    assert_eq!(cancelled.incomplete_reason.as_deref(), Some("Scan cancelled while measuring /d"));
    let deep = directory_precheck("/d", 3, 2, false).unwrap();
    assert_eq!(deep.incomplete_reason.as_deref(), Some("Directory depth limit of 2 exceeded at /d"));
    assert_eq!(beyond_depth_limit("/e", 32).incomplete_reason.as_deref(), Some("Directory depth limit of 32 exceeded at /e"));
    assert_eq!(cancelled_before_reading("/f").skipped_entries, 1);
    assert_eq!(
        unreadable_directory("/g", "denied").incomplete_reason.as_deref(),
        Some("Failed to read directory /g: denied")
    );
}

#[test]
fn the_earliest_ranked_failure_is_the_reason_whatever_the_order() {
    let shallow = FailureRecord::new(1, "/b", "late".to_string());
    let deep = FailureRecord::new(2, "/a", "early".to_string());
    let mut first = MeasurementState::new();
    first.fail(deep.clone());
    first.fail(shallow.clone());
    let mut second = MeasurementState::new();
    second.fail(shallow.clone());
    second.fail(deep.clone());
    let a = first.finish();
    let b = second.finish();
    assert_eq!(a.incomplete_reason, b.incomplete_reason);
    assert_eq!(a.skipped_entries, 2);
    assert!(shallow.earlier_than(&deep));
    assert!(!deep.earlier_than(&shallow));
}

#[test]
fn metadata_errors_are_not_mistaken_for_missing_zero_byte_paths() {
    let denied = MetadataError::Other("denied".to_string());
    let measurement = measurement_for_metadata_error("/tmp/root", &denied);
    assert!(!measurement.complete);
    assert_eq!(measurement.skipped_entries, 1);
    assert!(measurement.incomplete_reason.is_some());

    let missing = measurement_for_metadata_error("/tmp/root/missing", &MetadataError::NotFound);
    assert!(missing.complete);
    assert_eq!(missing.skipped_entries, 0);
}
