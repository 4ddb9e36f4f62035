use zenith::observation::{ScanLimits, TraversalCounters};

#[test]
fn counters_merge_without_losing_the_peak() {
    let mut outer = TraversalCounters::new();
    outer.visit_entries(3);
    outer.directory_read();
    outer.observe_outstanding_directory_tasks(2);

    let mut inner = TraversalCounters::new();
    inner.visit_entries(4);
    inner.directory_read();
    inner.observe_outstanding_directory_tasks(5);

    outer.merge(&inner);
    assert_eq!(outer.visited_entries(), 7);
    assert_eq!(outer.directories_read(), 2);
    assert_eq!(outer.peak_outstanding_directory_tasks(), 5);
}

#[test]
fn limits_state_a_usable_bound() {
    let default = ScanLimits::default();
    assert_eq!(default.max_depth, 32);
    assert!(default.max_concurrent_directory_reads >= 4);

    let cramped = ScanLimits::bounded(1, 0);
    assert_eq!(cramped.max_depth, 1);
    assert_eq!(
        cramped.max_concurrent_directory_reads, 1,
        "a limit of zero would deadlock the walk, so it is raised to one"
    );
}

#[test]
fn a_lower_observation_never_lowers_the_peak() {
    let mut counters = TraversalCounters::new();
    counters.observe_outstanding_directory_tasks(9);
    counters.observe_outstanding_directory_tasks(3);
    assert_eq!(counters.peak_outstanding_directory_tasks(), 9);
    let mut other = TraversalCounters::new();
    other.observe_outstanding_directory_tasks(4);
    counters.merge(&other);
    assert_eq!(counters.peak_outstanding_directory_tasks(), 9);
}
