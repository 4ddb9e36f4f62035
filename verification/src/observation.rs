//! What one scan states about its own traversal: its bounds, its progress, and
//! what it observed while walking.
use vstd::prelude::*;
use crate::scan_types::ScanItem;

verus! {

/// The bounds one scan runs under.
#[derive(Debug, Clone, Copy, PartialEq, Eq, Structural)]
pub struct ScanLimits {
    /// How many directory levels below a root the walk may descend. A deeper
    /// entry is counted and reported as the reason a measurement is incomplete.
    pub max_depth: usize,
    /// How many directory reads one walk may keep in flight at once.
    pub max_concurrent_directory_reads: usize,
}

impl ScanLimits {
    /// The production limits: deep enough for any real cache tree, shallow
    /// enough that a pathological tree cannot walk forever.
    pub fn default_limits() -> (limits: Self)
        ensures
            limits.max_depth == 32,
            limits.max_concurrent_directory_reads == 16,
    {
        ScanLimits { max_depth: 32, max_concurrent_directory_reads: 16 }
    }

    /// The limits a fixture states for a small, deterministic walk. A walk
    /// always allows at least one directory read: a limit of zero would
    /// deadlock it.
    pub fn bounded(max_depth: usize, max_concurrent_directory_reads: usize) -> (limits: Self)
        ensures
            limits.max_depth == max_depth,
            limits.max_concurrent_directory_reads == if max_concurrent_directory_reads == 0 {
                1
            } else {
                max_concurrent_directory_reads
            },
    {
        let reads = if max_concurrent_directory_reads == 0 {
            1
        } else {
            max_concurrent_directory_reads
        };
        ScanLimits { max_depth, max_concurrent_directory_reads: reads }
    }
}

impl Default for ScanLimits {
    fn default() -> (limits: Self)
        ensures
            limits.max_depth == 32,
            limits.max_concurrent_directory_reads == 16,
    {
        Self::default_limits()
    }
}

/// Where a walk reports the root it is about to read. Results never depend on
/// whether anything is listening.
pub trait RootProgressSink {
    /// One root of one signature is about to be read.
    fn root_started(&self, signature_id: &str, root: &str);
}

/// A sink that reports nothing: the walk still works, it just says less.
pub struct NoRootProgress;

impl RootProgressSink for NoRootProgress {
    fn root_started(&self, signature_id: &str, root: &str) {
    }
}

/// `a + b`, wrapping past the largest value as an atomic counter does.
pub open spec fn wrapping_sum(a: u64, b: u64) -> u64 {
    if a + b > u64::MAX {
        (a + b - u64::MAX - 1) as u64
    } else {
        (a + b) as u64
    }
}

/// The larger of two counts.
pub open spec fn max_u64(a: u64, b: u64) -> u64 {
    if a >= b {
        a
    } else {
        b
    }
}

/// What a traversal counted while it ran: the entries it looked at, the
/// directories it read, and the most directory reads it held in flight at once.
pub struct TraversalCounters {
    visited_entries: u64,
    directories_read: u64,
    peak_outstanding_directory_tasks: u64,
}

impl TraversalCounters {
    pub closed spec fn visited(&self) -> u64 {
        self.visited_entries
    }

    pub closed spec fn reads(&self) -> u64 {
        self.directories_read
    }

    pub closed spec fn peak(&self) -> u64 {
        self.peak_outstanding_directory_tasks
    }

    /// Counters that have seen nothing.
    pub fn new() -> (r: Self)
        ensures
            r.visited() == 0,
            r.reads() == 0,
            r.peak() == 0,
    {
        TraversalCounters { visited_entries: 0, directories_read: 0, peak_outstanding_directory_tasks: 0 }
    }

    /// Records that an entry was looked at.
    pub fn visit_entry(&mut self)
        ensures
            final(self).visited() == wrapping_sum(old(self).visited(), 1),
            final(self).reads() == old(self).reads(),
            final(self).peak() == old(self).peak(),
    {
        self.visited_entries = self.visited_entries.wrapping_add(1);
    }

    /// Records that `count` entries were looked at in one batch.
    pub fn visit_entries(&mut self, count: u64)
        ensures
            final(self).visited() == wrapping_sum(old(self).visited(), count),
            final(self).reads() == old(self).reads(),
            final(self).peak() == old(self).peak(),
    {
        if count > 0 {
            self.visited_entries = self.visited_entries.wrapping_add(count);
        }
    }

    /// Records that a directory's contents are being read.
    pub fn directory_read(&mut self)
        ensures
            final(self).visited() == old(self).visited(),
            final(self).reads() == wrapping_sum(old(self).reads(), 1),
            final(self).peak() == old(self).peak(),
    {
        self.directories_read = self.directories_read.wrapping_add(1);
    }

    /// Records how many directory tasks are outstanding, keeping the highest
    /// value ever observed.
    pub fn observe_outstanding_directory_tasks(&mut self, outstanding: u64)
        ensures
            final(self).visited() == old(self).visited(),
            final(self).reads() == old(self).reads(),
            final(self).peak() == max_u64(old(self).peak(), outstanding),
    {
        if outstanding > self.peak_outstanding_directory_tasks {
            self.peak_outstanding_directory_tasks = outstanding;
        }
    }

    /// The entries looked at.
    pub fn visited_entries(&self) -> (r: u64)
        ensures
            r == self.visited(),
    {
        self.visited_entries
    }

    /// The directories read.
    pub fn directories_read(&self) -> (r: u64)
        ensures
            r == self.reads(),
    {
        self.directories_read
    }

    /// The most directory reads that were outstanding at once.
    pub fn peak_outstanding_directory_tasks(&self) -> (r: u64)
        ensures
            r == self.peak(),
    {
        self.peak_outstanding_directory_tasks
    }

    /// Folds another counter set into this one, for a walk that ran its own:
    /// visits and reads add up, and the peak is the higher of the two.
    pub fn merge(&mut self, other: &TraversalCounters)
        ensures
            final(self).visited() == wrapping_sum(old(self).visited(), other.visited()),
            final(self).reads() == wrapping_sum(old(self).reads(), other.reads()),
            final(self).peak() == max_u64(old(self).peak(), other.peak()),
    {
        self.visit_entries(other.visited_entries());
        let directories = other.directories_read();
        if directories > 0 {
            self.directories_read = self.directories_read.wrapping_add(directories);
        }
        self.observe_outstanding_directory_tasks(other.peak_outstanding_directory_tasks());
    }
}

/// What walking one signature produced: the items it found, the roots it
/// reported before reading them, and how many selector patterns had more
/// matches than the scanner could inspect.
pub struct SignatureScan {
    pub items: Vec<ScanItem>,
    pub roots: Vec<String>,
    pub selector_truncated_count: u64,
}

impl SignatureScan {
    /// A walk that found `items` and reported no roots.
    pub fn new(items: Vec<ScanItem>) -> (r: Self)
        ensures
            r.items@ == items@,
            r.roots@.len() == 0,
            r.selector_truncated_count == 0,
    {
        SignatureScan { items, roots: Vec::new(), selector_truncated_count: 0 }
    }
}

} // verus!
