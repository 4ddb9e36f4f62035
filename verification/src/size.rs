//! Measuring a path: what a walk observed, and how completely.
use vstd::prelude::*;
use crate::models::FileSize;
use crate::text::{decimal, decimal_text, equal_text, seq_lt, str_less};

verus! {

/// What measuring one path produced.
pub struct PathMeasurement {
    pub size: FileSize,
    pub file_count: usize,
    pub complete: bool,
    pub incomplete_reason: Option<String>,
    /// Entries the walk did not account for: excluded, blacklisted, protected,
    /// unreadable, or beyond the depth limit. A size that skipped entries must
    /// never be presented as a complete measurement.
    pub skipped_entries: u64,
}

impl PathMeasurement {
    /// A measurement with every field stated and nothing skipped.
    pub fn new(size: FileSize, file_count: usize, complete: bool, incomplete_reason: Option<String>) -> (m: Self)
        ensures
            m.size == size,
            m.file_count == file_count,
            m.complete == complete,
            m.incomplete_reason == incomplete_reason,
            m.skipped_entries == 0,
    {
        PathMeasurement { size, file_count, complete, incomplete_reason, skipped_entries: 0 }
    }

    /// A complete measurement.
    pub fn complete(size: FileSize, file_count: usize) -> (m: Self)
        ensures
            m.size == size,
            m.file_count == file_count,
            m.complete,
            m.incomplete_reason is None,
            m.skipped_entries == 0,
    {
        PathMeasurement { size, file_count, complete: true, incomplete_reason: None, skipped_entries: 0 }
    }

    /// An incomplete measurement, with the reason it is one.
    pub fn incomplete(size: FileSize, file_count: usize, reason: String) -> (m: Self)
        ensures
            m.size == size,
            m.file_count == file_count,
            !m.complete,
            m.incomplete_reason == Some(reason),
            m.skipped_entries == 0,
    {
        PathMeasurement { size, file_count, complete: false, incomplete_reason: Some(reason), skipped_entries: 0 }
    }

    /// The requested root itself could not be measured: nothing observed, one
    /// entry skipped.
    pub fn unavailable(reason: String) -> (m: Self)
        ensures
            m.size == FileSize::spec_zero(),
            m.file_count == 0,
            !m.complete,
            m.incomplete_reason == Some(reason),
            m.skipped_entries == 1,
    {
        PathMeasurement {
            size: FileSize::zero(),
            file_count: 0,
            complete: false,
            incomplete_reason: Some(reason),
            skipped_entries: 1,
        }
    }

    /// Records how many entries the walk did not measure.
    pub fn with_skipped_entries(self, skipped_entries: u64) -> (m: Self)
        ensures
            m.size == self.size,
            m.file_count == self.file_count,
            m.complete == self.complete,
            m.incomplete_reason == self.incomplete_reason,
            m.skipped_entries == skipped_entries,
    {
        let mut m = self;
        m.skipped_entries = skipped_entries;
        m
    }
}

/// The bytes a before/after measurement pair proves were reclaimed: the
/// difference of the reclaimable sizes, floored at zero, and only when both
/// sides are complete. A difference between incomplete numbers looks precise
/// and is not, so it is reported as unknown.
pub fn reclaimed_between(before: &PathMeasurement, after: &PathMeasurement) -> (r: Option<u64>)
    ensures
        r is Some <==> (before.complete && after.complete),
        r matches Some(bytes) ==> bytes == if before.size.spec_observed() >= after.size.spec_observed() {
            before.size.spec_observed() - after.size.spec_observed()
        } else {
            0
        },
{
    if !before.complete || !after.complete {
        return None;
    }
    Some(before.size.reclaimable().saturating_sub(after.size.reclaimable()))
}

/// Why reading a path's metadata failed, as far as a measurement cares.
pub enum MetadataError {
    /// The path does not exist.
    NotFound,
    /// Anything else, with the operating system's description.
    Other(String),
}

/// The measurement a metadata error stands for: a missing path is a complete,
/// empty observation; any other error is an unavailable one.
pub fn measurement_for_metadata_error(path: &str, error: &MetadataError) -> (m: PathMeasurement)
    ensures
        match error {
            MetadataError::NotFound => m.complete && m.size == FileSize::spec_zero() && m.file_count
                == 0 && m.skipped_entries == 0 && m.incomplete_reason is None,
            MetadataError::Other(message) => !m.complete && m.skipped_entries == 1 && m.file_count
                == 0 && m.size == FileSize::spec_zero() && m.incomplete_reason is Some
                && m.incomplete_reason->0@ == "Could not read metadata for "@ + path@ + ": "@
                + message@,
        },
{
    match error {
        MetadataError::NotFound => PathMeasurement::complete(FileSize::zero(), 0),
        MetadataError::Other(message) => {
            let mut reason = String::from_str("Could not read metadata for ");
            reason.append(path);
            reason.append(": ");
            reason.append(message.as_str());
            PathMeasurement::unavailable(reason)
        },
    }
}

/// Why a measurement stopped early when the scan was cancelled. The text is
/// the same everywhere a cancelled walk can end.
pub fn cancelled_measurement_reason(dir: &str) -> (r: String)
    ensures
        r@ == "Scan cancelled while measuring "@ + dir@,
{
    let mut reason = String::from_str("Scan cancelled while measuring ");
    reason.append(dir);
    reason
}

/// The reason a walk gives for stopping at the depth limit.
pub fn depth_limit_reason(max_depth: usize, dir: &str) -> (r: String)
    ensures
        r@ == "Directory depth limit of "@ + decimal(max_depth as nat) + " exceeded at "@ + dir@,
{
    let mut reason = String::from_str("Directory depth limit of ");
    let depth = decimal_text(max_depth as u64);
    reason.append(depth.as_str());
    reason.append(" exceeded at ");
    reason.append(dir);
    reason
}

/// One reason a walk did not account for an entry, ranked by the walk's own
/// order — shallowest first, then path, then message — so two scans of one
/// tree state the same reason whichever worker finished first.
pub struct FailureRecord {
    pub depth: usize,
    pub path: String,
    pub message: String,
}

/// `(depth, path, message)` of `a` sorts strictly before that of `b`.
pub open spec fn ranked_before(a: FailureRecord, b: FailureRecord) -> bool {
    a.depth < b.depth || (a.depth == b.depth && (seq_lt(a.path@, b.path@) || (a.path@ == b.path@
        && seq_lt(a.message@, b.message@))))
}

/// The reason a walk keeps after seeing `record`: the earliest in rank.
pub open spec fn kept_reason(current: Option<FailureRecord>, record: FailureRecord) -> Option<FailureRecord> {
    match current {
        None => Some(record),
        Some(kept) => if ranked_before(record, kept) {
            Some(record)
        } else {
            Some(kept)
        },
    }
}

impl FailureRecord {
    /// A failure at `depth` below the root, at `path`, for `message`.
    pub fn new(depth: usize, path: &str, message: String) -> (r: Self)
        ensures
            r.depth == depth,
            r.path@ == path@,
            r.message == message,
    {
        FailureRecord { depth, path: String::from_str(path), message }
    }

    /// The key the walk orders failures by.
    pub fn ranked(&self) -> (r: (usize, &str, &str))
        ensures
            r.0 == self.depth,
            r.1@ == self.path@,
            r.2@ == self.message@,
    {
        (self.depth, self.path.as_str(), self.message.as_str())
    }

    /// Whether this failure comes before `other` in the walk's order.
    pub fn earlier_than(&self, other: &Self) -> (r: bool)
        ensures
            r == ranked_before(*self, *other),
    {
        let (depth, path, message) = self.ranked();
        let (other_depth, other_path, other_message) = other.ranked();
        if depth != other_depth {
            return depth < other_depth;
        }
        if str_less(path, other_path) {
            return true;
        }
        if !equal_text(path, other_path) {
            return false;
        }
        str_less(message, other_message)
    }
}

impl Clone for FailureRecord {
    fn clone(&self) -> (r: Self)
        ensures
            r == *self,
    {
        FailureRecord { depth: self.depth, path: self.path.clone(), message: self.message.clone() }
    }
}

/// `a + b`, saturating at the largest value.
pub open spec fn sat_add(a: u64, b: u64) -> u64 {
    if a + b > u64::MAX {
        u64::MAX
    } else {
        (a + b) as u64
    }
}

/// `a + b`, saturating at the largest value.
pub open spec fn sat_add_usize(a: usize, b: usize) -> usize {
    if a + b > usize::MAX {
        usize::MAX
    } else {
        (a + b) as usize
    }
}

/// The shared accumulators of one parallel measurement: the bytes and files
/// every directory folded in, whether anything was missed, how many entries
/// were skipped, and the earliest failure in the walk's order.
pub struct MeasurementState {
    pub logical: u64,
    pub allocated: u64,
    pub file_count: usize,
    pub complete: bool,
    pub skipped: u64,
    pub reason: Option<FailureRecord>,
}

impl MeasurementState {
    /// The state of a walk that has not started.
    pub fn new() -> (r: Self)
        ensures
            r.logical == 0,
            r.allocated == 0,
            r.file_count == 0,
            r.complete,
            r.skipped == 0,
            r.reason is None,
    {
        MeasurementState { logical: 0, allocated: 0, file_count: 0, complete: true, skipped: 0, reason: None }
    }

    /// Records a failure, keeping whichever comes first in the walk's order.
    pub fn note_reason(&mut self, record: FailureRecord)
        ensures
            final(self).logical == old(self).logical,
            final(self).allocated == old(self).allocated,
            final(self).file_count == old(self).file_count,
            final(self).complete == old(self).complete,
            final(self).skipped == old(self).skipped,
            final(self).reason == kept_reason(old(self).reason, record),
    {
        let replace = match &self.reason {
            None => true,
            Some(current) => record.earlier_than(current),
        };
        if replace {
            self.reason = Some(record);
        }
    }

    /// Records one entry the walk could not account for, and why: the walk is
    /// no longer complete and one more entry is skipped.
    pub fn fail(&mut self, record: FailureRecord)
        ensures
            final(self).logical == old(self).logical,
            final(self).allocated == old(self).allocated,
            final(self).file_count == old(self).file_count,
            !final(self).complete,
            final(self).skipped == sat_add(old(self).skipped, 1),
            final(self).reason == kept_reason(old(self).reason, record),
    {
        self.complete = false;
        self.skipped = self.skipped.saturating_add(1);
        self.note_reason(record);
    }

    /// Folds one directory's local totals into the shared ones.
    pub fn fold_directory(&mut self, logical: u64, allocated: u64, file_count: usize, skipped: u64)
        ensures
            final(self).logical == sat_add(old(self).logical, logical),
            final(self).allocated == sat_add(old(self).allocated, allocated),
            final(self).file_count == sat_add_usize(old(self).file_count, file_count),
            final(self).skipped == sat_add(old(self).skipped, skipped),
            final(self).complete == old(self).complete,
            final(self).reason == old(self).reason,
    {
        self.logical = self.logical.saturating_add(logical);
        self.allocated = self.allocated.saturating_add(allocated);
        self.file_count = self.file_count.saturating_add(file_count);
        self.skipped = self.skipped.saturating_add(skipped);
    }

    /// The measurement the walk produced: the folded totals, whether it was
    /// complete, and the message of the earliest failure.
    pub fn finish(self) -> (m: PathMeasurement)
        ensures
            m.size == (FileSize { logical: self.logical, allocated: Some(self.allocated) }),
            m.file_count == self.file_count,
            m.complete == self.complete,
            m.skipped_entries == self.skipped,
            m.incomplete_reason == match self.reason {
                Some(record) => Some(record.message),
                None => None::<String>,
            },
    {
        let incomplete_reason = match self.reason {
            Some(record) => Some(record.message),
            None => None,
        };
        PathMeasurement {
            size: FileSize::new(self.logical, Some(self.allocated)),
            file_count: self.file_count,
            complete: self.complete,
            incomplete_reason,
            skipped_entries: self.skipped,
        }
    }
}

/// What one entry of a directory turned out to be, as the walk that reads the
/// directory observed it, in the order the directory listed it.
pub enum EntryEvent {
    /// The scan was cancelled before this entry was read; the walk stops.
    Cancelled,
    /// The directory listing failed to produce this entry.
    Unreadable { error: String },
    /// The entry is excluded or blacklisted and deliberately not measured.
    Skipped,
    /// A link or reparse point, measured as itself and never followed.
    Link { logical: u64, allocated: u64 },
    /// A link whose own metadata could not be read.
    LinkUnreadable { path: String, error: String },
    /// A protected application bundle: the walk fails closed on it.
    AppBundle { path: String },
    /// A regular file.
    File { logical: u64, allocated: u64 },
    /// A child directory, measured by the same walk one level deeper.
    Directory { measurement: PathMeasurement },
    /// An entry whose metadata could not be read.
    MetadataUnreadable { path: String, error: String },
    /// Anything else; it holds no bytes the walk accounts for.
    Other,
}

/// The running totals of one directory's sequential measurement.
pub struct DirectoryTally {
    pub logical: u64,
    pub allocated: u64,
    pub file_count: usize,
    pub complete: bool,
    pub incomplete_reason: Option<String>,
    pub skipped_entries: u64,
    /// The walk saw a cancellation and reads no further entries.
    pub stopped: bool,
}

/// The reason `reason` becomes the tally's, unless an earlier one is kept.
pub open spec fn first_reason(current: Option<String>, reason: Option<String>) -> Option<String> {
    if current is None {
        reason
    } else {
        current
    }
}

/// A failure of the walk: not complete, one more skipped entry, and the
/// reason unless an earlier one is kept.
pub open spec fn failed(t: DirectoryTally, reason: String) -> DirectoryTally {
    DirectoryTally {
        complete: false,
        skipped_entries: sat_add(t.skipped_entries, 1),
        incomplete_reason: first_reason(t.incomplete_reason, Some(reason)),
        ..t
    }
}

/// The bytes and one file of a measured entry added to the tally.
pub open spec fn counted(t: DirectoryTally, logical: u64, allocated: u64) -> DirectoryTally {
    DirectoryTally {
        logical: sat_add(t.logical, logical),
        allocated: sat_add(t.allocated, allocated),
        file_count: sat_add_usize(t.file_count, 1),
        ..t
    }
}

/// Whether the tally's reason text for an event is `text`.
pub open spec fn reason_is(t: DirectoryTally, text: Seq<char>) -> bool {
    t.incomplete_reason matches Some(r) && r@ == text
}

impl DirectoryTally {
    /// The tally of a directory whose entries have not been read yet.
    pub fn new() -> (t: Self)
        ensures
            t.logical == 0,
            t.allocated == 0,
            t.file_count == 0,
            t.complete,
            t.incomplete_reason is None,
            t.skipped_entries == 0,
            !t.stopped,
    {
        DirectoryTally {
            logical: 0,
            allocated: 0,
            file_count: 0,
            complete: true,
            incomplete_reason: None,
            skipped_entries: 0,
            stopped: false,
        }
    }

    fn fail_with(&mut self, reason: String)
        ensures
            *final(self) == failed(*old(self), reason),
    {
        self.complete = false;
        self.skipped_entries = self.skipped_entries.saturating_add(1);
        if self.incomplete_reason.is_none() {
            self.incomplete_reason = Some(reason);
        }
    }

    fn count(&mut self, logical: u64, allocated: u64)
        ensures
            *final(self) == counted(*old(self), logical, allocated),
    {
        self.logical = self.logical.saturating_add(logical);
        self.allocated = self.allocated.saturating_add(allocated);
        self.file_count = self.file_count.saturating_add(1);
    }

    /// Accounts for one entry of the directory `dir`.
    ///
    /// A cancellation stops the walk and makes it incomplete; an unreadable
    /// entry, an unreadable link, a protected bundle, or unreadable metadata
    /// each skip one entry and make it incomplete; an exclusion skips one
    /// entry without making it incomplete; a file or a link adds its bytes and
    /// one file; a child directory adds everything it measured and passes its
    /// incompleteness on. The first reason recorded is the one kept. A tally
    /// that has stopped accounts for nothing more.
    pub fn observe(&mut self, dir: &str, event: EntryEvent)
        ensures
            old(self).stopped ==> *final(self) == *old(self),
            !old(self).stopped ==> match event {
                EntryEvent::Cancelled => {
                    let reason = "Scan cancelled while measuring "@ + dir@;
                    final(self).stopped && !final(self).complete
                        && final(self).skipped_entries == sat_add(old(self).skipped_entries, 1)
                        && final(self).logical == old(self).logical
                        && final(self).allocated == old(self).allocated
                        && final(self).file_count == old(self).file_count
                        && (old(self).incomplete_reason is None ==> reason_is(*final(self), reason))
                        && (old(self).incomplete_reason is Some ==> final(self).incomplete_reason == old(self).incomplete_reason)
                },
                EntryEvent::Unreadable { error } => {
                    let reason = "Failed to read directory entry in "@ + dir@ + ": "@ + error@;
                    &&& final(self).incomplete_reason is Some
                    &&& *final(self) == failed(*old(self), final(self).incomplete_reason->0)
                    &&& (old(self).incomplete_reason is None ==> reason_is(*final(self), reason))
                },
                EntryEvent::Skipped => *final(self) == (DirectoryTally {
                    skipped_entries: sat_add(old(self).skipped_entries, 1),
                    ..*old(self)
                }),
                EntryEvent::Link { logical, allocated } => *final(self) == counted(*old(self), logical, allocated),
                EntryEvent::LinkUnreadable { path, error } => {
                    let reason = "Failed to read symlink metadata for "@ + path@ + ": "@ + error@;
                    &&& final(self).incomplete_reason is Some
                    &&& *final(self) == failed(*old(self), final(self).incomplete_reason->0)
                    &&& (old(self).incomplete_reason is None ==> reason_is(*final(self), reason))
                },
                EntryEvent::AppBundle { path } => {
                    let reason = "Protected application bundle encountered in "@ + path@;
                    &&& final(self).incomplete_reason is Some
                    &&& *final(self) == failed(*old(self), final(self).incomplete_reason->0)
                    &&& (old(self).incomplete_reason is None ==> reason_is(*final(self), reason))
                },
                EntryEvent::File { logical, allocated } => *final(self) == counted(*old(self), logical, allocated),
                EntryEvent::Directory { measurement } => *final(self) == (DirectoryTally {
                    logical: sat_add(old(self).logical, measurement.size.logical),
                    allocated: sat_add(old(self).allocated, match measurement.size.allocated {
                        Some(a) => a,
                        None => measurement.size.logical,
                    }),
                    file_count: sat_add_usize(old(self).file_count, measurement.file_count),
                    skipped_entries: sat_add(old(self).skipped_entries, measurement.skipped_entries),
                    complete: old(self).complete && measurement.complete,
                    incomplete_reason: if measurement.complete {
                        old(self).incomplete_reason
                    } else {
                        first_reason(old(self).incomplete_reason, measurement.incomplete_reason)
                    },
                    stopped: false,
                }),
                EntryEvent::MetadataUnreadable { path, error } => {
                    let reason = "Failed to read metadata for "@ + path@ + ": "@ + error@;
                    &&& final(self).incomplete_reason is Some
                    &&& *final(self) == failed(*old(self), final(self).incomplete_reason->0)
                    &&& (old(self).incomplete_reason is None ==> reason_is(*final(self), reason))
                },
                EntryEvent::Other => *final(self) == *old(self),
            },
    {
        if self.stopped {
            return;
        }
        match event {
            EntryEvent::Cancelled => {
                let reason = cancelled_measurement_reason(dir);
                self.fail_with(reason);
                self.stopped = true;
            },
            EntryEvent::Unreadable { error } => {
                let mut reason = String::from_str("Failed to read directory entry in ");
                reason.append(dir);
                reason.append(": ");
                reason.append(error.as_str());
                self.fail_with(reason);
            },
            EntryEvent::Skipped => {
                self.skipped_entries = self.skipped_entries.saturating_add(1);
            },
            EntryEvent::Link { logical, allocated } => {
                self.count(logical, allocated);
            },
            EntryEvent::LinkUnreadable { path, error } => {
                let mut reason = String::from_str("Failed to read symlink metadata for ");
                reason.append(path.as_str());
                reason.append(": ");
                reason.append(error.as_str());
                self.fail_with(reason);
            },
            EntryEvent::AppBundle { path } => {
                let mut reason = String::from_str("Protected application bundle encountered in ");
                reason.append(path.as_str());
                self.fail_with(reason);
            },
            EntryEvent::File { logical, allocated } => {
                self.count(logical, allocated);
            },
            EntryEvent::Directory { measurement } => {
                let allocated = match measurement.size.allocated {
                    Some(a) => a,
                    None => measurement.size.logical,
                };
                self.logical = self.logical.saturating_add(measurement.size.logical);
                self.allocated = self.allocated.saturating_add(allocated);
                self.file_count = self.file_count.saturating_add(measurement.file_count);
                self.skipped_entries = self.skipped_entries.saturating_add(measurement.skipped_entries);
                if !measurement.complete {
                    self.complete = false;
                    if self.incomplete_reason.is_none() {
                        self.incomplete_reason = measurement.incomplete_reason;
                    }
                }
            },
            EntryEvent::MetadataUnreadable { path, error } => {
                let mut reason = String::from_str("Failed to read metadata for ");
                reason.append(path.as_str());
                reason.append(": ");
                reason.append(error.as_str());
                self.fail_with(reason);
            },
            EntryEvent::Other => {},
        }
    }

    /// The measurement of the directory: its totals, with the allocation
    /// stated, and whether every entry was accounted for.
    pub fn finish(self) -> (m: PathMeasurement)
        ensures
            m.size == (FileSize { logical: self.logical, allocated: Some(self.allocated) }),
            m.file_count == self.file_count,
            m.complete == self.complete,
            m.incomplete_reason == self.incomplete_reason,
            m.skipped_entries == self.skipped_entries,
    {
        PathMeasurement {
            size: FileSize::new(self.logical, Some(self.allocated)),
            file_count: self.file_count,
            complete: self.complete,
            incomplete_reason: self.incomplete_reason,
            skipped_entries: self.skipped_entries,
        }
    }
}

/// The measurement of a directory the walk did not read because the scan was
/// cancelled first.
pub fn cancelled_before_reading(dir: &str) -> (m: PathMeasurement)
    ensures
        !m.complete,
        m.size == FileSize::spec_zero(),
        m.file_count == 0,
        m.skipped_entries == 1,
        m.incomplete_reason is Some,
        m.incomplete_reason->0@ == "Scan cancelled while measuring "@ + dir@,
{
    PathMeasurement::incomplete(FileSize::zero(), 0, cancelled_measurement_reason(dir)).with_skipped_entries(1)
}

/// The measurement of a directory below the depth limit.
pub fn beyond_depth_limit(dir: &str, max_depth: usize) -> (m: PathMeasurement)
    ensures
        !m.complete,
        m.size == FileSize::spec_zero(),
        m.file_count == 0,
        m.skipped_entries == 1,
        m.incomplete_reason is Some,
        m.incomplete_reason->0@ == "Directory depth limit of "@ + decimal(max_depth as nat)
            + " exceeded at "@ + dir@,
{
    PathMeasurement::incomplete(FileSize::zero(), 0, depth_limit_reason(max_depth, dir)).with_skipped_entries(1)
}

/// The measurement of a directory whose listing could not be opened.
pub fn unreadable_directory(dir: &str, error: &str) -> (m: PathMeasurement)
    ensures
        !m.complete,
        m.size == FileSize::spec_zero(),
        m.file_count == 0,
        m.skipped_entries == 1,
        m.incomplete_reason is Some,
        m.incomplete_reason->0@ == "Failed to read directory "@ + dir@ + ": "@ + error@,
{
    let mut reason = String::from_str("Failed to read directory ");
    reason.append(dir);
    reason.append(": ");
    reason.append(error);
    PathMeasurement::incomplete(FileSize::zero(), 0, reason).with_skipped_entries(1)
}

/// Whether a directory at `depth` is measured at all: a cancelled scan or a
/// directory past the depth limit is reported instead of read.
pub fn directory_precheck(dir: &str, depth: usize, max_depth: usize, cancelled: bool) -> (r: Option<PathMeasurement>)
    ensures
        cancelled ==> (r matches Some(m) && m.incomplete_reason is Some
            && m.incomplete_reason->0@ == "Scan cancelled while measuring "@ + dir@ && !m.complete
            && m.skipped_entries == 1),
        !cancelled && depth > max_depth ==> (r matches Some(m) && m.incomplete_reason is Some
            && m.incomplete_reason->0@ == "Directory depth limit of "@ + decimal(max_depth as nat)
            + " exceeded at "@ + dir@ && !m.complete && m.skipped_entries == 1),
        !cancelled && depth <= max_depth ==> r is None,
{
    if cancelled {
        return Some(cancelled_before_reading(dir));
    }
    if depth > max_depth {
        return Some(beyond_depth_limit(dir, max_depth));
    }
    None
}


/// Measuring what a cleanup would reclaim.
pub struct SizeCalculator;

/// One exclusion skips a child: the child lies at or under the path it
/// resolves to, the child's name is the exclusion, or the child's path text
/// contains it.
pub open spec fn excluded_by(
    child_path: Seq<char>,
    child_name: Option<Seq<char>>,
    exclusion: Seq<char>,
    resolved: Option<String>,
) -> bool {
    ||| (resolved is Some && (crate::relationship::path_key(child_path) == crate::relationship::path_key(
        resolved->Some_0@,
    ) || crate::relationship::key_within(
        crate::relationship::path_key(child_path),
        crate::relationship::path_key(resolved->Some_0@),
    )))
    ||| (child_name is Some && child_name->Some_0 == exclusion)
    ||| crate::text::has_infix(child_path, exclusion)
}

/// Some exclusion skips a child.
pub open spec fn child_excluded(
    child_path: Seq<char>,
    child_name: Option<Seq<char>>,
    exclusions: Seq<String>,
    resolved: Seq<Option<String>>,
) -> bool {
    exists|i: int|
        0 <= i < exclusions.len() && #[trigger] excluded_by(child_path, child_name, exclusions[i]@, resolved[i])
}

/// The view of an optional text.
pub open spec fn name_view(name: Option<&str>) -> Option<Seq<char>> {
    match name {
        Some(n) => Some(n@),
        None => None,
    }
}

fn excluded_by_one(
    child_key: &Vec<char>,
    child_path: &str,
    child_name: Option<&str>,
    exclusion: &String,
    resolved: &Option<String>,
) -> (r: bool)
    requires
        child_key@ == crate::relationship::path_key(child_path@),
    ensures
        r == excluded_by(child_path@, name_view(child_name), exclusion@, *resolved),
{
    let under = match resolved {
        Some(root) => {
            let root_key = crate::relationship::path_key_text(root.as_str());
            crate::relationship::same_key(child_key, &root_key) || crate::relationship::key_within_exec(
                child_key,
                &root_key,
            )
        },
        None => false,
    };
    let named = match child_name {
        Some(n) => crate::text::equal_text(n, exclusion.as_str()),
        None => false,
    };
    under || named || crate::text::text_contains(child_path, exclusion.as_str())
}

impl SizeCalculator {
    /// Whether a walk skips a child for an exclusion. `resolved[i]` is the
    /// path exclusion `i` resolves to in the environment, when it is
    /// path-shaped; `child_name` is the child's final component.
    pub fn is_excluded(
        child_path: &str,
        child_name: Option<&str>,
        exclusions: &[String],
        resolved: &[Option<String>],
    ) -> (r: bool)
        requires
            resolved@.len() == exclusions@.len(),
        ensures
            r == child_excluded(child_path@, name_view(child_name), exclusions@, resolved@),
    {
        let child_key = crate::relationship::path_key_text(child_path);
        let mut i: usize = 0;
        while i < exclusions.len()
            invariant
                i <= exclusions@.len(),
                resolved@.len() == exclusions@.len(),
                child_key@ == crate::relationship::path_key(child_path@),
                forall|j: int|
                    0 <= j < i ==> !#[trigger] excluded_by(child_path@, name_view(child_name), exclusions@[j]@, resolved@[j]),
            decreases exclusions@.len() - i,
        {
            if excluded_by_one(&child_key, child_path, child_name, &exclusions[i], &resolved[i]) {
                return true;
            }
            i = i + 1;
        }
        false
    }
}


/// `rest` joined below `home` as a POSIX path join does: an absolute `rest`
/// stands alone; otherwise one separator stands between them.
pub open spec fn joined_below(home: Seq<char>, rest: Seq<char>) -> Seq<char> {
    if rest.len() > 0 && rest[0] == '/' {
        rest
    } else if home.len() > 0 && home.last() == '/' {
        home + rest
    } else {
        home + "/"@ + rest
    }
}

/// The path an exclusion names, in POSIX spelling, once trimmed: a `~/`
/// spelling names a path below the home directory (none when the home
/// directory is unknown), an absolute spelling names itself, and anything
/// else is a bare name, which names no path.
pub open spec fn resolved_exclusion(exclusion: Seq<char>, home: Option<Seq<char>>) -> Option<Seq<char>> {
    let t = crate::text::trim_seq(exclusion);
    if t.len() >= 2 && t[0] == '~' && t[1] == '/' {
        match home {
            Some(h) => Some(joined_below(h, t.subrange(2, t.len() as int))),
            None => None,
        }
    } else if t.len() > 0 && t[0] == '/' {
        Some(t)
    } else {
        None
    }
}

fn resolve_one(exclusion: &str, home: Option<&str>) -> (r: Option<String>)
    ensures
        crate::models::opt_text(r) == resolved_exclusion(exclusion@, match home {
            Some(h) => Some(h@),
            None => None,
        }),
{
    let chars = crate::text::trim_text(exclusion);
    if chars.len() >= 2 && chars[0] == '~' && chars[1] == '/' {
        match home {
            Some(h) => {
                let hc = crate::text::chars_of(h);
                let mut out: Vec<char> = Vec::new();
                let starts_absolute = chars.len() > 2 && chars[2] == '/';
                if !starts_absolute {
                    crate::text::append_text(&mut out, h);
                    if !(hc.len() > 0 && hc[hc.len() - 1] == '/') {
                        out.push('/');
                    }
                }
                let mut i: usize = 2;
                let ghost base = out@;
                while i < chars.len()
                    invariant
                        2 <= i <= chars@.len(),
                        out@ == base + chars@.subrange(2, i as int),
                    decreases chars@.len() - i,
                {
                    out.push(chars[i]);
                    i = i + 1;
                    assert(out@ =~= base + chars@.subrange(2, i as int));
                }
                proof {
                    let rest = chars@.subrange(2, chars@.len() as int);
                    if !starts_absolute {
                        if hc@.len() > 0 && hc@.last() == '/' {
                            assert(base =~= h@);
                            assert(out@ =~= h@ + rest);
                        } else {
                            reveal_strlit("/");
                            assert(base =~= h@ + "/"@);
                            assert(out@ =~= h@ + "/"@ + rest);
                        }
                    } else {
                        assert(out@ =~= rest);
                    }
                }
                Some(crate::text::string_of(out.as_slice()))
            },
            None => None,
        }
    } else if chars.len() > 0 && chars[0] == '/' {
        Some(crate::text::string_of(chars.as_slice()))
    } else {
        None
    }
}

/// The paths the exclusions name, in order, as `resolved_exclusion` reads
/// each against the home directory `home`.
pub fn resolve_exclusions(exclusions: &[String], home: Option<&str>) -> (r: Vec<Option<String>>)
    ensures
        r@.len() == exclusions@.len(),
        forall|i: int|
            0 <= i < r@.len() ==> crate::models::opt_text(#[trigger] r@[i]) == resolved_exclusion(
                exclusions@[i]@,
                match home {
                    Some(h) => Some(h@),
                    None => None,
                },
            ),
{
    let mut out: Vec<Option<String>> = Vec::new();
    let mut i: usize = 0;
    while i < exclusions.len()
        invariant
            i <= exclusions@.len(),
            out@.len() == i,
            forall|j: int|
                0 <= j < i ==> crate::models::opt_text(#[trigger] out@[j]) == resolved_exclusion(
                    exclusions@[j]@,
                    match home {
                        Some(h) => Some(h@),
                        None => None,
                    },
                ),
        decreases exclusions@.len() - i,
    {
        out.push(resolve_one(exclusions[i].as_str(), home));
        i = i + 1;
    }
    out
}

} // verus!
