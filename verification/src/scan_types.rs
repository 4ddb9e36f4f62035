//! What a scan reports: its items, its per-category totals, and the result a
//! store publishes.
use vstd::prelude::*;
use crate::eligibility::{EligibilityBucket, EligibilitySummary};
use crate::models::{
    clone_opt_string, clone_strings, derive_cleanup_disposition, spec_disposition_bytes, spec_eligibility,
    AgeObservation, CacheMetadata, Category, CleanupDisposition, CleanupUnit, DispositionFacts,
    EligibilityGate, EntryKind, FileSize, ObservationQuality, RiskTier, ScanGap,
    StaleEntryObservation, StructuredStateKind,
};

verus! {

/// One discovered unit, as the scan reports it.
pub struct ScanItem {
    pub id: String,
    pub signature_id: String,
    pub name: String,
    pub category: Category,
    pub risk: RiskTier,
    pub path: String,
    pub size: FileSize,
    pub file_count: usize,
    pub description: String,
    pub cache_metadata: CacheMetadata,
    pub disposition: CleanupDisposition,
    pub unit: CleanupUnit,
    /// The unit's age verdict, when its whole tree carries an age policy.
    pub age: Option<AgeObservation>,
    /// What a stale-entry policy found inside the unit.
    pub stale: Option<StaleEntryObservation>,
    /// The structured state the unit holds, when it holds any.
    pub structured_state: Option<StructuredStateKind>,
    pub entry_kind: EntryKind,
    pub gate: EligibilityGate,
    pub owner_running: bool,
    pub is_selected: bool,
    pub last_modified: Option<u64>,
    pub exists: bool,
    pub quality: ObservationQuality,
    pub incomplete_reason: Option<String>,
    pub skipped_entry_count: u64,
}

impl Clone for ScanItem {
    fn clone(&self) -> (r: Self)
        ensures
            r == *self,
    {
        ScanItem {
            id: self.id.clone(),
            signature_id: self.signature_id.clone(),
            name: self.name.clone(),
            category: self.category,
            risk: self.risk,
            path: self.path.clone(),
            size: self.size,
            file_count: self.file_count,
            description: self.description.clone(),
            cache_metadata: self.cache_metadata,
            disposition: self.disposition.clone(),
            unit: self.unit.clone(),
            age: self.age,
            stale: self.stale,
            structured_state: self.structured_state,
            entry_kind: self.entry_kind,
            gate: self.gate,
            owner_running: self.owner_running,
            is_selected: self.is_selected,
            last_modified: self.last_modified,
            exists: self.exists,
            quality: self.quality,
            incomplete_reason: clone_opt_string(&self.incomplete_reason),
            skipped_entry_count: self.skipped_entry_count,
        }
    }
}

impl ScanItem {
    /// The facts this item's disposition is derived from.
    pub open spec fn spec_facts(self) -> DispositionFacts {
        DispositionFacts {
            risk: self.risk,
            quality: self.quality,
            size_semantics: self.cache_metadata.size_semantics,
            size: self.size,
            gate: self.gate,
            owner_running: self.owner_running,
            age: self.age,
            stale: self.stale,
            structured_state: self.structured_state,
        }
    }

    /// The bytes the item occupies.
    pub fn observed_bytes(&self) -> (r: u64)
        ensures
            r == self.size.spec_observed(),
    {
        self.size.observed_bytes()
    }

    pub open spec fn spec_cleanable_bytes(self) -> u64 {
        if self.disposition.eligibility.spec_is_cleanable() {
            match self.disposition.cleanable_bytes {
                Some(bytes) => bytes,
                None => 0,
            }
        } else {
            0
        }
    }

    /// The bytes a cleanup of this item would reclaim; zero when it may not be
    /// cleaned.
    pub fn cleanable_bytes(&self) -> (r: u64)
        ensures
            r == self.spec_cleanable_bytes(),
    {
        if self.disposition.eligibility.is_cleanable() {
            match self.disposition.cleanable_bytes {
                Some(bytes) => bytes,
                None => 0,
            }
        } else {
            0
        }
    }

    /// The disposition the item's current facts derive.
    pub fn derive_disposition(&self) -> (d: CleanupDisposition)
        ensures
            d.eligibility == spec_eligibility(self.spec_facts()),
            d.cleanable_bytes == spec_disposition_bytes(self.spec_facts()),
            crate::models::opt_text(d.reason) == crate::models::disposition_reason(
                self.spec_facts(),
                crate::models::opt_text(self.incomplete_reason),
            ),
    {
        let facts = DispositionFacts {
            risk: self.risk,
            quality: self.quality,
            size_semantics: self.cache_metadata.size_semantics,
            size: self.size,
            gate: self.gate,
            owner_running: self.owner_running,
            age: self.age,
            stale: self.stale,
            structured_state: self.structured_state,
        };
        derive_cleanup_disposition(&facts, clone_opt_string(&self.incomplete_reason))
    }

    /// The item with the eligibility and bytes its current facts derive; its
    /// reason is the observation's own, or else the one it was reported with.
    pub fn with_derived_disposition(self) -> (r: Self)
        ensures
            r == (ScanItem { disposition: r.disposition, ..self }),
            r.disposition.eligibility == spec_eligibility(self.spec_facts()),
            r.disposition.cleanable_bytes == spec_disposition_bytes(self.spec_facts()),
            r.disposition.reason == if self.incomplete_reason is Some {
                self.incomplete_reason
            } else {
                self.disposition.reason
            },
    {
        let derived = self.derive_disposition();
        let reason = match &self.incomplete_reason {
            Some(text) => Some(text.clone()),
            None => clone_opt_string(&self.disposition.reason),
        };
        let disposition = CleanupDisposition {
            eligibility: derived.eligibility,
            cleanable_bytes: derived.cleanable_bytes,
            reason,
        };
        ScanItem { disposition, ..self }
    }

    pub open spec fn spec_has_current_disposition(self) -> bool {
        &&& self.disposition.eligibility == spec_eligibility(self.spec_facts())
        &&& self.disposition.cleanable_bytes == spec_disposition_bytes(self.spec_facts())
    }

    /// Whether the stored disposition is the one the item's facts derive now.
    pub fn has_current_disposition(&self) -> (r: bool)
        ensures
            r == self.spec_has_current_disposition(),
    {
        let derived = self.derive_disposition();
        let same_bytes = match (self.disposition.cleanable_bytes, derived.cleanable_bytes) {
            (Some(left), Some(right)) => left == right,
            (None, None) => true,
            _ => false,
        };
        self.disposition.eligibility == derived.eligibility && same_bytes
    }
}

/// One category's retained items and byte populations.
pub struct CategoryResult {
    pub category: Category,
    pub items: Vec<ScanItem>,
    pub total_bytes: u64,
    pub cleanable_bytes: u64,
    pub safe_bytes: u64,
    pub rebuild_bytes: u64,
    pub manual_bytes: u64,
    pub quality: ObservationQuality,
    pub skipped_entry_count: u64,
    pub incomplete_item_count: u64,
    pub suppressed_duplicate_count: u64,
    pub suppressed_duplicate_bytes: u64,
    pub suppressed_overlap_count: u64,
    pub suppressed_overlap_bytes: u64,
    pub ambiguous_overlap_count: u64,
    pub ambiguous_overlap_bytes: u64,
    /// How the items divide among the eligibilities.
    pub eligibility: EligibilitySummary,
}

/// What a category result states, as values.
pub struct CategoryResultView {
    pub category: Category,
    pub items: Seq<ScanItem>,
    pub total_bytes: u64,
    pub cleanable_bytes: u64,
    pub safe_bytes: u64,
    pub rebuild_bytes: u64,
    pub manual_bytes: u64,
    pub quality: ObservationQuality,
    pub skipped_entry_count: u64,
    pub incomplete_item_count: u64,
    pub suppressed_duplicate_count: u64,
    pub suppressed_duplicate_bytes: u64,
    pub suppressed_overlap_count: u64,
    pub suppressed_overlap_bytes: u64,
    pub ambiguous_overlap_count: u64,
    pub ambiguous_overlap_bytes: u64,
    pub eligibility: Seq<EligibilityBucket>,
}

impl View for CategoryResult {
    type V = CategoryResultView;

    open spec fn view(&self) -> CategoryResultView {
        CategoryResultView {
            category: self.category,
            items: self.items@,
            total_bytes: self.total_bytes,
            cleanable_bytes: self.cleanable_bytes,
            safe_bytes: self.safe_bytes,
            rebuild_bytes: self.rebuild_bytes,
            manual_bytes: self.manual_bytes,
            quality: self.quality,
            skipped_entry_count: self.skipped_entry_count,
            incomplete_item_count: self.incomplete_item_count,
            suppressed_duplicate_count: self.suppressed_duplicate_count,
            suppressed_duplicate_bytes: self.suppressed_duplicate_bytes,
            suppressed_overlap_count: self.suppressed_overlap_count,
            suppressed_overlap_bytes: self.suppressed_overlap_bytes,
            ambiguous_overlap_count: self.ambiguous_overlap_count,
            ambiguous_overlap_bytes: self.ambiguous_overlap_bytes,
            eligibility: self.eligibility.buckets@,
        }
    }
}

/// A copy of a vector of items.
pub fn clone_items(values: &Vec<ScanItem>) -> (r: Vec<ScanItem>)
    ensures
        r@ == values@,
{
    let mut out: Vec<ScanItem> = Vec::new();
    let mut i: usize = 0;
    while i < values.len()
        invariant
            i <= values@.len(),
            out@ == values@.subrange(0, i as int),
        decreases values@.len() - i,
    {
        out.push(values[i].clone());
        i = i + 1;
        assert(out@ =~= values@.subrange(0, i as int));
    }
    assert(out@ =~= values@);
    out
}

impl Clone for CategoryResult {
    fn clone(&self) -> (r: Self)
        ensures
            r@ == self@,
    {
        CategoryResult {
            category: self.category,
            items: clone_items(&self.items),
            total_bytes: self.total_bytes,
            cleanable_bytes: self.cleanable_bytes,
            safe_bytes: self.safe_bytes,
            rebuild_bytes: self.rebuild_bytes,
            manual_bytes: self.manual_bytes,
            quality: self.quality,
            skipped_entry_count: self.skipped_entry_count,
            incomplete_item_count: self.incomplete_item_count,
            suppressed_duplicate_count: self.suppressed_duplicate_count,
            suppressed_duplicate_bytes: self.suppressed_duplicate_bytes,
            suppressed_overlap_count: self.suppressed_overlap_count,
            suppressed_overlap_bytes: self.suppressed_overlap_bytes,
            ambiguous_overlap_count: self.ambiguous_overlap_count,
            ambiguous_overlap_bytes: self.ambiguous_overlap_bytes,
            eligibility: self.eligibility.copy(),
        }
    }
}

/// What one traversal counted.
#[derive(Debug, Clone, Copy, PartialEq, Eq, Structural)]
pub struct ScanMetrics {
    pub duration_ms: u64,
    pub visited_entries: u64,
    pub directories_read: u64,
    pub peak_outstanding_directory_tasks: u64,
}

/// The scan a store publishes and a cleanup is authorized from.
pub struct ScanResult {
    pub scan_id: String,
    pub valid_for_seconds: u32,
    pub started_at: u64,
    pub finished_at: u64,
    pub categories: Vec<CategoryResult>,
    pub total_bytes: u64,
    pub cleanable_bytes: u64,
    pub safe_bytes: u64,
    pub rebuild_bytes: u64,
    pub manual_bytes: u64,
    pub quality: ObservationQuality,
    pub incomplete_reasons: Vec<String>,
    pub gaps: Vec<ScanGap>,
    pub skipped_entry_count: u64,
    pub incomplete_item_count: u64,
    pub suppressed_duplicate_count: u64,
    pub suppressed_duplicate_bytes: u64,
    pub suppressed_overlap_count: u64,
    pub suppressed_overlap_bytes: u64,
    pub ambiguous_overlap_count: u64,
    pub ambiguous_overlap_bytes: u64,
    pub cancelled: bool,
    pub metrics: ScanMetrics,
    /// How the items of every category divide among the eligibilities.
    pub eligibility: EligibilitySummary,
}

/// The values of a sequence of category results.
pub open spec fn category_views(categories: Seq<CategoryResult>) -> Seq<CategoryResultView> {
    categories.map_values(|c: CategoryResult| c@)
}

/// A copy of a vector of category results.
pub fn clone_categories(values: &Vec<CategoryResult>) -> (r: Vec<CategoryResult>)
    ensures
        category_views(r@) == category_views(values@),
{
    let mut out: Vec<CategoryResult> = Vec::new();
    let mut i: usize = 0;
    while i < values.len()
        invariant
            i <= values@.len(),
            out@.len() == i,
            forall|j: int| 0 <= j < i ==> (#[trigger] out@[j])@ == values@[j]@,
        decreases values@.len() - i,
    {
        out.push(values[i].clone());
        i = i + 1;
    }
    assert(category_views(out@) =~= category_views(values@));
    out
}

/// What a scan result states, as values.
pub struct ScanResultView {
    pub scan_id: Seq<char>,
    pub valid_for_seconds: u32,
    pub started_at: u64,
    pub finished_at: u64,
    pub categories: Seq<CategoryResultView>,
    pub total_bytes: u64,
    pub cleanable_bytes: u64,
    pub safe_bytes: u64,
    pub rebuild_bytes: u64,
    pub manual_bytes: u64,
    pub quality: ObservationQuality,
    pub incomplete_reasons: Seq<String>,
    pub gaps: Seq<ScanGap>,
    pub skipped_entry_count: u64,
    pub incomplete_item_count: u64,
    pub suppressed_duplicate_count: u64,
    pub suppressed_duplicate_bytes: u64,
    pub suppressed_overlap_count: u64,
    pub suppressed_overlap_bytes: u64,
    pub ambiguous_overlap_count: u64,
    pub ambiguous_overlap_bytes: u64,
    pub cancelled: bool,
    pub metrics: ScanMetrics,
    pub eligibility: Seq<EligibilityBucket>,
}

impl View for ScanResult {
    type V = ScanResultView;

    open spec fn view(&self) -> ScanResultView {
        ScanResultView {
            scan_id: self.scan_id@,
            valid_for_seconds: self.valid_for_seconds,
            started_at: self.started_at,
            finished_at: self.finished_at,
            categories: category_views(self.categories@),
            total_bytes: self.total_bytes,
            cleanable_bytes: self.cleanable_bytes,
            safe_bytes: self.safe_bytes,
            rebuild_bytes: self.rebuild_bytes,
            manual_bytes: self.manual_bytes,
            quality: self.quality,
            incomplete_reasons: self.incomplete_reasons@,
            gaps: self.gaps@,
            skipped_entry_count: self.skipped_entry_count,
            incomplete_item_count: self.incomplete_item_count,
            suppressed_duplicate_count: self.suppressed_duplicate_count,
            suppressed_duplicate_bytes: self.suppressed_duplicate_bytes,
            suppressed_overlap_count: self.suppressed_overlap_count,
            suppressed_overlap_bytes: self.suppressed_overlap_bytes,
            ambiguous_overlap_count: self.ambiguous_overlap_count,
            ambiguous_overlap_bytes: self.ambiguous_overlap_bytes,
            cancelled: self.cancelled,
            metrics: self.metrics,
            eligibility: self.eligibility.buckets@,
        }
    }
}

/// A copy of a vector of gaps.
pub fn clone_gaps(values: &Vec<ScanGap>) -> (r: Vec<ScanGap>)
    ensures
        r@ == values@,
{
    let mut out: Vec<ScanGap> = Vec::new();
    let mut i: usize = 0;
    while i < values.len()
        invariant
            i <= values@.len(),
            out@ == values@.subrange(0, i as int),
        decreases values@.len() - i,
    {
        out.push(values[i]);
        i = i + 1;
        assert(out@ =~= values@.subrange(0, i as int));
    }
    assert(out@ =~= values@);
    out
}

impl Clone for ScanResult {
    fn clone(&self) -> (r: Self)
        ensures
            r@ == self@,
    {
        ScanResult {
            scan_id: self.scan_id.clone(),
            valid_for_seconds: self.valid_for_seconds,
            started_at: self.started_at,
            finished_at: self.finished_at,
            categories: clone_categories(&self.categories),
            total_bytes: self.total_bytes,
            cleanable_bytes: self.cleanable_bytes,
            safe_bytes: self.safe_bytes,
            rebuild_bytes: self.rebuild_bytes,
            manual_bytes: self.manual_bytes,
            quality: self.quality,
            incomplete_reasons: clone_strings(&self.incomplete_reasons),
            gaps: clone_gaps(&self.gaps),
            skipped_entry_count: self.skipped_entry_count,
            incomplete_item_count: self.incomplete_item_count,
            suppressed_duplicate_count: self.suppressed_duplicate_count,
            suppressed_duplicate_bytes: self.suppressed_duplicate_bytes,
            suppressed_overlap_count: self.suppressed_overlap_count,
            suppressed_overlap_bytes: self.suppressed_overlap_bytes,
            ambiguous_overlap_count: self.ambiguous_overlap_count,
            ambiguous_overlap_bytes: self.ambiguous_overlap_bytes,
            cancelled: self.cancelled,
            metrics: self.metrics,
            eligibility: self.eligibility.copy(),
        }
    }
}

impl ScanResult {
    /// How long a scan authorizes cleanup after it finished.
    pub const VALID_FOR_SECONDS: u32 = 300;

}

impl ScanResultView {
    /// The scan authorizes a cleanup of `scan_id` at `now`: it is that scan,
    /// and fewer than its validity window of seconds have passed since it
    /// finished.
    pub open spec fn valid_for_cleanup(self, scan_id: Seq<char>, now: u64) -> bool {
        self.scan_id == scan_id && now < self.finished_at + self.valid_for_seconds
    }
}

impl ScanResult {

    /// Checks that this scan is the one a cleanup names and is still current.
    pub fn validate_for_cleanup(&self, scan_id: &String, now: u64) -> (r: Result<(), String>)
        ensures
            r is Ok <==> self@.valid_for_cleanup(scan_id@, now),
            r matches Err(message) ==> message@ == if self.scan_id@ != scan_id@ {
                "The scan is no longer current. Scan again before cleaning."@
            } else {
                "The scan has expired. Scan again before cleaning."@
            },
    {
        if self.scan_id != *scan_id {
            proof {
                reveal_strlit("The scan is no longer current. Scan again before cleaning.");
            }
            return Err(String::from_str("The scan is no longer current. Scan again before cleaning."));
        }
        if now >= self.finished_at && now - self.finished_at >= self.valid_for_seconds as u64 {
            proof {
                reveal_strlit("The scan has expired. Scan again before cleaning.");
            }
            return Err(String::from_str("The scan has expired. Scan again before cleaning."));
        }
        Ok(())
    }
}

/// What a scan request asks for.
pub struct ScanRequest {
    /// The categories to scan; every category when absent.
    pub categories: Option<Vec<Category>>,
    /// Signatures the caller excluded.
    pub excluded_signatures: Vec<String>,
    pub intensive_cleanup: bool,
}

/// What a scan request asks for, as values.
pub struct ScanRequestView {
    pub categories: Option<Seq<Category>>,
    pub excluded_signatures: Seq<String>,
    pub intensive_cleanup: bool,
}

impl View for ScanRequest {
    type V = ScanRequestView;

    open spec fn view(&self) -> ScanRequestView {
        ScanRequestView {
            categories: match self.categories {
                Some(list) => Some(list@),
                None => None,
            },
            excluded_signatures: self.excluded_signatures@,
            intensive_cleanup: self.intensive_cleanup,
        }
    }
}

impl Clone for ScanRequest {
    fn clone(&self) -> (r: Self)
        ensures
            r@ == self@,
    {
        let categories = match &self.categories {
            Some(list) => Some(list.clone()),
            None => None,
        };
        proof {
            if self.categories is Some {
                assert(categories.unwrap()@ =~= self.categories.unwrap()@);
            }
        }
        ScanRequest {
            categories,
            excluded_signatures: clone_strings(&self.excluded_signatures),
            intensive_cleanup: self.intensive_cleanup,
        }
    }
}

/// Whether discovery of a published scan is finished.
pub enum ScanDiscovery {
    /// Every requested category was scanned.
    Exhausted,
    /// More categories remain and the continuation can resume them.
    Paused { continuation_id: String },
    /// Discovery ended before it was exhausted, for the stated reason.
    Stopped { reason: String },
}

impl Clone for ScanDiscovery {
    fn clone(&self) -> (r: Self)
        ensures
            r == *self,
    {
        match self {
            ScanDiscovery::Exhausted => ScanDiscovery::Exhausted,
            ScanDiscovery::Paused { continuation_id } => ScanDiscovery::Paused {
                continuation_id: continuation_id.clone(),
            },
            ScanDiscovery::Stopped { reason } => ScanDiscovery::Stopped { reason: reason.clone() },
        }
    }
}

/// A scan result together with the state of its discovery.
pub struct PublishedScan {
    pub result: ScanResult,
    pub discovery: ScanDiscovery,
}

/// A published scan, as values.
pub struct PublishedScanView {
    pub result: ScanResultView,
    pub discovery: ScanDiscovery,
}

impl View for PublishedScan {
    type V = PublishedScanView;

    open spec fn view(&self) -> PublishedScanView {
        PublishedScanView { result: self.result@, discovery: self.discovery }
    }
}

impl Clone for PublishedScan {
    fn clone(&self) -> (r: Self)
        ensures
            r@ == self@,
    {
        PublishedScan { result: self.result.clone(), discovery: self.discovery.clone() }
    }
}

/// A request to continue a paused scan.
pub struct ResumeScanRequest {
    pub scan_id: String,
    pub continuation_id: String,
}


/// What a scan reports while it runs, in order: it started; a category
/// started; an item was retained; a category finished with its settled
/// totals; the scan finished with its result.
pub enum ScanEvent {
    Started { scan_id: String },
    CategoryStarted { category: Category },
    ItemFound { item: ScanItem },
    CategoryFinished { category: Category, bytes: u64, item_count: usize },
    Finished { result: ScanResult },
}

} // verus!
