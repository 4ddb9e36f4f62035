//! Backend-owned authority for the latest scan and its one-shot continuation.
//!
//! A scan runs as a sequence of bounded passes. Each pass holds a lease on the
//! store's current generation and revision; only the holder of the current
//! lease may publish, so a superseded worker can never restore an older
//! inventory. A paused scan keeps one continuation that can be claimed once,
//! before the absolute deadline set by the first pass, and only an exhausted
//! discovery authorizes cleanup.
use vstd::prelude::*;
use vstd::utf8::encode_utf8;
use crate::models::Category;
use crate::scan_types::{
    PublishedScan, PublishedScanView, ResumeScanRequest, ScanDiscovery, ScanItem, ScanRequest,
    ScanRequestView, ScanResult, ScanResultView, CategoryResultView,
};

verus! {

/// Private discovery state retained between bounded scan passes.
pub struct ScanCheckpoint {
    pub request: ScanRequest,
    pub remaining_categories: Vec<Category>,
    pub slices: Vec<ScanResult>,
    /// The first published result owns freshness for the whole session.
    pub freshness_anchor: u64,
}

/// The values of a sequence of scan results.
pub open spec fn result_views(results: Seq<ScanResult>) -> Seq<ScanResultView> {
    results.map_values(|r: ScanResult| r@)
}

/// A checkpoint, as values.
pub struct ScanCheckpointView {
    pub request: ScanRequestView,
    pub remaining_categories: Seq<Category>,
    pub slices: Seq<ScanResultView>,
    pub freshness_anchor: u64,
}

impl View for ScanCheckpoint {
    type V = ScanCheckpointView;

    open spec fn view(&self) -> ScanCheckpointView {
        ScanCheckpointView {
            request: self.request@,
            remaining_categories: self.remaining_categories@,
            slices: result_views(self.slices@),
            freshness_anchor: self.freshness_anchor,
        }
    }
}

/// The right to publish one pass: the generation and revision the pass began
/// under.
#[derive(Debug, Clone, Copy, PartialEq, Eq, Structural)]
pub struct ScanLease {
    pub generation: u64,
    pub revision: u64,
}

/// A continuation that was claimed: the lease of the pass it resumes, and the
/// checkpoint it carries.
pub struct ClaimedScan {
    pub lease: ScanLease,
    pub checkpoint: ScanCheckpoint,
}

struct RetainedContinuation {
    id: String,
    scan_id: String,
    generation: u64,
    revision: u64,
    expires_at: u64,
    checkpoint: ScanCheckpoint,
}

/// A retained continuation, as values.
pub struct ContinuationView {
    pub id: Seq<char>,
    pub scan_id: Seq<char>,
    pub generation: u64,
    pub revision: u64,
    pub expires_at: u64,
    pub checkpoint: ScanCheckpointView,
}

/// The store's whole state, as values.
pub struct ScanStoreView {
    pub generation: u64,
    pub revision: u64,
    pub published: Option<PublishedScanView>,
    pub continuation: Option<ContinuationView>,
    pub running: Option<ScanLease>,
}

/// Backend-owned authority for the latest scan and its one-shot continuation.
pub struct ScanStore {
    generation: u64,
    revision: u64,
    published: Option<PublishedScan>,
    continuation: Option<RetainedContinuation>,
    running: Option<ScanLease>,
}

impl View for ScanStore {
    type V = ScanStoreView;

    closed spec fn view(&self) -> ScanStoreView {
        ScanStoreView {
            generation: self.generation,
            revision: self.revision,
            published: match self.published {
                Some(p) => Some(p@),
                None => None,
            },
            continuation: match self.continuation {
                Some(c) => Some(
                    ContinuationView {
                        id: c.id@,
                        scan_id: c.scan_id@,
                        generation: c.generation,
                        revision: c.revision,
                        expires_at: c.expires_at,
                        checkpoint: c.checkpoint@,
                    },
                ),
                None => None,
            },
            running: self.running,
        }
    }
}

/// The generation after `generation`: one more, wrapping past the largest
/// value to one, so a generation is never zero.
pub open spec fn next_generation(generation: u64) -> u64 {
    if generation == u64::MAX {
        1
    } else {
        (generation + 1) as u64
    }
}

/// At most `usize::MAX`.
pub open spec fn capped(value: int) -> int {
    if value > usize::MAX {
        usize::MAX as int
    } else {
        value
    }
}

/// How many items the categories hold.
pub open spec fn category_item_count(categories: Seq<CategoryResultView>) -> int
    decreases categories.len(),
{
    if categories.len() == 0 {
        0
    } else {
        category_item_count(categories.drop_last()) + categories.last().items.len()
    }
}

/// How many items the slices hold.
pub open spec fn retained_item_count(slices: Seq<ScanResultView>) -> int
    decreases slices.len(),
{
    if slices.len() == 0 {
        0
    } else {
        retained_item_count(slices.drop_last()) + category_item_count(slices.last().categories)
    }
}

/// The length in bytes of a string's UTF-8 encoding, as `str::len` reports it.
pub open spec fn utf8_len(s: Seq<char>) -> int {
    (encode_utf8(s).len() as usize) as int
}

/// The UTF-8 bytes of an item's path, name, and id.
pub open spec fn item_text_bytes(item: ScanItem) -> int {
    utf8_len(item.path@) + utf8_len(item.name@) + utf8_len(item.id@)
}

/// The text bytes of a sequence of items.
pub open spec fn items_text_bytes(items: Seq<ScanItem>) -> int
    decreases items.len(),
{
    if items.len() == 0 {
        0
    } else {
        items_text_bytes(items.drop_last()) + item_text_bytes(items.last())
    }
}

/// The text bytes of the categories' items.
pub open spec fn category_text_bytes(categories: Seq<CategoryResultView>) -> int
    decreases categories.len(),
{
    if categories.len() == 0 {
        0
    } else {
        category_text_bytes(categories.drop_last()) + items_text_bytes(categories.last().items)
    }
}

/// The text bytes of the slices' items.
pub open spec fn retained_text_bytes(slices: Seq<ScanResultView>) -> int
    decreases slices.len(),
{
    if slices.len() == 0 {
        0
    } else {
        retained_text_bytes(slices.drop_last()) + category_text_bytes(slices.last().categories)
    }
}

/// Whether a checkpoint is too large to retain.
pub open spec fn checkpoint_too_large(slices: Seq<ScanResultView>) -> bool {
    retained_item_count(slices) > ScanStore::MAX_RETAINED_ITEMS || retained_text_bytes(slices)
        > ScanStore::MAX_RETAINED_PATH_BYTES
}

/// `a + b`, saturating at `usize::MAX`.
fn add_capped(a: usize, b: usize) -> (r: usize)
    ensures
        r == capped(a + b),
{
    a.saturating_add(b)
}

proof fn lemma_capped_add(total: int, step: int)
    requires
        total >= 0,
        step >= 0,
    ensures
        capped(capped(total) + step) == capped(total + step),
{
}

/// The UTF-8 length of one item's text.
fn item_bytes(item: &ScanItem) -> (r: usize)
    ensures
        r == capped(item_text_bytes(*item)),
{
    let path = item.path.as_str().len();
    let name = item.name.as_str().len();
    let id = item.id.as_str().len();
    proof {
        lemma_capped_add(path as int, name as int);
        lemma_capped_add(path + name, id as int);
    }
    add_capped(add_capped(path, name), id)
}

/// The counted items and text bytes of one slice's categories.
fn slice_totals(categories: &Vec<crate::scan_types::CategoryResult>) -> (r: (usize, usize))
    ensures
        r.0 == capped(category_item_count(crate::scan_types::category_views(categories@))),
        r.1 == capped(category_text_bytes(crate::scan_types::category_views(categories@))),
{
    let ghost views = crate::scan_types::category_views(categories@);
    let mut count: usize = 0;
    let mut bytes: usize = 0;
    let mut i: usize = 0;
    while i < categories.len()
        invariant
            i <= categories@.len(),
            views == crate::scan_types::category_views(categories@),
            count == capped(category_item_count(views.take(i as int))),
            bytes == capped(category_text_bytes(views.take(i as int))),
        decreases categories@.len() - i,
    {
        let items = &categories[i].items;
        assert(views.take(i + 1).drop_last() =~= views.take(i as int));
        assert(views[i as int].items == items@);
        proof {
            lemma_capped_add(category_item_count(views.take(i as int)), items@.len() as int);
        }
        count = add_capped(count, items.len());
        let mut j: usize = 0;
        let ghost before = category_text_bytes(views.take(i as int));
        while j < items.len()
            invariant
                j <= items@.len(),
                before >= 0,
                bytes == capped(before + items_text_bytes(items@.take(j as int))),
            decreases items@.len() - j,
        {
            assert(items@.take(j + 1).drop_last() =~= items@.take(j as int));
            let b = item_bytes(&items[j]);
            proof {
                lemma_items_bytes_nonneg(items@.take(j as int));
                lemma_capped_add(before + items_text_bytes(items@.take(j as int)), item_text_bytes(items@[j as int]));
            }
            bytes = add_capped(bytes, b);
            j = j + 1;
        }
        assert(items@.take(items@.len() as int) =~= items@);
        i = i + 1;
    }
    assert(views.take(categories@.len() as int) =~= views);
    (count, bytes)
}

proof fn lemma_items_bytes_nonneg(items: Seq<ScanItem>)
    ensures
        items_text_bytes(items) >= 0,
    decreases items.len(),
{
    if items.len() > 0 {
        lemma_items_bytes_nonneg(items.drop_last());
    }
}

proof fn lemma_category_bytes_nonneg(categories: Seq<CategoryResultView>)
    ensures
        category_text_bytes(categories) >= 0,
        category_item_count(categories) >= 0,
    decreases categories.len(),
{
    if categories.len() > 0 {
        lemma_category_bytes_nonneg(categories.drop_last());
        lemma_items_bytes_nonneg(categories.last().items);
    }
}

/// Whether the slices a checkpoint retains exceed the retention bounds.
fn exceeds_retention(slices: &Vec<ScanResult>) -> (r: bool)
    ensures
        r == checkpoint_too_large(result_views(slices@)),
{
    let ghost views = result_views(slices@);
    let mut count: usize = 0;
    let mut bytes: usize = 0;
    let mut i: usize = 0;
    while i < slices.len()
        invariant
            i <= slices@.len(),
            views == result_views(slices@),
            count == capped(retained_item_count(views.take(i as int))),
            bytes == capped(retained_text_bytes(views.take(i as int))),
            retained_item_count(views.take(i as int)) >= 0,
            retained_text_bytes(views.take(i as int)) >= 0,
        decreases slices@.len() - i,
    {
        assert(views.take(i + 1).drop_last() =~= views.take(i as int));
        let (c, b) = slice_totals(&slices[i].categories);
        proof {
            lemma_category_bytes_nonneg(views[i as int].categories);
            lemma_capped_add(retained_item_count(views.take(i as int)), category_item_count(views[i as int].categories));
            lemma_capped_add(retained_text_bytes(views.take(i as int)), category_text_bytes(views[i as int].categories));
            lemma_capped_add(category_item_count(views[i as int].categories), 0);
        }
        count = add_capped(count, c);
        bytes = add_capped(bytes, b);
        i = i + 1;
    }
    assert(views.take(slices@.len() as int) =~= views);
    count > ScanStore::MAX_RETAINED_ITEMS || bytes > ScanStore::MAX_RETAINED_PATH_BYTES
}

/// A lowercase hexadecimal digit.
pub open spec fn lower_hex_digit(c: char) -> bool {
    ('0' <= c && c <= '9') || ('a' <= c && c <= 'f')
}

/// The text of a random (version 4) UUID in hyphenated lowercase form:
/// 36 characters, hyphens at positions 8, 13, 18 and 23, lowercase
/// hexadecimal digits elsewhere, and the version digit `4` at position 14.
pub open spec fn uuid_v4_text(t: Seq<char>) -> bool {
    &&& t.len() == 36
    &&& forall|i: int|
        0 <= i < 36 ==> if i == 8 || i == 13 || i == 18 || i == 23 {
            t[i] == '-'
        } else {
            lower_hex_digit(#[trigger] t[i])
        }
    &&& t[14] == '4'
}

/// A fresh identifier for one continuation: `uuid::Uuid::new_v4()`, turned
/// into text by its `Display`, which writes the hyphenated lowercase form.
/// The value is random; only its shape is promised.
#[verifier::external_body]
fn new_continuation_id() -> (r: String)
    ensures
        uuid_v4_text(r@),
{
    uuid::Uuid::new_v4().to_string()
}

/// The discovery state a stopped scan reports.
pub open spec fn is_stopped_with(discovery: ScanDiscovery, reason: Seq<char>) -> bool {
    discovery matches ScanDiscovery::Stopped { reason: r } && r@ == reason
}

/// The published scan with its discovery replaced by a stop for `reason`.
pub open spec fn stopped_published(
    published: Option<PublishedScanView>,
    reason: Seq<char>,
) -> spec_fn(Option<PublishedScanView>) -> bool {
    |after: Option<PublishedScanView>|
        match published {
            None => after is None,
            Some(p) => after matches Some(a) && a.result == p.result && is_stopped_with(
                a.discovery,
                reason,
            ),
        }
}

/// The deadline of a continuation retained for a session anchored at
/// `anchor`: one validity window later, saturating.
pub open spec fn anchored_deadline(anchor: u64) -> u64 {
    if anchor + ScanResult::VALID_FOR_SECONDS > u64::MAX {
        u64::MAX
    } else {
        (anchor + ScanResult::VALID_FOR_SECONDS) as u64
    }
}

impl ScanStoreView {
    /// The lease of the pass that is running, when it is `lease`, and the
    /// store is still at that lease's generation and revision.
    pub open spec fn holds(self, lease: ScanLease) -> bool {
        &&& self.running == Some(lease)
        &&& self.generation == lease.generation
        &&& self.revision == lease.revision
    }

    /// The state after a new scan begins: a new generation supersedes every
    /// prior snapshot, continuation, and lease.
    pub open spec fn begun(self) -> ScanStoreView {
        ScanStoreView {
            generation: next_generation(self.generation),
            revision: 0,
            published: None,
            continuation: None,
            running: Some(ScanLease { generation: next_generation(self.generation), revision: 0 }),
        }
    }

    /// The state in which nothing is published, retained, or running.
    pub open spec fn cleared(self) -> ScanStoreView {
        ScanStoreView {
            generation: next_generation(self.generation),
            revision: 0,
            published: None,
            continuation: None,
            running: None,
        }
    }

    /// Whether the published scan authorizes cleanup: discovery is exhausted
    /// and no pass is running.
    pub open spec fn authorizes_cleanup(self) -> bool {
        &&& self.running is None
        &&& self.published matches Some(p) && p.discovery is Exhausted
    }
}

impl ScanStore {
    pub const MAX_RETAINED_ITEMS: usize = 50_000;
    pub const MAX_RETAINED_PATH_BYTES: usize = 8388608;

    /// An empty store: nothing published, nothing running.
    pub fn new() -> (store: Self)
        ensures
            store@.generation == 0,
            store@.revision == 0,
            store@.published is None,
            store@.continuation is None,
            store@.running is None,
    {
        ScanStore { generation: 0, revision: 0, published: None, continuation: None, running: None }
    }

    /// Starts a new generation and supersedes every prior snapshot.
    pub fn begin(&mut self) -> (lease: ScanLease)
        ensures
            final(self)@ == old(self)@.begun(),
            lease == final(self)@.running->0,
    {
        self.generation = if self.generation == u64::MAX { 1 } else { self.generation + 1 };
        self.revision = 0;
        self.published = None;
        self.continuation = None;
        let lease = ScanLease { generation: self.generation, revision: 0 };
        self.running = Some(lease);
        lease
    }

    /// Replaces the published scan's discovery with a stop for `reason`.
    fn mark_stopped(&mut self, reason: String)
        ensures
            final(self)@.generation == old(self)@.generation,
            final(self)@.revision == old(self)@.revision,
            final(self)@.continuation == old(self)@.continuation,
            final(self)@.running == old(self)@.running,
            (stopped_published(old(self)@.published, reason@))(final(self)@.published),
    {
        let published = self.published.take();
        match published {
            Some(mut p) => {
                p.discovery = ScanDiscovery::Stopped { reason };
                self.published = Some(p);
            },
            None => {},
        }
    }

    /// Atomically consumes a matching continuation.
    ///
    /// A request that names another scan or another continuation consumes
    /// nothing. A continuation claimed at or after its deadline is dropped and
    /// the published scan says discovery stopped; it can never be claimed
    /// again. A claim that succeeds hands the checkpoint to exactly one caller
    /// and marks the published scan as being continued.
    pub fn claim(&mut self, request: &ResumeScanRequest, now: u64) -> (r: Result<ClaimedScan, String>)
        ensures
            old(self)@.continuation is None ==> r is Err && final(self)@ == old(self)@,
            old(self)@.continuation matches Some(c) ==> {
                if c.scan_id != request.scan_id@ || c.id != request.continuation_id@ {
                    r is Err && final(self)@ == old(self)@
                } else if now >= c.expires_at {
                    &&& r is Err
                    &&& final(self)@.continuation is None
                    &&& final(self)@.running == old(self)@.running
                    &&& final(self)@.generation == old(self)@.generation
                    &&& final(self)@.revision == old(self)@.revision
                    &&& (stopped_published(
                        old(self)@.published,
                        "The retained continuation expired. Start a new scan."@,
                    ))(final(self)@.published)
                } else {
                    &&& r matches Ok(claimed) && claimed.lease == (ScanLease {
                        generation: c.generation,
                        revision: c.revision,
                    }) && claimed.checkpoint@ == c.checkpoint
                    &&& final(self)@.continuation is None
                    &&& final(self)@.running == Some(
                        ScanLease { generation: c.generation, revision: c.revision },
                    )
                    &&& final(self)@.generation == old(self)@.generation
                    &&& final(self)@.revision == old(self)@.revision
                    &&& (stopped_published(old(self)@.published, "Continuation is in progress."@))(
                        final(self)@.published,
                    )
                }
            },
    {
        let matches_request = match &self.continuation {
            None => {
                return Err(String::from_str("This scan can no longer be continued. Start a new scan."));
            },
            Some(retained) => retained.scan_id == request.scan_id && retained.id == request.continuation_id,
        };
        if !matches_request {
            return Err(String::from_str("The continuation does not belong to the current scan."));
        }
        let retained = self.continuation.take().unwrap();
        if now >= retained.expires_at {
            self.mark_stopped(String::from_str("The retained continuation expired. Start a new scan."));
            return Err(String::from_str("The retained continuation expired. Start a new scan."));
        }
        let lease = ScanLease { generation: retained.generation, revision: retained.revision };
        self.running = Some(lease);
        self.mark_stopped(String::from_str("Continuation is in progress."));
        Ok(ClaimedScan { lease, checkpoint: retained.checkpoint })
    }

    /// Publishes only for the worker that still holds the current lease.
    ///
    /// A pass that holds the current generation and revision publishes its
    /// result and ends its lease. Without a checkpoint, discovery is
    /// exhausted and nothing is retained. With one, a new continuation is
    /// retained, expiring a validity window after the session's freshness
    /// anchor, and the published result reports the anchor as its finish —
    /// unless the checkpoint is too large to retain, in which case discovery
    /// stops and nothing is retained. A superseded worker publishes nothing.
    pub fn publish(
        &mut self,
        lease: ScanLease,
        result: ScanResult,
        checkpoint: Option<ScanCheckpoint>,
    ) -> (r: Result<PublishedScan, String>)
        ensures
            !old(self)@.holds(lease) ==> r is Err && final(self)@ == old(self)@,
            old(self)@.holds(lease) ==> {
                &&& r matches Ok(published) && final(self)@.published == Some(published@)
                &&& final(self)@.generation == old(self)@.generation
                &&& final(self)@.revision == if old(self)@.revision == u64::MAX {
                    u64::MAX
                } else {
                    (old(self)@.revision + 1) as u64
                }
                &&& final(self)@.running is None
                &&& match checkpoint {
                    None => {
                        &&& final(self)@.continuation is None
                        &&& r->Ok_0@.discovery is Exhausted
                        &&& r->Ok_0@.result == result@
                    },
                    Some(c) => if checkpoint_too_large(c@.slices) {
                        &&& final(self)@.continuation is None
                        &&& r->Ok_0@.result == result@
                        &&& is_stopped_with(
                            r->Ok_0@.discovery,
                            "The partial scan is too large to retain safely. Start a new scan."@,
                        )
                    } else {
                        &&& final(self)@.continuation is Some
                        &&& final(self)@.continuation->0.checkpoint == c@
                        &&& final(self)@.continuation->0.scan_id == result.scan_id@
                        &&& final(self)@.continuation->0.generation == final(self)@.generation
                        &&& final(self)@.continuation->0.revision == final(self)@.revision
                        &&& final(self)@.continuation->0.expires_at == anchored_deadline(
                            c.freshness_anchor,
                        )
                        &&& r->Ok_0@.discovery is Paused
                        &&& r->Ok_0@.discovery->continuation_id@ == final(self)@.continuation->0.id
                        &&& uuid_v4_text(final(self)@.continuation->0.id)
                        &&& r->Ok_0@.result == (ScanResultView {
                            finished_at: c.freshness_anchor,
                            ..result@
                        })
                    },
                }
            },
    {
        let holds = match self.running {
            Some(running) => running == lease,
            None => false,
        };
        if !holds || self.generation != lease.generation || self.revision != lease.revision {
            return Err(String::from_str("This scan was superseded before it could publish."));
        }
        self.revision = self.revision.saturating_add(1);
        self.running = None;
        let mut result = result;
        let discovery = match checkpoint {
            Some(checkpoint) => {
                if exceeds_retention(&checkpoint.slices) {
                    self.continuation = None;
                    let published = PublishedScan {
                        result,
                        discovery: ScanDiscovery::Stopped {
                            reason: String::from_str(
                                "The partial scan is too large to retain safely. Start a new scan.",
                            ),
                        },
                    };
                    self.published = Some(published.clone());
                    return Ok(published);
                }
                let continuation_id = new_continuation_id();
                let expires_at = checkpoint.freshness_anchor.saturating_add(
                    ScanResult::VALID_FOR_SECONDS as u64,
                );
                result.finished_at = checkpoint.freshness_anchor;
                self.continuation = Some(
                    RetainedContinuation {
                        id: continuation_id.clone(),
                        scan_id: result.scan_id.clone(),
                        generation: self.generation,
                        revision: self.revision,
                        expires_at,
                        checkpoint,
                    },
                );
                ScanDiscovery::Paused { continuation_id }
            },
            None => {
                self.continuation = None;
                ScanDiscovery::Exhausted
            },
        };
        let published = PublishedScan { result, discovery };
        self.published = Some(published.clone());
        Ok(published)
    }

    /// Publishes a pass that ended early: the result is published as in
    /// [`ScanStore::publish`] without a checkpoint, and its discovery states
    /// the stop and its reason.
    pub fn publish_stopped(&mut self, lease: ScanLease, result: ScanResult, reason: String) -> (r:
        Result<PublishedScan, String>)
        ensures
            !old(self)@.holds(lease) ==> r is Err && final(self)@ == old(self)@,
            old(self)@.holds(lease) ==> {
                &&& r matches Ok(published) && final(self)@.published == Some(published@)
                    && published@.result == result@ && is_stopped_with(
                    published@.discovery,
                    reason@,
                )
                &&& final(self)@.generation == old(self)@.generation
                &&& final(self)@.running is None
                &&& final(self)@.continuation is None
            },
    {
        let mut published = match self.publish(lease, result, None) {
            Ok(published) => published,
            Err(error) => return Err(error),
        };
        published.discovery = ScanDiscovery::Stopped { reason };
        let same = match &self.published {
            Some(current) => current.result.scan_id == published.result.scan_id,
            None => false,
        };
        if same {
            self.published = Some(published.clone());
        }
        Ok(published)
    }

    /// Retires a claimed pass after cancellation or failure without restoring
    /// its consumed continuation. Only the running lease can be retired.
    pub fn stop(&mut self, lease: ScanLease, reason: String)
        ensures
            old(self)@.running != Some(lease) ==> final(self)@ == old(self)@,
            old(self)@.running == Some(lease) ==> {
                &&& final(self)@.running is None
                &&& final(self)@.continuation is None
                &&& final(self)@.generation == old(self)@.generation
                &&& final(self)@.revision == old(self)@.revision
                &&& (stopped_published(old(self)@.published, reason@))(final(self)@.published)
            },
    {
        let is_running = match self.running {
            Some(running) => running == lease,
            None => false,
        };
        if is_running {
            self.running = None;
            self.continuation = None;
            self.mark_stopped(reason);
        }
    }

    /// The latest published scan, whatever its discovery state.
    pub fn get_published(&self) -> (r: Option<PublishedScan>)
        ensures
            match r {
                Some(p) => self@.published == Some(p@),
                None => self@.published is None,
            },
    {
        match &self.published {
            Some(p) => Some(p.clone()),
            None => None,
        }
    }

    /// The published result, only when it authorizes cleanup: discovery is
    /// exhausted and no pass is running.
    pub fn get(&self) -> (r: Option<ScanResult>)
        ensures
            r is Some <==> self@.authorizes_cleanup(),
            r matches Some(result) ==> result@ == self@.published->0.result,
    {
        if self.running.is_some() {
            return None;
        }
        match &self.published {
            Some(p) => match p.discovery {
                ScanDiscovery::Exhausted => Some(p.result.clone()),
                _ => None,
            },
            None => None,
        }
    }

    /// Publishes an exhausted scan under a new generation.
    pub fn set(&mut self, scan: ScanResult)
        ensures
            final(self)@.generation == next_generation(old(self)@.generation),
            final(self)@.revision == 1,
            final(self)@.running is None,
            final(self)@.continuation is None,
            final(self)@.published matches Some(p) && p.result == scan@ && p.discovery is Exhausted,
    {
        let lease = self.begin();
        let _ = self.publish(lease, scan, None);
    }

    /// Drops every retained fact under a new generation.
    pub fn invalidate(&mut self)
        ensures
            final(self)@ == old(self)@.cleared(),
    {
        self.generation = if self.generation == u64::MAX { 1 } else { self.generation + 1 };
        self.revision = 0;
        self.published = None;
        self.continuation = None;
        self.running = None;
    }

    /// Hands the published scan to one cleanup and invalidates it.
    ///
    /// Succeeds only when discovery is exhausted, no pass is running, and the
    /// scan is the one named and still within its validity window; on success
    /// everything the store held is dropped, so the same inventory can never
    /// authorize a second cleanup. A refusal changes nothing.
    pub fn validate_and_invalidate_for_cleanup(&mut self, scan_id: &String, now: u64) -> (r:
        Result<ScanResult, String>)
        ensures
            (r is Ok) <==> (old(self)@.authorizes_cleanup()
                && old(self)@.published->0.result.valid_for_cleanup(scan_id@, now)),
            r is Ok ==> r->Ok_0@ == old(self)@.published->0.result && final(self)@ == old(self)@.cleared(),
            r is Err ==> final(self)@ == old(self)@,
    {
        if self.running.is_some() {
            return Err(String::from_str("The scan is still being continued. Finish it before cleaning."));
        }
        let scan = match &self.published {
            Some(p) => match p.discovery {
                ScanDiscovery::Exhausted => &p.result,
                _ => {
                    return Err(String::from_str(
                        "Discovery is incomplete. Continue or restart the scan before cleaning.",
                    ));
                },
            },
            None => {
                return Err(String::from_str(
                    "Discovery is incomplete. Continue or restart the scan before cleaning.",
                ));
            },
        };
        match scan.validate_for_cleanup(scan_id, now) {
            Ok(()) => {},
            Err(error) => return Err(error),
        }
        let valid_scan = scan.clone();
        self.invalidate();
        Ok(valid_scan)
    }
}

} // verus!
