//! Cancellation for the scans a user can stop.
//!
//! A scan registers the signal it watches under the id it reports, so a caller
//! can stop it by that id while it runs. Entries expire after a stated window,
//! the registry evicts its oldest entry at its cap, and registering an id
//! again replaces its signal. The probe a scan holds reads the same flag the
//! registry stored, so a cancel is never lost to bookkeeping.
use vstd::prelude::*;
use std::sync::atomic::AtomicBool;
use std::sync::Arc;
use crate::text::{equal_text, seq_lt, str_less, lemma_seq_lt_transitive, lemma_seq_lt_total};

verus! {

/// How long a registered scan may be cancelled after it starts.
pub const DEFAULT_CANCELLATION_TTL_SECS: u64 = 900;
/// How many scans one workflow may have in flight before the oldest is dropped.
pub const DEFAULT_MAX_ACTIVE_CANCELLATIONS: usize = 64;

/// Whether an entry created at `created_at` is still live at `now` for a
/// window of `ttl` seconds: fewer than `ttl` seconds have passed (a clock
/// that went backwards counts as no time passing).
pub open spec fn within_window(created_at: u64, now: u64, ttl: u64) -> bool {
    (if now >= created_at { now - created_at } else { 0 }) < ttl
}

/// Whether an entry created at `created_at` is still live at `now`.
pub fn is_within_window(created_at: u64, now: u64, ttl: u64) -> (r: bool)
    ensures
        r == within_window(created_at, now, ttl),
{
    now.saturating_sub(created_at) < ttl
}

/// Something a long-running walk can ask whether it should stop.
pub trait CancellationProbe {
    fn is_cancelled(&self) -> bool;
}

/// A probe that never cancels.
pub struct NeverCancelled;

impl CancellationProbe for NeverCancelled {
    fn is_cancelled(&self) -> (r: bool)
        ensures
            !r,
    {
        false
    }
}

struct CancellationEntry {
    scan_id: String,
    signal: Arc<AtomicBool>,
    created_at: u64,
}

/// One registered scan, as values.
pub struct EntryView {
    pub signal: Arc<AtomicBool>,
    pub created_at: u64,
}

/// `a` was registered before `b`: earlier, or in the same second with a
/// smaller id.
pub open spec fn registered_before(a_created: u64, a_id: Seq<char>, b_created: u64, b_id: Seq<char>) -> bool {
    a_created < b_created || (a_created == b_created && seq_lt(a_id, b_id))
}

/// `id` names the oldest entry of `entries`.
pub open spec fn is_oldest(entries: Map<Seq<char>, EntryView>, id: Seq<char>) -> bool {
    &&& entries.dom().contains(id)
    &&& forall|other: Seq<char>|
        #![trigger entries.dom().contains(other)]
        entries.dom().contains(other) && other != id ==> registered_before(
            entries[id].created_at,
            id,
            entries[other].created_at,
            other,
        )
}

/// The entries still live at `now`.
pub open spec fn live_entries(entries: Map<Seq<char>, EntryView>, now: u64, ttl: u64) -> Map<
    Seq<char>,
    EntryView,
> {
    entries.restrict(entries.dom().filter(|id: Seq<char>| within_window(entries[id].created_at, now, ttl)))
}

/// The cancellation handles of one workflow.
pub struct CancellationRegistry {
    entries: Vec<CancellationEntry>,
    ttl_secs: u64,
    capacity: usize,
}

spec fn entry_views(entries: Seq<CancellationEntry>) -> Map<Seq<char>, EntryView>
    decreases entries.len(),
{
    if entries.len() == 0 {
        Map::empty()
    } else {
        entry_views(entries.drop_last()).insert(
            entries.last().scan_id@,
            EntryView { signal: entries.last().signal, created_at: entries.last().created_at },
        )
    }
}

spec fn unique_ids(entries: Seq<CancellationEntry>) -> bool {
    forall|i: int, j: int|
        0 <= i < entries.len() && 0 <= j < entries.len() && i != j ==> entries[i].scan_id@
            != entries[j].scan_id@
}

proof fn lemma_entry_views(entries: Seq<CancellationEntry>)
    requires
        unique_ids(entries),
    ensures
        forall|i: int|
            0 <= i < entries.len() ==> entry_views(entries).dom().contains(
                (#[trigger] entries[i]).scan_id@,
            ) && entry_views(entries)[entries[i].scan_id@] == (EntryView {
                signal: entries[i].signal,
                created_at: entries[i].created_at,
            }),
        forall|id: Seq<char>|
            #[trigger] entry_views(entries).dom().contains(id) ==> exists|i: int|
                0 <= i < entries.len() && entries[i].scan_id@ == id,
    decreases entries.len(),
{
    if entries.len() > 0 {
        let rest = entries.drop_last();
        assert(unique_ids(rest));
        lemma_entry_views(rest);
        let n = entries.len() - 1;
        assert forall|i: int| 0 <= i < entries.len() implies entry_views(entries).dom().contains(
                (#[trigger] entries[i]).scan_id@,
            ) && entry_views(entries)[entries[i].scan_id@] == (EntryView {
                signal: entries[i].signal,
                created_at: entries[i].created_at,
            }) by {
            if i < n {
                assert(rest[i] == entries[i]);
                assert(entries[i].scan_id@ != entries[n].scan_id@);
            }
        }
        assert forall|id: Seq<char>| #[trigger] entry_views(entries).dom().contains(id) implies exists|i: int|
            0 <= i < entries.len() && entries[i].scan_id@ == id by {
            if id != entries[n].scan_id@ {
                assert(entry_views(rest).dom().contains(id));
                let i = choose|i: int| 0 <= i < rest.len() && rest[i].scan_id@ == id;
                assert(entries[i] == rest[i]);
            } else {
                assert(entries[n].scan_id@ == id);
            }
        }
    }
}

proof fn lemma_entry_views_len(entries: Seq<CancellationEntry>)
    requires
        unique_ids(entries),
    ensures
        entry_views(entries).dom().finite(),
        entry_views(entries).dom().len() == entries.len(),
    decreases entries.len(),
{
    if entries.len() > 0 {
        let rest = entries.drop_last();
        assert(unique_ids(rest));
        lemma_entry_views_len(rest);
        lemma_entry_views(rest);
        let n = entries.len() - 1;
        assert(!entry_views(rest).dom().contains(entries[n].scan_id@)) by {
            if entry_views(rest).dom().contains(entries[n].scan_id@) {
                let i = choose|i: int| 0 <= i < rest.len() && rest[i].scan_id@ == entries[n].scan_id@;
                assert(entries[i] == rest[i]);
            }
        }
    }
}

proof fn lemma_registered_before_transitive(
    a: u64, ai: Seq<char>, b: u64, bi: Seq<char>, c: u64, ci: Seq<char>,
)
    requires
        registered_before(a, ai, b, bi),
        registered_before(b, bi, c, ci),
    ensures
        registered_before(a, ai, c, ci),
{
    if a == b && b == c {
        lemma_seq_lt_transitive(ai, bi, ci);
    }
}

proof fn lemma_registered_before_total(a: u64, ai: Seq<char>, b: u64, bi: Seq<char>)
    requires
        ai != bi,
    ensures
        registered_before(a, ai, b, bi) || registered_before(b, bi, a, ai),
{
    lemma_seq_lt_total(ai, bi);
}

/// Adding an entry under a new id to the registered entries.
proof fn lemma_entry_views_push(entries: Seq<CancellationEntry>, e: CancellationEntry)
    ensures
        entry_views(entries.push(e)) == entry_views(entries).insert(
            e.scan_id@,
            EntryView { signal: e.signal, created_at: e.created_at },
        ),
{
    assert(entries.push(e).drop_last() =~= entries);
}

impl CancellationRegistry {
    /// The live-or-not entries the registry holds, by id.
    pub closed spec fn entries(&self) -> Map<Seq<char>, EntryView> {
        entry_views(self.entries@)
    }

    /// How long an entry may be cancelled.
    pub closed spec fn ttl(&self) -> u64 {
        self.ttl_secs
    }

    /// How many entries the registry holds at most.
    pub closed spec fn capacity(&self) -> nat {
        self.capacity as nat
    }

    /// The registry's invariant: ids are unique and the registry is within its
    /// cap, which is at least one.
    pub closed spec fn wf(&self) -> bool {
        &&& unique_ids(self.entries@)
        &&& self.capacity >= 1
        &&& self.entries@.len() <= self.capacity
    }

    /// An empty registry with a window of `ttl_secs` and a cap of
    /// `capacity`, raised to one.
    pub fn new(ttl_secs: u64, capacity: usize) -> (r: Self)
        ensures
            r.wf(),
            r.entries() == Map::<Seq<char>, EntryView>::empty(),
            r.ttl() == ttl_secs,
            r.capacity() == if capacity == 0 { 1 } else { capacity as nat },
    {
        let capacity = if capacity == 0 { 1 } else { capacity };
        CancellationRegistry { entries: Vec::new(), ttl_secs, capacity }
    }

    /// The registry a user-facing scan uses.
    pub fn for_scans() -> (r: Self)
        ensures
            r.wf(),
            r.entries() == Map::<Seq<char>, EntryView>::empty(),
            r.ttl() == DEFAULT_CANCELLATION_TTL_SECS,
            r.capacity() == DEFAULT_MAX_ACTIVE_CANCELLATIONS,
    {
        Self::new(DEFAULT_CANCELLATION_TTL_SECS, DEFAULT_MAX_ACTIVE_CANCELLATIONS)
    }

    /// Drops every entry whose window has closed at `now`.
    fn retain_live(&mut self, now: u64)
        requires
            old(self).wf(),
        ensures
            final(self).wf(),
            final(self).entries() == live_entries(old(self).entries(), now, old(self).ttl()),
            final(self).ttl() == old(self).ttl(),
            final(self).capacity() == old(self).capacity(),
    {
        let ghost before = self.entries@;
        let ghost ttl = self.ttl_secs;
        let mut kept: Vec<CancellationEntry> = Vec::new();
        let mut source: Vec<CancellationEntry> = Vec::new();
        std::mem::swap(&mut source, &mut self.entries);
        let ghost n = before.len();
        proof {
            lemma_entry_views(before);
            assert(before.take(0) =~= Seq::<CancellationEntry>::empty());
            assert(entry_views(kept@) =~= live_entries(entry_views(before.take(0)), now, ttl));
            assert(before.skip(0) =~= before);
        }
        while source.len() > 0
            invariant
                unique_ids(before),
                n == before.len(),
                ttl == self.ttl_secs,
                source@ == before.skip(n - source@.len()),
                unique_ids(kept@),
                kept@.len() <= n - source@.len(),
                entry_views(kept@) == live_entries(entry_views(before.take(n - source@.len())), now, ttl),
                self.capacity >= 1,
                n <= self.capacity,
            decreases source@.len(),
        {
            let ghost k = n - source@.len();
            let entry = source.remove(0);
            assert(entry == before[k]);
            let ghost prefix = before.take(k);
            proof {
                assert(before.take(k + 1) =~= prefix.push(entry));
                lemma_entry_views_push(prefix, entry);
                assert(unique_ids(prefix));
                lemma_entry_views(prefix);
                assert(!entry_views(prefix).dom().contains(entry.scan_id@)) by {
                    if entry_views(prefix).dom().contains(entry.scan_id@) {
                        let i = choose|i: int| 0 <= i < prefix.len() && prefix[i].scan_id@ == entry.scan_id@;
                        assert(before[i].scan_id@ == before[k].scan_id@);
                    }
                }
                lemma_entry_views(kept@);
            }
            if is_within_window(entry.created_at, now, self.ttl_secs) {
                proof {
                    assert forall|a: int, b: int| 0 <= a < kept@.push(entry).len() && 0 <= b < kept@.push(entry).len() && a != b implies kept@.push(entry)[a].scan_id@ != kept@.push(entry)[b].scan_id@ by {
                        if a < kept@.len() && b < kept@.len() {
                        } else if a < kept@.len() {
                            assert(entry_views(kept@).dom().contains(kept@[a].scan_id@));
                        } else {
                            assert(entry_views(kept@).dom().contains(kept@[b].scan_id@));
                        }
                    }
                    lemma_entry_views_push(kept@, entry);
                    let m = entry_views(prefix);
                    let v = EntryView { signal: entry.signal, created_at: entry.created_at };
                    assert(live_entries(m.insert(entry.scan_id@, v), now, ttl) =~= live_entries(m, now, ttl).insert(entry.scan_id@, v));
                }
                kept.push(entry);
            } else {
                proof {
                    let m = entry_views(prefix);
                    let v = EntryView { signal: entry.signal, created_at: entry.created_at };
                    assert(live_entries(m.insert(entry.scan_id@, v), now, ttl) =~= live_entries(m, now, ttl));
                }
            }
            assert(source@ =~= before.skip(n - source@.len()));
        }
        assert(before.take(n as int) =~= before);
        self.entries = kept;
    }

    /// How many entries the registry holds.
    pub fn len(&self) -> (r: usize)
        requires
            self.wf(),
        ensures
            r == self.entries().dom().len(),
    {
        proof {
            lemma_entry_views_len(self.entries@);
        }
        self.entries.len()
    }

    /// Removes the oldest entry.
    fn evict_oldest(&mut self)
        requires
            old(self).wf(),
            old(self).entries@.len() > 0,
        ensures
            final(self).wf(),
            exists|oldest: Seq<char>|
                is_oldest(old(self).entries(), oldest) && final(self).entries() == old(
                    self,
                ).entries().remove(oldest),
            final(self).ttl() == old(self).ttl(),
            final(self).capacity() == old(self).capacity(),
            final(self).entries@.len() == old(self).entries@.len() - 1,
    {
        let ghost before = self.entries@;
        proof {
            lemma_entry_views(before);
        }
        let mut best: usize = 0;
        let mut i: usize = 1;
        while i < self.entries.len()
            invariant
                self.entries@ == before,
                unique_ids(before),
                1 <= i <= before.len(),
                best < i,
                forall|j: int|
                    0 <= j < i && j != best ==> registered_before(
                        before[best as int].created_at,
                        before[best as int].scan_id@,
                        (#[trigger] before[j]).created_at,
                        before[j].scan_id@,
                    ),
            decreases before.len() - i,
        {
            let candidate = &self.entries[i];
            let current = &self.entries[best];
            let earlier = candidate.created_at < current.created_at || (candidate.created_at
                == current.created_at && str_less(candidate.scan_id.as_str(), current.scan_id.as_str()));
            proof {
                assert(before[i as int].scan_id@ != before[best as int].scan_id@);
                lemma_registered_before_total(
                    before[i as int].created_at,
                    before[i as int].scan_id@,
                    before[best as int].created_at,
                    before[best as int].scan_id@,
                );
            }
            if earlier {
                proof {
                    assert forall|j: int| 0 <= j < i + 1 && j != i implies registered_before(
                        before[i as int].created_at,
                        before[i as int].scan_id@,
                        (#[trigger] before[j]).created_at,
                        before[j].scan_id@,
                    ) by {
                        if j != best {
                            lemma_registered_before_transitive(
                                before[i as int].created_at,
                                before[i as int].scan_id@,
                                before[best as int].created_at,
                                before[best as int].scan_id@,
                                before[j].created_at,
                                before[j].scan_id@,
                            );
                        }
                    }
                }
                best = i;
            }
            i = i + 1;
        }
        let removed = self.entries.remove(best);
        proof {
            let m = entry_views(before);
            let oldest = removed.scan_id@;
            assert forall|other: Seq<char>| m.dom().contains(other) && other != oldest implies registered_before(
                m[oldest].created_at, oldest, m[other].created_at, other) by {
                let j = choose|j: int| 0 <= j < before.len() && before[j].scan_id@ == other;
                assert(j != best);
            }
            let after = self.entries@;
            assert(unique_ids(after)) by {
                assert forall|a: int, b: int| 0 <= a < after.len() && 0 <= b < after.len() && a != b implies after[a].scan_id@ != after[b].scan_id@ by {
                    let a2 = if a < best { a } else { a + 1 };
                    let b2 = if b < best { b } else { b + 1 };
                    assert(after[a] == before[a2]);
                    assert(after[b] == before[b2]);
                }
            }
            lemma_entry_views(after);
            assert forall|id: Seq<char>| #[trigger] entry_views(after).dom().contains(id) <==> m.remove(oldest).dom().contains(id) by {
                if entry_views(after).dom().contains(id) {
                    let a = choose|a: int| 0 <= a < after.len() && after[a].scan_id@ == id;
                    let a2 = if a < best { a } else { a + 1 };
                    assert(after[a] == before[a2]);
                }
                if m.remove(oldest).dom().contains(id) {
                    assert(m.dom().contains(id));
                    let j = choose|j: int| 0 <= j < before.len() && before[j].scan_id@ == id;
                    assert(j != best);
                    let a = if j < best { j } else { j - 1 };
                    assert(after[a] == before[j]);
                }
            }
            assert forall|id: Seq<char>| #[trigger] entry_views(after).dom().contains(id) implies entry_views(after)[id] == m.remove(oldest)[id] by {
                let a = choose|a: int| 0 <= a < after.len() && after[a].scan_id@ == id;
                let a2 = if a < best { a } else { a + 1 };
                assert(after[a] == before[a2]);
            }
            assert(entry_views(after) =~= m.remove(oldest));
            assert(is_oldest(m, oldest));
            assert(is_oldest(old(self).entries(), oldest) && self.entries() == old(self).entries().remove(oldest));
        }
    }

    /// Forgets a scan's handle.
    pub fn remove(&mut self, scan_id: &str)
        requires
            old(self).wf(),
        ensures
            final(self).wf(),
            final(self).entries() == old(self).entries().remove(scan_id@),
            final(self).ttl() == old(self).ttl(),
            final(self).capacity() == old(self).capacity(),
    {
        let ghost before = self.entries@;
        proof {
            lemma_entry_views(before);
        }
        let mut i: usize = 0;
        while i < self.entries.len()
            invariant
                self.entries@ == before,
                unique_ids(before),
                i <= before.len(),
                forall|j: int| 0 <= j < i ==> (#[trigger] before[j]).scan_id@ != scan_id@,
                self.capacity == old(self).capacity,
                self.ttl_secs == old(self).ttl_secs,
                old(self).wf(),
                before == old(self).entries@,
            decreases before.len() - i,
        {
            if equal_text(self.entries[i].scan_id.as_str(), scan_id) {
                let removed = self.entries.remove(i);
                proof {
                    lemma_entry_views(before);
                    let m = entry_views(before);
                    let after = self.entries@;
                    assert(unique_ids(after)) by {
                        assert forall|a: int, b: int| 0 <= a < after.len() && 0 <= b < after.len() && a != b implies after[a].scan_id@ != after[b].scan_id@ by {
                            let a2 = if a < i { a } else { a + 1 };
                            let b2 = if b < i { b } else { b + 1 };
                            assert(after[a] == before[a2]);
                            assert(after[b] == before[b2]);
                        }
                    }
                    lemma_entry_views(after);
                    assert forall|id: Seq<char>| #[trigger] entry_views(after).dom().contains(id) <==> m.remove(scan_id@).dom().contains(id) by {
                        if entry_views(after).dom().contains(id) {
                            let a = choose|a: int| 0 <= a < after.len() && after[a].scan_id@ == id;
                            let a2 = if a < i { a } else { a + 1 };
                            assert(after[a] == before[a2]);
                        }
                        if m.remove(scan_id@).dom().contains(id) {
                            assert(m.dom().contains(id));
                            let j = choose|j: int| 0 <= j < before.len() && before[j].scan_id@ == id;
                            assert(j != i);
                            let a = if j < i { j } else { j - 1 };
                            assert(after[a] == before[j]);
                        }
                    }
                    assert forall|id: Seq<char>| #[trigger] entry_views(after).dom().contains(id) implies entry_views(after)[id] == m.remove(scan_id@)[id] by {
                        let a = choose|a: int| 0 <= a < after.len() && after[a].scan_id@ == id;
                        let a2 = if a < i { a } else { a + 1 };
                        assert(after[a] == before[a2]);
                    }
                    assert(entry_views(after) =~= m.remove(scan_id@));
                }
                return;
            }
            i = i + 1;
        }
        proof {
            let m = entry_views(before);
            assert(!m.dom().contains(scan_id@)) by {
                if m.dom().contains(scan_id@) {
                    let j = choose|j: int| 0 <= j < before.len() && before[j].scan_id@ == scan_id@;
                }
            }
            assert(m.remove(scan_id@) =~= m);
        }
    }

    /// Records `signal` under `scan_id`, replacing any entry for that id.
    fn insert(&mut self, scan_id: String, signal: Arc<AtomicBool>, now: u64)
        requires
            old(self).wf(),
            old(self).entries@.len() < old(self).capacity,
        ensures
            final(self).wf(),
            final(self).entries() == old(self).entries().insert(
                scan_id@,
                EntryView { signal, created_at: now },
            ),
            final(self).ttl() == old(self).ttl(),
            final(self).capacity() == old(self).capacity(),
    {
        self.remove(scan_id.as_str());
        let ghost before = self.entries@;
        proof {
            lemma_entry_views(before);
            lemma_entry_views_len(before);
            lemma_entry_views_len(old(self).entries@);
            assert(!entry_views(before).dom().contains(scan_id@));
        }
        let entry = CancellationEntry { scan_id, signal, created_at: now };
        proof {
            assert forall|a: int, b: int| 0 <= a < before.push(entry).len() && 0 <= b < before.push(entry).len() && a != b implies before.push(entry)[a].scan_id@ != before.push(entry)[b].scan_id@ by {
                if a < before.len() && b < before.len() {
                } else if a < before.len() {
                    assert(entry_views(before).dom().contains(before[a].scan_id@));
                } else {
                    assert(entry_views(before).dom().contains(before[b].scan_id@));
                }
            }
            lemma_entry_views_push(before, entry);
            let old_m = entry_views(old(self).entries@);
            assert(old_m.remove(entry.scan_id@).insert(entry.scan_id@, EntryView { signal: entry.signal, created_at: now })
                =~= old_m.insert(entry.scan_id@, EntryView { signal: entry.signal, created_at: now }));
            if old_m.dom().contains(entry.scan_id@) {
                assert(old_m.remove(entry.scan_id@).dom().len() == old_m.dom().len() - 1);
            } else {
                assert(old_m.remove(entry.scan_id@) =~= old_m);
            }
        }
        self.entries.push(entry);
    }

    /// Records the signal a scan watches at `now`, replacing any entry for
    /// that id.
    ///
    /// Entries whose window has closed are dropped first. When the live entries
    /// fill the cap, the oldest — earliest, then smallest id — is evicted, so
    /// the registry never holds more than its cap and eviction never depends
    /// on iteration order.
    pub fn register_at(&mut self, scan_id: String, signal: Arc<AtomicBool>, now: u64)
        requires
            old(self).wf(),
        ensures
            final(self).wf(),
            final(self).ttl() == old(self).ttl(),
            final(self).capacity() == old(self).capacity(),
            ({
                let live = live_entries(old(self).entries(), now, old(self).ttl());
                let added = EntryView { signal, created_at: now };
                if live.dom().len() >= old(self).capacity() {
                    exists|oldest: Seq<char>|
                        is_oldest(live, oldest) && final(self).entries() == live.remove(
                            oldest,
                        ).insert(scan_id@, added)
                } else {
                    final(self).entries() == live.insert(scan_id@, added)
                }
            }),
    {
        self.retain_live(now);
        proof {
            lemma_entry_views_len(self.entries@);
        }
        if self.entries.len() >= self.capacity {
            self.evict_oldest();
        }
        self.insert(scan_id, signal, now);
    }

    /// Records the signal a scan watches, at the current time.
    pub fn register(&mut self, scan_id: String, signal: Arc<AtomicBool>)
        requires
            old(self).wf(),
        ensures
            final(self).wf(),
            final(self).entries().dom().contains(scan_id@),
            final(self).entries()[scan_id@].signal == signal,
            final(self).entries().dom().len() <= final(self).capacity(),
            final(self).ttl() == old(self).ttl(),
            final(self).capacity() == old(self).capacity(),
    {
        let now = crate::clock::unix_timestamp();
        self.register_at(scan_id, signal, now);
        proof {
            lemma_entry_views_len(self.entries@);
        }
    }

    /// The signal registered for one id when its entry is still live at
    /// `now`; expired entries are dropped on the way.
    pub fn signal_at(&mut self, scan_id: &str, now: u64) -> (r: Option<Arc<AtomicBool>>)
        requires
            old(self).wf(),
        ensures
            final(self).wf(),
            final(self).entries() == live_entries(old(self).entries(), now, old(self).ttl()),
            final(self).ttl() == old(self).ttl(),
            final(self).capacity() == old(self).capacity(),
            match r {
                Some(signal) => final(self).entries().dom().contains(scan_id@)
                    && final(self).entries()[scan_id@].signal == signal,
                None => !final(self).entries().dom().contains(scan_id@),
            },
    {
        self.retain_live(now);
        let ghost current = self.entries@;
        proof {
            lemma_entry_views(current);
        }
        let mut i: usize = 0;
        while i < self.entries.len()
            invariant
                self.entries@ == current,
                i <= current.len(),
                self.wf(),
                self.entries() == live_entries(old(self).entries(), now, old(self).ttl()),
                self.ttl() == old(self).ttl(),
                self.capacity() == old(self).capacity(),
                forall|j: int| 0 <= j < i ==> (#[trigger] current[j]).scan_id@ != scan_id@,
            decreases current.len() - i,
        {
            if equal_text(self.entries[i].scan_id.as_str(), scan_id) {
                proof {
                    lemma_entry_views(current);
                }
                let signal = self.entries[i].signal.clone();
                assert(signal == current[i as int].signal);
                return Some(signal);
            }
            i = i + 1;
        }
        proof {
            if entry_views(current).dom().contains(scan_id@) {
                let j = choose|j: int| 0 <= j < current.len() && current[j].scan_id@ == scan_id@;
            }
        }
        None
    }

    /// The signal registered for one id, when its entry is still live now.
    pub fn signal(&mut self, scan_id: &str) -> (r: Option<Arc<AtomicBool>>)
        requires
            old(self).wf(),
        ensures
            final(self).wf(),
            final(self).ttl() == old(self).ttl(),
            final(self).capacity() == old(self).capacity(),
            exists|now: u64|
                #![trigger live_entries(old(self).entries(), now, old(self).ttl())]
                final(self).entries() == live_entries(old(self).entries(), now, old(self).ttl()) && match r {
                    Some(signal) => final(self).entries().dom().contains(scan_id@)
                        && final(self).entries()[scan_id@].signal == signal,
                    None => !final(self).entries().dom().contains(scan_id@),
                },
    {
        let now = crate::clock::unix_timestamp();
        self.signal_at(scan_id, now)
    }

    /// Requests cancellation of one scan at `now`: raises its signal when its
    /// entry is live and answers whether it did. An unknown or expired id is
    /// not an error; the scan is simply no longer running.
    pub fn request_at(&mut self, scan_id: &str, now: u64) -> (r: bool)
        requires
            old(self).wf(),
        ensures
            final(self).wf(),
            final(self).entries() == live_entries(old(self).entries(), now, old(self).ttl()),
            final(self).ttl() == old(self).ttl(),
            final(self).capacity() == old(self).capacity(),
            r == live_entries(old(self).entries(), now, old(self).ttl()).dom().contains(scan_id@),
    {
        match self.signal_at(scan_id, now) {
            Some(signal) => {
                signal.store(true, std::sync::atomic::Ordering::SeqCst);
                true
            },
            None => false,
        }
    }

    /// Requests cancellation of one scan at the current time.
    pub fn request(&mut self, scan_id: &str) -> (r: bool)
        requires
            old(self).wf(),
        ensures
            final(self).wf(),
            final(self).ttl() == old(self).ttl(),
            final(self).capacity() == old(self).capacity(),
            exists|now: u64|
                #![trigger live_entries(old(self).entries(), now, old(self).ttl())]
                final(self).entries() == live_entries(old(self).entries(), now, old(self).ttl()) && r
                    == final(self).entries().dom().contains(scan_id@),
    {
        let now = crate::clock::unix_timestamp();
        self.request_at(scan_id, now)
    }
}

/// The probe one scan holds.
///
/// It reads the same flag the registry stored, so a cancel reaches the scan
/// even if the registry entry is evicted while the scan is still running.
pub struct ScanCancellation {
    signal: Arc<AtomicBool>,
}

impl ScanCancellation {
    /// The flag this probe watches.
    pub closed spec fn watched(&self) -> Arc<AtomicBool> {
        self.signal
    }

    /// A probe watching `signal`.
    pub fn new(signal: Arc<AtomicBool>) -> (r: Self)
        ensures
            r.watched() == signal,
    {
        ScanCancellation { signal }
    }

    /// The flag this probe watches, for a caller that registers it as well.
    pub fn signal(&self) -> (r: Arc<AtomicBool>)
        ensures
            r == self.watched(),
    {
        self.signal.clone()
    }
}

impl CancellationProbe for ScanCancellation {
    fn is_cancelled(&self) -> bool {
        self.signal.load(std::sync::atomic::Ordering::SeqCst)
    }
}

} // verus!
