//! The eligibility breakdown of a scan: how the observed bytes of a category,
//! or of a whole result, divide among the cleanup eligibilities.
use vstd::prelude::*;
use crate::engine::{cleanable_of, observed_of, saturated, scan_items, sum_of};
use crate::models::CleanupEligibility;
use crate::scan_types::{CategoryResult, ScanItem, ScanResult};

verus! {

/// The eligibilities, in the order a breakdown lists them.
pub open spec fn all_eligibilities() -> Seq<CleanupEligibility> {
    seq![
        CleanupEligibility::AutoCleanable,
        CleanupEligibility::Selectable,
        CleanupEligibility::Advisory,
        CleanupEligibility::Blocked,
        CleanupEligibility::Recent,
    ]
}

/// The observed bytes an item adds to the bucket of `eligibility`.
pub open spec fn observed_in(item: ScanItem, eligibility: CleanupEligibility) -> int {
    if item.disposition.eligibility == eligibility {
        observed_of(item)
    } else {
        0
    }
}

/// The cleanable bytes an item adds to the bucket of `eligibility`.
pub open spec fn cleanable_in(item: ScanItem, eligibility: CleanupEligibility) -> int {
    if item.disposition.eligibility == eligibility {
        cleanable_of(item)
    } else {
        0
    }
}

/// Whether an item counts in the bucket of `eligibility`.
pub open spec fn counted_in(item: ScanItem, eligibility: CleanupEligibility) -> int {
    if item.disposition.eligibility == eligibility {
        1
    } else {
        0
    }
}

/// The observed bytes of the items of one eligibility.
pub open spec fn bucket_observed(items: Seq<ScanItem>, eligibility: CleanupEligibility) -> int {
    sum_of(items, |x: ScanItem| observed_in(x, eligibility))
}

/// The cleanable bytes of the items of one eligibility.
pub open spec fn bucket_cleanable(items: Seq<ScanItem>, eligibility: CleanupEligibility) -> int {
    sum_of(items, |x: ScanItem| cleanable_in(x, eligibility))
}

/// How many items have one eligibility.
pub open spec fn bucket_items(items: Seq<ScanItem>, eligibility: CleanupEligibility) -> int {
    sum_of(items, |x: ScanItem| counted_in(x, eligibility))
}

/// One eligibility's share of a breakdown; each total saturates.
#[derive(Debug, Clone, Copy, PartialEq, Eq, Structural)]
pub struct EligibilityBucket {
    pub eligibility: CleanupEligibility,
    pub observed_bytes: u64,
    pub cleanable_bytes: u64,
    pub items: u64,
}

/// The bucket of `eligibility` over `items`.
pub open spec fn bucket_of_items(items: Seq<ScanItem>, eligibility: CleanupEligibility) -> EligibilityBucket {
    EligibilityBucket {
        eligibility,
        observed_bytes: saturated(bucket_observed(items, eligibility)),
        cleanable_bytes: saturated(bucket_cleanable(items, eligibility)),
        items: saturated(bucket_items(items, eligibility)),
    }
}

/// How the items of a category, or of a result, divide among the
/// eligibilities: one bucket per eligibility, in the order of
/// `all_eligibilities`.
pub struct EligibilitySummary {
    pub buckets: Vec<EligibilityBucket>,
}

/// `buckets` is the breakdown of `items`.
pub open spec fn summary_of(buckets: Seq<EligibilityBucket>, items: Seq<ScanItem>) -> bool {
    &&& buckets.len() == all_eligibilities().len()
    &&& forall|k: int| 0 <= k < buckets.len() ==> #[trigger] buckets[k] == bucket_of_items(items, all_eligibilities()[k])
}

impl EligibilitySummary {
    /// A copy of the breakdown.
    pub fn copy(&self) -> (r: Self)
        ensures
            r.buckets@ == self.buckets@,
    {
        let mut out: Vec<EligibilityBucket> = Vec::new();
        let mut i: usize = 0;
        while i < self.buckets.len()
            invariant
                i <= self.buckets@.len(),
                out@ == self.buckets@.subrange(0, i as int),
            decreases self.buckets@.len() - i,
        {
            out.push(self.buckets[i]);
            i = i + 1;
            assert(out@ =~= self.buckets@.subrange(0, i as int));
        }
        assert(out@ =~= self.buckets@);
        EligibilitySummary { buckets: out }
    }
}

proof fn lemma_sum_nonneg(items: Seq<ScanItem>, f: spec_fn(ScanItem) -> int)
    requires
        forall|x: ScanItem| #[trigger] f(x) >= 0,
    ensures
        sum_of(items, f) >= 0,
    decreases items.len(),
{
    if items.len() > 0 {
        lemma_sum_nonneg(items.drop_last(), f);
    }
}

fn add_saturated(acc: u64, value: u64, Ghost(before): Ghost<int>) -> (r: u64)
    requires
        before >= 0,
        acc == saturated(before),
    ensures
        r == saturated(before + value),
{
    acc.saturating_add(value)
}

/// The bucket of `eligibility` over `items`.
pub fn bucket_for(items: &[ScanItem], eligibility: CleanupEligibility) -> (b: EligibilityBucket)
    ensures
        b == bucket_of_items(items@, eligibility),
{
    let mut observed: u64 = 0;
    let mut cleanable: u64 = 0;
    let mut count: u64 = 0;
    let mut i: usize = 0;
    while i < items.len()
        invariant
            i <= items@.len(),
            observed == saturated(bucket_observed(items@.take(i as int), eligibility)),
            cleanable == saturated(bucket_cleanable(items@.take(i as int), eligibility)),
            count == saturated(bucket_items(items@.take(i as int), eligibility)),
        decreases items@.len() - i,
    {
        let item = &items[i];
        let ghost prefix = items@.take(i as int);
        proof {
            assert(items@.take(i + 1) =~= prefix.push(items@[i as int]));
            assert(items@.take(i + 1).drop_last() =~= prefix);
            lemma_sum_nonneg(prefix, |x: ScanItem| observed_in(x, eligibility));
            lemma_sum_nonneg(prefix, |x: ScanItem| cleanable_in(x, eligibility));
            lemma_sum_nonneg(prefix, |x: ScanItem| counted_in(x, eligibility));
        }
        if item.disposition.eligibility == eligibility {
            observed = add_saturated(observed, item.observed_bytes(), Ghost(bucket_observed(prefix, eligibility)));
            cleanable = add_saturated(cleanable, item.cleanable_bytes(), Ghost(bucket_cleanable(prefix, eligibility)));
            count = add_saturated(count, 1, Ghost(bucket_items(prefix, eligibility)));
        }
        i = i + 1;
    }
    proof {
        assert(items@.take(items@.len() as int) =~= items@);
    }
    EligibilityBucket { eligibility, observed_bytes: observed, cleanable_bytes: cleanable, items: count }
}

/// The breakdown of `items`: one bucket per eligibility.
pub fn eligibility_summary(items: &[ScanItem]) -> (s: EligibilitySummary)
    ensures
        summary_of(s.buckets@, items@),
{
    let buckets = vec![
        bucket_for(items, CleanupEligibility::AutoCleanable),
        bucket_for(items, CleanupEligibility::Selectable),
        bucket_for(items, CleanupEligibility::Advisory),
        bucket_for(items, CleanupEligibility::Blocked),
        bucket_for(items, CleanupEligibility::Recent),
    ];
    EligibilitySummary { buckets }
}

impl EligibilitySummary {
    /// The cleanable bytes of one eligibility; none when the breakdown has no
    /// bucket for it.
    pub fn cleanable_bytes(&self, eligibility: CleanupEligibility) -> (r: u64)
        ensures
            (exists|k: int| 0 <= k < self.buckets@.len() && (#[trigger] self.buckets@[k]).eligibility == eligibility)
                ==> exists|k: int|
                0 <= k < self.buckets@.len() && (#[trigger] self.buckets@[k]).eligibility == eligibility
                    && r == self.buckets@[k].cleanable_bytes
                    && forall|j: int| 0 <= j < k ==> (#[trigger] self.buckets@[j]).eligibility != eligibility,
            !(exists|k: int| 0 <= k < self.buckets@.len() && (#[trigger] self.buckets@[k]).eligibility == eligibility)
                ==> r == 0,
    {
        let mut i: usize = 0;
        while i < self.buckets.len()
            invariant
                i <= self.buckets@.len(),
                forall|j: int| 0 <= j < i ==> (#[trigger] self.buckets@[j]).eligibility != eligibility,
            decreases self.buckets@.len() - i,
        {
            if self.buckets[i].eligibility == eligibility {
                return self.buckets[i].cleanable_bytes;
            }
            i = i + 1;
        }
        0
    }
}

impl CategoryResult {
    /// The observed bytes of the category's items of one eligibility.
    pub fn eligibility_observed_bytes(&self, eligibility: CleanupEligibility) -> (r: u64)
        ensures
            r == saturated(bucket_observed(self.items@, eligibility)),
    {
        bucket_for(self.items.as_slice(), eligibility).observed_bytes
    }

    /// How many of the category's items have one eligibility.
    pub fn eligibility_items(&self, eligibility: CleanupEligibility) -> (r: u64)
        ensures
            r == saturated(bucket_items(self.items@, eligibility)),
    {
        bucket_for(self.items.as_slice(), eligibility).items
    }
}

/// The observed bytes of one eligibility over the first `n` categories.
proof fn lemma_scan_items_step(categories: Seq<CategoryResult>, n: int)
    requires
        0 <= n < categories.len(),
    ensures
        scan_items(categories.take(n + 1)) == scan_items(categories.take(n)) + categories[n].items@,
{
    assert(categories.take(n + 1).drop_last() =~= categories.take(n));
}

proof fn lemma_sum_concat(a: Seq<ScanItem>, b: Seq<ScanItem>, f: spec_fn(ScanItem) -> int)
    ensures
        sum_of(a + b, f) == sum_of(a, f) + sum_of(b, f),
    decreases b.len(),
{
    if b.len() == 0 {
        assert(a + b =~= a);
    } else {
        lemma_sum_concat(a, b.drop_last(), f);
        assert((a + b).drop_last() =~= a + b.drop_last());
    }
}

/// The breakdown of every item of the categories, category by category.
pub fn eligibility_over(categories: &Vec<CategoryResult>) -> (s: EligibilitySummary)
    ensures
        summary_of(s.buckets@, scan_items(categories@)),
{
    let mut flat: Vec<ScanItem> = Vec::new();
    let mut i: usize = 0;
    proof {
        assert(categories@.take(0) =~= Seq::<CategoryResult>::empty());
    }
    while i < categories.len()
        invariant
            i <= categories@.len(),
            flat@ == scan_items(categories@.take(i as int)),
        decreases categories@.len() - i,
    {
        let mut copy = crate::scan_types::clone_items(&categories[i].items);
        proof {
            lemma_scan_items_step(categories@, i as int);
        }
        flat.append(&mut copy);
        i = i + 1;
    }
    proof {
        assert(categories@.take(categories@.len() as int) =~= categories@);
    }
    eligibility_summary(flat.as_slice())
}

impl ScanResult {
    /// The observed bytes of the result's items of one eligibility, over
    /// every category.
    pub fn eligibility_observed_bytes(&self, eligibility: CleanupEligibility) -> (r: u64)
        ensures
            r == saturated(bucket_observed(scan_items(self.categories@), eligibility)),
    {
        let mut total: u64 = 0;
        let mut i: usize = 0;
        while i < self.categories.len()
            invariant
                i <= self.categories@.len(),
                total == saturated(bucket_observed(scan_items(self.categories@.take(i as int)), eligibility)),
            decreases self.categories@.len() - i,
        {
            let ghost before = scan_items(self.categories@.take(i as int));
            let ghost here = self.categories@[i as int].items@;
            let part = bucket_for(self.categories[i].items.as_slice(), eligibility).observed_bytes;
            proof {
                lemma_scan_items_step(self.categories@, i as int);
                lemma_sum_concat(before, here, |x: ScanItem| observed_in(x, eligibility));
                lemma_sum_nonneg(before, |x: ScanItem| observed_in(x, eligibility));
                lemma_sum_nonneg(here, |x: ScanItem| observed_in(x, eligibility));
            }
            total = total.saturating_add(part);
            i = i + 1;
        }
        proof {
            assert(self.categories@.take(self.categories@.len() as int) =~= self.categories@);
        }
        total
    }
}

/// Every observed byte lands in exactly one eligibility bucket: the buckets'
/// observed bytes add up to the items' observed bytes.
pub proof fn law_the_buckets_sum_to_the_observed_total(items: Seq<ScanItem>)
    ensures
        bucket_observed(items, CleanupEligibility::AutoCleanable) + bucket_observed(
            items,
            CleanupEligibility::Selectable,
        ) + bucket_observed(items, CleanupEligibility::Advisory) + bucket_observed(items, CleanupEligibility::Blocked)
            + bucket_observed(items, CleanupEligibility::Recent) == sum_of(items, |x: ScanItem| observed_of(x)),
    decreases items.len(),
{
    if items.len() > 0 {
        law_the_buckets_sum_to_the_observed_total(items.drop_last());
    }
}

/// Only the cleanable eligibilities carry cleanable bytes: the bucket of an
/// eligibility a cleanup may not act on reclaims nothing.
pub proof fn law_only_cleanable_buckets_carry_cleanable_bytes(items: Seq<ScanItem>, eligibility: CleanupEligibility)
    requires
        !eligibility.spec_is_cleanable(),
    ensures
        bucket_cleanable(items, eligibility) == 0,
    decreases items.len(),
{
    if items.len() > 0 {
        law_only_cleanable_buckets_carry_cleanable_bytes(items.drop_last(), eligibility);
    }
}

} // verus!
