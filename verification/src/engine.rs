//! How a scan turns what the walks found into one result: observation
//! quality, typed gaps, the policy two overlapping units are judged by, and
//! the per-category accounting.
use vstd::prelude::*;
use crate::models::{
    Category, CleanupDisposition, ObservationQuality, RiskTier, ScanGap, ScanGapKind, UnitRelationship,
};
use crate::registry::SignatureRegistry;
use crate::relationship::{spec_unit_relationship, unit_relationship, UnitFacts};
use crate::scan_types::{CategoryResult, ScanEvent, ScanItem, ScanMetrics, ScanResult};
use crate::models::PlatformKind;
use crate::signature::{stated_ownership, Signature};
use crate::size::sat_add;
use crate::text::{
    ascii_lower_seq, equal_text, has_infix, lower_contains, seq_lt, str_less, lemma_seq_lt_irreflexive,
    lemma_seq_lt_transitive,
};

verus! {

/// The quality of a whole from the qualities of its parts: nothing, or only
/// fresh parts, is fresh; only unavailable parts is unavailable; any other
/// mix is partial.
pub open spec fn aggregate(qualities: Seq<ObservationQuality>) -> ObservationQuality {
    if forall|i: int| 0 <= i < qualities.len() ==> qualities[i] is Fresh {
        ObservationQuality::Fresh
    } else if forall|i: int| 0 <= i < qualities.len() ==> qualities[i] is Unavailable {
        ObservationQuality::Unavailable
    } else {
        ObservationQuality::Partial
    }
}

/// The quality of a whole from the qualities of its parts.
pub fn aggregate_quality(qualities: &[ObservationQuality]) -> (q: ObservationQuality)
    ensures
        q == aggregate(qualities@),
{
    let mut all_fresh = true;
    let mut all_unavailable = true;
    let mut i: usize = 0;
    while i < qualities.len()
        invariant
            i <= qualities@.len(),
            all_fresh == forall|j: int| 0 <= j < i ==> qualities@[j] is Fresh,
            all_unavailable == forall|j: int| 0 <= j < i ==> qualities@[j] is Unavailable,
        decreases qualities@.len() - i,
    {
        let quality = qualities[i];
        all_fresh = all_fresh && matches!(quality, ObservationQuality::Fresh);
        all_unavailable = all_unavailable && matches!(quality, ObservationQuality::Unavailable);
        i = i + 1;
    }
    if all_fresh {
        ObservationQuality::Fresh
    } else if all_unavailable {
        ObservationQuality::Unavailable
    } else {
        ObservationQuality::Partial
    }
}

/// The first position of a gap of `kind`, when there is one.
pub open spec fn first_gap_of(gaps: Seq<ScanGap>, kind: ScanGapKind, i: int) -> bool {
    &&& 0 <= i < gaps.len()
    &&& gaps[i].kind == kind
    &&& forall|j: int| 0 <= j < i ==> gaps[j].kind != kind
}

/// Counts `count` more observations of `kind`: the first gap of that kind
/// grows (saturating), or a new gap is appended; a count of zero changes
/// nothing.
pub fn add_scan_gap(gaps: &mut Vec<ScanGap>, kind: ScanGapKind, count: u64)
    ensures
        count == 0 ==> final(gaps)@ == old(gaps)@,
        count > 0 && (exists|i: int| first_gap_of(old(gaps)@, kind, i)) ==> exists|i: int|
            first_gap_of(old(gaps)@, kind, i) && final(gaps)@ == old(gaps)@.update(
                i,
                ScanGap { kind, count: sat_add(old(gaps)@[i].count, count) },
            ),
        count > 0 && !(exists|i: int| first_gap_of(old(gaps)@, kind, i)) ==> final(gaps)@
            == old(gaps)@.push(ScanGap { kind, count }),
{
    if count == 0 {
        return;
    }
    let mut i: usize = 0;
    while i < gaps.len()
        invariant
            gaps@ == old(gaps)@,
            i <= gaps@.len(),
            forall|j: int| 0 <= j < i ==> gaps@[j].kind != kind,
        decreases gaps@.len() - i,
    {
        if gaps[i].kind == kind {
            let updated = ScanGap { kind, count: gaps[i].count.saturating_add(count) };
            gaps.set(i, updated);
            assert(first_gap_of(old(gaps)@, kind, i as int));
            return;
        }
        i = i + 1;
    }
    proof {
        assert forall|k: int| !first_gap_of(old(gaps)@, kind, k) by {}
    }
    gaps.push(ScanGap { kind, count });
}

/// How many times `x` occurs in `s`.
pub open spec fn occurrences(s: Seq<String>, x: Seq<char>) -> nat
    decreases s.len(),
{
    if s.len() == 0 {
        0
    } else {
        occurrences(s.drop_last(), x) + if s.last()@ == x { 1nat } else { 0nat }
    }
}

fn count_occurrences(s: &[String], x: &str) -> (r: usize)
    ensures
        r == occurrences(s@, x@),
{
    let mut count: usize = 0;
    let mut i: usize = 0;
    while i < s.len()
        invariant
            i <= s@.len(),
            count == occurrences(s@.take(i as int), x@),
            count <= i,
        decreases s@.len() - i,
    {
        assert(s@.take(i + 1).drop_last() =~= s@.take(i as int));
        if equal_text(s[i].as_str(), x) {
            count = count + 1;
        }
        i = i + 1;
    }
    assert(s@.take(s@.len() as int) =~= s@);
    count
}

/// Whether the two lists hold the same strings the same number of times,
/// whatever their order.
pub fn same_string_set(left: &[String], right: &[String]) -> (r: bool)
    ensures
        r == forall|x: Seq<char>| occurrences(left@, x) == occurrences(right@, x),
{
    let mut i: usize = 0;
    while i < left.len()
        invariant
            i <= left@.len(),
            forall|j: int| 0 <= j < i ==> occurrences(left@, (#[trigger] left@[j])@) == occurrences(right@, left@[j]@),
        decreases left@.len() - i,
    {
        if count_occurrences(left, left[i].as_str()) != count_occurrences(right, left[i].as_str()) {
            return false;
        }
        i = i + 1;
    }
    let mut k: usize = 0;
    while k < right.len()
        invariant
            k <= right@.len(),
            forall|j: int| 0 <= j < left@.len() ==> occurrences(left@, (#[trigger] left@[j])@) == occurrences(right@, left@[j]@),
            forall|j: int| 0 <= j < k ==> occurrences(left@, (#[trigger] right@[j])@) == occurrences(right@, right@[j]@),
        decreases right@.len() - k,
    {
        if count_occurrences(left, right[k].as_str()) != count_occurrences(right, right[k].as_str()) {
            return false;
        }
        k = k + 1;
    }
    proof {
        assert forall|x: Seq<char>| occurrences(left@, x) == occurrences(right@, x) by {
            if exists|j: int| 0 <= j < left@.len() && left@[j]@ == x {
                let j = choose|j: int| 0 <= j < left@.len() && left@[j]@ == x;
                assert(occurrences(left@, left@[j]@) == occurrences(right@, left@[j]@));
            } else if exists|j: int| 0 <= j < right@.len() && right@[j]@ == x {
                let j = choose|j: int| 0 <= j < right@.len() && right@[j]@ == x;
                assert(occurrences(left@, right@[j]@) == occurrences(right@, right@[j]@));
            } else {
                lemma_absent_occurs_never(left@, x);
                lemma_absent_occurs_never(right@, x);
            }
        }
    }
    true
}

proof fn lemma_absent_occurs_never(s: Seq<String>, x: Seq<char>)
    requires
        forall|j: int| 0 <= j < s.len() ==> s[j]@ != x,
    ensures
        occurrences(s, x) == 0,
    decreases s.len(),
{
    if s.len() > 0 {
        lemma_absent_occurs_never(s.drop_last(), x);
    }
}

/// The stable remediation category of an item's incomplete observation.
///
/// A complete, fresh observation has none. Otherwise the reason text decides,
/// ignoring ASCII case: a cancellation first, then the depth limit; an access
/// refusal is attributed to Full Disk Access only where the caller says the
/// refusal may be one, and is a plain permission refusal elsewhere; anything
/// else is an I/O error.
pub open spec fn gap_kind(
    quality: ObservationQuality,
    reason: Option<String>,
    may_be_full_disk_access: bool,
) -> Option<ScanGapKind> {
    let text = match reason {
        Some(r) => ascii_lower_seq(r@),
        None => Seq::<char>::empty(),
    };
    let refusal = has_infix(text, "permission denied"@) || has_infix(text, "operation not permitted"@)
        || has_infix(text, "access denied"@);
    if quality is Fresh && reason is None {
        None
    } else if has_infix(text, "cancel"@) {
        Some(ScanGapKind::Cancelled)
    } else if has_infix(text, "depth limit"@) {
        Some(ScanGapKind::DepthLimit)
    } else if refusal && may_be_full_disk_access {
        Some(ScanGapKind::FullDiskAccess)
    } else if refusal {
        Some(ScanGapKind::PermissionDenied)
    } else {
        Some(ScanGapKind::IoError)
    }
}

/// The stable remediation category of an item's incomplete observation.
/// `may_be_full_disk_access` states whether an access refusal at the item's
/// path can come from the macOS Full Disk Access boundary.
pub fn scan_gap_kind(item: &ScanItem, may_be_full_disk_access: bool) -> (r: Option<ScanGapKind>)
    ensures
        r == gap_kind(item.quality, item.incomplete_reason, may_be_full_disk_access),
{
    if matches!(item.quality, ObservationQuality::Fresh) && item.incomplete_reason.is_none() {
        return None;
    }
    let empty = String::new();
    let reason: &String = match &item.incomplete_reason {
        Some(r) => r,
        None => &empty,
    };
    proof {
        assert(ascii_lower_seq(Seq::<char>::empty()) =~= Seq::<char>::empty());
    }
    if lower_contains(reason.as_str(), "cancel") {
        return Some(ScanGapKind::Cancelled);
    }
    if lower_contains(reason.as_str(), "depth limit") {
        return Some(ScanGapKind::DepthLimit);
    }
    let is_access_refusal = lower_contains(reason.as_str(), "permission denied")
        || lower_contains(reason.as_str(), "operation not permitted")
        || lower_contains(reason.as_str(), "access denied");
    if is_access_refusal && may_be_full_disk_access {
        return Some(ScanGapKind::FullDiskAccess);
    }
    if is_access_refusal {
        return Some(ScanGapKind::PermissionDenied);
    }
    Some(ScanGapKind::IoError)
}


/// Two catalog entries state the same cleanup rule: one strategy, one
/// management mode, one age policy, the same exclusions and process guards
/// (as sets with multiplicity), and one stated owner.
pub open spec fn rules_agree(a: Signature, b: Signature) -> bool {
    &&& a.strategy == b.strategy
    &&& a.management_mode == b.management_mode
    &&& a.min_age_days == b.min_age_days
    &&& forall|x: Seq<char>| occurrences(a.exclusions@, x) == occurrences(b.exclusions@, x)
    &&& forall|x: Seq<char>| occurrences(a.fail_if_running@, x) == occurrences(b.fail_if_running@, x)
    &&& stated_ownership(a.owner@, a.provider@) == stated_ownership(b.owner@, b.provider@)
}

/// Whether a unit nested in another may be accounted by the broader one.
///
/// A rule whose scope is switched off constrains nothing. Otherwise both must
/// be filesystem units of non-manual rules, and either one rule or two
/// catalog entries that state the same rule.
pub open spec fn policies_compatible(
    nested: ScanItem,
    container: ScanItem,
    catalog: Map<Seq<char>, Signature>,
) -> bool {
    if !(nested.gate is Open) || !(container.gate is Open) {
        true
    } else if !nested.unit.kind.spec_is_filesystem() || !container.unit.kind.spec_is_filesystem()
        || nested.risk is Manual || container.risk is Manual {
        false
    } else if nested.signature_id@ == container.signature_id@ {
        true
    } else if !catalog.dom().contains(nested.signature_id@) || !catalog.dom().contains(
        container.signature_id@,
    ) {
        false
    } else {
        rules_agree(catalog[nested.signature_id@], catalog[container.signature_id@])
    }
}

/// Whether two units that are one location may be folded into one.
///
/// One rule, or a manual rule on either side, folds. A specialized
/// (non-filesystem) unit beside a filesystem one folds too, keeping the
/// specialized authority; two specialized units from different rules do not.
/// Two filesystem units fold when their policies are compatible.
pub open spec fn authorities_fold(left: ScanItem, right: ScanItem, catalog: Map<Seq<char>, Signature>) -> bool {
    if left.signature_id@ == right.signature_id@ {
        true
    } else if left.risk is Manual || right.risk is Manual {
        true
    } else if left.unit.kind.spec_is_filesystem() != right.unit.kind.spec_is_filesystem() {
        true
    } else if !left.unit.kind.spec_is_filesystem() {
        false
    } else {
        policies_compatible(left, right, catalog)
    }
}

fn rule_agreement(a: &Signature, b: &Signature) -> (r: bool)
    ensures
        r == rules_agree(*a, *b),
{
    let same_age = match (a.min_age_days, b.min_age_days) {
        (Some(x), Some(y)) => x == y,
        (None, None) => true,
        _ => false,
    };
    a.strategy == b.strategy && a.management_mode == b.management_mode && same_age && same_string_set(
        a.exclusions.as_slice(),
        b.exclusions.as_slice(),
    ) && same_string_set(a.fail_if_running.as_slice(), b.fail_if_running.as_slice())
        && a.ownership().same_as(&b.ownership())
}

/// Whether a unit nested in another may be accounted by the broader one.
pub fn containment_policies_are_compatible(
    nested: &ScanItem,
    container: &ScanItem,
    registry: &SignatureRegistry,
) -> (r: bool)
    requires
        registry.wf(),
    ensures
        r == policies_compatible(*nested, *container, registry.catalog()),
{
    if !nested.gate.is_open() || !container.gate.is_open() {
        return true;
    }
    if !nested.unit.kind.is_filesystem() || !container.unit.kind.is_filesystem() || matches!(
        nested.risk,
        RiskTier::Manual
    ) || matches!(container.risk, RiskTier::Manual) {
        return false;
    }
    if equal_text(nested.signature_id.as_str(), container.signature_id.as_str()) {
        return true;
    }
    match (registry.get(nested.signature_id.as_str()), registry.get(container.signature_id.as_str())) {
        (Some(nested_signature), Some(container_signature)) => rule_agreement(
            nested_signature,
            container_signature,
        ),
        _ => false,
    }
}

/// Whether two units that are one location may be folded into one.
pub fn exact_authorities_can_fold(left: &ScanItem, right: &ScanItem, registry: &SignatureRegistry) -> (r: bool)
    requires
        registry.wf(),
    ensures
        r == authorities_fold(*left, *right, registry.catalog()),
{
    if equal_text(left.signature_id.as_str(), right.signature_id.as_str()) {
        return true;
    }
    if matches!(left.risk, RiskTier::Manual) || matches!(right.risk, RiskTier::Manual) {
        return true;
    }
    let left_specialized = !left.unit.kind.is_filesystem();
    let right_specialized = !right.unit.kind.is_filesystem();
    if left_specialized != right_specialized {
        return true;
    }
    if left_specialized {
        return false;
    }
    containment_policies_are_compatible(left, right, registry)
}

/// The relationship two units have, with the policy the scan acts on: one
/// location whose rules cannot fold is a conflict, and a contained unit
/// under an incompatible rule is an authority conflict.
pub open spec fn spec_scan_unit_relationship(
    candidate: ScanItem,
    candidate_facts: UnitFacts,
    container: ScanItem,
    container_facts: UnitFacts,
    catalog: Map<Seq<char>, Signature>,
) -> UnitRelationship {
    match spec_unit_relationship(candidate, candidate_facts, container, container_facts) {
        UnitRelationship::Equivalent => if authorities_fold(candidate, container, catalog) {
            UnitRelationship::Equivalent
        } else {
            UnitRelationship::EquivalentConflict
        },
        UnitRelationship::Contained => if policies_compatible(candidate, container, catalog) {
            UnitRelationship::Contained
        } else {
            UnitRelationship::AuthorityConflict
        },
        other => other,
    }
}

/// The relationship two units have, together with the cleanup policy the
/// scan can act on; always stated.
pub fn scan_unit_relationship(
    candidate: &ScanItem,
    candidate_facts: &UnitFacts,
    container: &ScanItem,
    container_facts: &UnitFacts,
    registry: &SignatureRegistry,
) -> (r: Option<UnitRelationship>)
    requires
        registry.wf(),
    ensures
        r == Some(
            spec_scan_unit_relationship(
                *candidate,
                *candidate_facts,
                *container,
                *container_facts,
                registry.catalog(),
            ),
        ),
{
    match unit_relationship(candidate, candidate_facts, container, container_facts) {
        UnitRelationship::Equivalent => Some(
            if exact_authorities_can_fold(candidate, container, registry) {
                UnitRelationship::Equivalent
            } else {
                UnitRelationship::EquivalentConflict
            },
        ),
        UnitRelationship::Contained => {
            if containment_policies_are_compatible(candidate, container, registry) {
                Some(UnitRelationship::Contained)
            } else {
                Some(UnitRelationship::AuthorityConflict)
            }
        },
        other => Some(other),
    }
}

/// The sum of `f` over a sequence of items.
pub open spec fn sum_of(items: Seq<ScanItem>, f: spec_fn(ScanItem) -> int) -> int
    decreases items.len(),
{
    if items.len() == 0 {
        0
    } else {
        sum_of(items.drop_last(), f) + f(items.last())
    }
}

proof fn lemma_sum_of_push(items: Seq<ScanItem>, x: ScanItem, f: spec_fn(ScanItem) -> int)
    ensures
        sum_of(items.push(x), f) == sum_of(items, f) + f(x),
{
    assert(items.push(x).drop_last() =~= items);
}

/// The bytes an item occupies.
pub open spec fn observed_of(item: ScanItem) -> int {
    item.size.spec_observed() as int
}

/// The bytes a cleanup of an item would reclaim.
pub open spec fn cleanable_of(item: ScanItem) -> int {
    item.spec_cleanable_bytes() as int
}

/// The cleanable bytes an item adds to the bucket of `risk`.
pub open spec fn bucket_of(item: ScanItem, risk: RiskTier) -> int {
    if item.disposition.eligibility.spec_is_cleanable() && item.risk == risk {
        item.spec_cleanable_bytes() as int
    } else {
        0
    }
}

/// The observed bytes of a manual item a cleanup may not remove.
pub open spec fn manual_of(item: ScanItem) -> int {
    if !item.disposition.eligibility.spec_is_cleanable() && item.risk is Manual {
        item.size.spec_observed() as int
    } else {
        0
    }
}

/// The item with the eligibility and bytes its facts derive; its reason is
/// the observation's own, or else the one it was reported with.
pub open spec fn with_derived(item: ScanItem) -> ScanItem {
    let eligibility = crate::models::spec_eligibility(item.spec_facts());
    ScanItem {
        disposition: CleanupDisposition {
            eligibility,
            cleanable_bytes: crate::models::spec_disposition_bytes(item.spec_facts()),
            reason: if item.incomplete_reason is Some {
                item.incomplete_reason
            } else {
                item.disposition.reason
            },
        },
        ..item
    }
}

/// Whether an item carries something a user could act on: it exists, and it
/// is not a complete observation of an empty path.
pub open spec fn worth_retaining(item: ScanItem) -> bool {
    item.exists && !(item.quality is Fresh && item.size.spec_observed() == 0)
}

/// The retained items and byte populations of one category.
///
/// `total_bytes` is the observed footprint of every retained item;
/// `cleanable_bytes` and the Safe/Rebuild buckets count eligible bytes only,
/// and the manual bucket counts what manual items occupy.
pub struct CategoryAccumulator {
    items: Vec<ScanItem>,
    total_bytes: u64,
    cleanable_bytes: u64,
    safe_bytes: u64,
    rebuild_bytes: u64,
    manual_bytes: u64,
    suppressed_duplicate_count: u64,
    suppressed_duplicate_bytes: u64,
}

impl CategoryAccumulator {
    /// The retained items, in the order they were found.
    pub closed spec fn retained(&self) -> Seq<ScanItem> {
        self.items@
    }

    /// The accumulator's invariant: every population is the sum over the
    /// retained items.
    pub closed spec fn wf(&self) -> bool {
        &&& self.total_bytes == sum_of(self.items@, |x: ScanItem| observed_of(x))
        &&& self.cleanable_bytes == sum_of(self.items@, |x: ScanItem| cleanable_of(x))
        &&& self.safe_bytes == sum_of(self.items@, |x: ScanItem| bucket_of(x, RiskTier::Safe))
        &&& self.rebuild_bytes == sum_of(self.items@, |x: ScanItem| bucket_of(x, RiskTier::Rebuild))
        &&& self.manual_bytes == sum_of(self.items@, |x: ScanItem| manual_of(x))
        &&& self.suppressed_duplicate_count == 0
        &&& self.suppressed_duplicate_bytes == 0
        &&& forall|i: int| 0 <= i < self.items@.len() ==> (#[trigger] self.items@[i]) == with_derived(self.items@[i])
    }

    /// An empty accumulator.
    pub fn new() -> (r: Self)
        ensures
            r.wf(),
            r.retained() == Seq::<ScanItem>::empty(),
    {
        CategoryAccumulator {
            items: Vec::new(),
            total_bytes: 0,
            cleanable_bytes: 0,
            safe_bytes: 0,
            rebuild_bytes: 0,
            manual_bytes: 0,
            suppressed_duplicate_count: 0,
            suppressed_duplicate_bytes: 0,
        }
    }

    /// The total observed bytes of the retained items.
    pub fn total_bytes(&self) -> (r: u64)
        requires
            self.wf(),
        ensures
            r == sum_of(self.retained(), |x: ScanItem| observed_of(x)),
    {
        self.total_bytes
    }

    /// Accounts one scanned item with its freshly derived disposition, or
    /// drops it when it carries nothing a user could act on. Returns the
    /// retained item.
    pub fn push(&mut self, item: ScanItem) -> (r: Option<&ScanItem>)
        requires
            old(self).wf(),
            sum_of(old(self).retained(), |x: ScanItem| observed_of(x)) + observed_of(item) <= u64::MAX,
        ensures
            final(self).wf(),
            worth_retaining(item) ==> final(self).retained() == old(self).retained().push(with_derived(item))
                && r == Some(&with_derived(item)),
            !worth_retaining(item) ==> final(self).retained() == old(self).retained() && r is None,
    {
        let item = item.with_derived_disposition();
        let bytes = item.cleanable_bytes();
        let observed = item.observed_bytes();
        let is_empty_fresh = matches!(item.quality, ObservationQuality::Fresh) && observed == 0;
        if !item.exists || is_empty_fresh {
            return None;
        }
        let ghost before = self.items@;
        proof {
            lemma_sum_of_push(before, item, |x: ScanItem| observed_of(x));
            lemma_sum_of_push(before, item, |x: ScanItem| cleanable_of(x));
            lemma_sum_of_push(before, item, |x: ScanItem| bucket_of(x, RiskTier::Safe));
            lemma_sum_of_push(before, item, |x: ScanItem| bucket_of(x, RiskTier::Rebuild));
            lemma_sum_of_push(before, item, |x: ScanItem| manual_of(x));
            lemma_accounting_bounded(before);
        }
        self.total_bytes = self.total_bytes + observed;
        self.cleanable_bytes = self.cleanable_bytes + bytes;
        if item.disposition.eligibility.is_cleanable() {
            match item.risk {
                RiskTier::Safe => self.safe_bytes = self.safe_bytes + bytes,
                RiskTier::Rebuild => self.rebuild_bytes = self.rebuild_bytes + bytes,
                RiskTier::Manual => {},
            }
        } else if matches!(item.risk, RiskTier::Manual) {
            self.manual_bytes = self.manual_bytes + observed;
        }
        self.items.push(item);
        proof {
            assert(self.items@ == before.push(item));
            assert forall|i: int| 0 <= i < self.items@.len() implies (#[trigger] self.items@[i]) == with_derived(
                self.items@[i],
            ) by {
                if i < before.len() {
                    assert(self.items@[i] == before[i]);
                }
            }
        }
        let last = self.items.len() - 1;
        Some(&self.items[last])
    }

    /// The category's result: items sorted largest first, then by name; the
    /// populations summed; the quality forced when given, else aggregated
    /// over the items.
    pub fn finalize(self, category: Category, forced_quality: Option<ObservationQuality>) -> (r: CategoryResult)
        requires
            self.wf(),
            sum_of(self.retained(), |x: ScanItem| x.skipped_entry_count as int) <= u64::MAX,
        ensures
            r.category == category,
            r.items@.to_multiset() == self.retained().to_multiset(),
            forall|i: int, j: int|
                0 <= i < j < r.items@.len() ==> !listed_before(#[trigger] r.items@[j], #[trigger] r.items@[i]),
            r.total_bytes == sum_of(self.retained(), |x: ScanItem| observed_of(x)),
            r.cleanable_bytes == sum_of(self.retained(), |x: ScanItem| cleanable_of(x)),
            r.safe_bytes == sum_of(self.retained(), |x: ScanItem| bucket_of(x, RiskTier::Safe)),
            r.rebuild_bytes == sum_of(self.retained(), |x: ScanItem| bucket_of(x, RiskTier::Rebuild)),
            r.manual_bytes == sum_of(self.retained(), |x: ScanItem| manual_of(x)),
            r.quality == match forced_quality {
                Some(q) => q,
                None => aggregate(qualities_of(self.retained())),
            },
            r.skipped_entry_count == sum_of(self.retained(), |x: ScanItem| x.skipped_entry_count as int),
            r.incomplete_item_count == sum_of(self.retained(), |x: ScanItem| incomplete_of(x)),
            r.suppressed_duplicate_count == 0,
            r.suppressed_duplicate_bytes == 0,
            r.suppressed_overlap_count == 0,
            r.suppressed_overlap_bytes == 0,
            r.ambiguous_overlap_count == 0,
            r.ambiguous_overlap_bytes == 0,
            crate::eligibility::summary_of(r.eligibility.buckets@, r.items@),
    {
        let quality = match forced_quality {
            Some(q) => q,
            None => {
                let mut qualities: Vec<ObservationQuality> = Vec::new();
                let mut i: usize = 0;
                while i < self.items.len()
                    invariant
                        i <= self.items@.len(),
                        qualities@ == qualities_of(self.items@).subrange(0, i as int),
                    decreases self.items@.len() - i,
                {
                    qualities.push(self.items[i].quality);
                    i = i + 1;
                    assert(qualities@ =~= qualities_of(self.items@).subrange(0, i as int));
                }
                assert(qualities@ =~= qualities_of(self.items@));
                aggregate_quality(qualities.as_slice())
            },
        };
        let mut skipped: u64 = 0;
        let mut incomplete: u64 = 0;
        let mut i: usize = 0;
        while i < self.items.len()
            invariant
                i <= self.items@.len(),
                skipped == sum_of(self.items@.take(i as int), |x: ScanItem| x.skipped_entry_count as int),
                incomplete == sum_of(self.items@.take(i as int), |x: ScanItem| incomplete_of(x)),
                incomplete <= i,
                sum_of(self.items@, |x: ScanItem| x.skipped_entry_count as int) <= u64::MAX,
            decreases self.items@.len() - i,
        {
            proof {
                assert(self.items@.take(i + 1) =~= self.items@.take(i as int).push(self.items@[i as int]));
                lemma_sum_of_push(self.items@.take(i as int), self.items@[i as int], |x: ScanItem| x.skipped_entry_count as int);
                lemma_sum_of_push(self.items@.take(i as int), self.items@[i as int], |x: ScanItem| incomplete_of(x));
                lemma_sum_of_prefix_bounded(self.items@, i as int + 1);
            }
            skipped = skipped + self.items[i].skipped_entry_count;
            if !matches!(self.items[i].quality, ObservationQuality::Fresh) {
                incomplete = incomplete + 1;
            }
            i = i + 1;
        }
        proof {
            assert(self.items@.take(self.items@.len() as int) =~= self.items@);
        }
        let CategoryAccumulator {
            items,
            total_bytes,
            cleanable_bytes,
            safe_bytes,
            rebuild_bytes,
            manual_bytes,
            suppressed_duplicate_count,
            suppressed_duplicate_bytes,
        } = self;
        let sorted = sort_items(items);
        let eligibility = crate::eligibility::eligibility_summary(sorted.as_slice());
        CategoryResult {
            category,
            items: sorted,
            eligibility,
            total_bytes,
            cleanable_bytes,
            safe_bytes,
            rebuild_bytes,
            manual_bytes,
            quality,
            skipped_entry_count: skipped,
            incomplete_item_count: incomplete,
            suppressed_duplicate_count,
            suppressed_duplicate_bytes,
            suppressed_overlap_count: 0,
            suppressed_overlap_bytes: 0,
            ambiguous_overlap_count: 0,
            ambiguous_overlap_bytes: 0,
        }
    }
}

/// The qualities of a sequence of items.
pub open spec fn qualities_of(items: Seq<ScanItem>) -> Seq<ObservationQuality> {
    Seq::new(items.len(), |i: int| items[i].quality)
}

/// One for an item whose observation is not fresh.
pub open spec fn incomplete_of(item: ScanItem) -> int {
    if item.quality is Fresh {
        0
    } else {
        1
    }
}

proof fn lemma_sum_of_prefix_bounded(items: Seq<ScanItem>, n: int)
    requires
        0 <= n <= items.len(),
    ensures
        sum_of(items.take(n), |x: ScanItem| x.skipped_entry_count as int) <= sum_of(
            items,
            |x: ScanItem| x.skipped_entry_count as int,
        ),
        sum_of(items.take(n), |x: ScanItem| incomplete_of(x)) <= n,
    decreases items.len(),
{
    let f = |x: ScanItem| x.skipped_entry_count as int;
    let g = |x: ScanItem| incomplete_of(x);
    if n == items.len() {
        assert(items.take(n) =~= items);
        lemma_sum_of_count_bounded(items);
    } else {
        lemma_sum_of_prefix_bounded(items.drop_last(), n);
        assert(items.drop_last().take(n) =~= items.take(n));
        assert(items.drop_last().push(items.last()) =~= items);
        lemma_sum_of_push(items.drop_last(), items.last(), f);
    }
}

proof fn lemma_sum_of_count_bounded(items: Seq<ScanItem>)
    ensures
        sum_of(items, |x: ScanItem| incomplete_of(x)) <= items.len(),
    decreases items.len(),
{
    if items.len() > 0 {
        lemma_sum_of_count_bounded(items.drop_last());
    }
}

proof fn lemma_accounting_bounded(items: Seq<ScanItem>)
    requires
        forall|i: int| 0 <= i < items.len() ==> (#[trigger] items[i]) == with_derived(items[i]),
    ensures
        0 <= sum_of(items, |x: ScanItem| bucket_of(x, RiskTier::Safe)) + sum_of(
            items,
            |x: ScanItem| bucket_of(x, RiskTier::Rebuild),
        ) <= sum_of(items, |x: ScanItem| cleanable_of(x)),
        0 <= sum_of(items, |x: ScanItem| cleanable_of(x)) + sum_of(items, |x: ScanItem| manual_of(x))
            <= sum_of(items, |x: ScanItem| observed_of(x)),
        sum_of(items, |x: ScanItem| bucket_of(x, RiskTier::Safe)) >= 0,
        sum_of(items, |x: ScanItem| bucket_of(x, RiskTier::Rebuild)) >= 0,
        sum_of(items, |x: ScanItem| manual_of(x)) >= 0,
    decreases items.len(),
{
    if items.len() > 0 {
        let rest = items.drop_last();
        assert forall|i: int| 0 <= i < rest.len() implies (#[trigger] rest[i]) == with_derived(rest[i]) by {
            assert(rest[i] == items[i]);
        }
        lemma_accounting_bounded(rest);
        let x = items.last();
        assert(x == with_derived(x));
    }
}

/// Whether `a` is listed before `b`: larger observed size first, then name.
pub open spec fn listed_before(a: ScanItem, b: ScanItem) -> bool {
    a.size.spec_observed() > b.size.spec_observed() || (a.size.spec_observed() == b.size.spec_observed()
        && seq_lt(a.name@, b.name@))
}

proof fn lemma_listed_before_transitive(a: ScanItem, b: ScanItem, c: ScanItem)
    requires
        listed_before(a, b),
        listed_before(b, c),
    ensures
        listed_before(a, c),
{
    if a.size.spec_observed() == b.size.spec_observed() && b.size.spec_observed() == c.size.spec_observed() {
        lemma_seq_lt_transitive(a.name@, b.name@, c.name@);
    }
}

proof fn lemma_listed_before_asymmetric(a: ScanItem, b: ScanItem)
    requires
        listed_before(a, b),
    ensures
        !listed_before(b, a),
{
    if listed_before(b, a) {
        lemma_listed_before_transitive(a, b, a);
        lemma_seq_lt_irreflexive(a.name@);
    }
}

fn listed_before_exec(a: &ScanItem, b: &ScanItem) -> (r: bool)
    ensures
        r == listed_before(*a, *b),
{
    let x = a.observed_bytes();
    let y = b.observed_bytes();
    x > y || (x == y && str_less(a.name.as_str(), b.name.as_str()))
}

/// The items sorted largest first, then by name.
fn sort_items(items: Vec<ScanItem>) -> (r: Vec<ScanItem>)
    ensures
        r@.to_multiset() == items@.to_multiset(),
        forall|i: int, j: int|
            0 <= i < j < r@.len() ==> !listed_before(#[trigger] r@[j], #[trigger] r@[i]),
{
    let mut rest = items;
    let mut out: Vec<ScanItem> = Vec::new();
    proof {
        vstd::seq_lib::to_multiset_len(out@);
        assert(out@.to_multiset() =~= vstd::multiset::Multiset::<ScanItem>::empty());
        assert(out@.to_multiset().add(rest@.to_multiset()) =~= rest@.to_multiset());
    }
    while rest.len() > 0
        invariant
            out@.to_multiset().add(rest@.to_multiset()) == items@.to_multiset(),
            forall|i: int, j: int| 0 <= i < j < out@.len() ==> !listed_before(#[trigger] out@[j], #[trigger] out@[i]),
        decreases rest@.len(),
    {
        let ghost rest_before = rest@;
        let x = rest.pop().unwrap();
        proof {
            assert(rest_before =~= rest@.push(x));
        }
        let mut p: usize = 0;
        while p < out.len()
            invariant
                p <= out@.len(),
                forall|j: int| 0 <= j < p ==> !listed_before(x, #[trigger] out@[j]),
            ensures
                p <= out@.len(),
                forall|j: int| 0 <= j < p ==> !listed_before(x, #[trigger] out@[j]),
                p == out@.len() || listed_before(x, out@[p as int]),
            decreases out@.len() - p,
        {
            if listed_before_exec(&x, &out[p]) {
                break;
            }
            p = p + 1;
        }
        let ghost prior = out@;
        proof {
            assert forall|k: int| p <= k < prior.len() implies !listed_before(#[trigger] prior[k], x) by {
                if listed_before(prior[k], x) {
                    if k == p {
                        lemma_listed_before_asymmetric(x, prior[k]);
                    } else {
                        lemma_listed_before_transitive(prior[k], x, prior[p as int]);
                    }
                }
            }
        }
        out.insert(p, x);
        proof {
            let after = out@;
            assert(after == prior.insert(p as int, x));
            assert forall|i: int, j: int| 0 <= i < j < after.len() implies !listed_before(#[trigger] after[j], #[trigger] after[i]) by {
                if j < p {
                    assert(after[i] == prior[i] && after[j] == prior[j]);
                } else if j == p {
                    assert(after[i] == prior[i]);
                } else if i == p {
                    assert(after[j] == prior[j - 1]);
                } else if i < p {
                    assert(after[i] == prior[i]);
                    assert(after[j] == prior[j - 1]);
                } else {
                    assert(after[i] == prior[i - 1]);
                    assert(after[j] == prior[j - 1]);
                }
            }
            vstd::seq_lib::to_multiset_insert(prior, p as int, x);
            vstd::seq_lib::to_multiset_build(rest@, x);
            assert(out@.to_multiset().add(rest@.to_multiset()) =~= prior.to_multiset().add(rest_before.to_multiset()));
        }
    }
    proof {
        assert(rest@ =~= Seq::<ScanItem>::empty());
        vstd::seq_lib::to_multiset_len(rest@);
        assert(rest@.to_multiset() =~= vstd::multiset::Multiset::<ScanItem>::empty());
        assert(out@.to_multiset().add(rest@.to_multiset()) =~= out@.to_multiset());
    }
    out
}


/// The result a finished scan reports, from its categories after overlap
/// resolution: the populations summed over the categories; the distinct
/// incomplete reasons of the items, then the cancellation and truncation
/// notices; one typed gap per incomplete item, plus one for a cancellation;
/// and a quality that is partial for a cancelled or truncated scan and
/// aggregated over the categories otherwise.
pub open spec fn summarizes(
    r: ScanResult,
    categories: Seq<CategoryResult>,
    cancelled: bool,
    truncated_selectors: u64,
    full_disk_access: Seq<bool>,
    overlap: OverlapTotals,
    scan_id: String,
    started_at: u64,
    finished_at: u64,
    metrics: ScanMetrics,
) -> bool {
    &&& r.categories@ == categories
    &&& r.scan_id == scan_id
    &&& r.valid_for_seconds == ScanResult::VALID_FOR_SECONDS
    &&& r.started_at == started_at
    &&& r.finished_at == finished_at
    &&& r.total_bytes == total_of(categories, |c: CategoryResult| c.total_bytes as int)
    &&& r.cleanable_bytes == total_of(categories, |c: CategoryResult| c.cleanable_bytes as int)
    &&& r.safe_bytes == total_of(categories, |c: CategoryResult| c.safe_bytes as int)
    &&& r.rebuild_bytes == total_of(categories, |c: CategoryResult| c.rebuild_bytes as int)
    &&& r.manual_bytes == total_of(categories, |c: CategoryResult| c.manual_bytes as int)
    &&& r.skipped_entry_count == total_of(categories, |c: CategoryResult| c.skipped_entry_count as int)
    &&& r.incomplete_item_count == total_of(categories, |c: CategoryResult| c.incomplete_item_count as int)
    &&& r.suppressed_duplicate_count == total_of(
            categories,
            |c: CategoryResult| c.suppressed_duplicate_count as int,
        )
    &&& r.suppressed_duplicate_bytes == total_of(
            categories,
            |c: CategoryResult| c.suppressed_duplicate_bytes as int,
        )
    &&& r.suppressed_overlap_count == overlap.suppressed_count
    &&& r.suppressed_overlap_bytes == overlap.suppressed_bytes
    &&& r.ambiguous_overlap_count == overlap.ambiguous_count
    &&& r.ambiguous_overlap_bytes == overlap.ambiguous_bytes
    &&& r.quality == (if cancelled || truncated_selectors > 0 {
            ObservationQuality::Partial
        } else {
            aggregate(category_qualities(categories))
        })
    &&& r.incomplete_reasons@.map_values(|s: String| s@) == reasons_of(scan_items(categories)) + (if cancelled {
            seq![cancelled_reason()]
        } else {
            Seq::empty()
        }) + (if truncated_selectors > 0 {
            seq![truncated_reason()]
        } else {
            Seq::empty()
        })
    &&& r.gaps@ == (if cancelled {
            with_gap(gaps_of(scan_items(categories), full_disk_access), ScanGapKind::Cancelled, 1)
        } else {
            gaps_of(scan_items(categories), full_disk_access)
        })
    &&& r.cancelled == cancelled
    &&& r.metrics == metrics
    &&& crate::eligibility::summary_of(r.eligibility.buckets@, scan_items(categories))
}

/// The scan itself: which signatures a category pass walks, and how the
/// finished categories become one result.
pub struct ScanEngine;

/// What resolving overlapping units across the whole result settled.
#[derive(Debug, Clone, Copy, PartialEq, Eq, Structural)]
pub struct OverlapTotals {
    pub suppressed_count: u64,
    pub suppressed_bytes: u64,
    pub ambiguous_count: u64,
    pub ambiguous_bytes: u64,
}

/// Every item of the categories, category by category.
pub open spec fn scan_items(categories: Seq<CategoryResult>) -> Seq<ScanItem>
    decreases categories.len(),
{
    if categories.len() == 0 {
        Seq::empty()
    } else {
        scan_items(categories.drop_last()) + categories.last().items@
    }
}

/// The sum of `f` over the categories.
pub open spec fn total_of(categories: Seq<CategoryResult>, f: spec_fn(CategoryResult) -> int) -> int
    decreases categories.len(),
{
    if categories.len() == 0 {
        0
    } else {
        total_of(categories.drop_last(), f) + f(categories.last())
    }
}

/// The distinct incomplete reasons of the items, in first-seen order.
pub open spec fn reasons_of(items: Seq<ScanItem>) -> Seq<Seq<char>>
    decreases items.len(),
{
    if items.len() == 0 {
        Seq::empty()
    } else {
        let earlier = reasons_of(items.drop_last());
        match items.last().incomplete_reason {
            Some(reason) => if earlier.contains(reason@) {
                earlier
            } else {
                earlier.push(reason@)
            },
            None => earlier,
        }
    }
}

/// The gaps after counting `count` more observations of `kind`.
pub open spec fn with_gap(gaps: Seq<ScanGap>, kind: ScanGapKind, count: u64) -> Seq<ScanGap> {
    if count == 0 {
        gaps
    } else if exists|i: int| first_gap_of(gaps, kind, i) {
        let i = choose|i: int| first_gap_of(gaps, kind, i);
        gaps.update(i, ScanGap { kind, count: sat_add(gaps[i].count, count) })
    } else {
        gaps.push(ScanGap { kind, count })
    }
}

/// The typed gaps of the items, one observation per incomplete item;
/// `full_disk_access[i]` states whether item `i`'s path can be refused by
/// the Full Disk Access boundary.
pub open spec fn gaps_of(items: Seq<ScanItem>, full_disk_access: Seq<bool>) -> Seq<ScanGap>
    decreases items.len(),
{
    if items.len() == 0 {
        Seq::empty()
    } else {
        let earlier = gaps_of(items.drop_last(), full_disk_access.drop_last());
        match gap_kind(items.last().quality, items.last().incomplete_reason, full_disk_access.last()) {
            Some(kind) => with_gap(earlier, kind, 1),
            None => earlier,
        }
    }
}

/// The qualities of the categories.
pub open spec fn category_qualities(categories: Seq<CategoryResult>) -> Seq<ObservationQuality> {
    Seq::new(categories.len(), |i: int| categories[i].quality)
}

/// The reason a cancelled scan states.
pub open spec fn cancelled_reason() -> Seq<char> {
    "Scan was cancelled before completion"@
}

/// The reason a scan with a truncated selector states.
pub open spec fn truncated_reason() -> Seq<char> {
    "A pattern's traversal stopped before it covered every root it names"@
}

proof fn lemma_first_gap_unique(gaps: Seq<ScanGap>, kind: ScanGapKind, i: int, j: int)
    requires
        first_gap_of(gaps, kind, i),
        first_gap_of(gaps, kind, j),
    ensures
        i == j,
{
}

/// Counts observations of a gap kind, as [`add_scan_gap`] does.
fn count_gap(gaps: &mut Vec<ScanGap>, kind: ScanGapKind, count: u64)
    ensures
        final(gaps)@ == with_gap(old(gaps)@, kind, count),
{
    add_scan_gap(gaps, kind, count);
    proof {
        if count > 0 && exists|i: int| first_gap_of(old(gaps)@, kind, i) {
            let i = choose|i: int| first_gap_of(old(gaps)@, kind, i) && final(gaps)@ == old(gaps)@.update(
                i,
                ScanGap { kind, count: sat_add(old(gaps)@[i].count, count) },
            );
            let j = choose|j: int| first_gap_of(old(gaps)@, kind, j);
            lemma_first_gap_unique(old(gaps)@, kind, i, j);
        }
    }
}

fn contains_text(list: &Vec<String>, text: &String) -> (r: bool)
    ensures
        r == list@.map_values(|s: String| s@).contains(text@),
{
    let ghost views = list@.map_values(|s: String| s@);
    let mut i: usize = 0;
    while i < list.len()
        invariant
            i <= list@.len(),
            views == list@.map_values(|s: String| s@),
            forall|j: int| 0 <= j < i ==> views[j] != text@,
        decreases list@.len() - i,
    {
        if equal_text(list[i].as_str(), text.as_str()) {
            assert(views[i as int] == text@);
            return true;
        }
        i = i + 1;
    }
    false
}

/// A count as a saturating accumulation states it: the sum, or the largest
/// `u64` when the sum does not fit.
pub open spec fn saturated(x: int) -> u64 {
    if x > u64::MAX {
        u64::MAX
    } else {
        x as u64
    }
}

/// What the categories of a scan add up to.
struct CategoryFold {
    total_bytes: u64,
    cleanable_bytes: u64,
    safe_bytes: u64,
    rebuild_bytes: u64,
    manual_bytes: u64,
    skipped_entry_count: u64,
    incomplete_item_count: u64,
    suppressed_duplicate_count: u64,
    suppressed_duplicate_bytes: u64,
    reasons: Vec<String>,
    gaps: Vec<ScanGap>,
    qualities: Vec<ObservationQuality>,
}

/// The categories' populations summed, saturating, with the distinct
/// incomplete reasons and the typed gaps of their items, and the categories'
/// qualities.
fn fold_categories(categories: &Vec<CategoryResult>, full_disk_access: &[bool]) -> (f: CategoryFold)
    requires
        full_disk_access@.len() == scan_items(categories@).len(),
    ensures
        f.total_bytes == saturated(total_of(categories@, |c: CategoryResult| c.total_bytes as int)),
        f.cleanable_bytes == saturated(total_of(categories@, |c: CategoryResult| c.cleanable_bytes as int)),
        f.safe_bytes == saturated(total_of(categories@, |c: CategoryResult| c.safe_bytes as int)),
        f.rebuild_bytes == saturated(total_of(categories@, |c: CategoryResult| c.rebuild_bytes as int)),
        f.manual_bytes == saturated(total_of(categories@, |c: CategoryResult| c.manual_bytes as int)),
        f.skipped_entry_count == saturated(total_of(categories@, |c: CategoryResult| c.skipped_entry_count as int)),
        f.incomplete_item_count == saturated(total_of(categories@, |c: CategoryResult| c.incomplete_item_count as int)),
        f.suppressed_duplicate_count == saturated(total_of(categories@, |c: CategoryResult| c.suppressed_duplicate_count as int)),
        f.suppressed_duplicate_bytes == saturated(total_of(categories@, |c: CategoryResult| c.suppressed_duplicate_bytes as int)),
        f.reasons@.map_values(|s: String| s@) == reasons_of(scan_items(categories@)),
        f.gaps@ == gaps_of(scan_items(categories@), full_disk_access@),
        f.qualities@ == category_qualities(categories@),
{
        let ghost cats = categories@;
        let mut total_bytes: u64 = 0;
        let mut cleanable_bytes: u64 = 0;
        let mut safe_bytes: u64 = 0;
        let mut rebuild_bytes: u64 = 0;
        let mut manual_bytes: u64 = 0;
        let mut skipped_entry_count: u64 = 0;
        let mut incomplete_item_count: u64 = 0;
        let mut suppressed_duplicate_count: u64 = 0;
        let mut suppressed_duplicate_bytes: u64 = 0;
        let mut reasons: Vec<String> = Vec::new();
        let mut gaps: Vec<ScanGap> = Vec::new();
        let mut qualities: Vec<ObservationQuality> = Vec::new();
        let mut seen: usize = 0;
        let mut c: usize = 0;
        while c < categories.len()
            invariant
                cats == categories@,
                c <= cats.len(),
                full_disk_access@.len() == scan_items(cats).len(),
                seen == scan_items(cats.take(c as int)).len(),
                total_bytes == saturated(total_of(cats.take(c as int), |c: CategoryResult| c.total_bytes as int)),
                cleanable_bytes == saturated(total_of(cats.take(c as int), |c: CategoryResult| c.cleanable_bytes as int)),
                safe_bytes == saturated(total_of(cats.take(c as int), |c: CategoryResult| c.safe_bytes as int)),
                rebuild_bytes == saturated(total_of(cats.take(c as int), |c: CategoryResult| c.rebuild_bytes as int)),
                manual_bytes == saturated(total_of(cats.take(c as int), |c: CategoryResult| c.manual_bytes as int)),
                skipped_entry_count == saturated(total_of(cats.take(c as int), |c: CategoryResult| c.skipped_entry_count as int)),
                incomplete_item_count == saturated(total_of(cats.take(c as int), |c: CategoryResult| c.incomplete_item_count as int)),
                suppressed_duplicate_count == saturated(total_of(cats.take(c as int), |c: CategoryResult| c.suppressed_duplicate_count as int)),
                suppressed_duplicate_bytes == saturated(total_of(cats.take(c as int), |c: CategoryResult| c.suppressed_duplicate_bytes as int)),
                reasons@.map_values(|s: String| s@) == reasons_of(scan_items(cats.take(c as int))),
                gaps@ == gaps_of(scan_items(cats.take(c as int)), full_disk_access@.take(seen as int)),
                qualities@ == category_qualities(cats.take(c as int)),
            decreases cats.len() - c,
        {
            let category = &categories[c];
            proof {
                let before = cats.take(c as int);
                let after = cats.take(c + 1);
                assert(after.drop_last() =~= before);
                assert(after.last() == cats[c as int]);
                lemma_total_bounded(cats, c as int, |c: CategoryResult| c.total_bytes as int);
                lemma_total_bounded(cats, c as int, |c: CategoryResult| c.cleanable_bytes as int);
                lemma_total_bounded(cats, c as int, |c: CategoryResult| c.safe_bytes as int);
                lemma_total_bounded(cats, c as int, |c: CategoryResult| c.rebuild_bytes as int);
                lemma_total_bounded(cats, c as int, |c: CategoryResult| c.manual_bytes as int);
                lemma_total_bounded(cats, c as int, |c: CategoryResult| c.skipped_entry_count as int);
                lemma_total_bounded(cats, c as int, |c: CategoryResult| c.incomplete_item_count as int);
                lemma_total_bounded(cats, c as int, |c: CategoryResult| c.suppressed_duplicate_count as int);
                lemma_total_bounded(cats, c as int, |c: CategoryResult| c.suppressed_duplicate_bytes as int);
                lemma_scan_items_prefix(cats, c + 1);
            }
            total_bytes = total_bytes.saturating_add(category.total_bytes);
            cleanable_bytes = cleanable_bytes.saturating_add(category.cleanable_bytes);
            safe_bytes = safe_bytes.saturating_add(category.safe_bytes);
            rebuild_bytes = rebuild_bytes.saturating_add(category.rebuild_bytes);
            manual_bytes = manual_bytes.saturating_add(category.manual_bytes);
            skipped_entry_count = skipped_entry_count.saturating_add(category.skipped_entry_count);
            incomplete_item_count = incomplete_item_count.saturating_add(category.incomplete_item_count);
            suppressed_duplicate_count = suppressed_duplicate_count.saturating_add(category.suppressed_duplicate_count);
            suppressed_duplicate_bytes = suppressed_duplicate_bytes.saturating_add(category.suppressed_duplicate_bytes);
            qualities.push(category.quality);
            proof {
                assert(qualities@ =~= category_qualities(cats.take(c + 1)));
            }
            let ghost prefix_items = scan_items(cats.take(c as int));
            let mut k: usize = 0;
            while k < category.items.len()
                invariant
                    cats == categories@,
                    c < cats.len(),
                    *category == cats[c as int],
                    k <= category.items@.len(),
                    full_disk_access@.len() == scan_items(cats).len(),
                    prefix_items == scan_items(cats.take(c as int)),
                    seen == prefix_items.len() + k,
                    seen <= scan_items(cats.take(c + 1)).len(),
                    scan_items(cats.take(c + 1)) == prefix_items + category.items@,
                    scan_items(cats.take(c + 1)).len() <= scan_items(cats).len(),
                    reasons@.map_values(|s: String| s@) == reasons_of(prefix_items + category.items@.take(k as int)),
                    gaps@ == gaps_of(prefix_items + category.items@.take(k as int), full_disk_access@.take(seen as int)),
                decreases category.items@.len() - k,
            {
                let item = &category.items[k];
                proof {
                    let before = prefix_items + category.items@.take(k as int);
                    let after = prefix_items + category.items@.take(k + 1);
                    assert(after.drop_last() =~= before);
                    assert(after.last() == category.items@[k as int]);
                    assert(full_disk_access@.take(seen + 1).drop_last() =~= full_disk_access@.take(seen as int));
                    assert(full_disk_access@.take(seen + 1).last() == full_disk_access@[seen as int]);
                }
                match &item.incomplete_reason {
                    Some(reason) => {
                        if !contains_text(&reasons, reason) {
                            let ghost prior = reasons@;
                            reasons.push(reason.clone());
                            proof {
                                assert(reasons@.map_values(|s: String| s@) =~= prior.map_values(|s: String| s@).push(reason@));
                            }
                        }
                    },
                    None => {},
                }
                match scan_gap_kind(item, full_disk_access[seen]) {
                    Some(kind) => count_gap(&mut gaps, kind, 1),
                    None => {},
                }
                seen = seen + 1;
                k = k + 1;
            }
            proof {
                assert(category.items@.take(category.items@.len() as int) =~= category.items@);
            }
            c = c + 1;
        }
        proof {
            assert(cats.take(cats.len() as int) =~= cats);
            assert(full_disk_access@.take(seen as int) =~= full_disk_access@);
        }
    CategoryFold {
        total_bytes,
        cleanable_bytes,
        safe_bytes,
        rebuild_bytes,
        manual_bytes,
        skipped_entry_count,
        incomplete_item_count,
        suppressed_duplicate_count,
        suppressed_duplicate_bytes,
        reasons,
        gaps,
        qualities,
    }
}

impl ScanEngine {
    /// The signatures a pass over `category` walks: what the registry
    /// discovers for the scope and platform, most specific first, without the
    /// excluded ids.
    pub fn planned_signatures<'a>(
        registry: &'a SignatureRegistry,
        category: Category,
        intensive_cleanup: bool,
        platform: PlatformKind,
        excluded_signatures: &[String],
    ) -> (r: Vec<&'a Signature>)
        requires
            registry.wf(),
        ensures
            crate::registry::lists_exactly(
                r@,
                registry.catalog(),
                |s: Signature|
                    crate::registry::selects(
                        crate::registry::Selection::Discovered { category, intensive_cleanup, platform },
                        s,
                    ) && !excluded_signatures@.map_values(|x: String| x@).contains(s.id@),
            ),
            crate::registry::sorted_by(true, r@),
    {
        let discovered = registry.by_category_for_mode(category, intensive_cleanup, platform);
        let ghost excluded = excluded_signatures@.map_values(|x: String| x@);
        let mut out: Vec<&'a Signature> = Vec::new();
        let mut i: usize = 0;
        while i < discovered.len()
            invariant
                i <= discovered@.len(),
                excluded == excluded_signatures@.map_values(|x: String| x@),
                crate::registry::lists_exactly(
                    discovered@,
                    registry.catalog(),
                    |s: Signature|
                        crate::registry::selects(
                            crate::registry::Selection::Discovered { category, intensive_cleanup, platform },
                            s,
                        ),
                ),
                crate::registry::sorted_by(true, discovered@),
                out@ == discovered@.take(i as int).filter(|s: &Signature| !excluded.contains(s.id@)),
            decreases discovered@.len() - i,
        {
            proof {
                assert(discovered@.take(i + 1) =~= discovered@.take(i as int).push(discovered@[i as int]));
                discovered@.take(i as int).lemma_filter_push(discovered@[i as int], |s: &Signature| !excluded.contains(s.id@));
            }
            let mut skip = false;
            let mut k: usize = 0;
            while k < excluded_signatures.len()
                invariant
                    k <= excluded_signatures@.len(),
                    i < discovered@.len(),
                    excluded == excluded_signatures@.map_values(|x: String| x@),
                    skip == exists|j: int| 0 <= j < k && excluded[j] == discovered@[i as int].id@,
                decreases excluded_signatures@.len() - k,
            {
                proof {
                    assert(excluded[k as int] == excluded_signatures@[k as int]@);
                }
                if equal_text(excluded_signatures[k].as_str(), discovered[i].id.as_str()) {
                    skip = true;
                }
                k = k + 1;
            }
            proof {
                if excluded.contains(discovered@[i as int].id@) {
                    let j = choose|j: int| 0 <= j < excluded.len() && excluded[j] == discovered@[i as int].id@;
                }
            }
            if !skip {
                out.push(discovered[i]);
            }
            i = i + 1;
        }
        proof {
            assert(discovered@.take(discovered@.len() as int) =~= discovered@);
            let kept = discovered@.filter(|s: &Signature| !excluded.contains(s.id@));
            lemma_filtered_listing(discovered@, kept, registry.catalog(), category, intensive_cleanup, platform, excluded);
        }
        out
    }

    /// The result a finished scan reports: see `summarizes`.
    pub fn summarize(
        categories: Vec<CategoryResult>,
        cancelled: bool,
        truncated_selectors: u64,
        full_disk_access: &[bool],
        overlap: OverlapTotals,
        scan_id: String,
        started_at: u64,
        finished_at: u64,
        metrics: ScanMetrics,
    ) -> (r: ScanResult)
        requires
            full_disk_access@.len() == scan_items(categories@).len(),
            total_of(categories@, |c: CategoryResult| c.total_bytes as int) <= u64::MAX,
            total_of(categories@, |c: CategoryResult| c.cleanable_bytes as int) <= u64::MAX,
            total_of(categories@, |c: CategoryResult| c.safe_bytes as int) <= u64::MAX,
            total_of(categories@, |c: CategoryResult| c.rebuild_bytes as int) <= u64::MAX,
            total_of(categories@, |c: CategoryResult| c.manual_bytes as int) <= u64::MAX,
            total_of(categories@, |c: CategoryResult| c.skipped_entry_count as int) <= u64::MAX,
            total_of(categories@, |c: CategoryResult| c.incomplete_item_count as int) <= u64::MAX,
            total_of(categories@, |c: CategoryResult| c.suppressed_duplicate_count as int) <= u64::MAX,
            total_of(categories@, |c: CategoryResult| c.suppressed_duplicate_bytes as int) <= u64::MAX,
        ensures
            summarizes(
                r,
                categories@,
                cancelled,
                truncated_selectors,
                full_disk_access@,
                overlap,
                scan_id,
                started_at,
                finished_at,
                metrics,
            ),
    {
        let folded = fold_categories(&categories, full_disk_access);
        let eligibility = crate::eligibility::eligibility_over(&categories);
        let CategoryFold { total_bytes, cleanable_bytes, safe_bytes, rebuild_bytes, manual_bytes, skipped_entry_count, incomplete_item_count, suppressed_duplicate_count, suppressed_duplicate_bytes, reasons, gaps, qualities } = folded;
        proof {
            lemma_total_nonneg(categories@, |c: CategoryResult| c.total_bytes as int);
            lemma_total_nonneg(categories@, |c: CategoryResult| c.cleanable_bytes as int);
            lemma_total_nonneg(categories@, |c: CategoryResult| c.safe_bytes as int);
            lemma_total_nonneg(categories@, |c: CategoryResult| c.rebuild_bytes as int);
            lemma_total_nonneg(categories@, |c: CategoryResult| c.manual_bytes as int);
            lemma_total_nonneg(categories@, |c: CategoryResult| c.skipped_entry_count as int);
            lemma_total_nonneg(categories@, |c: CategoryResult| c.incomplete_item_count as int);
            lemma_total_nonneg(categories@, |c: CategoryResult| c.suppressed_duplicate_count as int);
            lemma_total_nonneg(categories@, |c: CategoryResult| c.suppressed_duplicate_bytes as int);
        }
        let mut reasons = reasons;
        let mut gaps = gaps;
        let ghost base_reasons = reasons@.map_values(|s: String| s@);
        if cancelled {
            reasons.push(String::from_str("Scan was cancelled before completion"));
            count_gap(&mut gaps, ScanGapKind::Cancelled, 1);
        }
        let ghost after_cancel = reasons@.map_values(|s: String| s@);
        proof {
            reveal_strlit("Scan was cancelled before completion");
            if cancelled {
                assert(after_cancel =~= base_reasons + seq![cancelled_reason()]);
            } else {
                assert(after_cancel =~= base_reasons + Seq::<Seq<char>>::empty());
            }
        }
        if truncated_selectors > 0 {
            reasons.push(String::from_str("A pattern's traversal stopped before it covered every root it names"));
        }
        proof {
            reveal_strlit("A pattern's traversal stopped before it covered every root it names");
            let fin = reasons@.map_values(|s: String| s@);
            if truncated_selectors > 0 {
                assert(fin =~= after_cancel + seq![truncated_reason()]);
            } else {
                assert(fin =~= after_cancel + Seq::<Seq<char>>::empty());
            }
        }
        let quality = if cancelled || truncated_selectors > 0 {
            ObservationQuality::Partial
        } else {
            aggregate_quality(qualities.as_slice())
        };
        ScanResult {
            scan_id,
            valid_for_seconds: ScanResult::VALID_FOR_SECONDS,
            started_at,
            finished_at,
            categories,
            total_bytes,
            cleanable_bytes,
            safe_bytes,
            rebuild_bytes,
            manual_bytes,
            quality,
            incomplete_reasons: reasons,
            gaps,
            skipped_entry_count,
            incomplete_item_count,
            suppressed_duplicate_count,
            suppressed_duplicate_bytes,
            suppressed_overlap_count: overlap.suppressed_count,
            suppressed_overlap_bytes: overlap.suppressed_bytes,
            ambiguous_overlap_count: overlap.ambiguous_count,
            ambiguous_overlap_bytes: overlap.ambiguous_bytes,
            cancelled,
            metrics,
            eligibility,
        }
    }
}

proof fn lemma_total_bounded(categories: Seq<CategoryResult>, n: int, f: spec_fn(CategoryResult) -> int)
    requires
        0 <= n <= categories.len(),
        forall|c: CategoryResult| #[trigger] f(c) >= 0,
    ensures
        total_of(categories.take(n), f) <= total_of(categories, f),
        total_of(categories.take(n), f) >= 0,
    decreases categories.len(),
{
    if n == categories.len() {
        assert(categories.take(n) =~= categories);
        lemma_total_nonneg(categories, f);
    } else {
        lemma_total_bounded(categories.drop_last(), n, f);
        assert(categories.drop_last().take(n) =~= categories.take(n));
        assert(f(categories.last()) >= 0);
    }
}

proof fn lemma_total_nonneg(categories: Seq<CategoryResult>, f: spec_fn(CategoryResult) -> int)
    requires
        forall|c: CategoryResult| #[trigger] f(c) >= 0,
    ensures
        total_of(categories, f) >= 0,
    decreases categories.len(),
{
    if categories.len() > 0 {
        lemma_total_nonneg(categories.drop_last(), f);
        assert(f(categories.last()) >= 0);
    }
}

proof fn lemma_scan_items_prefix(categories: Seq<CategoryResult>, n: int)
    requires
        0 <= n <= categories.len(),
    ensures
        scan_items(categories.take(n)).len() <= scan_items(categories).len(),
    decreases categories.len(),
{
    if n < categories.len() {
        lemma_scan_items_prefix(categories.drop_last(), n);
        assert(categories.drop_last().take(n) =~= categories.take(n));
    } else {
        assert(categories.take(n) =~= categories);
    }
}

proof fn lemma_filtered_listing(
    discovered: Seq<&Signature>,
    kept: Seq<&Signature>,
    catalog: Map<Seq<char>, Signature>,
    category: Category,
    intensive_cleanup: bool,
    platform: PlatformKind,
    excluded: Seq<Seq<char>>,
)
    requires
        crate::registry::lists_exactly(
            discovered,
            catalog,
            |s: Signature|
                crate::registry::selects(crate::registry::Selection::Discovered { category, intensive_cleanup, platform }, s),
        ),
        crate::registry::sorted_by(true, discovered),
        kept == discovered.filter(|s: &Signature| !excluded.contains(s.id@)),
    ensures
        crate::registry::lists_exactly(
            kept,
            catalog,
            |s: Signature|
                crate::registry::selects(crate::registry::Selection::Discovered { category, intensive_cleanup, platform }, s)
                    && !excluded.contains(s.id@),
        ),
        crate::registry::sorted_by(true, kept),
{
    let pred = |s: &Signature| !excluded.contains(s.id@);
    let idx = lemma_filter_subsequence(discovered, pred);
    assert forall|k: int| 0 <= k < kept.len() implies !excluded.contains((#[trigger] kept[k]).id@) by {
        discovered.lemma_filter_pred(pred, k);
    }
    assert forall|id: Seq<char>|
        catalog.dom().contains(id) && crate::registry::selects(
            crate::registry::Selection::Discovered { category, intensive_cleanup, platform },
            catalog[id],
        ) && !excluded.contains(catalog[id].id@) implies exists|k: int|
        0 <= k < kept.len() && (#[trigger] kept[k]).id@ == id by {
        let i = choose|i: int| 0 <= i < discovered.len() && (#[trigger] discovered[i]).id@ == id;
        assert(catalog[discovered[i].id@] == *discovered[i]);
        discovered.lemma_filter_contains(pred, i);
        let k = choose|k: int| 0 <= k < kept.len() && kept[k] == discovered[i];
    }
    assert forall|a: int, b: int| 0 <= a < kept.len() && 0 <= b < kept.len() && a != b implies kept[a].id@
        != kept[b].id@ by {
        assert(kept[a] == discovered[idx[a]] && kept[b] == discovered[idx[b]]);
        assert(idx[a] != idx[b]);
    }
    assert forall|a: int, b: int| 0 <= a < b < kept.len() implies crate::registry::listing_order(
        true,
        *#[trigger] kept[a],
        *#[trigger] kept[b],
    ) by {
        assert(kept[a] == discovered[idx[a]] && kept[b] == discovered[idx[b]]);
        assert(idx[a] < idx[b]);
    }
    assert forall|k: int| 0 <= k < kept.len() implies catalog.dom().contains((#[trigger] kept[k]).id@)
        && catalog[kept[k].id@] == *kept[k] && crate::registry::selects(
        crate::registry::Selection::Discovered { category, intensive_cleanup, platform },
        *kept[k],
    ) by {
        assert(kept[k] == discovered[idx[k]]);
    }
}

proof fn lemma_filter_subsequence<A>(s: Seq<A>, pred: spec_fn(A) -> bool) -> (idx: Seq<int>)
    ensures
        idx.len() == s.filter(pred).len(),
        forall|k: int| 0 <= k < idx.len() ==> 0 <= #[trigger] idx[k] < s.len() && s.filter(pred)[k] == s[idx[k]],
        forall|a: int, b: int| 0 <= a < b < idx.len() ==> #[trigger] idx[a] < #[trigger] idx[b],
    decreases s.len(),
{
    reveal(Seq::filter);
    if s.len() == 0 {
        Seq::empty()
    } else {
        let rest = lemma_filter_subsequence(s.drop_last(), pred);
        if pred(s.last()) {
            let idx = rest.push(s.len() - 1);
            assert forall|k: int| 0 <= k < idx.len() implies 0 <= #[trigger] idx[k] < s.len() && s.filter(pred)[k]
                == s[idx[k]] by {
                if k < rest.len() {
                    assert(s.filter(pred)[k] == s.drop_last().filter(pred)[k]);
                    assert(s.drop_last()[rest[k]] == s[rest[k]]);
                }
            }
            idx
        } else {
            assert forall|k: int| 0 <= k < rest.len() implies 0 <= #[trigger] rest[k] < s.len() && s.filter(pred)[k]
                == s[rest[k]] by {
                assert(s.drop_last()[rest[k]] == s[rest[k]]);
            }
            rest
        }
    }
}

/// The sum of `f` over the slices.
pub open spec fn slices_total(slices: Seq<ScanResult>, f: spec_fn(ScanResult) -> int) -> int
    decreases slices.len(),
{
    if slices.len() == 0 {
        0
    } else {
        slices_total(slices.drop_last(), f) + f(slices.last())
    }
}

/// The earliest start among the slices (zero for none).
pub open spec fn earliest_start(slices: Seq<ScanResult>) -> u64
    decreases slices.len(),
{
    if slices.len() == 0 {
        0
    } else if slices.len() == 1 {
        slices[0].started_at
    } else if slices.last().started_at < earliest_start(slices.drop_last()) {
        slices.last().started_at
    } else {
        earliest_start(slices.drop_last())
    }
}

/// The largest peak of outstanding directory tasks among the slices (zero
/// for none).
pub open spec fn peak_of(slices: Seq<ScanResult>) -> u64
    decreases slices.len(),
{
    if slices.len() == 0 {
        0
    } else if slices.last().metrics.peak_outstanding_directory_tasks > peak_of(slices.drop_last()) {
        slices.last().metrics.peak_outstanding_directory_tasks
    } else {
        peak_of(slices.drop_last())
    }
}

/// Some slice was cancelled.
pub open spec fn any_cancelled(slices: Seq<ScanResult>) -> bool {
    exists|i: int| 0 <= i < slices.len() && (#[trigger] slices[i]).cancelled
}

proof fn lemma_slices_total_nonneg(slices: Seq<ScanResult>, f: spec_fn(ScanResult) -> int)
    requires
        forall|s: ScanResult| #[trigger] f(s) >= 0,
    ensures
        slices_total(slices, f) >= 0,
    decreases slices.len(),
{
    if slices.len() > 0 {
        lemma_slices_total_nonneg(slices.drop_last(), f);
        assert(f(slices.last()) >= 0);
    }
}

impl ScanEngine {
    /// The one snapshot of a scan that ran in slices. `categories` are the
    /// slices' categories, in slice order, after overlap resolution, and
    /// `overlap` what that resolution suppressed. The snapshot keeps the
    /// latest slice's identity, validity and finish, starts when the
    /// earliest slice started, sums the populations and the traversal counts
    /// saturating, keeps the largest peak, and is cancelled, partial and
    /// explained as such when any slice was cancelled. Nothing is merged
    /// from no slices.
    pub fn merge_slices(
        slices: &[ScanResult],
        categories: Vec<CategoryResult>,
        overlap: OverlapTotals,
        full_disk_access: &[bool],
    ) -> (r: Option<ScanResult>)
        requires
            full_disk_access@.len() == scan_items(categories@).len(),
        ensures
            r is None <==> slices@.len() == 0,
            r matches Some(m) ==> {
                let latest = slices@.last();
                let cancelled = any_cancelled(slices@);
                &&& m.scan_id@ == latest.scan_id@
                &&& m.valid_for_seconds == latest.valid_for_seconds
                &&& m.finished_at == latest.finished_at
                &&& m.started_at == earliest_start(slices@)
                &&& m.categories@ == categories@
                &&& m.total_bytes == saturated(total_of(categories@, |c: CategoryResult| c.total_bytes as int))
                &&& m.cleanable_bytes == saturated(total_of(categories@, |c: CategoryResult| c.cleanable_bytes as int))
                &&& m.safe_bytes == saturated(total_of(categories@, |c: CategoryResult| c.safe_bytes as int))
                &&& m.rebuild_bytes == saturated(total_of(categories@, |c: CategoryResult| c.rebuild_bytes as int))
                &&& m.manual_bytes == saturated(total_of(categories@, |c: CategoryResult| c.manual_bytes as int))
                &&& m.skipped_entry_count == saturated(
                    total_of(categories@, |c: CategoryResult| c.skipped_entry_count as int),
                )
                &&& m.incomplete_item_count == saturated(
                    total_of(categories@, |c: CategoryResult| c.incomplete_item_count as int),
                )
                &&& m.suppressed_duplicate_count == saturated(
                    total_of(categories@, |c: CategoryResult| c.suppressed_duplicate_count as int),
                )
                &&& m.suppressed_duplicate_bytes == saturated(
                    total_of(categories@, |c: CategoryResult| c.suppressed_duplicate_bytes as int),
                )
                &&& m.suppressed_overlap_count == overlap.suppressed_count
                &&& m.suppressed_overlap_bytes == overlap.suppressed_bytes
                &&& m.ambiguous_overlap_count == overlap.ambiguous_count
                &&& m.ambiguous_overlap_bytes == overlap.ambiguous_bytes
                &&& crate::eligibility::summary_of(m.eligibility.buckets@, scan_items(categories@))
                &&& m.cancelled == cancelled
                &&& m.quality == if cancelled {
                    ObservationQuality::Partial
                } else {
                    aggregate(category_qualities(categories@))
                }
                &&& m.incomplete_reasons@.map_values(|s: String| s@) == reasons_of(scan_items(categories@)) + (
                if cancelled {
                    seq![cancelled_reason()]
                } else {
                    Seq::empty()
                })
                &&& m.gaps@ == if cancelled {
                    with_gap(gaps_of(scan_items(categories@), full_disk_access@), ScanGapKind::Cancelled, 1)
                } else {
                    gaps_of(scan_items(categories@), full_disk_access@)
                }
                &&& m.metrics.duration_ms == saturated(
                    slices_total(slices@, |s: ScanResult| s.metrics.duration_ms as int),
                )
                &&& m.metrics.visited_entries == saturated(
                    slices_total(slices@, |s: ScanResult| s.metrics.visited_entries as int),
                )
                &&& m.metrics.directories_read == saturated(
                    slices_total(slices@, |s: ScanResult| s.metrics.directories_read as int),
                )
                &&& m.metrics.peak_outstanding_directory_tasks == peak_of(slices@)
            },
    {
        if slices.len() == 0 {
            return None;
        }
        let ghost all = slices@;
        let mut started_at: u64 = slices[0].started_at;
        let mut cancelled = false;
        let mut duration_ms: u64 = 0;
        let mut visited_entries: u64 = 0;
        let mut directories_read: u64 = 0;
        let mut peak: u64 = 0;
        let mut i: usize = 0;
        while i < slices.len()
            invariant
                all == slices@,
                all.len() > 0,
                i <= all.len(),
                started_at == if i == 0 {
                    all[0].started_at
                } else {
                    earliest_start(all.take(i as int))
                },
                cancelled == any_cancelled(all.take(i as int)),
                duration_ms == saturated(slices_total(all.take(i as int), |s: ScanResult| s.metrics.duration_ms as int)),
                visited_entries == saturated(
                    slices_total(all.take(i as int), |s: ScanResult| s.metrics.visited_entries as int),
                ),
                directories_read == saturated(
                    slices_total(all.take(i as int), |s: ScanResult| s.metrics.directories_read as int),
                ),
                peak == peak_of(all.take(i as int)),
            decreases all.len() - i,
        {
            let slice = &slices[i];
            proof {
                let before = all.take(i as int);
                let after = all.take(i + 1);
                assert(after.drop_last() =~= before);
                assert(after.last() == all[i as int]);
                lemma_slices_total_nonneg(before, |s: ScanResult| s.metrics.duration_ms as int);
                lemma_slices_total_nonneg(before, |s: ScanResult| s.metrics.visited_entries as int);
                lemma_slices_total_nonneg(before, |s: ScanResult| s.metrics.directories_read as int);
                if i == 0 {
                    assert(after.len() == 1);
                    assert(after[0] == all[0]);
                }
                assert(any_cancelled(after) == (any_cancelled(before) || all[i as int].cancelled)) by {
                    if any_cancelled(after) && !all[i as int].cancelled {
                        let j = choose|j: int| 0 <= j < after.len() && (#[trigger] after[j]).cancelled;
                        assert(before[j] == after[j]);
                    }
                    if any_cancelled(before) {
                        let j = choose|j: int| 0 <= j < before.len() && (#[trigger] before[j]).cancelled;
                        assert(after[j] == before[j]);
                    }
                    if all[i as int].cancelled {
                        assert(after[i as int] == all[i as int]);
                    }
                }
            }
            if i > 0 && slice.started_at < started_at {
                started_at = slice.started_at;
            }
            cancelled = cancelled || slice.cancelled;
            duration_ms = duration_ms.saturating_add(slice.metrics.duration_ms);
            visited_entries = visited_entries.saturating_add(slice.metrics.visited_entries);
            directories_read = directories_read.saturating_add(slice.metrics.directories_read);
            if slice.metrics.peak_outstanding_directory_tasks > peak {
                peak = slice.metrics.peak_outstanding_directory_tasks;
            }
            i = i + 1;
        }
        proof {
            assert(all.take(all.len() as int) =~= all);
        }
        let latest = &slices[slices.len() - 1];
        let eligibility = crate::eligibility::eligibility_over(&categories);
        let folded = fold_categories(&categories, full_disk_access);
        let CategoryFold {
            total_bytes,
            cleanable_bytes,
            safe_bytes,
            rebuild_bytes,
            manual_bytes,
            skipped_entry_count,
            incomplete_item_count,
            suppressed_duplicate_count,
            suppressed_duplicate_bytes,
            reasons,
            gaps,
            qualities,
        } = folded;
        let mut reasons = reasons;
        let mut gaps = gaps;
        let ghost base_reasons = reasons@.map_values(|s: String| s@);
        if cancelled {
            reasons.push(String::from_str("Scan was cancelled before completion"));
            count_gap(&mut gaps, ScanGapKind::Cancelled, 1);
        }
        proof {
            reveal_strlit("Scan was cancelled before completion");
            let fin = reasons@.map_values(|s: String| s@);
            if cancelled {
                assert(fin =~= base_reasons + seq![cancelled_reason()]);
            } else {
                assert(fin =~= base_reasons + Seq::<Seq<char>>::empty());
            }
        }
        let quality = if cancelled {
            ObservationQuality::Partial
        } else {
            aggregate_quality(qualities.as_slice())
        };
        Some(ScanResult {
            scan_id: latest.scan_id.clone(),
            valid_for_seconds: latest.valid_for_seconds,
            started_at,
            finished_at: latest.finished_at,
            categories,
            total_bytes,
            cleanable_bytes,
            safe_bytes,
            rebuild_bytes,
            manual_bytes,
            quality,
            incomplete_reasons: reasons,
            gaps,
            skipped_entry_count,
            incomplete_item_count,
            suppressed_duplicate_count,
            suppressed_duplicate_bytes,
            suppressed_overlap_count: overlap.suppressed_count,
            suppressed_overlap_bytes: overlap.suppressed_bytes,
            ambiguous_overlap_count: overlap.ambiguous_count,
            ambiguous_overlap_bytes: overlap.ambiguous_bytes,
            cancelled,
            metrics: ScanMetrics {
                duration_ms,
                visited_entries,
                directories_read,
                peak_outstanding_directory_tasks: peak,
            },
            eligibility,
        })
    }
}

/// The categories a scan covers: those it was asked for, or every category.
pub open spec fn target_categories(filter: Option<Seq<Category>>) -> Seq<Category> {
    match filter {
        Some(list) => list,
        None => seq![Category::Ai, Category::Developer, Category::Container, Category::System],
    }
}

/// What the category loop of a scan does next.
pub enum ScanStep {
    /// Scan this category.
    Category(Category),
    /// The loop is over: every category ran, or the scan was cancelled.
    Done,
}

/// One scan from its start to its result: the categories it covers, the
/// results of those that ran, whether it was cancelled, and whether it has
/// finished. Each step hands back the events it reports, in the order the
/// scan reports them; `emitted` is the stream so far.
pub struct ScanPass {
    pub scan_id: String,
    pub targets: Vec<Category>,
    pub results: Vec<CategoryResult>,
    pub cancelled: bool,
    pub finished: bool,
    pub emitted: Ghost<Seq<ScanEvent>>,
}

/// The settled totals a finished category reports.
pub open spec fn category_finished(c: CategoryResult) -> ScanEvent {
    ScanEvent::CategoryFinished { category: c.category, bytes: c.total_bytes, item_count: c.items@.len() as usize }
}

/// How many categories a scan reports as finished: every category that ran,
/// except the last one when the scan was cancelled.
pub open spec fn finished_count(ran: nat, cancelled: bool) -> nat {
    if cancelled && ran > 0 {
        (ran - 1) as nat
    } else {
        ran
    }
}

impl ScanPass {
    /// The stream is well formed: it opens with the scan's start, holds no
    /// finish before its last event, and ends with the finish exactly when
    /// the scan has finished.
    pub open spec fn wf(&self) -> bool {
        &&& self.emitted@.len() >= 1
        &&& self.emitted@[0] == ScanEvent::Started { scan_id: self.scan_id }
        &&& forall|i: int| 0 <= i < self.emitted@.len() - 1 ==> !(#[trigger] self.emitted@[i] is Finished)
        &&& self.finished <==> self.emitted@.last() is Finished
    }

    /// Starts the scan `scan_id` over the categories asked for, or over every
    /// category; the first event is its start.
    pub fn start(scan_id: String, filter: Option<Vec<Category>>) -> (r: (Self, ScanEvent))
        ensures
            r.0.wf(),
            r.0.scan_id == scan_id,
            r.0.targets@ == target_categories(
                match filter {
                    Some(list) => Some(list@),
                    None => None,
                },
            ),
            r.0.results@.len() == 0,
            !r.0.cancelled,
            !r.0.finished,
            r.1 == (ScanEvent::Started { scan_id }),
            r.0.emitted@ == seq![r.1],
    {
        let targets = match filter {
            Some(list) => list,
            None => vec![Category::Ai, Category::Developer, Category::Container, Category::System],
        };
        let event = ScanEvent::Started { scan_id: scan_id.clone() };
        let emitted: Ghost<Seq<ScanEvent>> = Ghost(Seq::empty().push(event));
        let pass = ScanPass {
            scan_id,
            targets,
            results: Vec::new(),
            cancelled: false,
            finished: false,
            emitted,
        };
        (pass, event)
    }

    /// The next step, given whether the scan has been cancelled, with the
    /// event it reports: a cancelled or exhausted pass is done; a
    /// cancellation seen before the next category starts ends the pass as
    /// cancelled; otherwise the next category starts.
    pub fn next_step(&mut self, cancelled: bool) -> (r: (ScanStep, Option<ScanEvent>))
        requires
            old(self).wf(),
            !old(self).finished,
        ensures
            final(self).wf(),
            !final(self).finished,
            final(self).scan_id == old(self).scan_id,
            final(self).targets == old(self).targets,
            final(self).results == old(self).results,
            old(self).cancelled || old(self).results@.len() >= old(self).targets@.len() ==> r.0 is Done
                && final(self).cancelled == old(self).cancelled,
            !old(self).cancelled && old(self).results@.len() < old(self).targets@.len() ==> (if cancelled {
                r.0 is Done && final(self).cancelled
            } else {
                r.0 == ScanStep::Category(old(self).targets@[old(self).results@.len() as int]) && !final(self).cancelled
            }),
            r.0 matches ScanStep::Category(c) ==> r.1 == Some((ScanEvent::CategoryStarted { category: c }))
                && final(self).emitted@ == old(self).emitted@.push((ScanEvent::CategoryStarted { category: c })),
            r.0 is Done ==> r.1 is None && final(self).emitted@ == old(self).emitted@,
    {
        if self.cancelled || self.results.len() >= self.targets.len() {
            return (ScanStep::Done, None);
        }
        if cancelled {
            self.cancelled = true;
            return (ScanStep::Done, None);
        }
        let category = self.targets[self.results.len()];
        let event = ScanEvent::CategoryStarted { category };
        proof {
            let before = self.emitted@;
            self.emitted@ = before.push(event);
            assert forall|i: int| 0 <= i < self.emitted@.len() - 1 implies !(#[trigger] self.emitted@[i] is Finished) by {
                assert(self.emitted@[i] == before[i]);
            }
        }
        (ScanStep::Category(category), Some(event))
    }

    /// Accounts one item of the running category, and reports it when the
    /// category retains it.
    pub fn record_item(&mut self, accumulator: &mut CategoryAccumulator, item: ScanItem) -> (r: Option<ScanEvent>)
        requires
            old(self).wf(),
            !old(self).finished,
            old(accumulator).wf(),
            sum_of(old(accumulator).retained(), |x: ScanItem| observed_of(x)) + observed_of(item) <= u64::MAX,
        ensures
            final(self).wf(),
            final(self).scan_id == old(self).scan_id,
            final(self).targets == old(self).targets,
            final(self).results == old(self).results,
            final(self).cancelled == old(self).cancelled,
            final(self).finished == old(self).finished,
            final(accumulator).wf(),
            worth_retaining(item) ==> final(accumulator).retained() == old(accumulator).retained().push(
                with_derived(item),
            ) && r == Some((ScanEvent::ItemFound { item: with_derived(item) })) && final(self).emitted@ == old(
                self,
            ).emitted@.push((ScanEvent::ItemFound { item: with_derived(item) })),
            !worth_retaining(item) ==> final(accumulator).retained() == old(accumulator).retained() && r is None
                && final(self).emitted@ == old(self).emitted@,
    {
        match accumulator.push(item) {
            Some(retained) => {
                let event = ScanEvent::ItemFound { item: retained.clone() };
                proof {
                    let before = self.emitted@;
                    self.emitted@ = before.push(event);
                    assert forall|i: int| 0 <= i < self.emitted@.len() - 1 implies !(
                    #[trigger] self.emitted@[i] is Finished) by {
                        assert(self.emitted@[i] == before[i]);
                    }
                }
                Some(event)
            },
            None => None,
        }
    }

    /// Closes the category that was running with what its accumulator
    /// retained: a category interrupted by a cancellation reports a partial
    /// observation, and the pass ends as cancelled.
    pub fn complete_category(&mut self, accumulator: CategoryAccumulator, cancelled: bool)
        requires
            old(self).wf(),
            !old(self).finished,
            !old(self).cancelled,
            old(self).results@.len() < old(self).targets@.len(),
            accumulator.wf(),
            sum_of(accumulator.retained(), |x: ScanItem| x.skipped_entry_count as int) <= u64::MAX,
        ensures
            final(self).wf(),
            !final(self).finished,
            final(self).scan_id == old(self).scan_id,
            final(self).emitted == old(self).emitted,
            final(self).targets == old(self).targets,
            final(self).cancelled == cancelled,
            final(self).results@.len() == old(self).results@.len() + 1,
            final(self).results@.drop_last() == old(self).results@,
            ({
                let r = final(self).results@.last();
                &&& r.category == old(self).targets@[old(self).results@.len() as int]
                &&& r.items@.to_multiset() == accumulator.retained().to_multiset()
                &&& r.total_bytes == sum_of(accumulator.retained(), |x: ScanItem| observed_of(x))
                &&& r.cleanable_bytes == sum_of(accumulator.retained(), |x: ScanItem| cleanable_of(x))
                &&& r.quality == if cancelled {
                    ObservationQuality::Partial
                } else {
                    aggregate(qualities_of(accumulator.retained()))
                }
            }),
    {
        let category = self.targets[self.results.len()];
        let forced = if cancelled {
            Some(ObservationQuality::Partial)
        } else {
            None
        };
        let result = accumulator.finalize(category, forced);
        let ghost before = self.results@;
        self.results.push(result);
        assert(self.results@.drop_last() =~= before);
        self.cancelled = cancelled;
    }

    /// The categories the scan reports as finished, with their bytes and item
    /// counts: every category that ran, except the last one when the scan was
    /// cancelled.
    pub fn finished_categories(&self) -> (r: Vec<(Category, u64, usize)>)
        ensures
            r@.len() == finished_count(self.results@.len(), self.cancelled),
            forall|i: int|
                0 <= i < r@.len() ==> #[trigger] r@[i] == (
                    self.results@[i].category,
                    self.results@[i].total_bytes,
                    self.results@[i].items@.len() as usize,
                ),
    {
        let count = if self.cancelled && self.results.len() > 0 {
            self.results.len() - 1
        } else {
            self.results.len()
        };
        let mut out: Vec<(Category, u64, usize)> = Vec::new();
        let mut i: usize = 0;
        while i < count
            invariant
                count <= self.results@.len(),
                i <= count,
                out@.len() == i,
                forall|j: int|
                    0 <= j < i ==> #[trigger] out@[j] == (
                        self.results@[j].category,
                        self.results@[j].total_bytes,
                        self.results@[j].items@.len() as usize,
                    ),
            decreases count - i,
        {
            let r = &self.results[i];
            out.push((r.category, r.total_bytes, r.items.len()));
            i = i + 1;
        }
        out
    }

    /// Finishes the scan once its category loop is over. `categories` are
    /// the categories that ran, restated by overlap resolution; the scan
    /// reports each as finished with its settled totals, except the last one
    /// when it was cancelled, and then its result, which it also returns.
    pub fn finish(
        &mut self,
        categories: Vec<CategoryResult>,
        truncated_selectors: u64,
        full_disk_access: &[bool],
        overlap: OverlapTotals,
        started_at: u64,
        finished_at: u64,
        metrics: ScanMetrics,
    ) -> (r: (ScanResult, Vec<ScanEvent>))
        requires
            old(self).wf(),
            !old(self).finished,
            old(self).cancelled || old(self).results@.len() >= old(self).targets@.len(),
            categories@.len() == old(self).results@.len(),
            full_disk_access@.len() == scan_items(categories@).len(),
            total_of(categories@, |c: CategoryResult| c.total_bytes as int) <= u64::MAX,
            total_of(categories@, |c: CategoryResult| c.cleanable_bytes as int) <= u64::MAX,
            total_of(categories@, |c: CategoryResult| c.safe_bytes as int) <= u64::MAX,
            total_of(categories@, |c: CategoryResult| c.rebuild_bytes as int) <= u64::MAX,
            total_of(categories@, |c: CategoryResult| c.manual_bytes as int) <= u64::MAX,
            total_of(categories@, |c: CategoryResult| c.skipped_entry_count as int) <= u64::MAX,
            total_of(categories@, |c: CategoryResult| c.incomplete_item_count as int) <= u64::MAX,
            total_of(categories@, |c: CategoryResult| c.suppressed_duplicate_count as int) <= u64::MAX,
            total_of(categories@, |c: CategoryResult| c.suppressed_duplicate_bytes as int) <= u64::MAX,
        ensures
            final(self).wf(),
            final(self).finished,
            final(self).scan_id == old(self).scan_id,
            final(self).cancelled == old(self).cancelled,
            summarizes(
                r.0,
                categories@,
                old(self).cancelled,
                truncated_selectors,
                full_disk_access@,
                overlap,
                old(self).scan_id,
                started_at,
                finished_at,
                metrics,
            ),
            r.1@.len() == finished_count(categories@.len(), old(self).cancelled) + 1,
            forall|i: int|
                0 <= i < r.1@.len() - 1 ==> #[trigger] r.1@[i] == category_finished(categories@[i]),
            (r.1@.last() matches ScanEvent::Finished { result } && result@ == r.0@),
            final(self).emitted@ == old(self).emitted@ + r.1@,
            final(self).emitted@[0] == (ScanEvent::Started { scan_id: r.0.scan_id }),
            (final(self).emitted@.last() matches ScanEvent::Finished { result } && result@ == r.0@),
    {
        let count = if self.cancelled && categories.len() > 0 {
            categories.len() - 1
        } else {
            categories.len()
        };
        let mut events: Vec<ScanEvent> = Vec::new();
        let mut i: usize = 0;
        while i < count
            invariant
                count <= categories@.len(),
                i <= count,
                events@.len() == i,
                forall|j: int| 0 <= j < i ==> #[trigger] events@[j] == category_finished(categories@[j]),
            decreases count - i,
        {
            let c = &categories[i];
            events.push(ScanEvent::CategoryFinished { category: c.category, bytes: c.total_bytes, item_count: c.items.len() });
            i = i + 1;
        }
        let result = ScanEngine::summarize(
            categories,
            self.cancelled,
            truncated_selectors,
            full_disk_access,
            overlap,
            self.scan_id.clone(),
            started_at,
            finished_at,
            metrics,
        );
        let shown = result.clone();
        events.push(ScanEvent::Finished { result: shown });
        proof {
            let before = self.emitted@;
            self.emitted@ = before + events@;
            assert forall|k: int| 0 <= k < self.emitted@.len() - 1 implies !(#[trigger] self.emitted@[k] is Finished) by {
                if k < before.len() {
                    assert(self.emitted@[k] == before[k]);
                    if k == before.len() - 1 {
                        assert(!(before.last() is Finished));
                    }
                } else {
                    assert(self.emitted@[k] == events@[k - before.len()]);
                }
            }
            assert(self.emitted@[0] == before[0]);
        }
        self.finished = true;
        (result, events)
    }
}

} // verus!
