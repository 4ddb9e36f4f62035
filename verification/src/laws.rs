//! The library's laws: what holds of every state and across operations,
//! stated over the same spec functions and views the operations' contracts
//! use.
use vstd::prelude::*;
use crate::cancellation::{is_oldest, live_entries, within_window, EntryView};
use crate::cleanup::{eligible_ids, quick_clean_eligible, quick_clean_ids};
use crate::engine::{bucket_of, cleanable_of, manual_of, observed_of, sum_of, with_derived};
use crate::loader::{next_percent, normalized, replaced_from, rewritten, lemma_next_percent, known_name, known_placeholder};
use crate::models::{RiskTier, spec_eligibility};
use crate::observation::max_u64;
use crate::plan_store::{is_oldest as is_oldest_plan, purged};
use crate::relationship::{key_within, spec_text_relationship};
use crate::scan_store::{next_generation, ScanStoreView};
use crate::scan_types::{CategoryResult, ScanItem};
use crate::settings::ZenithSettings;
use crate::size::{kept_reason, ranked_before, FailureRecord};
use crate::text::{lemma_seq_lt_irreflexive, lemma_seq_lt_total, lemma_seq_lt_transitive};
use crate::signature::Signature;
use crate::models::UnitRelationship;
use crate::text::{eq_ignore_ascii_case, has_infix};
use crate::lint::{all_findings, lemma_reported_before_total, lint_entries, reported_before, same_key, ResolvedPattern};
use crate::registry::{declared_only, refused_by_platform};
use crate::settings::{same_strings, SettingsChange};
use crate::loader::ManifestLintFinding;
use crate::text::seq_lt;
use vstd::relations::{sorted_by, total_ordering};

verus! {

/// Beginning a scan supersedes every lease of the generation before it: no
/// pass that held the store before `begin` holds it after, so a superseded
/// worker can never publish.
pub proof fn law_begin_supersedes_every_lease(store: ScanStoreView, lease: crate::scan_store::ScanLease)
    requires
        lease.generation == store.generation,
    ensures
        !store.begun().holds(lease),
{
    assert(next_generation(store.generation) != store.generation);
}

/// A store that was just begun or cleared authorizes no cleanup: a new scan
/// has published nothing yet, and an invalidated inventory can never
/// authorize a second cleanup.
pub proof fn law_fresh_or_cleared_store_authorizes_nothing(store: ScanStoreView)
    ensures
        !store.begun().authorizes_cleanup(),
        !store.cleared().authorizes_cleanup(),
{
}

/// A registered scan can be cancelled for as long as its window is open:
/// whether `register_at` evicted an older entry or not, the id it registered
/// at `now` is live at every `later` within the window, with the signal it
/// registered.
pub proof fn law_registered_scan_is_cancellable_within_its_window(
    before: Map<Seq<char>, EntryView>,
    after: Map<Seq<char>, EntryView>,
    scan_id: Seq<char>,
    added: EntryView,
    now: u64,
    later: u64,
    ttl: u64,
    capacity: nat,
)
    requires
        added.created_at == now,
        ({
            let live = live_entries(before, now, ttl);
            if live.dom().len() >= capacity {
                exists|oldest: Seq<char>|
                    is_oldest(live, oldest) && after == live.remove(oldest).insert(scan_id, added)
            } else {
                after == live.insert(scan_id, added)
            }
        }),
        within_window(now, later, ttl),
    ensures
        live_entries(after, later, ttl).dom().contains(scan_id),
        live_entries(after, later, ttl)[scan_id] == added,
{
    let live = live_entries(before, now, ttl);
    if live.dom().len() >= capacity {
        let oldest = choose|oldest: Seq<char>|
            is_oldest(live, oldest) && after == live.remove(oldest).insert(scan_id, added);
    }
    assert(after.dom().contains(scan_id) && after[scan_id] == added);
}

/// A scan whose handle was removed can no longer be cancelled.
pub proof fn law_removed_scan_is_not_cancellable(entries: Map<Seq<char>, EntryView>, scan_id: Seq<char>, now: u64, ttl: u64)
    ensures
        !live_entries(entries.remove(scan_id), now, ttl).dom().contains(scan_id),
{
}

/// A registry whose window is zero seconds cancels nothing.
pub proof fn law_zero_window_cancels_nothing(entries: Map<Seq<char>, EntryView>, scan_id: Seq<char>, now: u64)
    ensures
        !live_entries(entries, now, 0).dom().contains(scan_id),
{
}

/// Merging counters never loses a peak: the merged peak is at least each
/// side's peak, and is one of them.
pub proof fn law_merge_keeps_the_peak(mine: u64, theirs: u64)
    ensures
        max_u64(mine, theirs) >= mine,
        max_u64(mine, theirs) >= theirs,
        max_u64(mine, theirs) == mine || max_u64(mine, theirs) == theirs,
{
}

/// A registered signature is found under its id, and a later registration
/// replaces an earlier one with the same id.
pub proof fn law_registered_signature_is_found(catalog: Map<Seq<char>, Signature>, first: Signature, second: Signature)
    requires
        first.id@ == second.id@,
    ensures
        catalog.insert(first.id@, first).dom().contains(first.id@),
        catalog.insert(first.id@, first)[first.id@] == first,
        catalog.insert(first.id@, first).insert(second.id@, second)[first.id@] == second,
{
}

/// The eligibility breakdown of a category never exceeds its total: the
/// Safe and Rebuild buckets fit in the cleanable bytes, and the cleanable
/// and manual bytes together fit in the observed bytes.
pub proof fn law_category_buckets_fit_the_total(items: Seq<ScanItem>)
    requires
        forall|i: int| 0 <= i < items.len() ==> (#[trigger] items[i]) == with_derived(items[i]),
    ensures
        sum_of(items, |x: ScanItem| bucket_of(x, RiskTier::Safe)) + sum_of(
            items,
            |x: ScanItem| bucket_of(x, RiskTier::Rebuild),
        ) <= sum_of(items, |x: ScanItem| cleanable_of(x)),
        sum_of(items, |x: ScanItem| cleanable_of(x)) + sum_of(items, |x: ScanItem| manual_of(x)) <= sum_of(
            items,
            |x: ScanItem| observed_of(x),
        ),
    decreases items.len(),
{
    if items.len() > 0 {
        let rest = items.drop_last();
        assert forall|i: int| 0 <= i < rest.len() implies (#[trigger] rest[i]) == with_derived(rest[i]) by {
            assert(rest[i] == items[i]);
        }
        law_category_buckets_fit_the_total(rest);
        let x = items.last();
        assert(x == with_derived(x));
    }
}

/// Path text is compared case-sensitively and symmetrically: two keys are
/// one location exactly when they are one location the other way round.
pub proof fn law_text_equivalence_is_symmetric(a: Seq<char>, b: Seq<char>)
    ensures
        (spec_text_relationship(a, b) == UnitRelationship::Equivalent) == (spec_text_relationship(b, a)
            == UnitRelationship::Equivalent),
{
}

/// Containment by path text is strict: no key lies within itself, and two
/// keys never lie within each other.
pub proof fn law_text_containment_is_strict(a: Seq<char>, b: Seq<char>)
    ensures
        !key_within(a, a),
        !(key_within(a, b) && key_within(b, a)),
{
}

proof fn lemma_no_percent_no_rewrite(s: Seq<char>, pos: int, name: Seq<char>, placeholder: Seq<char>)
    requires
        0 <= pos <= s.len(),
        forall|k: int| 0 <= k < s.len() ==> s[k] != '%',
    ensures
        replaced_from(s, pos, name, placeholder) == s.subrange(pos, s.len() as int),
{
    lemma_next_percent(s, pos);
    if pos == s.len() {
        assert(s.subrange(pos, s.len() as int) =~= Seq::<char>::empty());
    }
}

proof fn lemma_no_percent_rewritten(s: Seq<char>, n: nat)
    requires
        forall|k: int| 0 <= k < s.len() ==> s[k] != '%',
    ensures
        rewritten(s, n) == s,
    decreases n,
{
    if n > 0 {
        lemma_no_percent_rewritten(s, (n - 1) as nat);
        lemma_no_percent_no_rewrite(s, 0, known_name(n - 1), known_placeholder(n - 1));
        assert(s.subrange(0, s.len() as int) =~= s);
    }
}

/// Normalization only rewrites `%VAR%` spellings: a pattern without a `%`
/// is its own normal form.
pub proof fn law_pattern_without_variables_is_unchanged(pattern: Seq<char>)
    requires
        !has_infix(pattern, "%"@),
    ensures
        normalized(pattern) == pattern,
{
    reveal_strlit("%");
    assert forall|k: int| 0 <= k < pattern.len() implies pattern[k] != '%' by {
        if pattern[k] == '%' {
            assert(pattern.subrange(k, k + 1) =~= "%"@);
            assert(crate::text::occurs_at(pattern, "%"@, k));
        }
    }
    lemma_no_percent_rewritten(pattern, 9);
}

/// `id` is the id of an item of the list Quick Clean may take.
pub open spec fn names_eligible_item(items: Seq<ScanItem>, id: Seq<char>) -> bool {
    exists|i: int| 0 <= i < items.len() && items[i].id@ == id && quick_clean_eligible(items[i])
}

/// `id` is the id of a Safe item Quick Clean may take, in a category the
/// settings enable.
pub open spec fn names_safe_item(categories: Seq<CategoryResult>, settings: ZenithSettings, id: Seq<char>) -> bool {
    exists|c: int, i: int|
        0 <= c < categories.len() && 0 <= i < categories[c].items@.len() && settings.spec_category_enabled(
            categories[c].category,
        ) && categories[c].items@[i].id@ == id && quick_clean_eligible(categories[c].items@[i])
            && categories[c].items@[i].risk == RiskTier::Safe
}

proof fn lemma_eligible_ids_come_from_eligible_items(items: Seq<ScanItem>)
    ensures
        forall|k: int|
            0 <= k < eligible_ids(items).len() ==> names_eligible_item(items, #[trigger] eligible_ids(items)[k]),
    decreases items.len(),
{
    if items.len() > 0 {
        let rest = items.drop_last();
        lemma_eligible_ids_come_from_eligible_items(rest);
        assert forall|k: int| 0 <= k < eligible_ids(items).len() implies names_eligible_item(
            items,
            #[trigger] eligible_ids(items)[k],
        ) by {
            if k < eligible_ids(rest).len() {
                assert(eligible_ids(items)[k] == eligible_ids(rest)[k]);
                assert(names_eligible_item(rest, eligible_ids(rest)[k]));
                let i = choose|i: int|
                    0 <= i < rest.len() && rest[i].id@ == eligible_ids(rest)[k] && quick_clean_eligible(rest[i]);
                assert(items[i] == rest[i]);
                assert(0 <= i < items.len() && items[i].id@ == eligible_ids(items)[k] && quick_clean_eligible(items[i]));
            } else {
                let i = items.len() - 1;
                assert(items[i] == items.last());
                assert(quick_clean_eligible(items.last()));
                assert(eligible_ids(items) == eligible_ids(rest).push(items.last().id@));
                assert(0 <= i < items.len() && items[i].id@ == eligible_ids(items)[k] && quick_clean_eligible(items[i]));
            }
        }
    }
}

/// Quick Clean takes only what needs no confirmation: every id it selects belongs
/// to an item of a category the settings enable whose disposition is the
/// current one, is auto-cleanable, gives back bytes, and is of the Safe
/// tier — never a Rebuild, Manual, blocked or advisory item.
pub proof fn law_quick_clean_takes_only_safe_items(categories: Seq<CategoryResult>, settings: ZenithSettings)
    ensures
        forall|k: int|
            0 <= k < quick_clean_ids(categories, settings).len() ==> names_safe_item(
                categories,
                settings,
                #[trigger] quick_clean_ids(categories, settings)[k],
            ),
    decreases categories.len(),
{
    if categories.len() > 0 {
        let rest = categories.drop_last();
        let last = categories.last();
        law_quick_clean_takes_only_safe_items(rest, settings);
        lemma_eligible_ids_come_from_eligible_items(last.items@);
        let ids = quick_clean_ids(categories, settings);
        let before = quick_clean_ids(rest, settings);
        assert forall|k: int| 0 <= k < ids.len() implies names_safe_item(categories, settings, #[trigger] ids[k]) by {
            if k < before.len() {
                assert(ids[k] == before[k]);
                assert(names_safe_item(rest, settings, before[k]));
                let (c, i) = choose|c: int, i: int|
                    0 <= c < rest.len() && 0 <= i < rest[c].items@.len() && settings.spec_category_enabled(
                        rest[c].category,
                    ) && rest[c].items@[i].id@ == before[k] && quick_clean_eligible(rest[c].items@[i])
                        && rest[c].items@[i].risk == RiskTier::Safe;
                assert(categories[c] == rest[c]);
                assert(0 <= c < categories.len() && 0 <= i < categories[c].items@.len()
                    && settings.spec_category_enabled(categories[c].category)
                    && categories[c].items@[i].id@ == ids[k] && quick_clean_eligible(categories[c].items@[i])
                    && categories[c].items@[i].risk == RiskTier::Safe);
            } else {
                let n = categories.len() - 1;
                assert(categories[n] == last);
                assert(settings.spec_category_enabled(last.category));
                assert(ids[k] == eligible_ids(last.items@)[k - before.len()]);
                assert(names_eligible_item(last.items@, eligible_ids(last.items@)[k - before.len()]));
                let i = choose|i: int|
                    0 <= i < last.items@.len() && last.items@[i].id@ == eligible_ids(last.items@)[k
                        - before.len()] && quick_clean_eligible(last.items@[i]);
                let item = last.items@[i];
                assert(spec_eligibility(item.spec_facts()) == crate::models::CleanupEligibility::AutoCleanable);
                assert(item.risk == RiskTier::Safe);
                assert(0 <= n < categories.len() && 0 <= i < categories[n].items@.len()
                    && settings.spec_category_enabled(categories[n].category)
                    && categories[n].items@[i].id@ == ids[k] && quick_clean_eligible(categories[n].items@[i])
                    && categories[n].items@[i].risk == RiskTier::Safe);
            }
        }
    }
}

/// A plan is taken at most once: once taken, its id is gone from the store,
/// so a second take is refused.
pub proof fn law_plan_is_taken_at_most_once<P>(plans: Map<u128, (u64, P)>, id: u128)
    ensures
        !plans.remove(id).dom().contains(id),
{
}

/// Inserting a plan never grows the store beyond its capacity: a store
/// within capacity stays within it, whether or not the insert evicted.
pub proof fn law_plan_store_stays_within_capacity<P>(
    before: Map<u128, (u64, P)>,
    after: Map<u128, (u64, P)>,
    id: u128,
    created_at: u64,
    plan: P,
    now: u64,
    ttl: u64,
    limit: nat,
)
    requires
        before.dom().finite(),
        before.dom().len() <= limit,
        limit > 0,
        ({
            let live = purged(before, now, ttl);
            if live.dom().len() >= limit && live.dom().len() > 0 {
                exists|evicted: u128|
                    is_oldest_plan(live, evicted) && after == live.remove(evicted).insert(id, (created_at, plan))
            } else {
                after == live.insert(id, (created_at, plan))
            }
        }),
    ensures
        after.dom().finite(),
        after.dom().len() <= limit,
{
    let live = purged(before, now, ttl);
    let kept = before.dom().filter(|k: u128| crate::plan_store::unexpired(before[k].0, now, ttl));
    assert(live.dom() =~= kept);
    vstd::set_lib::lemma_len_subset(kept, before.dom());
    if live.dom().len() >= limit && live.dom().len() > 0 {
        let evicted = choose|evicted: u128|
            is_oldest_plan(live, evicted) && after == live.remove(evicted).insert(id, (created_at, plan));
        assert(after.dom() =~= live.dom().remove(evicted).insert(id));
    } else {
        assert(after.dom() =~= live.dom().insert(id));
    }
}


proof fn lemma_ranked_before_asymmetric(a: FailureRecord, b: FailureRecord)
    requires
        ranked_before(a, b),
    ensures
        !ranked_before(b, a),
{
    if ranked_before(b, a) && a.depth == b.depth {
        if a.path@ == b.path@ {
            lemma_seq_lt_irreflexive(a.path@);
            lemma_seq_lt_transitive(a.message@, b.message@, a.message@);
            lemma_seq_lt_irreflexive(a.message@);
        } else {
            if crate::text::seq_lt(a.path@, b.path@) && crate::text::seq_lt(b.path@, a.path@) {
                lemma_seq_lt_transitive(a.path@, b.path@, a.path@);
                lemma_seq_lt_irreflexive(a.path@);
            }
        }
    }
}

/// The reason a measurement states does not depend on the order its
/// failures arrived in: whichever worker finished first, the earliest-ranked
/// reason is kept.
pub proof fn law_kept_reason_is_order_independent(a: FailureRecord, b: FailureRecord)
    requires
        ranked_before(a, b) || ranked_before(b, a) || a == b,
    ensures
        kept_reason(kept_reason(None, a), b) == kept_reason(kept_reason(None, b), a),
{
    if ranked_before(a, b) {
        lemma_ranked_before_asymmetric(a, b);
    } else if ranked_before(b, a) {
        lemma_ranked_before_asymmetric(b, a);
    }
}

/// Two failure records either rank one before the other or state the same
/// depth, path and message.
pub proof fn law_failure_ranks_are_total(a: FailureRecord, b: FailureRecord)
    ensures
        ranked_before(a, b) || ranked_before(b, a) || (a.depth == b.depth && a.path@ == b.path@
            && a.message@ == b.message@),
{
    if a.path@ != b.path@ {
        lemma_seq_lt_total(a.path@, b.path@);
    }
    if a.message@ != b.message@ {
        lemma_seq_lt_total(a.message@, b.message@);
    }
}

/// The key a lint report orders findings by: entry id, then message.
pub open spec fn report_key(f: ManifestLintFinding) -> (Seq<char>, Seq<char>) {
    (f.signature_id@, f.message@)
}

/// The keys of a report, in report order.
pub open spec fn report_keys(report: Seq<ManifestLintFinding>) -> Seq<(Seq<char>, Seq<char>)> {
    report.map_values(|f: ManifestLintFinding| report_key(f))
}

spec fn key_lt(a: (Seq<char>, Seq<char>), b: (Seq<char>, Seq<char>)) -> bool {
    seq_lt(a.0, b.0) || (a.0 == b.0 && seq_lt(a.1, b.1))
}

spec fn key_leq(a: (Seq<char>, Seq<char>), b: (Seq<char>, Seq<char>)) -> bool {
    !key_lt(b, a)
}

proof fn lemma_key_lt_transitive(a: (Seq<char>, Seq<char>), b: (Seq<char>, Seq<char>), c: (Seq<char>, Seq<char>))
    requires
        key_lt(a, b),
        key_lt(b, c),
    ensures
        key_lt(a, c),
{
    if seq_lt(a.0, b.0) && seq_lt(b.0, c.0) {
        lemma_seq_lt_transitive(a.0, b.0, c.0);
    } else if a.0 == b.0 && b.0 == c.0 {
        lemma_seq_lt_transitive(a.1, b.1, c.1);
    }
}

proof fn lemma_key_lt_irreflexive(a: (Seq<char>, Seq<char>))
    ensures
        !key_lt(a, a),
{
    lemma_seq_lt_irreflexive(a.0);
    lemma_seq_lt_irreflexive(a.1);
}

proof fn lemma_key_lt_total(a: (Seq<char>, Seq<char>), b: (Seq<char>, Seq<char>))
    requires
        a != b,
    ensures
        key_lt(a, b) || key_lt(b, a),
{
    if a.0 != b.0 {
        lemma_seq_lt_total(a.0, b.0);
    } else {
        assert(a.1 != b.1);
        lemma_seq_lt_total(a.1, b.1);
    }
}

proof fn lemma_key_leq_total_ordering()
    ensures
        total_ordering(|a: (Seq<char>, Seq<char>), b: (Seq<char>, Seq<char>)| key_leq(a, b)),
{
    let leq = |a: (Seq<char>, Seq<char>), b: (Seq<char>, Seq<char>)| key_leq(a, b);
    assert forall|x: (Seq<char>, Seq<char>)| #[trigger] leq(x, x) by {
        lemma_key_lt_irreflexive(x);
    }
    assert forall|x: (Seq<char>, Seq<char>), y: (Seq<char>, Seq<char>)| #[trigger] leq(x, y) && #[trigger] leq(y, x)
        implies x == y by {
        if x != y {
            lemma_key_lt_total(x, y);
        }
    }
    assert forall|x: (Seq<char>, Seq<char>), y: (Seq<char>, Seq<char>), z: (Seq<char>, Seq<char>)|
        #[trigger] leq(x, y) && #[trigger] leq(y, z) implies #[trigger] leq(x, z) by {
        if key_lt(z, x) {
            if x == y {
            } else {
                lemma_key_lt_total(x, y);
                lemma_key_lt_transitive(z, x, y);
            }
        }
    }
    assert forall|x: (Seq<char>, Seq<char>), y: (Seq<char>, Seq<char>)| #[trigger] leq(x, y) || #[trigger] leq(y, x) by {
        if key_lt(x, y) && key_lt(y, x) {
            lemma_key_lt_transitive(x, y, x);
            lemma_key_lt_irreflexive(x);
        }
    }
}

proof fn lemma_map_preserves_multiset<A, B>(s: Seq<A>, t: Seq<A>, f: spec_fn(A) -> B)
    requires
        s.to_multiset() == t.to_multiset(),
    ensures
        s.map_values(f).to_multiset() == t.map_values(f).to_multiset(),
    decreases s.len(),
{
    broadcast use vstd::multiset::group_multiset_axioms;
    vstd::seq_lib::to_multiset_len(s);
    vstd::seq_lib::to_multiset_len(t);
    if s.len() == 0 {
        assert(s.map_values(f) =~= Seq::<B>::empty());
        assert(t.map_values(f) =~= Seq::<B>::empty());
    } else {
        let x = s.last();
        let rest = s.drop_last();
        assert(rest.push(x) =~= s);
        vstd::seq_lib::to_multiset_build(rest, x);
        vstd::seq_lib::to_multiset_contains(s, x);
        assert(s.contains(x)) by {
            assert(s[s.len() - 1] == x);
        }
        vstd::seq_lib::to_multiset_contains(t, x);
        let i = choose|i: int| 0 <= i < t.len() && t[i] == x;
        let others = t.remove(i);
        vstd::seq_lib::to_multiset_remove(t, i);
        assert(rest.to_multiset() =~= s.to_multiset().remove(x));
        lemma_map_preserves_multiset(rest, others, f);
        assert(s.map_values(f) =~= rest.map_values(f).push(f(x)));
        vstd::seq_lib::to_multiset_build(rest.map_values(f), f(x));
        assert(t.map_values(f) =~= others.map_values(f).insert(i, f(x)));
        vstd::seq_lib::to_multiset_insert(others.map_values(f), i, f(x));
    }
}

/// The manifest lint's report is fixed by the findings alone: two reports
/// of the same findings, whatever order the entries were audited in, list
/// the same entry ids and messages in the same order.
pub proof fn law_lint_report_is_order_independent(
    first_audits: Seq<Vec<ManifestLintFinding>>,
    second_audits: Seq<Vec<ManifestLintFinding>>,
    first: Seq<ManifestLintFinding>,
    second: Seq<ManifestLintFinding>,
)
    requires
        all_findings(first_audits).to_multiset() == all_findings(second_audits).to_multiset(),
        first.to_multiset() == all_findings(first_audits).to_multiset(),
        second.to_multiset() == all_findings(second_audits).to_multiset(),
        forall|i: int, j: int| 0 <= i < j < first.len() ==> !reported_before(#[trigger] first[j], #[trigger] first[i]),
        forall|i: int, j: int| 0 <= i < j < second.len() ==> !reported_before(#[trigger] second[j], #[trigger] second[i]),
    ensures
        report_keys(first) == report_keys(second),
{
    let leq = |a: (Seq<char>, Seq<char>), b: (Seq<char>, Seq<char>)| key_leq(a, b);
    lemma_key_leq_total_ordering();
    lemma_map_preserves_multiset(first, second, |f: ManifestLintFinding| report_key(f));
    assert(sorted_by(report_keys(first), leq)) by {
        assert forall|i: int, j: int| 0 <= i < j < report_keys(first).len() implies #[trigger] leq(
            report_keys(first)[i],
            report_keys(first)[j],
        ) by {
            assert(!reported_before(first[j], first[i]));
        }
    }
    assert(sorted_by(report_keys(second), leq)) by {
        assert forall|i: int, j: int| 0 <= i < j < report_keys(second).len() implies #[trigger] leq(
            report_keys(second)[i],
            report_keys(second)[j],
        ) by {
            assert(!reported_before(second[j], second[i]));
        }
    }
    vstd::seq_lib::lemma_sorted_unique(report_keys(first), report_keys(second), leq);
}

/// The platform gate and the lint agree: an entry the gated catalog still
/// holds earns no platform finding, whatever the environment made of its
/// patterns.
pub proof fn law_gated_catalog_earns_no_platform_finding(
    catalog: Map<Seq<char>, Signature>,
    id: Seq<char>,
    windows: bool,
    resolutions: Seq<Option<ResolvedPattern>>,
    reach: Seq<Option<Vec<bool>>>,
    owner_providers: Seq<String>,
    lifecycle_providers: Seq<String>,
)
    requires
        declared_only(catalog).dom().contains(id),
    ensures
        forall|k: int|
            0 <= k < lint_entries(
                declared_only(catalog)[id],
                windows,
                resolutions,
                reach,
                owner_providers,
                lifecycle_providers,
            ).len() ==> (#[trigger] lint_entries(
                declared_only(catalog)[id],
                windows,
                resolutions,
                reach,
                owner_providers,
                lifecycle_providers,
            )[k]).0 is None,
{
    let entries = lint_entries(declared_only(catalog)[id], windows, resolutions, reach, owner_providers, lifecycle_providers);
    assert forall|k: int| 0 <= k < entries.len() implies (#[trigger] entries[k]).0 is None by {
    }
}

/// Saving a snapshot that equals the current one changes nothing a
/// service caches.
pub proof fn law_an_unchanged_snapshot_changes_nothing(previous: ZenithSettings, next: ZenithSettings, change: SettingsChange)
    requires
        crate::settings::same_settings(previous, next),
        change.provider_selection_changed == !same_strings(
            previous.ai_accounts_quota_providers@,
            next.ai_accounts_quota_providers@,
        ),
        change.inactivity_threshold_changed == (previous.agent_notifications.inactivity_threshold_minutes
            != next.agent_notifications.inactivity_threshold_minutes),
    ensures
        !change.provider_selection_changed,
        !change.inactivity_threshold_changed,
{
}

proof fn lemma_percent_free_tail(s: Seq<char>, pos: int, name: Seq<char>, placeholder: Seq<char>)
    requires
        0 <= pos <= s.len(),
        forall|k: int| pos <= k < s.len() ==> s[k] != '%',
    ensures
        replaced_from(s, pos, name, placeholder) == s.subrange(pos, s.len() as int),
{
    lemma_next_percent(s, pos);
    if pos == s.len() {
        assert(s.subrange(pos, s.len() as int) =~= Seq::<char>::empty());
    }
}

proof fn lemma_unknown_spelling_pass(name: Seq<char>, tail: Seq<char>, i: int)
    requires
        0 <= i < 9,
        forall|k: int| 0 <= k < name.len() ==> name[k] != '%',
        forall|k: int| 0 <= k < tail.len() ==> tail[k] != '%',
        !eq_ignore_ascii_case(name, known_name(i)),
    ensures
        replaced_from(seq!['%'] + name + seq!['%'] + tail, 0, known_name(i), known_placeholder(i)) == seq!['%'] + name
            + seq!['%'] + tail,
{
    let s = seq!['%'] + name + seq!['%'] + tail;
    let close: int = name.len() as int + 1;
    assert(s[0] == '%');
    assert(s[close] == '%');
    assert forall|k: int| 1 <= k < close implies s[k] != '%' by {
        assert(s[k] == name[k - 1]);
    }
    assert forall|k: int| close + 1 <= k < s.len() implies s[k] != '%' by {
        assert(s[k] == tail[k - close - 1]);
    }
    lemma_next_percent(s, 0);
    lemma_next_percent(s, 1);
    assert(next_percent(s, 0) == 0);
    assert(next_percent(s, 1) == close);
    assert(s.subrange(1, close) =~= name);
    lemma_percent_free_tail(s, close + 1, known_name(i), known_placeholder(i));
    assert(s.subrange(0, close + 1) + s.subrange(close + 1, s.len() as int) =~= s);
}

proof fn lemma_unknown_spelling_rewritten(name: Seq<char>, tail: Seq<char>, n: nat)
    requires
        n <= 9,
        forall|k: int| 0 <= k < name.len() ==> name[k] != '%',
        forall|k: int| 0 <= k < tail.len() ==> tail[k] != '%',
        forall|i: int| 0 <= i < 9 ==> !eq_ignore_ascii_case(name, #[trigger] known_name(i)),
    ensures
        rewritten(seq!['%'] + name + seq!['%'] + tail, n) == seq!['%'] + name + seq!['%'] + tail,
    decreases n,
{
    if n > 0 {
        lemma_unknown_spelling_rewritten(name, tail, (n - 1) as nat);
        lemma_unknown_spelling_pass(name, tail, n - 1);
    }
}

/// A `%NAME%` spelling the loader does not know is kept as written, so the
/// manifest can refuse it instead of resolving it to nothing: a pattern that
/// opens with such a spelling and holds no other `%` is its own normal form.
pub proof fn law_unknown_spelling_is_kept(name: Seq<char>, tail: Seq<char>)
    requires
        forall|k: int| 0 <= k < name.len() ==> name[k] != '%',
        forall|k: int| 0 <= k < tail.len() ==> tail[k] != '%',
        forall|i: int| 0 <= i < 9 ==> !eq_ignore_ascii_case(name, #[trigger] known_name(i)),
    ensures
        normalized(seq!['%'] + name + seq!['%'] + tail) == seq!['%'] + name + seq!['%'] + tail,
{
    lemma_unknown_spelling_rewritten(name, tail, 9);
}

/// A registry whose capacity is one keeps the scan registered last: with
/// one live scan registered, registering another evicts it, so the earlier
/// id can no longer be cancelled and the later one can.
pub proof fn law_a_single_slot_registry_keeps_the_latest(
    before: Map<Seq<char>, EntryView>,
    after: Map<Seq<char>, EntryView>,
    first: Seq<char>,
    second: Seq<char>,
    added: EntryView,
    now: u64,
    ttl: u64,
)
    requires
        before.dom() == set![first],
        within_window(before[first].created_at, now, ttl),
        first != second,
        added.created_at == now,
        ({
            let live = live_entries(before, now, ttl);
            if live.dom().len() >= 1 {
                exists|oldest: Seq<char>|
                    is_oldest(live, oldest) && after == live.remove(oldest).insert(second, added)
            } else {
                after == live.insert(second, added)
            }
        }),
    ensures
        after.dom().contains(second),
        !after.dom().contains(first),
{
    let live = live_entries(before, now, ttl);
    assert(live.dom() =~= set![first]);
    assert(live.dom().len() == 1);
    let oldest = choose|oldest: Seq<char>|
        is_oldest(live, oldest) && after == live.remove(oldest).insert(second, added);
    assert(oldest == first);
}

/// A continuation id the store retains is the text of a version-4 UUID, so
/// a claim naming an id of any other length never matches it and consumes
/// nothing.
pub proof fn law_a_malformed_continuation_id_never_matches(retained: Seq<char>, named: Seq<char>)
    requires
        crate::scan_store::uuid_v4_text(retained),
        named.len() != 36,
    ensures
        retained != named,
{
}


/// Registering a signature adds one entry to the catalog when its id is new,
/// and replaces the entry of that id otherwise: the count grows by one or
/// stays the same.
pub proof fn law_register_counts_a_new_id_once(
    before: crate::registry::SignatureRegistry,
    after: crate::registry::SignatureRegistry,
    signature: crate::signature::Signature,
)
    requires
        before.wf(),
        after.catalog() == before.catalog().insert(signature.id@, signature),
    ensures
        after.catalog().dom().finite(),
        after.catalog().dom().len() == before.catalog().dom().len() + if before.catalog().dom().contains(
            signature.id@,
        ) {
            0int
        } else {
            1int
        },
{
    before.lemma_catalog_finite();
    assert(after.catalog().dom() =~= before.catalog().dom().insert(signature.id@));
}

/// The lint and the platform-declaration rule name the same entries: an
/// entry earns a platform finding exactly when that rule refuses it, whatever
/// the environment made of its patterns. With `enforce_platform_declarations`
/// keeping `declared_only` of the catalog, enforcement drops exactly the
/// entries with a platform finding.
pub proof fn law_platform_findings_are_the_declaration_refusals(
    signature: Signature,
    windows: bool,
    resolutions: Seq<Option<ResolvedPattern>>,
    reach: Seq<Option<Vec<bool>>>,
    owner_providers: Seq<String>,
    lifecycle_providers: Seq<String>,
)
    ensures
        (exists|k: int|
            0 <= k < lint_entries(signature, windows, resolutions, reach, owner_providers, lifecycle_providers).len()
                && (#[trigger] lint_entries(
                signature,
                windows,
                resolutions,
                reach,
                owner_providers,
                lifecycle_providers,
            )[k]).0 is Some) <==> refused_by_platform(signature),
{
    let entries = lint_entries(signature, windows, resolutions, reach, owner_providers, lifecycle_providers);
    let paths = signature.paths@;
    let u = crate::loader::undeclared(
        crate::loader::platforms_in_order(|p: crate::models::PlatformKind| crate::loader::names_platform(paths, p)),
        signature.platforms@,
    );
    let patterns = crate::lint::patterns_messages(
        paths,
        resolutions,
        windows,
        crate::lint::boundary_checked(signature),
        paths.len() as int,
    );
    let exclusions = if exists|i: int| crate::lint::scope_root(paths, resolutions, windows, i) {
        crate::lint::exclusions_messages(
            signature.exclusions@,
            reach,
            paths,
            resolutions,
            windows,
            signature.exclusions@.len() as int,
        )
    } else {
        Seq::empty()
    };
    let a = crate::lint::untagged(patterns + exclusions);
    let t = crate::lint::tagged(u);
    let b = crate::lint::untagged(crate::lint::provider_messages(signature, owner_providers, lifecycle_providers));
    assert(entries == a + t + b);
    if refused_by_platform(signature) {
        assert(u.len() > 0);
        assert(entries[a.len() as int] == t[0]);
        assert(entries[a.len() as int].0 is Some);
    }
    assert forall|k: int| 0 <= k < entries.len() && (#[trigger] entries[k]).0 is Some implies refused_by_platform(signature) by {
        if k < a.len() {
            assert(entries[k] == a[k]);
        } else if k < a.len() + t.len() {
            assert(t.len() > 0);
        } else {
            assert(entries[k] == b[k - a.len() - t.len()]);
        }
    }
}


/// Every `%...%` pair a rewrite pass from `pos` examines in `s` has inner
/// text other than `name`, ignoring ASCII case.
spec fn clean_from(s: Seq<char>, pos: int, name: Seq<char>) -> bool
    decreases s.len() - pos,
{
    if pos < 0 || pos >= s.len() {
        true
    } else {
        let open = next_percent(s, pos);
        if open >= s.len() {
            true
        } else {
            let close = next_percent(s, open + 1);
            if close >= s.len() {
                true
            } else {
                proof {
                    lemma_next_percent(s, pos);
                    lemma_next_percent(s, open + 1);
                }
                !eq_ignore_ascii_case(s.subrange(open + 1, close), name) && clean_from(s, close + 1, name)
            }
        }
    }
}

/// Every pair a pass from `pos` examines either matches `name` or has inner
/// text other than `other`.
spec fn pairs_avoid(s: Seq<char>, pos: int, name: Seq<char>, other: Seq<char>) -> bool
    decreases s.len() - pos,
{
    if pos < 0 || pos >= s.len() {
        true
    } else {
        let open = next_percent(s, pos);
        if open >= s.len() {
            true
        } else {
            let close = next_percent(s, open + 1);
            if close >= s.len() {
                true
            } else {
                proof {
                    lemma_next_percent(s, pos);
                    lemma_next_percent(s, open + 1);
                }
                (eq_ignore_ascii_case(s.subrange(open + 1, close), name) || !eq_ignore_ascii_case(
                    s.subrange(open + 1, close),
                    other,
                )) && pairs_avoid(s, close + 1, name, other)
            }
        }
    }
}

spec fn percent_free(s: Seq<char>) -> bool {
    forall|k: int| 0 <= k < s.len() ==> s[k] != '%'
}

/// The next `%` from `from` is at `t` when none lies before it.
proof fn lemma_next_percent_at(s: Seq<char>, from: int, t: int)
    requires
        0 <= from <= t <= s.len(),
        forall|k: int| from <= k < t ==> s[k] != '%',
        t == s.len() || s[t] == '%',
    ensures
        next_percent(s, from) == t,
    decreases t - from,
{
    if from < t {
        lemma_next_percent_at(s, from + 1, t);
    }
}

/// A pass over `a + b` from inside `b` sees what a pass over `b` sees.
proof fn lemma_clean_shift(a: Seq<char>, b: Seq<char>, k: int, name: Seq<char>)
    requires
        0 <= k <= b.len(),
    ensures
        clean_from(a + b, a.len() + k, name) == clean_from(b, k, name),
    decreases b.len() - k,
{
    let s = a + b;
    if k < b.len() {
        lemma_next_percent(b, k);
        let open = next_percent(b, k);
        lemma_next_percent_at(s, a.len() + k, a.len() + open);
        if open < b.len() {
            lemma_next_percent(b, open + 1);
            let close = next_percent(b, open + 1);
            lemma_next_percent_at(s, a.len() + open + 1, a.len() + close);
            if close < b.len() {
                assert(s.subrange(a.len() + open + 1, a.len() + close) =~= b.subrange(open + 1, close));
                lemma_clean_shift(a, b, close + 1, name);
            }
        }
    }
}

/// A `%`-free prefix changes nothing a pass examines.
proof fn lemma_clean_free_prefix(x: Seq<char>, b: Seq<char>, name: Seq<char>)
    requires
        percent_free(x),
    ensures
        clean_from(x + b, 0, name) == clean_from(b, 0, name),
{
    let s = x + b;
    lemma_clean_shift(x, b, 0, name);
    if x.len() > 0 && s.len() > 0 {
        lemma_next_percent(b, 0);
        let open = next_percent(b, 0);
        lemma_next_percent_at(s, 0, x.len() + open);
        lemma_next_percent_at(s, x.len() as int, x.len() + open);
    }
}

/// A pass over a text whose examined pairs avoid `other`, apart from those
/// it rewrites, leaves a text whose pairs all avoid `other`.
proof fn lemma_pass_leaves_clean(s: Seq<char>, pos: int, name: Seq<char>, placeholder: Seq<char>, other: Seq<char>)
    requires
        0 <= pos <= s.len(),
        percent_free(placeholder),
        pairs_avoid(s, pos, name, other),
    ensures
        clean_from(replaced_from(s, pos, name, placeholder), 0, other),
    decreases s.len() - pos,
{
    if pos < s.len() {
        lemma_next_percent(s, pos);
        let open = next_percent(s, pos);
        if open >= s.len() {
            let out = s.subrange(pos, s.len() as int);
            assert(percent_free(out));
            lemma_clean_free_prefix(out, Seq::empty(), other);
            assert(out + Seq::<char>::empty() =~= out);
        } else {
            lemma_next_percent(s, open + 1);
            let close = next_percent(s, open + 1);
            if close >= s.len() {
                let out = s.subrange(pos, s.len() as int);
                lemma_next_percent_at(out, 0, open - pos);
                lemma_next_percent_at(out, open - pos + 1, out.len() as int);
            } else {
                let rest = replaced_from(s, close + 1, name, placeholder);
                lemma_pass_leaves_clean(s, close + 1, name, placeholder, other);
                let content = s.subrange(open + 1, close);
                if eq_ignore_ascii_case(content, name) {
                    let x = s.subrange(pos, open) + placeholder;
                    assert(percent_free(x));
                    assert(replaced_from(s, pos, name, placeholder) == s.subrange(pos, open) + placeholder + rest);
                    lemma_clean_free_prefix(x, rest, other);
                } else {
                    let u = s.subrange(pos, close + 1);
                    let out = u + rest;
                    assert(replaced_from(s, pos, name, placeholder) == out);
                    lemma_next_percent_at(out, 0, open - pos);
                    lemma_next_percent_at(out, open - pos + 1, close - pos);
                    assert(out.subrange(open - pos + 1, close - pos) =~= content);
                    lemma_clean_shift(u, rest, 0, other);
                }
            }
        }
    }
}

/// A text whose pairs all avoid `other` has pairs that avoid it under any
/// pass.
proof fn lemma_clean_avoids(s: Seq<char>, pos: int, name: Seq<char>, other: Seq<char>)
    requires
        clean_from(s, pos, other),
    ensures
        pairs_avoid(s, pos, name, other),
        pairs_avoid(s, pos, other, other),
    decreases s.len() - pos,
{
    if 0 <= pos < s.len() {
        let open = next_percent(s, pos);
        lemma_next_percent(s, pos);
        if open < s.len() {
            lemma_next_percent(s, open + 1);
            let close = next_percent(s, open + 1);
            if close < s.len() {
                lemma_clean_avoids(s, close + 1, name, other);
            }
        }
    }
}

/// Every pair avoids `name` or matches it.
proof fn lemma_avoids_itself(s: Seq<char>, pos: int, name: Seq<char>)
    ensures
        pairs_avoid(s, pos, name, name),
    decreases s.len() - pos,
{
    if 0 <= pos < s.len() {
        let open = next_percent(s, pos);
        lemma_next_percent(s, pos);
        if open < s.len() {
            lemma_next_percent(s, open + 1);
            let close = next_percent(s, open + 1);
            if close < s.len() {
                lemma_avoids_itself(s, close + 1, name);
            }
        }
    }
}

/// A pass over a text whose pairs all avoid its name changes nothing.
proof fn lemma_clean_pass_is_identity(s: Seq<char>, pos: int, name: Seq<char>, placeholder: Seq<char>)
    requires
        0 <= pos <= s.len(),
        clean_from(s, pos, name),
    ensures
        replaced_from(s, pos, name, placeholder) == s.subrange(pos, s.len() as int),
    decreases s.len() - pos,
{
    if pos < s.len() {
        lemma_next_percent(s, pos);
        let open = next_percent(s, pos);
        if open < s.len() {
            lemma_next_percent(s, open + 1);
            let close = next_percent(s, open + 1);
            if close < s.len() {
                lemma_clean_pass_is_identity(s, close + 1, name, placeholder);
                assert(s.subrange(pos, close + 1) + s.subrange(close + 1, s.len() as int) =~= s.subrange(
                    pos,
                    s.len() as int,
                ));
            }
        }
    } else {
        assert(s.subrange(pos, s.len() as int) =~= Seq::<char>::empty());
    }
}

proof fn lemma_placeholders_percent_free(i: int)
    ensures
        percent_free(known_placeholder(i)),
{
    reveal_strlit("${USER_HOME}");
    reveal_strlit("${LOCAL_APP_DATA}");
    reveal_strlit("${ROAMING_APP_DATA}");
    reveal_strlit("${PROGRAM_DATA}");
    reveal_strlit("${PROGRAM_FILES}");
    reveal_strlit("${SYSTEM_ROOT}");
    reveal_strlit("${TEMP}");
}

/// After `n` passes, no pair of the text matches any of the first `n` names.
proof fn lemma_rewritten_is_clean(s: Seq<char>, n: nat)
    requires
        n <= 9,
    ensures
        forall|i: int| 0 <= i < n ==> clean_from(rewritten(s, n), 0, #[trigger] known_name(i)),
    decreases n,
{
    if n > 0 {
        let m = (n - 1) as nat;
        lemma_rewritten_is_clean(s, m);
        let before = rewritten(s, m);
        lemma_placeholders_percent_free(m as int);
        assert forall|i: int| 0 <= i < n implies clean_from(rewritten(s, n), 0, #[trigger] known_name(i)) by {
            if i < m {
                lemma_clean_avoids(before, 0, known_name(m as int), known_name(i));
            } else {
                lemma_avoids_itself(before, 0, known_name(i));
            }
            lemma_pass_leaves_clean(before, 0, known_name(m as int), known_placeholder(m as int), known_name(i));
        }
    }
}

/// Passes over a text with no matching pair change nothing.
proof fn lemma_clean_text_is_fixed(t: Seq<char>, n: nat)
    requires
        n <= 9,
        forall|i: int| 0 <= i < 9 ==> clean_from(t, 0, #[trigger] known_name(i)),
    ensures
        rewritten(t, n) == t,
    decreases n,
{
    if n > 0 {
        lemma_clean_text_is_fixed(t, (n - 1) as nat);
        assert(clean_from(t, 0, known_name(n - 1)));
        lemma_clean_pass_is_identity(t, 0, known_name(n - 1), known_placeholder(n - 1));
        assert(t.subrange(0, t.len() as int) =~= t);
    }
}

/// Normalization is idempotent: a normalized pattern is its own normal form.
pub proof fn law_normalization_is_idempotent(pattern: Seq<char>)
    ensures
        normalized(normalized(pattern)) == normalized(pattern),
{
    lemma_rewritten_is_clean(pattern, 9);
    lemma_clean_text_is_fixed(normalized(pattern), 9);
}


/// The first finding of a sorted report has no finding before it.
proof fn lemma_first_is_least(s: Seq<ManifestLintFinding>, k: int)
    requires
        0 < k < s.len(),
        forall|i: int, j: int| 0 <= i < j < s.len() ==> !reported_before(#[trigger] s[j], #[trigger] s[i]),
    ensures
        !reported_before(s[k], s[0]),
{
}

/// A key filter of a report splits at its first finding.
proof fn lemma_filter_first(s: Seq<ManifestLintFinding>, y: ManifestLintFinding)
    requires
        s.len() > 0,
    ensures
        s.filter(same_key(y)) == (if (same_key(y))(s[0]) {
            seq![s[0]]
        } else {
            Seq::<ManifestLintFinding>::empty()
        }) + s.drop_first().filter(same_key(y)),
{
    assert(s =~= seq![s[0]] + s.drop_first());
    Seq::filter_distributes_over_add(seq![s[0]], s.drop_first(), same_key(y));
    reveal_with_fuel(Seq::filter, 2);
    assert(seq![s[0]].drop_last() =~= Seq::<ManifestLintFinding>::empty());
}

/// Two sorted reports whose findings of every key come in the same order are
/// the same report.
proof fn lemma_sorted_stable_unique(first: Seq<ManifestLintFinding>, second: Seq<ManifestLintFinding>)
    requires
        forall|i: int, j: int| 0 <= i < j < first.len() ==> !reported_before(#[trigger] first[j], #[trigger] first[i]),
        forall|i: int, j: int| 0 <= i < j < second.len() ==> !reported_before(#[trigger] second[j], #[trigger] second[i]),
        forall|y: ManifestLintFinding| #[trigger] first.filter(same_key(y)) == second.filter(same_key(y)),
    ensures
        first == second,
    decreases first.len() + second.len(),
{
    broadcast use vstd::seq_lib::group_filter_ensures;
    if first.len() == 0 || second.len() == 0 {
        if first.len() > 0 {
            let y = first[0];
            lemma_filter_first(first, y);
            assert(first.filter(same_key(y)).len() > 0);
            assert(second.filter(same_key(y)).len() == 0);
        }
        if second.len() > 0 {
            let y = second[0];
            lemma_filter_first(second, y);
            assert(second.filter(same_key(y)).len() > 0);
            assert(first.filter(same_key(y)).len() == 0);
        }
        assert(first =~= second);
    } else {
        let a = first[0];
        let b = second[0];
        lemma_filter_first(first, a);
        lemma_filter_first(second, a);
        lemma_filter_first(first, b);
        lemma_filter_first(second, b);
        // The two first findings share their key.
        if !(same_key(b))(a) {
            lemma_reported_before_total(a, b);
            if reported_before(a, b) {
                // `a`'s key occurs in `second` after its first finding.
                let fa = second.filter(same_key(a));
                assert(fa.len() > 0);
                assert(fa.contains(fa[0]));
                second.lemma_filter_contains_rev(same_key(a), fa[0]);
                second.lemma_filter_pred(same_key(a), 0);
                assert(second.contains(fa[0]));
                let k = choose|k: int| 0 <= k < second.len() && second[k] == fa[0];
                assert((same_key(a))(second[k]));
                if k == 0 {
                    assert(!(same_key(a))(b));
                } else {
                    lemma_first_is_least(second, k);
                }
            } else {
                let fb = first.filter(same_key(b));
                assert(fb.len() > 0);
                assert(fb.contains(fb[0]));
                first.lemma_filter_contains_rev(same_key(b), fb[0]);
                first.lemma_filter_pred(same_key(b), 0);
                let k = choose|k: int| 0 <= k < first.len() && first[k] == fb[0];
                assert((same_key(b))(first[k]));
                if k == 0 {
                    lemma_reported_before_total(b, a);
                } else {
                    lemma_first_is_least(first, k);
                }
            }
        }
        assert(a == b);
        assert forall|y: ManifestLintFinding| #[trigger] first.drop_first().filter(same_key(y))
            == second.drop_first().filter(same_key(y)) by {
            lemma_filter_first(first, y);
            lemma_filter_first(second, y);
            if (same_key(y))(a) {
                assert(first.drop_first().filter(same_key(y)) =~= first.filter(same_key(y)).drop_first());
                assert(second.drop_first().filter(same_key(y)) =~= second.filter(same_key(y)).drop_first());
            } else {
                assert(first.drop_first().filter(same_key(y)) =~= first.filter(same_key(y)));
                assert(second.drop_first().filter(same_key(y)) =~= second.filter(same_key(y)));
            }
        }
        lemma_sorted_stable_unique(first.drop_first(), second.drop_first());
        assert(first =~= seq![a] + first.drop_first());
        assert(second =~= seq![b] + second.drop_first());
    }
}

/// The manifest lint's report is determined by the audits: any two reports
/// `audit_signature_platforms` may give for the same audits — sorted by
/// entry id and message, with the findings of each key in audit order — are
/// the same report.
pub proof fn law_lint_report_is_deterministic(
    audits: Seq<Vec<ManifestLintFinding>>,
    first: Seq<ManifestLintFinding>,
    second: Seq<ManifestLintFinding>,
)
    requires
        forall|i: int, j: int| 0 <= i < j < first.len() ==> !reported_before(#[trigger] first[j], #[trigger] first[i]),
        forall|i: int, j: int| 0 <= i < j < second.len() ==> !reported_before(#[trigger] second[j], #[trigger] second[i]),
        forall|y: ManifestLintFinding| #[trigger] first.filter(same_key(y)) == all_findings(audits).filter(same_key(y)),
        forall|y: ManifestLintFinding| #[trigger] second.filter(same_key(y)) == all_findings(audits).filter(same_key(y)),
    ensures
        first == second,
{
    assert forall|y: ManifestLintFinding| #[trigger] first.filter(same_key(y)) == second.filter(same_key(y)) by {
        assert(first.filter(same_key(y)) == all_findings(audits).filter(same_key(y)));
        assert(second.filter(same_key(y)) == all_findings(audits).filter(same_key(y)));
    }
    lemma_sorted_stable_unique(first, second);
}


/// A unit lies inside a container whenever the container's object is any of
/// its strict ancestors, at any depth, and the two are not one directory
/// entry: identity finds the grandparent as surely as the parent.
pub proof fn law_an_ancestor_at_any_depth_contains(
    candidate: crate::relationship::UnitFacts,
    container: crate::relationship::UnitFacts,
    depth: int,
)
    requires
        candidate.entity is Some,
        container.entity is Some,
        0 <= depth < candidate.ancestors@.len(),
        candidate.ancestors@[depth] == container.entity,
        !(candidate.entity == container.entity && crate::relationship::spec_same_directory_entry(candidate, container)),
    ensures
        crate::relationship::spec_filesystem_relationship(candidate, container) == Some(UnitRelationship::Contained),
{
}

/// A unit whose strict ancestors never include the container's object, and
/// which is not the container's entry, is distinct from it.
pub proof fn law_no_shared_ancestor_is_distinct(
    candidate: crate::relationship::UnitFacts,
    container: crate::relationship::UnitFacts,
)
    requires
        candidate.entity is Some,
        container.entity is Some,
        forall|i: int| 0 <= i < candidate.ancestors@.len() ==> candidate.ancestors@[i] != container.entity,
        !(candidate.entity == container.entity && crate::relationship::spec_same_directory_entry(candidate, container)),
    ensures
        crate::relationship::spec_filesystem_relationship(candidate, container) == Some(UnitRelationship::Distinct),
{
}

/// Containment is reflexive: a rooted exclusion applies to the location it
/// names itself, spelled with the same components, and not only to what lies
/// strictly below it.
pub proof fn law_a_rooted_exclusion_applies_at_its_own_location(exclusion: Seq<char>, path: Seq<char>, windows: bool)
    requires
        crate::exclusions::rooted(exclusion),
        crate::exclusions::components(crate::exclusions::compared(exclusion, windows)) == crate::exclusions::components(
            crate::exclusions::compared(path, windows),
        ),
    ensures
        crate::exclusions::exclusion_applies(exclusion, path, windows),
{
    let c = crate::exclusions::components(crate::exclusions::compared(exclusion, windows));
    assert forall|i: int| 0 <= i < c.len() implies crate::exclusions::same_name(c[i], c[i], windows) by {
    }
}

/// A rooted exclusion applies to every location below it: a path whose
/// components continue the exclusion's components is excluded, whatever the
/// continuation.
pub proof fn law_a_rooted_exclusion_applies_below_it(
    exclusion: Seq<char>,
    path: Seq<char>,
    windows: bool,
)
    requires
        crate::exclusions::rooted(exclusion),
        crate::exclusions::components(crate::exclusions::compared(exclusion, windows)).len()
            <= crate::exclusions::components(crate::exclusions::compared(path, windows)).len(),
        crate::exclusions::components(crate::exclusions::compared(exclusion, windows)) == crate::exclusions::components(
            crate::exclusions::compared(path, windows),
        ).take(crate::exclusions::components(crate::exclusions::compared(exclusion, windows)).len() as int),
    ensures
        crate::exclusions::exclusion_applies(exclusion, path, windows),
{
    let c = crate::exclusions::components(crate::exclusions::compared(exclusion, windows));
    let p = crate::exclusions::components(crate::exclusions::compared(path, windows));
    assert forall|i: int| 0 <= i < c.len() implies crate::exclusions::same_name(c[i], p[i], windows) by {
        assert(c[i] == p.take(c.len() as int)[i]);
    }
}

} // verus!
