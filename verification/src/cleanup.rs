//! Which scanned items a one-click cleanup may take without confirmation.
use vstd::prelude::*;
use crate::models::{CleanStrategy, CleanupEligibility, ObservationQuality};
use crate::text::{append_text, chars_of, string_of};
use crate::scan_types::{CategoryResult, ScanItem, ScanResult};
use crate::settings::ZenithSettings;

verus! {

/// An item Quick Clean may take: its disposition is the one its facts
/// derive, it is auto-cleanable, and it gives back bytes.
pub open spec fn quick_clean_eligible(item: ScanItem) -> bool {
    &&& item.spec_has_current_disposition()
    &&& item.disposition.eligibility == CleanupEligibility::AutoCleanable
    &&& item.spec_cleanable_bytes() > 0
}

/// The ids of the eligible items of a list, in order.
pub open spec fn eligible_ids(items: Seq<ScanItem>) -> Seq<Seq<char>>
    decreases items.len(),
{
    if items.len() == 0 {
        Seq::empty()
    } else if quick_clean_eligible(items.last()) {
        eligible_ids(items.drop_last()).push(items.last().id@)
    } else {
        eligible_ids(items.drop_last())
    }
}

/// The ids Quick Clean takes from a scan: the eligible items of every
/// category the settings enable, category by category, in order.
pub open spec fn quick_clean_ids(categories: Seq<CategoryResult>, settings: ZenithSettings) -> Seq<Seq<char>>
    decreases categories.len(),
{
    if categories.len() == 0 {
        Seq::empty()
    } else if settings.spec_category_enabled(categories.last().category) {
        quick_clean_ids(categories.drop_last(), settings) + eligible_ids(categories.last().items@)
    } else {
        quick_clean_ids(categories.drop_last(), settings)
    }
}

/// The ids of a list of strings.
pub open spec fn ids_of(ids: Seq<String>) -> Seq<Seq<char>> {
    ids.map_values(|s: String| s@)
}

fn push_eligible(out: &mut Vec<String>, items: &Vec<ScanItem>)
    ensures
        ids_of(final(out)@) == ids_of(old(out)@) + eligible_ids(items@),
{
    let ghost start = ids_of(out@);
    let mut i: usize = 0;
    assert(ids_of(out@) =~= start + eligible_ids(items@.take(0)));
    while i < items.len()
        invariant
            i <= items@.len(),
            start == ids_of(old(out)@),
            ids_of(out@) == start + eligible_ids(items@.take(i as int)),
        decreases items@.len() - i,
    {
        let item = &items[i];
        proof {
            assert(items@.take(i + 1).drop_last() =~= items@.take(i as int));
            assert(items@.take(i + 1).last() == items@[i as int]);
        }
        if item.has_current_disposition() && matches!(
            item.disposition.eligibility,
            CleanupEligibility::AutoCleanable
        ) && item.cleanable_bytes() > 0 {
            let ghost prior = out@;
            out.push(item.id.clone());
            proof {
                assert(ids_of(out@) =~= ids_of(prior).push(item.id@));
            }
        }
        i = i + 1;
    }
    assert(items@.take(items@.len() as int) =~= items@);
}

/// The ids of the items Quick Clean may take without confirmation: in a category
/// the settings enable, with the disposition its facts derive,
/// auto-cleanable, and giving back bytes. Rebuild, manual, blocked and
/// advisory items are never among them.
pub fn select_quick_clean_safe_candidates(scan: &ScanResult, settings: &ZenithSettings) -> (r: Vec<String>)
    ensures
        ids_of(r@) == quick_clean_ids(scan.categories@, *settings),
{
    let mut eligible: Vec<String> = Vec::new();
    let mut c: usize = 0;
    assert(ids_of(eligible@) =~= quick_clean_ids(scan.categories@.take(0), *settings));
    while c < scan.categories.len()
        invariant
            c <= scan.categories@.len(),
            ids_of(eligible@) == quick_clean_ids(scan.categories@.take(c as int), *settings),
        decreases scan.categories@.len() - c,
    {
        let category = &scan.categories[c];
        proof {
            assert(scan.categories@.take(c + 1).drop_last() =~= scan.categories@.take(c as int));
            assert(scan.categories@.take(c + 1).last() == scan.categories@[c as int]);
        }
        if settings.is_category_clean_enabled(category.category) {
            push_eligible(&mut eligible, &category.items);
        }
        c = c + 1;
    }
    assert(scan.categories@.take(scan.categories@.len() as int) =~= scan.categories@);
    eligible
}

/// What a cleanup asks for.
pub enum CleanupIntent {
    /// Execute a plan the user reviewed; `confirmed` says whether they
    /// confirmed the actions that need it.
    ReviewedSelection { confirmed: bool },
    /// Clean the eligible items of the current scan without a per-item
    /// review.
    QuickSafe,
}

/// The refusal of a reviewed plan that needs a confirmation it lacks.
pub open spec fn confirmation_refusal() -> Seq<char> {
    "This cleanup includes an action that requires explicit confirmation. Review the plan and confirm it before cleaning."@
}

/// The refusal when no scan is current.
pub open spec fn stale_refusal() -> Seq<char> {
    "The scan is no longer current. Scan again before cleaning."@
}

/// The refusal of Quick Clean on a scan that may have missed items.
pub open spec fn incomplete_refusal() -> Seq<char> {
    "Quick Clean needs a complete scan. Scan again before cleaning."@
}

/// Whether a cleanup intent may proceed at `now`, and which ids Quick Clean
/// takes.
///
/// A reviewed plan that needs a confirmation it lacks is refused; otherwise
/// it proceeds with its own targets and nothing is selected here. Quick
/// Clean deletes without a per-item review, so it needs a current scan that
/// is still valid and observed everything (`Fresh`): a partial scan cannot
/// prove the machine's state. It then takes the ids
/// `select_quick_clean_safe_candidates` selects; when there are none, the
/// cleanup is empty.
pub fn decide_intent(
    intent: &CleanupIntent,
    plan_requires_confirmation: bool,
    scan: Option<&ScanResult>,
    settings: &ZenithSettings,
    now: u64,
) -> (r: Result<Vec<String>, String>)
    ensures
        match *intent {
            CleanupIntent::ReviewedSelection { confirmed } => if plan_requires_confirmation && !confirmed {
                r matches Err(m) && m@ == confirmation_refusal()
            } else {
                r matches Ok(ids) && ids@.len() == 0
            },
            CleanupIntent::QuickSafe => match scan {
                None => r matches Err(m) && m@ == stale_refusal(),
                Some(s) => if !s@.valid_for_cleanup(s.scan_id@, now) {
                    r matches Err(m) && m@ == "The scan has expired. Scan again before cleaning."@
                } else if s.quality != ObservationQuality::Fresh {
                    r matches Err(m) && m@ == incomplete_refusal()
                } else {
                    r matches Ok(ids) && ids_of(ids@) == quick_clean_ids(s.categories@, *settings)
                },
            },
        },
{
    match intent {
        CleanupIntent::ReviewedSelection { confirmed } => {
            if plan_requires_confirmation && !*confirmed {
                proof {
                    reveal_strlit(
                        "This cleanup includes an action that requires explicit confirmation. Review the plan and confirm it before cleaning.",
                    );
                }
                return Err(
                    String::from_str(
                        "This cleanup includes an action that requires explicit confirmation. Review the plan and confirm it before cleaning.",
                    ),
                );
            }
            Ok(Vec::new())
        },
        CleanupIntent::QuickSafe => {
            let scan = match scan {
                Some(scan) => scan,
                None => {
                    proof {
                        reveal_strlit("The scan is no longer current. Scan again before cleaning.");
                    }
                    return Err(String::from_str("The scan is no longer current. Scan again before cleaning."));
                },
            };
            match scan.validate_for_cleanup(&scan.scan_id, now) {
                Ok(()) => {},
                Err(message) => return Err(message),
            }
            if scan.quality != ObservationQuality::Fresh {
                proof {
                    reveal_strlit("Quick Clean needs a complete scan. Scan again before cleaning.");
                }
                return Err(String::from_str("Quick Clean needs a complete scan. Scan again before cleaning."));
            }
            Ok(select_quick_clean_safe_candidates(scan, settings))
        },
    }
}


/// The refusal of a Quick Clean plan that holds an action needing
/// confirmation.
pub open spec fn quick_confirmation_refusal() -> Seq<char> {
    "Quick Clean cannot execute actions that require explicit confirmation."@
}

/// The refusal of a plan that only projects what a cleanup would do.
pub open spec fn projection_refusal(mode_name: Seq<char>) -> Seq<char> {
    "This plan is "@ + mode_name + " and cannot be executed"@
}

/// Some target of the plan is cleaned by a Docker prune.
pub open spec fn prunes_docker(strategies: Seq<CleanStrategy>) -> bool {
    exists|i: int| 0 <= i < strategies.len() && strategies[i] == CleanStrategy::DockerPrune
}

/// Whether the plan a cleanup built may be executed, and whether executing it
/// drops the shared Docker observation. `plan_is_mutating` says whether the
/// plan authorizes a mutation, and `mode_name` how its mode reads;
/// `target_strategies` are the strategies of its targets.
///
/// Quick Clean never executes a plan that holds an action needing
/// confirmation. A plan that only projects what a cleanup would do is never
/// executed. Otherwise the plan runs, and a Docker prune among its targets
/// may change the runtime's state, so the shared observation is dropped
/// rather than reported stale.
pub fn admit_plan(
    intent: &CleanupIntent,
    plan_requires_confirmation: bool,
    plan_is_mutating: bool,
    mode_name: &str,
    target_strategies: &[CleanStrategy],
) -> (r: Result<bool, String>)
    ensures
        (*intent is QuickSafe && plan_requires_confirmation) ==> (r matches Err(m) && m@ == quick_confirmation_refusal()),
        !(*intent is QuickSafe && plan_requires_confirmation) && !plan_is_mutating ==> (r matches Err(m) && m@
            == projection_refusal(mode_name@)),
        !(*intent is QuickSafe && plan_requires_confirmation) && plan_is_mutating ==> (r matches Ok(invalidate)
            && invalidate == prunes_docker(target_strategies@)),
{
    if matches!(intent, CleanupIntent::QuickSafe) && plan_requires_confirmation {
        proof {
            reveal_strlit("Quick Clean cannot execute actions that require explicit confirmation.");
        }
        return Err(String::from_str("Quick Clean cannot execute actions that require explicit confirmation."));
    }
    if !plan_is_mutating {
        let mut v = chars_of("This plan is ");
        append_text(&mut v, mode_name);
        append_text(&mut v, " and cannot be executed");
        proof {
            reveal_strlit("This plan is ");
            reveal_strlit(" and cannot be executed");
        }
        return Err(string_of(v.as_slice()));
    }
    let mut i: usize = 0;
    while i < target_strategies.len()
        invariant
            i <= target_strategies@.len(),
            !(*intent is QuickSafe && plan_requires_confirmation),
            plan_is_mutating,
            forall|j: int| 0 <= j < i ==> target_strategies@[j] != CleanStrategy::DockerPrune,
        decreases target_strategies@.len() - i,
    {
        if target_strategies[i] == CleanStrategy::DockerPrune {
            return Ok(true);
        }
        i = i + 1;
    }
    Ok(false)
}

} // verus!
