//! The bounded store of one-shot cleanup plans.
//!
//! Plan capacity, expiry, oldest-first eviction, stale-plan refusal and
//! one-shot consumption live here, so no caller coordinates a plan's
//! lifecycle itself. A plan is known by the 128-bit value of its id.
use vstd::prelude::*;

verus! {

/// One stored plan.
pub struct StoredPlan<P> {
    pub id: u128,
    pub created_at: u64,
    pub plan: P,
}

/// The bounded store of one-shot plans.
pub struct PlanStore<P> {
    plans: Vec<StoredPlan<P>>,
    ttl_seconds: u64,
    capacity: usize,
}

/// A plan created at `created_at` is still usable at `now` under `ttl`.
pub open spec fn unexpired(created_at: u64, now: u64, ttl: u64) -> bool {
    (if now >= created_at { now - created_at } else { 0 }) < ttl
}

spec fn plans_map<P>(plans: Seq<StoredPlan<P>>) -> Map<u128, (u64, P)>
    decreases plans.len(),
{
    if plans.len() == 0 {
        Map::empty()
    } else {
        plans_map(plans.drop_last()).insert(plans.last().id, (plans.last().created_at, plans.last().plan))
    }
}

spec fn distinct_ids<P>(plans: Seq<StoredPlan<P>>) -> bool {
    forall|i: int, j: int| 0 <= i < plans.len() && 0 <= j < plans.len() && i != j ==> plans[i].id != plans[j].id
}

proof fn lemma_plans_map<P>(plans: Seq<StoredPlan<P>>)
    requires
        distinct_ids(plans),
    ensures
        forall|i: int|
            0 <= i < plans.len() ==> plans_map(plans).dom().contains((#[trigger] plans[i]).id) && plans_map(
                plans,
            )[plans[i].id] == (plans[i].created_at, plans[i].plan),
        forall|id: u128| #[trigger]
            plans_map(plans).dom().contains(id) ==> exists|i: int| 0 <= i < plans.len() && plans[i].id == id,
        plans_map(plans).dom().finite(),
        plans_map(plans).dom().len() == plans.len(),
    decreases plans.len(),
{
    if plans.len() > 0 {
        let rest = plans.drop_last();
        assert(distinct_ids(rest));
        lemma_plans_map(rest);
        let n = plans.len() - 1;
        assert forall|i: int| 0 <= i < plans.len() implies plans_map(plans).dom().contains(
            (#[trigger] plans[i]).id,
        ) && plans_map(plans)[plans[i].id] == (plans[i].created_at, plans[i].plan) by {
            if i < n {
                assert(rest[i] == plans[i]);
            }
        }
        assert forall|id: u128| #[trigger] plans_map(plans).dom().contains(id) implies exists|i: int|
            0 <= i < plans.len() && plans[i].id == id by {
            if id != plans[n].id {
                let i = choose|i: int| 0 <= i < rest.len() && rest[i].id == id;
                assert(plans[i] == rest[i]);
            }
        }
        assert(!plans_map(rest).dom().contains(plans[n].id)) by {
            if plans_map(rest).dom().contains(plans[n].id) {
                let i = choose|i: int| 0 <= i < rest.len() && rest[i].id == plans[n].id;
                assert(plans[i] == rest[i]);
            }
        }
    }
}

/// The entries of `m` still usable at `now`.
pub open spec fn purged<P>(m: Map<u128, (u64, P)>, now: u64, ttl: u64) -> Map<u128, (u64, P)> {
    m.restrict(m.dom().filter(|id: u128| unexpired(m[id].0, now, ttl)))
}

/// `id` holds the oldest entry of `m`.
pub open spec fn is_oldest<P>(m: Map<u128, (u64, P)>, id: u128) -> bool {
    m.dom().contains(id) && forall|k: u128| #[trigger] m.dom().contains(k) ==> m[id].0 <= m[k].0
}

impl<P> PlanStore<P> {
    /// The default lifetime of a plan, in seconds.
    pub const DEFAULT_TTL_SECONDS: u64 = 300;

    /// The default number of plans kept.
    pub const DEFAULT_CAPACITY: usize = 64;

    /// The stored plans by id, with when each was created.
    pub closed spec fn view_map(&self) -> Map<u128, (u64, P)> {
        plans_map(self.plans@)
    }

    /// The store's invariant: one plan per id.
    pub closed spec fn wf(&self) -> bool {
        distinct_ids(self.plans@)
    }

    /// The lifetime of a plan, in seconds.
    pub closed spec fn ttl(&self) -> u64 {
        self.ttl_seconds
    }

    /// How many plans are kept.
    pub closed spec fn limit(&self) -> usize {
        self.capacity
    }

    /// A store with the default lifetime and capacity.
    pub fn new() -> (r: Self)
        ensures
            r.wf(),
            r.view_map() == Map::<u128, (u64, P)>::empty(),
            r.ttl() == Self::DEFAULT_TTL_SECONDS,
            r.limit() == Self::DEFAULT_CAPACITY,
    {
        Self::with_ttl_and_capacity(Self::DEFAULT_TTL_SECONDS, Self::DEFAULT_CAPACITY)
    }

    /// A store with the given lifetime and capacity.
    pub fn with_ttl_and_capacity(ttl_seconds: u64, capacity: usize) -> (r: Self)
        ensures
            r.wf(),
            r.view_map() == Map::<u128, (u64, P)>::empty(),
            r.ttl() == ttl_seconds,
            r.limit() == capacity,
    {
        PlanStore { plans: Vec::new(), ttl_seconds, capacity }
    }

    /// The lifetime of a plan, in seconds.
    pub fn ttl_seconds(&self) -> (r: u64)
        ensures
            r == self.ttl(),
    {
        self.ttl_seconds
    }

    /// How many plans are stored, including expired ones not yet purged.
    pub fn len(&self) -> (r: usize)
        requires
            self.wf(),
        ensures
            r == self.view_map().dom().len(),
    {
        proof {
            lemma_plans_map(self.plans@);
        }
        self.plans.len()
    }

    /// Whether no plan is stored.
    pub fn is_empty(&self) -> (r: bool)
        requires
            self.wf(),
        ensures
            r == (self.view_map().dom().len() == 0),
    {
        self.len() == 0
    }

    /// Removes every plan that expired by `now`.
    pub fn purge_expired(&mut self, now: u64)
        requires
            old(self).wf(),
        ensures
            final(self).wf(),
            final(self).view_map() == purged(old(self).view_map(), now, old(self).ttl()),
            final(self).ttl() == old(self).ttl(),
            final(self).limit() == old(self).limit(),
    {
        let ghost before = self.plans@;
        proof {
            lemma_plans_map(before);
        }
        let mut kept: Vec<StoredPlan<P>> = Vec::new();
        let mut rest: Vec<StoredPlan<P>> = Vec::new();
        std::mem::swap(&mut rest, &mut self.plans);
        let mut k: usize = 0;
        let total = rest.len();
        while rest.len() > 0
            invariant
                before.len() == total,
                k + rest@.len() == before.len(),
                rest@ == before.skip(k as int),
                distinct_ids(before),
                distinct_ids(kept@),
                forall|i: int| 0 <= i < kept@.len() ==> exists|j: int| 0 <= j < k && before[j] == #[trigger] kept@[i],
                forall|i: int| 0 <= i < kept@.len() ==> unexpired((#[trigger] kept@[i]).created_at, now, self.ttl_seconds),
                forall|j: int| 0 <= j < k && unexpired(before[j].created_at, now, self.ttl_seconds) ==> exists|i: int|
                    0 <= i < kept@.len() && #[trigger] kept@[i] == before[j],
                self.ttl_seconds == old(self).ttl_seconds,
                self.capacity == old(self).capacity,
                before == old(self).plans@,
            decreases rest@.len(),
        {
            let entry = rest.remove(0);
            proof {
                assert(before.skip(k as int)[0] == before[k as int]);
                assert(before.skip(k as int).remove(0) =~= before.skip(k + 1));
            }
            if now.saturating_sub(entry.created_at) < self.ttl_seconds {
                let ghost prior = kept@;
                proof {
                    assert forall|i: int| 0 <= i < prior.len() implies prior[i].id != entry.id by {
                        let j = choose|j: int| 0 <= j < k && before[j] == prior[i];
                        assert(j != k);
                    }
                }
                kept.push(entry);
                proof {
                    assert forall|i: int| 0 <= i < kept@.len() implies exists|j: int|
                        0 <= j < k + 1 && before[j] == #[trigger] kept@[i] by {
                        if i < prior.len() {
                            assert(kept@[i] == prior[i]);
                        } else {
                            assert(kept@[i] == before[k as int]);
                        }
                    }
                    assert forall|j: int| 0 <= j < k + 1 && unexpired(before[j].created_at, now, self.ttl_seconds) implies exists|i: int|
                        0 <= i < kept@.len() && #[trigger] kept@[i] == before[j] by {
                        if j < k {
                            let i = choose|i: int| 0 <= i < prior.len() && prior[i] == before[j];
                            assert(kept@[i] == prior[i]);
                        } else {
                            assert(kept@[prior.len() as int] == before[j]);
                        }
                    }
                }
            }
            k = k + 1;
        }
        self.plans = kept;
        proof {
            lemma_plans_map(self.plans@);
            let m = plans_map(before);
            let expected = purged(m, now, self.ttl_seconds);
            let actual = plans_map(self.plans@);
            assert forall|id: u128| #[trigger] actual.dom().contains(id) <==> expected.dom().contains(id) by {
                if actual.dom().contains(id) {
                    let i = choose|i: int| 0 <= i < self.plans@.len() && self.plans@[i].id == id;
                    let j = choose|j: int| 0 <= j < before.len() && before[j] == self.plans@[i];
                }
                if expected.dom().contains(id) {
                    let j = choose|j: int| 0 <= j < before.len() && before[j].id == id;
                    let i = choose|i: int| 0 <= i < self.plans@.len() && self.plans@[i] == before[j];
                }
            }
            assert forall|id: u128| #[trigger] actual.dom().contains(id) implies actual[id] == expected[id] by {
                let i = choose|i: int| 0 <= i < self.plans@.len() && self.plans@[i].id == id;
                let j = choose|j: int| 0 <= j < before.len() && before[j] == self.plans@[i];
            }
            assert(actual =~= expected);
        }
    }

    /// Takes a plan for one-shot execution: it is removed whether or not it
    /// is still usable, so it can never be replayed. Refused when the id is
    /// unknown (or already used) and when the plan expired.
    pub fn take_valid(&mut self, plan_id: u128, now: u64) -> (r: Result<P, String>)
        requires
            old(self).wf(),
        ensures
            final(self).wf(),
            final(self).view_map() == old(self).view_map().remove(plan_id),
            final(self).ttl() == old(self).ttl(),
            final(self).limit() == old(self).limit(),
            r is Ok <==> old(self).view_map().dom().contains(plan_id) && unexpired(
                old(self).view_map()[plan_id].0,
                now,
                old(self).ttl(),
            ),
            r is Ok ==> r->Ok_0 == old(self).view_map()[plan_id].1,
            r matches Err(message) ==> message@ == if old(self).view_map().dom().contains(plan_id) {
                "Delete plan expired. Scan again before cleaning."@
            } else {
                "Delete plan not found or already used"@
            },
    {
        let ghost before = self.plans@;
        proof {
            lemma_plans_map(before);
        }
        let mut i: usize = 0;
        while i < self.plans.len()
            invariant
                self.plans@ == before,
                before == old(self).plans@,
                self.ttl_seconds == old(self).ttl_seconds,
                self.capacity == old(self).capacity,
                distinct_ids(before),
                i <= before.len(),
                forall|j: int| 0 <= j < i ==> (#[trigger] before[j]).id != plan_id,
            decreases before.len() - i,
        {
            if self.plans[i].id == plan_id {
                let stored = self.plans.remove(i);
                proof {
                    let after = self.plans@;
                    assert(after == before.remove(i as int));
                    assert(distinct_ids(after)) by {
                        assert forall|a: int, b: int| 0 <= a < after.len() && 0 <= b < after.len() && a != b implies after[a].id != after[b].id by {
                            let a2 = if a < i { a } else { a + 1 };
                            let b2 = if b < i { b } else { b + 1 };
                            assert(after[a] == before[a2] && after[b] == before[b2]);
                        }
                    }
                    lemma_plans_map(after);
                    lemma_plans_map(before);
                    assert(before[i as int].id == plan_id);
                    let m = plans_map(before).remove(plan_id);
                    assert forall|id: u128| #[trigger] plans_map(after).dom().contains(id) <==> m.dom().contains(id) by {
                        if plans_map(after).dom().contains(id) {
                            let a = choose|a: int| 0 <= a < after.len() && after[a].id == id;
                            let a2 = if a < i { a } else { a + 1 };
                            assert(after[a] == before[a2]);
                        }
                        if m.dom().contains(id) {
                            let b = choose|b: int| 0 <= b < before.len() && before[b].id == id;
                            let b2 = if b < i { b } else { b - 1 };
                            assert(after[b2] == before[b]);
                        }
                    }
                    assert forall|id: u128| #[trigger] plans_map(after).dom().contains(id) implies plans_map(after)[id] == m[id] by {
                        let a = choose|a: int| 0 <= a < after.len() && after[a].id == id;
                        let a2 = if a < i { a } else { a + 1 };
                        assert(after[a] == before[a2]);
                    }
                    assert(plans_map(after) =~= m);
                }
                if now.saturating_sub(stored.created_at) >= self.ttl_seconds {
                    let message = String::from_str("Delete plan expired. Scan again before cleaning.");
                    proof {
                        reveal_strlit("Delete plan expired. Scan again before cleaning.");
                    }
                    return Err(message);
                }
                return Ok(stored.plan);
            }
            i = i + 1;
        }
        proof {
            if plans_map(before).dom().contains(plan_id) {
                let j = choose|j: int| 0 <= j < before.len() && before[j].id == plan_id;
            }
            assert(plans_map(before).remove(plan_id) =~= plans_map(before));
            reveal_strlit("Delete plan not found or already used");
        }
        Err(String::from_str("Delete plan not found or already used"))
    }

    /// Inserts a newly generated plan: expired plans are purged first; a
    /// store still at capacity evicts one of its oldest plans; a plan with
    /// the same id is replaced.
    pub fn insert(&mut self, id: u128, created_at: u64, plan: P, now: u64) -> (r: Result<(), String>)
        requires
            old(self).wf(),
        ensures
            r is Ok,
            final(self).wf(),
            final(self).ttl() == old(self).ttl(),
            final(self).limit() == old(self).limit(),
            ({
                let live = purged(old(self).view_map(), now, old(self).ttl());
                if live.dom().len() >= old(self).limit() && live.dom().len() > 0 {
                    exists|evicted: u128|
                        is_oldest(live, evicted) && final(self).view_map() == live.remove(evicted).insert(
                            id,
                            (created_at, plan),
                        )
                } else {
                    final(self).view_map() == live.insert(id, (created_at, plan))
                }
            }),
    {
        self.purge_expired(now);
        let ghost live = self.view_map();
        proof {
            lemma_plans_map(self.plans@);
        }
        if self.plans.len() >= self.capacity && self.plans.len() > 0 {
            let mut oldest: usize = 0;
            let mut j: usize = 1;
            while j < self.plans.len()
                invariant
                    self.plans@.len() > 0,
                    oldest < self.plans@.len(),
                    1 <= j <= self.plans@.len(),
                    forall|k: int| 0 <= k < j ==> self.plans@[oldest as int].created_at <= (#[trigger] self.plans@[k]).created_at,
                decreases self.plans@.len() - j,
            {
                if self.plans[j].created_at < self.plans[oldest].created_at {
                    oldest = j;
                }
                j = j + 1;
            }
            let ghost evicted = self.plans@[oldest as int].id;
            proof {
                lemma_plans_map(self.plans@);
                assert forall|k: u128| #[trigger] live.dom().contains(k) implies live[evicted].0 <= live[k].0 by {
                    let a = choose|a: int| 0 <= a < self.plans@.len() && self.plans@[a].id == k;
                }
            }
            let _ = self.take_valid(evicted_id(&self.plans[oldest]), now);
            self.put(id, created_at, plan);
            proof {
                assert(is_oldest(live, evicted));
            }
        } else {
            self.put(id, created_at, plan);
        }
        Ok(())
    }

    /// Stores a plan, replacing one with the same id.
    fn put(&mut self, id: u128, created_at: u64, plan: P)
        requires
            old(self).wf(),
        ensures
            final(self).wf(),
            final(self).view_map() == old(self).view_map().insert(id, (created_at, plan)),
            final(self).ttl() == old(self).ttl(),
            final(self).limit() == old(self).limit(),
    {
        let _ = self.take_valid(id, 0);
        let ghost before = self.plans@;
        proof {
            lemma_plans_map(before);
            assert(!plans_map(before).dom().contains(id));
        }
        self.plans.push(StoredPlan { id, created_at, plan });
        proof {
            let after = self.plans@;
            assert(after.drop_last() =~= before);
            assert(distinct_ids(after)) by {
                assert forall|a: int, b: int| 0 <= a < after.len() && 0 <= b < after.len() && a != b implies after[a].id != after[b].id by {
                    if a < before.len() && b < before.len() {
                        assert(after[a] == before[a] && after[b] == before[b]);
                    } else if a < before.len() {
                        assert(after[a] == before[a]);
                        assert(plans_map(before).dom().contains(before[a].id));
                    } else {
                        assert(after[b] == before[b]);
                        assert(plans_map(before).dom().contains(before[b].id));
                    }
                }
            }
            assert(plans_map(after) =~= plans_map(before).insert(id, (created_at, plan)));
        }
    }
}

fn evicted_id<P>(stored: &StoredPlan<P>) -> (r: u128)
    ensures
        r == stored.id,
{
    stored.id
}

} // verus!
