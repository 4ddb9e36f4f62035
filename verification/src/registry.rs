//! The catalog of signatures, keyed by id.
//!
//! The registry stores nothing environment-dependent: which platform a scan
//! runs on, and which scope it runs in, are parameters of a lookup. Lookups
//! that a scan iterates are ordered deterministically, so which of two
//! signatures describing one location wins never depends on storage order.
use vstd::prelude::*;
use crate::models::{Category, CleanerFamily, PlatformKind, RiskTier};
use crate::signature::Signature;
use crate::text::{append_text, chars_of, equal_text, seq_lt, str_less, string_of, lemma_seq_lt_transitive, lemma_seq_lt_total};
use crate::loader::{names_platform, platforms_in_order, undeclared, undeclared_platforms};

verus! {

/// The catalog of signatures.
pub struct SignatureRegistry {
    signatures: Vec<Signature>,
}

spec fn by_id(entries: Seq<Signature>) -> Map<Seq<char>, Signature>
    decreases entries.len(),
{
    if entries.len() == 0 {
        Map::empty()
    } else {
        by_id(entries.drop_last()).insert(entries.last().id@, entries.last())
    }
}

spec fn unique_ids(entries: Seq<Signature>) -> bool {
    forall|i: int, j: int|
        0 <= i < entries.len() && 0 <= j < entries.len() && i != j ==> entries[i].id@ != entries[j].id@
}

proof fn lemma_by_id(entries: Seq<Signature>)
    requires
        unique_ids(entries),
    ensures
        forall|i: int|
            0 <= i < entries.len() ==> by_id(entries).dom().contains((#[trigger] entries[i]).id@)
                && by_id(entries)[entries[i].id@] == entries[i],
        forall|id: Seq<char>|
            #[trigger] by_id(entries).dom().contains(id) ==> exists|i: int|
                0 <= i < entries.len() && entries[i].id@ == id,
    decreases entries.len(),
{
    if entries.len() > 0 {
        let rest = entries.drop_last();
        assert(unique_ids(rest));
        lemma_by_id(rest);
        let n = entries.len() - 1;
        assert forall|i: int| 0 <= i < entries.len() implies by_id(entries).dom().contains(
            (#[trigger] entries[i]).id@) && by_id(entries)[entries[i].id@] == entries[i] by {
            if i < n {
                assert(rest[i] == entries[i]);
                assert(entries[i].id@ != entries[n].id@);
            }
        }
        assert forall|id: Seq<char>| #[trigger] by_id(entries).dom().contains(id) implies exists|i: int|
            0 <= i < entries.len() && entries[i].id@ == id by {
            if id != entries[n].id@ {
                assert(by_id(rest).dom().contains(id));
                let i = choose|i: int| 0 <= i < rest.len() && rest[i].id@ == id;
                assert(entries[i] == rest[i]);
            } else {
                assert(entries[n].id@ == id);
            }
        }
    }
}

/// Whether `a` is visited before `b` by a discovery: higher priority first,
/// then smaller id.
pub open spec fn discovery_order(a: Signature, b: Signature) -> bool {
    a.priority > b.priority || (a.priority == b.priority && seq_lt(a.id@, b.id@))
}

/// Whether `a` comes before `b` in id order.
pub open spec fn id_order(a: Signature, b: Signature) -> bool {
    seq_lt(a.id@, b.id@)
}

/// The order a listing is sorted by.
pub open spec fn listing_order(by_priority: bool, a: Signature, b: Signature) -> bool {
    if by_priority {
        discovery_order(a, b)
    } else {
        id_order(a, b)
    }
}

proof fn lemma_listing_order_transitive(by_priority: bool, a: Signature, b: Signature, c: Signature)
    requires
        listing_order(by_priority, a, b),
        listing_order(by_priority, b, c),
    ensures
        listing_order(by_priority, a, c),
{
    if by_priority {
        if a.priority == b.priority && b.priority == c.priority {
            lemma_seq_lt_transitive(a.id@, b.id@, c.id@);
        }
    } else {
        lemma_seq_lt_transitive(a.id@, b.id@, c.id@);
    }
}

proof fn lemma_listing_order_total(by_priority: bool, a: Signature, b: Signature)
    requires
        a.id@ != b.id@,
    ensures
        listing_order(by_priority, a, b) || listing_order(by_priority, b, a),
{
    lemma_seq_lt_total(a.id@, b.id@);
}

/// A listing of the catalog: exactly the signatures that satisfy `pred`, each
/// once, as stored.
pub open spec fn lists_exactly(
    listing: Seq<&Signature>,
    catalog: Map<Seq<char>, Signature>,
    pred: spec_fn(Signature) -> bool,
) -> bool {
    &&& forall|i: int|
        0 <= i < listing.len() ==> catalog.dom().contains((#[trigger] listing[i]).id@)
            && catalog[listing[i].id@] == *listing[i] && pred(*listing[i])
    &&& forall|id: Seq<char>|
        catalog.dom().contains(id) && pred(catalog[id]) ==> exists|i: int|
            0 <= i < listing.len() && (#[trigger] listing[i]).id@ == id
    &&& forall|i: int, j: int|
        0 <= i < listing.len() && 0 <= j < listing.len() && i != j ==> listing[i].id@ != listing[j].id@
}

/// A listing is sorted by `listing_order`.
pub open spec fn sorted_by(by_priority: bool, listing: Seq<&Signature>) -> bool {
    forall|i: int, j: int|
        0 <= i < j < listing.len() ==> listing_order(by_priority, *listing[i], *listing[j])
}

/// Inserts `s` into a sorted listing at its place.
fn insert_sorted<'a>(listing: &mut Vec<&'a Signature>, s: &'a Signature, by_priority: bool)
    requires
        sorted_by(by_priority, old(listing)@),
        forall|i: int| 0 <= i < old(listing)@.len() ==> (#[trigger] old(listing)@[i]).id@ != s.id@,
    ensures
        sorted_by(by_priority, final(listing)@),
        final(listing)@.len() == old(listing)@.len() + 1,
        exists|p: int| 0 <= p <= old(listing)@.len() && final(listing)@ == old(listing)@.insert(p, s),
{
    let mut pos: usize = 0;
    while pos < listing.len()
        invariant
            listing@ == old(listing)@,
            pos <= listing@.len(),
            forall|i: int| 0 <= i < pos ==> listing_order(by_priority, *(#[trigger] listing@[i]), *s),
            forall|i: int| 0 <= i < old(listing)@.len() ==> (#[trigger] old(listing)@[i]).id@ != s.id@,
        ensures
            pos <= listing@.len(),
            listing@ == old(listing)@,
            forall|i: int| 0 <= i < pos ==> listing_order(by_priority, *(#[trigger] listing@[i]), *s),
            pos == listing@.len() || listing_order(by_priority, *s, *listing@[pos as int]),
        decreases listing@.len() - pos,
    {
        let current = listing[pos];
        let before = if by_priority {
            s.priority > current.priority || (s.priority == current.priority && str_less(
                s.id.as_str(),
                current.id.as_str(),
            ))
        } else {
            str_less(s.id.as_str(), current.id.as_str())
        };
        if before {
            break;
        }
        proof {
            assert(listing@[pos as int].id@ != s.id@);
            lemma_listing_order_total(by_priority, *s, *current);
        }
        pos = pos + 1;
    }
    let ghost prior = listing@;
    proof {
        if pos < prior.len() {
            assert(listing_order(by_priority, *s, *prior[pos as int]));
        }
    }
    listing.insert(pos, s);
    proof {
        let after = listing@;
        assert forall|i: int, j: int| 0 <= i < j < after.len() implies listing_order(by_priority, *after[i], *after[j]) by {
            if j < pos {
                assert(after[i] == prior[i] && after[j] == prior[j]);
            } else if j == pos {
                assert(after[i] == prior[i]);
            } else if i == pos {
                assert(after[j] == prior[j - 1]);
                if j - 1 > pos {
                    assert(listing_order(by_priority, *prior[pos as int], *prior[j - 1]));
                    lemma_listing_order_transitive(by_priority, *s, *prior[pos as int], *prior[j - 1]);
                }
            } else if i < pos {
                assert(after[i] == prior[i]);
                assert(after[j] == prior[j - 1]);
            } else {
                assert(after[i] == prior[i - 1]);
                assert(after[j] == prior[j - 1]);
            }
        }
        assert(after =~= prior.insert(pos as int, s));
    }
}

/// Which signatures a listing selects.
pub enum Selection {
    All,
    InCategory(Category),
    WithRisk(RiskTier),
    InFamily(CleanerFamily),
    /// What a scan of one category discovers in a scope, on a platform.
    Discovered { category: Category, intensive_cleanup: bool, platform: PlatformKind },
}

/// Whether a selection selects a signature.
pub open spec fn selects(selection: Selection, s: Signature) -> bool {
    match selection {
        Selection::All => true,
        Selection::InCategory(c) => s.category == c,
        Selection::WithRisk(r) => s.risk == r,
        Selection::InFamily(f) => s.family == f,
        Selection::Discovered { category, intensive_cleanup, platform } => s.category == category
            && s.spec_supports_platform(platform) && s.spec_discovery_allows(intensive_cleanup),
    }
}

fn selection_holds(selection: &Selection, s: &Signature) -> (r: bool)
    ensures
        r == selects(*selection, *s),
{
    match selection {
        Selection::All => true,
        Selection::InCategory(c) => s.category == *c,
        Selection::WithRisk(r) => s.risk == *r,
        Selection::InFamily(f) => s.family == *f,
        Selection::Discovered { category, intensive_cleanup, platform } => s.category == *category
            && s.supports_platform(*platform) && s.discovery_allows(*intensive_cleanup),
    }
}

/// Every entry of `out` is one of the first `n` of `sigs`, selected.
#[verifier::opaque]
spec fn listed_from(out: Seq<&Signature>, sigs: Seq<Signature>, n: int, selection: Selection) -> bool {
    forall|k: int| 0 <= k < out.len() ==> selects(selection, *(#[trigger] out[k])) && exists|j: int|
        0 <= j < n && *out[k] == sigs[j]
}

/// Every selected entry among the first `n` of `sigs` has its id in `out`.
#[verifier::opaque]
spec fn listed_covers(out: Seq<&Signature>, sigs: Seq<Signature>, n: int, selection: Selection) -> bool {
    forall|j: int| 0 <= j < n && selects(selection, #[trigger] sigs[j]) ==> exists|k: int|
        0 <= k < out.len() && (#[trigger] out[k]).id@ == sigs[j].id@
}

/// No id occurs twice in `out`.
#[verifier::opaque]
spec fn listed_distinct(out: Seq<&Signature>) -> bool {
    forall|a: int, b: int|
        0 <= a < out.len() && 0 <= b < out.len() && a != b ==> out[a].id@ != out[b].id@
}

/// `out` lists, each once, exactly the entries among the first `n` of
/// `sigs` that `selection` selects.
spec fn listed_upto(out: Seq<&Signature>, sigs: Seq<Signature>, n: int, selection: Selection) -> bool {
    &&& listed_from(out, sigs, n, selection)
    &&& listed_covers(out, sigs, n, selection)
    &&& listed_distinct(out)
}

proof fn lemma_listed_fresh(out: Seq<&Signature>, sigs: Seq<Signature>, n: int, selection: Selection)
    requires
        listed_upto(out, sigs, n, selection),
        unique_ids(sigs),
        0 <= n < sigs.len(),
    ensures
        forall|k: int| 0 <= k < out.len() ==> (#[trigger] out[k]).id@ != sigs[n].id@,
{
    reveal(listed_from);
    assert forall|k: int| 0 <= k < out.len() implies (#[trigger] out[k]).id@ != sigs[n].id@ by {
        let j = choose|j: int| 0 <= j < n && *out[k] == sigs[j];
        assert(sigs[j].id@ != sigs[n].id@);
    }
}

proof fn lemma_listed_skip(out: Seq<&Signature>, sigs: Seq<Signature>, n: int, selection: Selection)
    requires
        listed_upto(out, sigs, n, selection),
        0 <= n < sigs.len(),
        !selects(selection, sigs[n]),
    ensures
        listed_upto(out, sigs, n + 1, selection),
{
    assert(listed_from(out, sigs, n + 1, selection)) by {
        reveal(listed_from);
        assert forall|k: int| 0 <= k < out.len() implies selects(selection, *(#[trigger] out[k])) && exists|j: int|
            0 <= j < n + 1 && *out[k] == sigs[j] by {
            assert(listed_from(out, sigs, n, selection));
            let j = choose|j: int| 0 <= j < n && *out[k] == sigs[j];
            assert(0 <= j < n + 1 && *out[k] == sigs[j]);
        }
    }
    assert(listed_covers(out, sigs, n + 1, selection)) by {
        reveal(listed_covers);
        assert forall|j: int| 0 <= j < n + 1 && selects(selection, #[trigger] sigs[j]) implies exists|k: int|
            0 <= k < out.len() && (#[trigger] out[k]).id@ == sigs[j].id@ by {
            assert(j < n);
        }
    }
}

proof fn lemma_listed_insert_from(
    prior: Seq<&Signature>,
    sigs: Seq<Signature>,
    n: int,
    selection: Selection,
    p: int,
    s: &Signature,
)
    requires
        listed_from(prior, sigs, n, selection),
        0 <= n < sigs.len(),
        *s == sigs[n],
        selects(selection, sigs[n]),
        0 <= p <= prior.len(),
    ensures
        listed_from(prior.insert(p, s), sigs, n + 1, selection),
{
    reveal(listed_from);
    let out = prior.insert(p, s);
    assert forall|k: int| 0 <= k < out.len() implies selects(selection, *(#[trigger] out[k])) && exists|j: int|
        0 <= j < n + 1 && *out[k] == sigs[j] by {
        if k < p {
            assert(out[k] == prior[k]);
            let j = choose|j: int| 0 <= j < n && *prior[k] == sigs[j];
        } else if k == p {
            assert(*out[k] == sigs[n]);
        } else {
            assert(out[k] == prior[k - 1]);
            let j = choose|j: int| 0 <= j < n && *prior[k - 1] == sigs[j];
        }
    }
}

proof fn lemma_listed_insert_covers(
    prior: Seq<&Signature>,
    sigs: Seq<Signature>,
    n: int,
    selection: Selection,
    p: int,
    s: &Signature,
)
    requires
        listed_covers(prior, sigs, n, selection),
        0 <= n < sigs.len(),
        *s == sigs[n],
        0 <= p <= prior.len(),
    ensures
        listed_covers(prior.insert(p, s), sigs, n + 1, selection),
{
    reveal(listed_covers);
    let out = prior.insert(p, s);
    assert forall|j: int| 0 <= j < n + 1 && selects(selection, #[trigger] sigs[j]) implies exists|k: int|
        0 <= k < out.len() && (#[trigger] out[k]).id@ == sigs[j].id@ by {
        if j == n {
            assert(out[p].id@ == sigs[j].id@);
        } else {
            let k = choose|k: int| 0 <= k < prior.len() && (#[trigger] prior[k]).id@ == sigs[j].id@;
            if k < p {
                assert(out[k] == prior[k]);
            } else {
                assert(out[k + 1] == prior[k]);
            }
        }
    }
}

proof fn lemma_listed_insert_distinct(prior: Seq<&Signature>, p: int, s: &Signature)
    requires
        listed_distinct(prior),
        0 <= p <= prior.len(),
        forall|k: int| 0 <= k < prior.len() ==> (#[trigger] prior[k]).id@ != s.id@,
    ensures
        listed_distinct(prior.insert(p, s)),
{
    reveal(listed_distinct);
    let out = prior.insert(p, s);
    assert forall|a: int, b: int| 0 <= a < out.len() && 0 <= b < out.len() && a != b implies out[a].id@ != out[b].id@ by {
        if a < p {
            assert(out[a] == prior[a]);
        } else if a > p {
            assert(out[a] == prior[a - 1]);
        }
        if b < p {
            assert(out[b] == prior[b]);
        } else if b > p {
            assert(out[b] == prior[b - 1]);
        }
    }
}

proof fn lemma_listed_insert(
    prior: Seq<&Signature>,
    sigs: Seq<Signature>,
    n: int,
    selection: Selection,
    p: int,
    s: &Signature,
)
    requires
        listed_upto(prior, sigs, n, selection),
        0 <= n < sigs.len(),
        *s == sigs[n],
        selects(selection, sigs[n]),
        0 <= p <= prior.len(),
        forall|k: int| 0 <= k < prior.len() ==> (#[trigger] prior[k]).id@ != sigs[n].id@,
    ensures
        listed_upto(prior.insert(p, s), sigs, n + 1, selection),
{
    lemma_listed_insert_from(prior, sigs, n, selection, p, s);
    lemma_listed_insert_covers(prior, sigs, n, selection, p, s);
    lemma_listed_insert_distinct(prior, p, s);
}

proof fn lemma_listed_complete(out: Seq<&Signature>, sigs: Seq<Signature>, selection: Selection)
    requires
        listed_upto(out, sigs, sigs.len() as int, selection),
        unique_ids(sigs),
    ensures
        lists_exactly(out, by_id(sigs), |s: Signature| selects(selection, s)),
{
    reveal(listed_from);
    reveal(listed_covers);
    reveal(listed_distinct);
    lemma_by_id(sigs);
    let m = by_id(sigs);
    assert forall|k: int| 0 <= k < out.len() implies m.dom().contains((#[trigger] out[k]).id@)
        && m[out[k].id@] == *out[k] && selects(selection, *out[k]) by {
        let j = choose|j: int| 0 <= j < sigs.len() && *out[k] == sigs[j];
    }
    assert forall|id: Seq<char>| m.dom().contains(id) && selects(selection, m[id]) implies exists|k: int|
        0 <= k < out.len() && (#[trigger] out[k]).id@ == id by {
        let j = choose|j: int| 0 <= j < sigs.len() && sigs[j].id@ == id;
        assert(m[id] == sigs[j]);
        assert(selects(selection, sigs[j]));
    }
}

impl SignatureRegistry {
    /// The catalog, by id.
    pub closed spec fn catalog(&self) -> Map<Seq<char>, Signature> {
        by_id(self.signatures@)
    }

    /// The registry's invariant: one signature per id.
    pub closed spec fn wf(&self) -> bool {
        unique_ids(self.signatures@)
    }

    /// An empty catalog.
    pub fn new() -> (r: Self)
        ensures
            r.wf(),
            r.catalog() == Map::<Seq<char>, Signature>::empty(),
    {
        SignatureRegistry { signatures: Vec::new() }
    }

    /// Registers a signature, replacing any signature with its id.
    pub fn register(&mut self, signature: Signature)
        requires
            old(self).wf(),
        ensures
            final(self).wf(),
            final(self).catalog() == old(self).catalog().insert(signature.id@, signature),
    {
        let ghost before = self.signatures@;
        proof {
            lemma_by_id(before);
        }
        let mut i: usize = 0;
        while i < self.signatures.len()
            invariant
                self.signatures@ == before,
                before == old(self).signatures@,
                unique_ids(before),
                i <= before.len(),
                forall|j: int| 0 <= j < i ==> (#[trigger] before[j]).id@ != signature.id@,
            decreases before.len() - i,
        {
            if equal_text(self.signatures[i].id.as_str(), signature.id.as_str()) {
                self.signatures.set(i, signature);
                proof {
                    let after = self.signatures@;
                    assert(after =~= before.update(i as int, signature));
                    assert(unique_ids(after)) by {
                        assert forall|a: int, b: int| 0 <= a < after.len() && 0 <= b < after.len() && a != b implies after[a].id@ != after[b].id@ by {
                            if a != i && b != i {
                                assert(after[a] == before[a] && after[b] == before[b]);
                            } else if a == i {
                                assert(after[b] == before[b]);
                                assert(before[i as int].id@ == signature.id@);
                            } else {
                                assert(after[a] == before[a]);
                                assert(before[i as int].id@ == signature.id@);
                            }
                        }
                    }
                    lemma_by_id(after);
                    lemma_by_id(before);
                    let m = by_id(before).insert(signature.id@, signature);
                    assert forall|id: Seq<char>| #[trigger] by_id(after).dom().contains(id) <==> m.dom().contains(id) by {
                        if by_id(after).dom().contains(id) {
                            let a = choose|a: int| 0 <= a < after.len() && after[a].id@ == id;
                            if a != i {
                                assert(after[a] == before[a]);
                            }
                        }
                        if m.dom().contains(id) && id != signature.id@ {
                            assert(by_id(before).dom().contains(id));
                            let a = choose|a: int| 0 <= a < before.len() && before[a].id@ == id;
                            assert(a != i);
                            assert(after[a] == before[a]);
                        }
                        if id == signature.id@ {
                            assert(after[i as int].id@ == id);
                        }
                    }
                    assert forall|id: Seq<char>| #[trigger] by_id(after).dom().contains(id) implies by_id(after)[id] == m[id] by {
                        let a = choose|a: int| 0 <= a < after.len() && after[a].id@ == id;
                        if a != i {
                            assert(after[a] == before[a]);
                        }
                    }
                    assert(by_id(after) =~= m);
                }
                return;
            }
            i = i + 1;
        }
        let ghost entry = signature;
        self.signatures.push(signature);
        proof {
            let after = self.signatures@;
            assert(after.drop_last() =~= before);
            assert(unique_ids(after)) by {
                assert forall|a: int, b: int| 0 <= a < after.len() && 0 <= b < after.len() && a != b implies after[a].id@ != after[b].id@ by {
                    if a < before.len() && b < before.len() {
                        assert(after[a] == before[a] && after[b] == before[b]);
                    } else if a < before.len() {
                        assert(after[a] == before[a]);
                    } else {
                        assert(after[b] == before[b]);
                    }
                }
            }
        }
    }

    /// The signature registered under `id`.
    pub fn get(&self, id: &str) -> (r: Option<&Signature>)
        requires
            self.wf(),
        ensures
            match r {
                Some(s) => self.catalog().dom().contains(id@) && self.catalog()[id@] == *s,
                None => !self.catalog().dom().contains(id@),
            },
    {
        proof {
            lemma_by_id(self.signatures@);
        }
        let mut i: usize = 0;
        while i < self.signatures.len()
            invariant
                self.wf(),
                i <= self.signatures@.len(),
                forall|j: int| 0 <= j < i ==> (#[trigger] self.signatures@[j]).id@ != id@,
            decreases self.signatures@.len() - i,
        {
            if equal_text(self.signatures[i].id.as_str(), id) {
                proof {
                    lemma_by_id(self.signatures@);
                }
                return Some(&self.signatures[i]);
            }
            i = i + 1;
        }
        proof {
            if self.catalog().dom().contains(id@) {
                let j = choose|j: int| 0 <= j < self.signatures@.len() && self.signatures@[j].id@ == id@;
            }
        }
        None
    }

    /// The signatures a selection selects, each once; sorted by the listing
    /// order when `sorted` is set.
    fn listing(&self, selection: Selection, sorted: bool, by_priority: bool) -> (r: Vec<&Signature>)
        requires
            self.wf(),
        ensures
            lists_exactly(r@, self.catalog(), |s: Signature| selects(selection, s)),
            sorted ==> sorted_by(by_priority, r@),
    {
        let ghost sigs = self.signatures@;
        let mut out: Vec<&Signature> = Vec::new();
        let mut i: usize = 0;
        proof {
            reveal(listed_from);
            reveal(listed_covers);
            reveal(listed_distinct);
        }
        while i < self.signatures.len()
            invariant
                sigs == self.signatures@,
                unique_ids(sigs),
                i <= sigs.len(),
                listed_upto(out@, sigs, i as int, selection),
                sorted ==> sorted_by(by_priority, out@),
            decreases sigs.len() - i,
        {
            let s = &self.signatures[i];
            let ghost prior = out@;
            if selection_holds(&selection, s) {
                proof {
                    lemma_listed_fresh(prior, sigs, i as int, selection);
                }
                if sorted {
                    insert_sorted(&mut out, s, by_priority);
                } else {
                    out.push(s);
                    proof {
                        assert(out@ =~= prior.insert(prior.len() as int, s));
                    }
                }
                proof {
                    let p = choose|p: int| 0 <= p <= prior.len() && out@ == prior.insert(p, s);
                    lemma_listed_insert(prior, sigs, i as int, selection, p, s);
                }
            } else {
                proof {
                    lemma_listed_skip(prior, sigs, i as int, selection);
                }
            }
            i = i + 1;
        }
        proof {
            lemma_listed_complete(out@, sigs, selection);
        }
        out
    }

    /// Every signature, each once.
    pub fn all(&self) -> (r: Vec<&Signature>)
        requires
            self.wf(),
        ensures
            lists_exactly(r@, self.catalog(), |s: Signature| selects(Selection::All, s)),
    {
        self.listing(Selection::All, false, false)
    }

    /// The signatures of one category, each once.
    pub fn by_category(&self, category: Category) -> (r: Vec<&Signature>)
        requires
            self.wf(),
        ensures
            lists_exactly(r@, self.catalog(), |s: Signature| selects(Selection::InCategory(category), s)),
    {
        self.listing(Selection::InCategory(category), false, false)
    }

    /// The signatures of one risk tier, each once.
    pub fn by_risk(&self, risk: RiskTier) -> (r: Vec<&Signature>)
        requires
            self.wf(),
        ensures
            lists_exactly(r@, self.catalog(), |s: Signature| selects(Selection::WithRisk(risk), s)),
    {
        self.listing(Selection::WithRisk(risk), false, false)
    }

    /// The signatures one cleaner family owns, in id order.
    pub fn by_family(&self, family: CleanerFamily) -> (r: Vec<&Signature>)
        requires
            self.wf(),
        ensures
            lists_exactly(r@, self.catalog(), |s: Signature| selects(Selection::InFamily(family), s)),
            sorted_by(false, r@),
    {
        self.listing(Selection::InFamily(family), true, false)
    }

    /// The signatures a scan of `category` discovers in this scope on
    /// `platform`: the category's entries offered on the platform whose
    /// discovery the scope allows. Discovery and eligibility are separate: a
    /// mode-gated entry outside its scope is not discovered, an always-on one
    /// is. Most specific first (higher priority), then by id.
    pub fn by_category_for_mode(&self, category: Category, intensive_cleanup: bool, platform: PlatformKind) -> (r: Vec<&Signature>)
        requires
            self.wf(),
        ensures
            lists_exactly(
                r@,
                self.catalog(),
                |s: Signature| selects(Selection::Discovered { category, intensive_cleanup, platform }, s),
            ),
            sorted_by(true, r@),
    {
        self.listing(Selection::Discovered { category, intensive_cleanup, platform }, true, true)
    }

    /// The catalog of a registry is finite: it holds one entry per stored
    /// signature.
    pub proof fn lemma_catalog_finite(&self)
        requires
            self.wf(),
        ensures
            self.catalog().dom().finite(),
    {
        lemma_by_id_len(self.signatures@);
    }

    /// How many signatures the catalog holds.
    pub fn len(&self) -> (r: usize)
        requires
            self.wf(),
        ensures
            self.catalog().dom().finite(),
            r == self.catalog().dom().len(),
    {
        proof {
            lemma_by_id_len(self.signatures@);
        }
        self.signatures.len()
    }
}

/// The platform-declaration rule refuses an entry whose paths resolve under a
/// platform-specific root it does not declare.
pub open spec fn refused_by_platform(s: Signature) -> bool {
    undeclared(platforms_in_order(|p: PlatformKind| names_platform(s.paths@, p)), s.platforms@).len() > 0
}

/// The catalog without the entries the platform-declaration rule refuses.
pub open spec fn declared_only(catalog: Map<Seq<char>, Signature>) -> Map<Seq<char>, Signature> {
    Map::new(|id: Seq<char>| catalog.dom().contains(id) && !refused_by_platform(catalog[id]), |id: Seq<char>| catalog[id])
}

impl SignatureRegistry {
    /// Drops every signature the platform-declaration rule refuses, so an
    /// undeclared platform root is never silently accepted and nothing else
    /// is lost.
    pub fn enforce_platform_declarations(&mut self)
        requires
            old(self).wf(),
        ensures
            final(self).wf(),
            final(self).catalog() == declared_only(old(self).catalog()),
            forall|id: Seq<char>| #[trigger] final(self).catalog().dom().contains(id) ==> !refused_by_platform(final(self).catalog()[id]),
    {
        let ghost before = self.signatures@;
        proof {
            lemma_by_id(before);
        }
        let mut kept: Vec<Signature> = Vec::new();
        let mut rest: Vec<Signature> = Vec::new();
        std::mem::swap(&mut rest, &mut self.signatures);
        let total = rest.len();
        let mut i: usize = 0;
        while rest.len() > 0
            invariant
                unique_ids(before),
                total == before.len(),
                i + rest@.len() == total,
                rest@ == before.skip(i as int),
                unique_ids(kept@),
                forall|k: int| 0 <= k < kept@.len() ==> exists|j: int|
                    0 <= j < i && #[trigger] kept@[k] == before[j] && !refused_by_platform(before[j]),
                forall|j: int| 0 <= j < i && !refused_by_platform(#[trigger] before[j]) ==> exists|k: int|
                    0 <= k < kept@.len() && kept@[k] == before[j],
            decreases rest@.len(),
        {
            let s = rest.remove(0);
            proof {
                assert(before.skip(i as int)[0] == before[i as int]);
                assert(before.skip(i as int).remove(0) =~= before.skip(i + 1));
            }
            let refused = undeclared_platforms(s.paths.as_slice(), s.platforms.as_slice()).len() > 0;
            let ghost prior = kept@;
            if !refused {
                kept.push(s);
                proof {
                    assert forall|a: int, b: int| 0 <= a < kept@.len() && 0 <= b < kept@.len() && a != b implies kept@[a].id@ != kept@[b].id@ by {
                        if a < prior.len() && b < prior.len() {
                            assert(kept@[a] == prior[a] && kept@[b] == prior[b]);
                        } else if a < prior.len() {
                            let ja = choose|j: int| 0 <= j < i && prior[a] == before[j] && !refused_by_platform(before[j]);
                            assert(kept@[a] == before[ja]);
                            assert(kept@[b] == before[i as int]);
                        } else {
                            let jb = choose|j: int| 0 <= j < i && prior[b] == before[j] && !refused_by_platform(before[j]);
                            assert(kept@[b] == before[jb]);
                            assert(kept@[a] == before[i as int]);
                        }
                    }
                    assert forall|k: int| 0 <= k < kept@.len() implies exists|j: int|
                        0 <= j < i + 1 && #[trigger] kept@[k] == before[j] && !refused_by_platform(before[j]) by {
                        if k < prior.len() {
                            assert(kept@[k] == prior[k]);
                        } else {
                            assert(kept@[k] == before[i as int]);
                        }
                    }
                    assert forall|j: int| 0 <= j < i + 1 && !refused_by_platform(#[trigger] before[j]) implies exists|k: int|
                        0 <= k < kept@.len() && kept@[k] == before[j] by {
                        if j < i {
                            let k = choose|k: int| 0 <= k < prior.len() && prior[k] == before[j];
                            assert(kept@[k] == prior[k]);
                        } else {
                            assert(kept@[prior.len() as int] == before[j]);
                        }
                    }
                }
            } else {
                proof {
                    assert forall|k: int| 0 <= k < kept@.len() implies exists|j: int|
                        0 <= j < i + 1 && #[trigger] kept@[k] == before[j] && !refused_by_platform(before[j]) by {
                        let j = choose|j: int| 0 <= j < i && kept@[k] == before[j] && !refused_by_platform(before[j]);
                    }
                }
            }
            i = i + 1;
        }
        self.signatures = kept;
        proof {
            let after = self.signatures@;
            lemma_by_id(after);
            let expected = declared_only(by_id(before));
            assert forall|id: Seq<char>| #[trigger] by_id(after).dom().contains(id) <==> expected.dom().contains(id) by {
                if by_id(after).dom().contains(id) {
                    let k = choose|k: int| 0 <= k < after.len() && after[k].id@ == id;
                    let j = choose|j: int| 0 <= j < i && after[k] == before[j] && !refused_by_platform(before[j]);
                    assert(by_id(before)[before[j].id@] == before[j]);
                }
                if expected.dom().contains(id) {
                    let j = choose|j: int| 0 <= j < before.len() && before[j].id@ == id;
                    assert(by_id(before)[before[j].id@] == before[j]);
                    let k = choose|k: int| 0 <= k < after.len() && after[k] == before[j];
                    assert(after[k].id@ == id);
                }
            }
            assert forall|id: Seq<char>| #[trigger] by_id(after).dom().contains(id) implies by_id(after)[id] == expected[id] by {
                let k = choose|k: int| 0 <= k < after.len() && after[k].id@ == id;
                let j = choose|j: int| 0 <= j < i && after[k] == before[j] && !refused_by_platform(before[j]);
                assert(by_id(before)[before[j].id@] == before[j]);
                assert(by_id(after)[after[k].id@] == after[k]);
            }
            assert(by_id(after) =~= expected);
        }
    }
}

impl SignatureRegistry {
    /// The catalog for startup, recording a load failure instead of
    /// presenting an empty catalog as a healthy one: a successful load is
    /// passed through untouched, and a failed one yields an empty catalog —
    /// nothing is scanned or cleaned from a catalog that was never verified —
    /// together with the failure, since an empty scan is otherwise exactly
    /// what a clean machine reports.
    pub fn load_or_default<F: FnOnce() -> Result<SignatureRegistry, String>>(load: F) -> (r: (
        SignatureRegistry,
        Option<String>,
    ))
        requires
            load.requires(()),
        ensures
            exists|loaded: Result<SignatureRegistry, String>|
                load.ensures((), loaded) && match loaded {
                    Ok(registry) => r.0 == registry && r.1 is None,
                    Err(error) => {
                        &&& r.0.wf()
                        &&& r.0.catalog() == Map::<Seq<char>, Signature>::empty()
                        &&& r.1 matches Some(message) && message@ == "Signature catalog could not be loaded: "@
                            + error@
                    },
                },
    {
        let loaded = load();
        let ghost witness = loaded;
        match loaded {
            Ok(registry) => (registry, None),
            Err(error) => {
                let mut message = chars_of("Signature catalog could not be loaded: ");
                append_text(&mut message, error.as_str());
                let registry = SignatureRegistry::new();
                let text = string_of(message.as_slice());
                proof {
                    assert(witness matches Err(e) && text@ == "Signature catalog could not be loaded: "@ + e@);
                }
                (registry, Some(text))
            },
        }
    }
}

proof fn lemma_by_id_len(entries: Seq<Signature>)
    requires
        unique_ids(entries),
    ensures
        by_id(entries).dom().finite(),
        by_id(entries).dom().len() == entries.len(),
    decreases entries.len(),
{
    if entries.len() > 0 {
        let rest = entries.drop_last();
        assert(unique_ids(rest));
        lemma_by_id_len(rest);
        lemma_by_id(rest);
        let n = entries.len() - 1;
        assert(!by_id(rest).dom().contains(entries[n].id@)) by {
            if by_id(rest).dom().contains(entries[n].id@) {
                let i = choose|i: int| 0 <= i < rest.len() && rest[i].id@ == entries[n].id@;
                assert(entries[i] == rest[i]);
            }
        }
    }
}

} // verus!
