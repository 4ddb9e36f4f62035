//! A catalog entry: what it covers, how it is cleaned, and the rules derived
//! from it.
use vstd::prelude::*;
use crate::models::{
    CacheMetadata, CacheSizeSemantics, Category, CleanStrategy, CleanerFamily, CleanupUnitKind,
    DiscoveryScope, EligibilityGate, ManagementMode, PlatformKind, RiskTier,
};
use crate::text::{chars_of, has_infix, text_contains};

verus! {

/// One catalog entry.
pub struct Signature {
    pub id: String,
    pub name: String,
    pub category: Category,
    pub family: CleanerFamily,
    pub risk: RiskTier,
    pub strategy: CleanStrategy,
    pub paths: Vec<String>,
    pub exclusions: Vec<String>,
    pub description: String,
    pub min_age_days: Option<u32>,
    pub include_prefixes: Vec<String>,
    pub exclude_prefixes: Vec<String>,
    pub intensive_only: bool,
    pub platforms: Vec<PlatformKind>,
    pub discovery: DiscoveryScope,
    pub unit: Option<CleanupUnitKind>,
    pub owner: String,
    pub priority: i32,
    pub fail_if_running: Vec<String>,
    pub provider: String,
    pub provider_id: Option<String>,
    pub management_mode: ManagementMode,
    pub consequence: String,
    pub reclaimable_is_lower_bound: bool,
}

/// Who a cleanup unit belongs to.
pub enum CleanupOwnership {
    /// The catalog names the owner.
    Catalog(String),
    /// The owner is inferred from the unit's own name.
    Inferred(String),
    /// Nothing states an owner.
    Unknown,
}

impl CleanupOwnership {
    /// Whether the catalog states the owner.
    pub fn is_known(&self) -> (r: bool)
        ensures
            r == (*self is Catalog),
    {
        matches!(self, CleanupOwnership::Catalog(_))
    }

    /// An owner inferred from a unit's name.
    pub fn inferred(name: String) -> (r: Self)
        ensures
            r == CleanupOwnership::Inferred(name),
    {
        CleanupOwnership::Inferred(name)
    }

    /// Whether two ownerships state the same owner the same way.
    pub fn same_as(&self, other: &Self) -> (r: bool)
        ensures
            r == same_ownership(*self, *other),
    {
        match (self, other) {
            (CleanupOwnership::Catalog(a), CleanupOwnership::Catalog(b)) => *a == *b,
            (CleanupOwnership::Inferred(a), CleanupOwnership::Inferred(b)) => *a == *b,
            (CleanupOwnership::Unknown, CleanupOwnership::Unknown) => true,
            _ => false,
        }
    }
}

/// Two ownerships state the same owner the same way.
pub open spec fn same_ownership(a: CleanupOwnership, b: CleanupOwnership) -> bool {
    match (a, b) {
        (CleanupOwnership::Catalog(x), CleanupOwnership::Catalog(y)) => x@ == y@,
        (CleanupOwnership::Inferred(x), CleanupOwnership::Inferred(y)) => x@ == y@,
        (CleanupOwnership::Unknown, CleanupOwnership::Unknown) => true,
        _ => false,
    }
}

/// The unit a signature's items are: the declared one, or — when nothing is
/// declared — each aged child for an age policy, a provider action for a
/// strategy a provider or a command carries out, and the path itself
/// otherwise.
pub open spec fn derived_unit_kind(
    unit: Option<CleanupUnitKind>,
    min_age_days: Option<u32>,
    strategy: CleanStrategy,
) -> CleanupUnitKind {
    match unit {
        Some(kind) => kind,
        None => if min_age_days is Some {
            CleanupUnitKind::ChildNamespace
        } else if strategy.spec_is_provider() {
            CleanupUnitKind::ProviderAction
        } else {
            CleanupUnitKind::FixedPath
        },
    }
}

/// The owner a signature states: its owner, else its provider.
pub open spec fn stated_ownership(owner: Seq<char>, provider: Seq<char>) -> (Seq<char>, bool) {
    if owner.len() > 0 {
        (owner, true)
    } else if provider.len() > 0 {
        (provider, true)
    } else {
        (Seq::<char>::empty(), false)
    }
}

/// Whether a strategy removes paths itself.
pub open spec fn owns_paths(strategy: CleanStrategy) -> bool {
    strategy is DeleteContents || strategy is DeleteDirectory || strategy is DeleteStaleContents
}

/// The first contradiction a signature states about itself, if any.
pub open spec fn contradiction(s: Signature) -> bool {
    let kind = derived_unit_kind(s.unit, s.min_age_days, s.strategy);
    ||| (s.unit == Some(CleanupUnitKind::ChildNamespace) || s.unit == Some(CleanupUnitKind::NamedSubtree))
        && s.min_age_days is None
    ||| s.unit == Some(CleanupUnitKind::FixedPath) && s.min_age_days is Some
    ||| kind is ProviderAction && (s.paths@.len() > 0 || owns_paths(s.strategy))
    ||| exists|i: int| 0 <= i < s.fail_if_running@.len() && !is_process_name(s.fail_if_running@[i]@)
    ||| exists|i: int| 0 <= i < s.paths@.len() && has_unknown_variable(s.paths@[i]@)
    ||| exists|i: int| 0 <= i < s.exclusions@.len() && has_unknown_variable(s.exclusions@[i]@)
}

/// The first rule an entry breaks, as the message that refuses it, judging
/// its paths and exclusions by the given texts: an enumerated or named unit
/// without an age policy, a fixed path with one, a provider action that owns
/// a path, a process guard that is not an executable name, then a path and
/// then an exclusion with an unsupported `%` spelling.
/// The entry's unit, age policy and ownership agree.
pub open spec fn shape_agrees(s: Signature) -> bool {
    let kind = derived_unit_kind(s.unit, s.min_age_days, s.strategy);
    &&& !((s.unit == Some(CleanupUnitKind::ChildNamespace) || s.unit == Some(CleanupUnitKind::NamedSubtree))
        && s.min_age_days is None)
    &&& !(s.unit == Some(CleanupUnitKind::FixedPath) && s.min_age_days is Some)
    &&& !(kind is ProviderAction && (s.paths@.len() > 0 || owns_paths(s.strategy)))
}

pub open spec fn first_contradiction(s: Signature, paths: Seq<Seq<char>>, exclusions: Seq<Seq<char>>) -> Option<
    Seq<char>,
> {
    let kind = derived_unit_kind(s.unit, s.min_age_days, s.strategy);
    if (s.unit == Some(CleanupUnitKind::ChildNamespace) || s.unit == Some(CleanupUnitKind::NamedSubtree))
        && s.min_age_days is None {
        Some("An enumerated or named unit needs an age policy"@)
    } else if s.unit == Some(CleanupUnitKind::FixedPath) && s.min_age_days is Some {
        Some("An age policy ages children, not the fixed path itself"@)
    } else if kind is ProviderAction && (s.paths@.len() > 0 || owns_paths(s.strategy)) {
        Some("A provider action owns no path"@)
    } else if exists|i: int| 0 <= i < s.fail_if_running@.len() && !is_process_name(s.fail_if_running@[i]@) {
        Some("A process guard names an executable, never a path"@)
    } else if exists|i: int| 0 <= i < paths.len() && has_unknown_variable(paths[i]) {
        Some("A path uses an unsupported environment spelling"@)
    } else if exists|i: int| 0 <= i < exclusions.len() && has_unknown_variable(exclusions[i]) {
        Some("An exclusion uses an unsupported environment spelling"@)
    } else {
        None
    }
}

/// The views of a list of strings.
pub open spec fn string_views(v: Seq<String>) -> Seq<Seq<char>> {
    v.map_values(|t: String| t@)
}

/// A process guard names an executable: something other than blanks, and
/// never a path.
pub open spec fn is_process_name(name: Seq<char>) -> bool {
    &&& exists|i: int| 0 <= i < name.len() && name[i] != ' ' && name[i] != '\t'
    &&& !has_infix(name, "/"@)
    &&& !has_infix(name, "\\"@)
}

/// A pattern still spelled with a Windows `%VAR%` the loader does not
/// normalize: any `%` left in it.
pub open spec fn has_unknown_variable(pattern: Seq<char>) -> bool {
    has_infix(pattern, "%"@)
}

impl Signature {
    /// The unit this signature's items are.
    pub fn unit_kind(&self) -> (k: CleanupUnitKind)
        ensures
            k == derived_unit_kind(self.unit, self.min_age_days, self.strategy),
    {
        match self.unit {
            Some(kind) => kind,
            None => if self.min_age_days.is_some() {
                CleanupUnitKind::ChildNamespace
            } else if matches!(
                self.strategy,
                CleanStrategy::ExternalCommand | CleanStrategy::LifecycleProvider
                    | CleanStrategy::OwnerProvider | CleanStrategy::DockerPrune
            ) {
                CleanupUnitKind::ProviderAction
            } else {
                CleanupUnitKind::FixedPath
            },
        }
    }

    /// Whether the signature is discovered in a scan with or without the
    /// intensive scope: a mode-gated intensive entry only inside it, every
    /// other entry always.
    pub open spec fn spec_discovery_allows(&self, intensive_cleanup: bool) -> bool {
        !self.intensive_only || intensive_cleanup || self.discovery is Always
    }

    /// Whether the signature is discovered in this scope.
    pub fn discovery_allows(&self, intensive_cleanup: bool) -> (r: bool)
        ensures
            r == self.spec_discovery_allows(intensive_cleanup),
    {
        !self.intensive_only || intensive_cleanup || matches!(self.discovery, DiscoveryScope::Always)
    }

    /// The eligibility gate of a discovered unit: an intensive entry outside the
    /// intensive scope is reported but not cleanable.
    pub open spec fn spec_eligibility_gate(&self, intensive_cleanup: bool) -> EligibilityGate {
        if self.intensive_only && !intensive_cleanup {
            EligibilityGate::IntensiveCleanupDisabled
        } else {
            EligibilityGate::Open
        }
    }

    /// The eligibility gate of a discovered unit.
    pub fn eligibility_gate(&self, intensive_cleanup: bool) -> (g: EligibilityGate)
        ensures
            g == self.spec_eligibility_gate(intensive_cleanup),
    {
        if self.intensive_only && !intensive_cleanup {
            EligibilityGate::IntensiveCleanupDisabled
        } else {
            EligibilityGate::Open
        }
    }

    /// Whether the signature is offered on `platform`: it declares no
    /// platforms, or declares that one.
    pub open spec fn spec_supports_platform(&self, platform: PlatformKind) -> bool {
        self.platforms@.len() == 0 || self.platforms@.contains(platform)
    }

    /// Whether the signature is offered on `platform`.
    pub fn supports_platform(&self, platform: PlatformKind) -> (r: bool)
        ensures
            r == self.spec_supports_platform(platform),
    {
        if self.platforms.len() == 0 {
            return true;
        }
        let mut i: usize = 0;
        while i < self.platforms.len()
            invariant
                i <= self.platforms@.len(),
                forall|j: int| 0 <= j < i ==> self.platforms@[j] != platform,
            decreases self.platforms@.len() - i,
        {
            if self.platforms[i] == platform {
                return true;
            }
            i = i + 1;
        }
        false
    }

    /// The size semantics the signature's items carry.
    pub fn cache_metadata(&self) -> (m: CacheMetadata)
        ensures
            m.size_semantics == if self.reclaimable_is_lower_bound {
                CacheSizeSemantics::ConservativeLowerBound
            } else {
                CacheSizeSemantics::Exact
            },
    {
        let size_semantics = if self.reclaimable_is_lower_bound {
            CacheSizeSemantics::ConservativeLowerBound
        } else {
            CacheSizeSemantics::Exact
        };
        CacheMetadata { size_semantics }
    }

    /// Who the signature's units belong to: its owner, else its provider.
    pub fn ownership(&self) -> (o: CleanupOwnership)
        ensures
            stated_ownership(self.owner@, self.provider@).1 ==> o is Catalog && o->Catalog_0@
                == stated_ownership(self.owner@, self.provider@).0,
            !stated_ownership(self.owner@, self.provider@).1 ==> o is Unknown,
    {
        if !self.owner.as_str().is_empty() {
            CleanupOwnership::Catalog(self.owner.clone())
        } else if !self.provider.as_str().is_empty() {
            CleanupOwnership::Catalog(self.provider.clone())
        } else {
            CleanupOwnership::Unknown
        }
    }

    /// Refuses a signature that contradicts itself: an enumerated or named
    /// unit without an age policy, a fixed unit with one, a provider action
    /// that owns paths or is paired with a path-owning strategy, a process
    /// guard that is blank or a path, and a `%VAR%` spelling the loader did not
    /// normalize.
    pub fn validate(&self) -> (r: Result<(), String>)
        ensures
            r is Ok <==> !contradiction(*self),
            r matches Err(m) ==> first_contradiction(
                *self,
                string_views(self.paths@),
                string_views(self.exclusions@),
            ) == Some(m@),
    {
        proof {
            reveal_strlit("An enumerated or named unit needs an age policy");
            reveal_strlit("An age policy ages children, not the fixed path itself");
            reveal_strlit("A provider action owns no path");
            reveal_strlit("A process guard names an executable, never a path");
            reveal_strlit("A path uses an unsupported environment spelling");
            reveal_strlit("An exclusion uses an unsupported environment spelling");
        }
        let kind = self.unit_kind();
        match self.unit {
            Some(CleanupUnitKind::ChildNamespace) | Some(CleanupUnitKind::NamedSubtree) => {
                if self.min_age_days.is_none() {
                    return Err(String::from_str("An enumerated or named unit needs an age policy"));
                }
            },
            Some(CleanupUnitKind::FixedPath) => {
                if self.min_age_days.is_some() {
                    return Err(String::from_str("An age policy ages children, not the fixed path itself"));
                }
            },
            _ => {},
        }
        if matches!(kind, CleanupUnitKind::ProviderAction) {
            let owns = matches!(
                self.strategy,
                CleanStrategy::DeleteContents | CleanStrategy::DeleteDirectory | CleanStrategy::DeleteStaleContents
            );
            if self.paths.len() > 0 || owns {
                return Err(String::from_str("A provider action owns no path"));
            }
        }
        let mut i: usize = 0;
        while i < self.fail_if_running.len()
            invariant
                i <= self.fail_if_running@.len(),
                shape_agrees(*self),
                forall|j: int| 0 <= j < i ==> is_process_name(self.fail_if_running@[j]@),
            decreases self.fail_if_running@.len() - i,
        {
            if !process_name_ok(self.fail_if_running[i].as_str()) {
                return Err(String::from_str("A process guard names an executable, never a path"));
            }
            i = i + 1;
        }
        let mut p: usize = 0;
        while p < self.paths.len()
            invariant
                p <= self.paths@.len(),
                shape_agrees(*self),
                forall|j: int| 0 <= j < self.fail_if_running@.len() ==> is_process_name(self.fail_if_running@[j]@),
                forall|j: int| 0 <= j < p ==> !has_unknown_variable(self.paths@[j]@),
            decreases self.paths@.len() - p,
        {
            if text_contains(self.paths[p].as_str(), "%") {
                proof {
                    assert(string_views(self.paths@)[p as int] == self.paths@[p as int]@);
                }
                return Err(String::from_str("A path uses an unsupported environment spelling"));
            }
            p = p + 1;
        }
        let mut e: usize = 0;
        while e < self.exclusions.len()
            invariant
                e <= self.exclusions@.len(),
                shape_agrees(*self),
                forall|j: int| 0 <= j < self.fail_if_running@.len() ==> is_process_name(self.fail_if_running@[j]@),
                forall|j: int| 0 <= j < self.paths@.len() ==> !has_unknown_variable(self.paths@[j]@),
                forall|j: int| 0 <= j < e ==> !has_unknown_variable(self.exclusions@[j]@),
            decreases self.exclusions@.len() - e,
        {
            if text_contains(self.exclusions[e].as_str(), "%") {
                proof {
                    assert(string_views(self.exclusions@)[e as int] == self.exclusions@[e as int]@);
                    assert forall|j: int| 0 <= j < string_views(self.paths@).len() implies !has_unknown_variable(
                        #[trigger] string_views(self.paths@)[j],
                    ) by {
                        assert(string_views(self.paths@)[j] == self.paths@[j]@);
                    }
                }
                return Err(String::from_str("An exclusion uses an unsupported environment spelling"));
            }
            e = e + 1;
        }
        Ok(())
    }
}

/// Whether a process guard is an executable name.
fn process_name_ok(name: &str) -> (r: bool)
    ensures
        r == is_process_name(name@),
{
    let chars = chars_of(name);
    let mut has_visible = false;
    let mut i: usize = 0;
    while i < chars.len()
        invariant
            chars@ == name@,
            i <= chars@.len(),
            has_visible == exists|j: int| 0 <= j < i && name@[j] != ' ' && name@[j] != '\t',
        decreases chars@.len() - i,
    {
        if chars[i] != ' ' && chars[i] != '\t' {
            has_visible = true;
        }
        i = i + 1;
    }
    has_visible && !text_contains(name, "/") && !text_contains(name, "\\")
}

} // verus!
