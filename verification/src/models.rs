//! The domain values the scanner, the stores, and the catalog speak about.
//!
//! Every type here holds plain values: what a scan observed, what a catalog
//! entry declares, and what a cleanup decision derives from them. The rules
//! that derive one value from others (a unit's kind, an item's disposition)
//! live next to the types so every caller reaches the same answer.
use vstd::prelude::*;
use crate::text::{append_text, chars_of, decimal, decimal_text, string_of};

verus! {

/// The presentation group a signature and its items belong to.
#[derive(Debug, Clone, Copy, PartialEq, Eq, Structural)]
pub enum Category {
    Ai,
    Developer,
    Container,
    System,
}

/// How much attention removing an item needs.
#[derive(Debug, Clone, Copy, PartialEq, Eq, Structural)]
pub enum RiskTier {
    /// Regenerated silently; may be cleaned without confirmation.
    Safe,
    /// Rebuilt on next use; cleaned once the user confirms it.
    Rebuild,
    /// Reported only; never removed by the generic cleaner.
    Manual,
}

/// How completely a location was observed.
#[derive(Debug, Clone, Copy, PartialEq, Eq, Structural)]
pub enum ObservationQuality {
    Fresh,
    Partial,
    Unavailable,
}

/// The stable remediation category of an incomplete observation.
#[derive(Debug, Clone, Copy, PartialEq, Eq, Structural)]
pub enum ScanGapKind {
    Cancelled,
    DepthLimit,
    FullDiskAccess,
    PermissionDenied,
    IoError,
}

/// How many observations fell into one gap kind.
#[derive(Debug, Clone, Copy, PartialEq, Eq, Structural)]
pub struct ScanGap {
    pub kind: ScanGapKind,
    pub count: u64,
}

/// What the filesystem, and then policy, say about two discovered units.
#[derive(Debug, Clone, Copy, PartialEq, Eq, Structural)]
pub enum UnitRelationship {
    /// One location, and the two rules agree on what may be done with it.
    Equivalent,
    /// One location through two rules that disagree.
    EquivalentConflict,
    /// The candidate lies inside the container, under compatible rules.
    Contained,
    /// The candidate lies inside the container, under incompatible rules.
    AuthorityConflict,
    /// Separate locations.
    Distinct,
}

/// What a cleanup unit is.
#[derive(Debug, Clone, Copy, PartialEq, Eq, Structural)]
pub enum CleanupUnitKind {
    /// The configured path itself.
    FixedPath,
    /// Each direct child of the configured path, aged on its own.
    ChildNamespace,
    /// A named subtree removed whole, aged as a whole.
    NamedSubtree,
    /// An action a provider carries out; it owns no path.
    ProviderAction,
}

impl CleanupUnitKind {
    pub open spec fn spec_is_filesystem(self) -> bool {
        !(self is ProviderAction)
    }

    /// Whether the unit is a location on disk rather than a provider action.
    pub fn is_filesystem(&self) -> (r: bool)
        ensures
            r == self.spec_is_filesystem(),
    {
        !matches!(self, CleanupUnitKind::ProviderAction)
    }

    pub open spec fn spec_is_enumerated_child(self) -> bool {
        self is ChildNamespace
    }

    /// Whether the unit is each child of a configured root.
    pub fn is_enumerated_child(&self) -> (r: bool)
        ensures
            r == self.spec_is_enumerated_child(),
    {
        matches!(self, CleanupUnitKind::ChildNamespace)
    }
}

/// Whether the scope the user chose lets a discovered unit be cleaned.
#[derive(Debug, Clone, Copy, PartialEq, Eq, Structural)]
pub enum EligibilityGate {
    Open,
    IntensiveCleanupDisabled,
}

impl EligibilityGate {
    /// Whether the scope permits cleanup.
    pub fn is_open(&self) -> (r: bool)
        ensures
            r == (*self is Open),
    {
        matches!(self, EligibilityGate::Open)
    }
}

/// What a cleanup may do with an item.
#[derive(Debug, Clone, Copy, PartialEq, Eq, Structural)]
pub enum CleanupEligibility {
    /// Safe to clean without confirming each item.
    AutoCleanable,
    /// Cleanable once the user selects it.
    Selectable,
    /// Reported for information; the generic cleaner has no operation for it.
    Advisory,
    /// Must not be cleaned.
    Blocked,
    /// Used within its age window; kept until it is stale.
    Recent,
}

impl CleanupEligibility {
    pub open spec fn spec_is_cleanable(self) -> bool {
        self is AutoCleanable || self is Selectable
    }

    /// Whether a cleanup may remove the item.
    pub fn is_cleanable(&self) -> (r: bool)
        ensures
            r == self.spec_is_cleanable(),
    {
        matches!(self, CleanupEligibility::AutoCleanable | CleanupEligibility::Selectable)
    }
}

/// How a catalog entry is cleaned.
#[derive(Debug, Clone, Copy, PartialEq, Eq, Structural)]
pub enum CleanStrategy {
    DeleteContents,
    DeleteDirectory,
    DeleteStaleContents,
    Manual,
    ExternalCommand,
    LifecycleProvider,
    OwnerProvider,
    DockerPrune,
}

impl CleanStrategy {
    /// A strategy whose work a provider or a command carries out rather than a
    /// path deletion.
    pub open spec fn spec_is_provider(self) -> bool {
        self is ExternalCommand || self is LifecycleProvider || self is OwnerProvider
            || self is DockerPrune
    }
}

/// The implementation family that owns a catalog entry.
#[derive(Debug, Clone, Copy, PartialEq, Eq, Structural)]
pub enum CleanerFamily {
    Ai,
    Developer,
    PackageManagers,
    Containers,
    System,
    Unclassified,
}

/// Whether a signature is discovered only inside its scope, or always.
#[derive(Debug, Clone, Copy, PartialEq, Eq, Structural)]
pub enum DiscoveryScope {
    ModeGated,
    Always,
}

/// Who manages the contents of a location.
#[derive(Debug, Clone, Copy, PartialEq, Eq, Structural)]
pub enum ManagementMode {
    /// The generic cleaner may remove what the rule covers.
    Generic,
    /// A tool owns the layout and must be asked to clean it.
    ToolManaged,
}

/// A platform a signature can be offered on.
#[derive(Debug, Clone, Copy, PartialEq, Eq, Structural)]
pub enum PlatformKind {
    Macos,
    Windows,
    Linux,
    Other,
}

/// How a reported size may be read.
#[derive(Debug, Clone, Copy, PartialEq, Eq, Structural)]
pub enum CacheSizeSemantics {
    /// The size is what a cleanup would reclaim.
    Exact,
    /// At least this much would be reclaimed.
    ConservativeLowerBound,
    /// The size is for information only.
    Informational,
}

/// What an entry on disk is.
#[derive(Debug, Clone, Copy, PartialEq, Eq, Structural)]
pub enum EntryKind {
    File,
    Directory,
    Other,
}

/// A measured size: the logical length, and the allocated bytes when the
/// platform states them.
#[derive(Debug, Clone, Copy, PartialEq, Eq, Structural)]
pub struct FileSize {
    pub logical: u64,
    pub allocated: Option<u64>,
}

impl FileSize {
    pub open spec fn spec_observed(self) -> u64 {
        match self.allocated {
            Some(allocated) => allocated,
            None => self.logical,
        }
    }

    /// The empty size.
    pub open spec fn spec_zero() -> FileSize {
        FileSize { logical: 0, allocated: None }
    }

    /// A size from its logical length and allocation.
    pub fn new(logical: u64, allocated: Option<u64>) -> (size: Self)
        ensures
            size.logical == logical,
            size.allocated == allocated,
    {
        FileSize { logical, allocated }
    }

    /// The empty size.
    pub fn zero() -> (size: Self)
        ensures
            size == FileSize::spec_zero(),
    {
        FileSize { logical: 0, allocated: None }
    }

    /// The bytes the entry occupies: the allocation when known, else the
    /// logical length.
    pub fn observed_bytes(&self) -> (r: u64)
        ensures
            r == self.spec_observed(),
    {
        match self.allocated {
            Some(allocated) => allocated,
            None => self.logical,
        }
    }

    /// The bytes removing the entry gives back; the same accounting as
    /// [`FileSize::observed_bytes`].
    pub fn reclaimable(&self) -> (r: u64)
        ensures
            r == self.spec_observed(),
    {
        self.observed_bytes()
    }
}

/// The location a cleanup would act on.
pub struct CleanupUnit {
    pub kind: CleanupUnitKind,
    /// The configured root the unit was found under.
    pub root: String,
    /// The unit's own path.
    pub path: String,
}

impl Clone for CleanupUnit {
    fn clone(&self) -> (r: Self)
        ensures
            r == *self,
    {
        CleanupUnit { kind: self.kind, root: self.root.clone(), path: self.path.clone() }
    }
}

/// The size semantics and shape a catalog entry gives its items.
#[derive(Debug, Clone, Copy, PartialEq, Eq, Structural)]
pub struct CacheMetadata {
    pub size_semantics: CacheSizeSemantics,
}

/// The derived answer to "may this item be cleaned, and how much would it
/// give back".
pub struct CleanupDisposition {
    pub eligibility: CleanupEligibility,
    /// The bytes a cleanup would reclaim; `None` when nothing may be cleaned.
    pub cleanable_bytes: Option<u64>,
    /// Why the item is not cleanable, when that is known.
    pub reason: Option<String>,
}

impl Clone for CleanupDisposition {
    fn clone(&self) -> (r: Self)
        ensures
            r == *self,
    {
        CleanupDisposition {
            eligibility: self.eligibility,
            cleanable_bytes: self.cleanable_bytes,
            reason: clone_opt_string(&self.reason),
        }
    }
}

/// A copy of an optional string.
pub fn clone_opt_string(value: &Option<String>) -> (r: Option<String>)
    ensures
        r == *value,
{
    match value {
        Some(text) => Some(text.clone()),
        None => None,
    }
}

/// A copy of a vector of strings.
pub fn clone_strings(values: &Vec<String>) -> (r: Vec<String>)
    ensures
        r@ == values@,
{
    let mut out: Vec<String> = Vec::new();
    let mut i: usize = 0;
    while i < values.len()
        invariant
            i <= values@.len(),
            out@ == values@.subrange(0, i as int),
        decreases values@.len() - i,
    {
        out.push(values[i].clone());
        i = i + 1;
        assert(out@ =~= values@.subrange(0, i as int));
    }
    assert(out@ =~= values@);
    out
}

/// The kind of structured state a unit holds: data an application owns
/// whose removal is never a cache cleanup.
#[derive(Debug, Clone, Copy, PartialEq, Eq, Structural)]
pub enum StructuredStateKind {
    Database,
    Executable,
}

/// Whether a unit's whole tree is unchanged for its age window.
#[derive(Debug, Clone, Copy, PartialEq, Eq, Structural)]
pub struct AgeObservation {
    pub min_age_days: u32,
    pub satisfied: bool,
}

/// A tree is unchanged for `days` days at `now` when its newest time is
/// known and at least that old; an unknown time or a clock that went back
/// proves nothing.
pub open spec fn aged_enough(newest: Option<u64>, now: u64, days: u32) -> bool {
    match newest {
        Some(at) => now >= at && now - at >= days * 86400,
        None => false,
    }
}

impl AgeObservation {
    /// The age verdict for a tree whose newest time is `newest`, at `now`.
    pub fn evaluate(min_age_days: u32, newest: Option<u64>, now: u64) -> (r: Self)
        ensures
            r.min_age_days == min_age_days,
            r.satisfied == aged_enough(newest, now, min_age_days),
    {
        let satisfied = match newest {
            Some(at) => now >= at && now - at >= (min_age_days as u64) * 86400,
            None => false,
        };
        AgeObservation { min_age_days, satisfied }
    }
}

/// What a stale-entry policy found inside a unit: the bytes and files whose
/// own age passes the window.
#[derive(Debug, Clone, Copy, PartialEq, Eq, Structural)]
pub struct StaleEntryObservation {
    pub min_age_days: u32,
    pub stale_bytes: u64,
    pub stale_file_count: u64,
}

/// The facts a disposition is derived from.
pub struct DispositionFacts {
    pub risk: RiskTier,
    pub quality: ObservationQuality,
    pub size_semantics: CacheSizeSemantics,
    pub size: FileSize,
    pub gate: EligibilityGate,
    /// An application that owns the unit is running.
    pub owner_running: bool,
    /// The unit's age verdict, when its whole tree carries an age policy.
    pub age: Option<AgeObservation>,
    /// What a stale-entry policy found inside the unit, when it has one.
    pub stale: Option<StaleEntryObservation>,
    /// The structured state the unit holds, when it holds any.
    pub structured_state: Option<StructuredStateKind>,
}

/// The eligibility the facts allow: a closed scope, an unreadable or
/// informational observation, or structured state blocks; a manual entry is
/// advisory; a unit used within its age window, or one with nothing stale
/// inside, is recent; a safe entry observed completely whose owner is not
/// running is cleanable without confirmation; anything else needs the user's
/// selection.
pub open spec fn spec_eligibility(facts: DispositionFacts) -> CleanupEligibility {
    if !(facts.gate is Open) {
        CleanupEligibility::Blocked
    } else if facts.quality is Unavailable || facts.size_semantics is Informational {
        CleanupEligibility::Blocked
    } else if facts.structured_state is Some {
        CleanupEligibility::Blocked
    } else if facts.risk is Manual {
        CleanupEligibility::Advisory
    } else if facts.age matches Some(age) && !age.satisfied {
        CleanupEligibility::Recent
    } else if facts.stale matches Some(stale) && stale.stale_file_count == 0 {
        CleanupEligibility::Recent
    } else if facts.risk is Safe && facts.quality is Fresh && !facts.owner_running {
        CleanupEligibility::AutoCleanable
    } else {
        CleanupEligibility::Selectable
    }
}

/// The bytes a cleanup of a unit with these facts reclaims: its stale bytes
/// under a stale-entry policy, never more than the unit's observed bytes; its
/// observed bytes otherwise; none when it may not be cleaned.
pub open spec fn spec_disposition_bytes(facts: DispositionFacts) -> Option<u64> {
    if spec_eligibility(facts).spec_is_cleanable() {
        match facts.stale {
            Some(stale) => Some(
                if stale.stale_bytes <= facts.size.spec_observed() {
                    stale.stale_bytes
                } else {
                    facts.size.spec_observed()
                },
            ),
            None => Some(facts.size.spec_observed()),
        }
    } else {
        None
    }
}

/// The sentence that says why structured state is not cleaned.
pub open spec fn structured_state_reason(kind: StructuredStateKind) -> Seq<char> {
    match kind {
        StructuredStateKind::Database => "Holds structured state (a database); cleanup is blocked"@,
        StructuredStateKind::Executable => "Holds structured state (an executable); cleanup is blocked"@,
    }
}

/// The sentence that says why a recent unit is kept.
pub open spec fn recent_reason(days: u32) -> Seq<char> {
    "Used within the last "@ + decimal(days as nat) + " days; kept until it is stale"@
}

/// The age window of the facts' policy.
pub open spec fn window_of(facts: DispositionFacts) -> u32 {
    match facts.age {
        Some(age) => age.min_age_days,
        None => match facts.stale {
            Some(stale) => stale.min_age_days,
            None => 0,
        },
    }
}

/// The view of an optional string.
pub open spec fn opt_text(value: Option<String>) -> Option<Seq<char>> {
    match value {
        Some(t) => Some(t@),
        None => None,
    }
}

/// Why the unit is not cleanable: the observation's own reason when it has
/// one; otherwise the structured state it holds, or the age window that
/// keeps it.
pub open spec fn disposition_reason(facts: DispositionFacts, reason: Option<Seq<char>>) -> Option<Seq<char>> {
    match reason {
        Some(r) => Some(r),
        None => match facts.structured_state {
            Some(kind) => Some(structured_state_reason(kind)),
            None => if spec_eligibility(facts) is Recent {
                Some(recent_reason(window_of(facts)))
            } else {
                None
            },
        },
    }
}

fn eligibility_of(facts: &DispositionFacts) -> (e: CleanupEligibility)
    ensures
        e == spec_eligibility(*facts),
{
    if !facts.gate.is_open() {
        CleanupEligibility::Blocked
    } else if matches!(facts.quality, ObservationQuality::Unavailable) || matches!(
        facts.size_semantics,
        CacheSizeSemantics::Informational
    ) {
        CleanupEligibility::Blocked
    } else if facts.structured_state.is_some() {
        CleanupEligibility::Blocked
    } else if matches!(facts.risk, RiskTier::Manual) {
        CleanupEligibility::Advisory
    } else if match facts.age {
        Some(age) => !age.satisfied,
        None => false,
    } {
        CleanupEligibility::Recent
    } else if match facts.stale {
        Some(stale) => stale.stale_file_count == 0,
        None => false,
    } {
        CleanupEligibility::Recent
    } else if matches!(facts.risk, RiskTier::Safe) && matches!(facts.quality, ObservationQuality::Fresh)
        && !facts.owner_running {
        CleanupEligibility::AutoCleanable
    } else {
        CleanupEligibility::Selectable
    }
}

/// Derives what a cleanup may do with an item from its facts; `reason` is
/// the observation's own reason, when it has one.
pub fn derive_cleanup_disposition(facts: &DispositionFacts, reason: Option<String>) -> (d:
    CleanupDisposition)
    ensures
        d.eligibility == spec_eligibility(*facts),
        d.cleanable_bytes == spec_disposition_bytes(*facts),
        opt_text(d.reason) == disposition_reason(*facts, opt_text(reason)),
        reason is Some ==> d.reason == reason,
{
    let eligibility = eligibility_of(facts);
    let cleanable_bytes = if eligibility.is_cleanable() {
        let observed = facts.size.observed_bytes();
        match facts.stale {
            Some(stale) => Some(
                if stale.stale_bytes <= observed {
                    stale.stale_bytes
                } else {
                    observed
                },
            ),
            None => Some(observed),
        }
    } else {
        None
    };
    let reason = match reason {
        Some(r) => Some(r),
        None => match facts.structured_state {
            Some(kind) => {
                let text = match kind {
                    StructuredStateKind::Database => {
                        proof {
                            reveal_strlit("Holds structured state (a database); cleanup is blocked");
                        }
                        String::from_str("Holds structured state (a database); cleanup is blocked")
                    },
                    StructuredStateKind::Executable => {
                        proof {
                            reveal_strlit("Holds structured state (an executable); cleanup is blocked");
                        }
                        String::from_str("Holds structured state (an executable); cleanup is blocked")
                    },
                };
                Some(text)
            },
            None => {
                if matches!(eligibility, CleanupEligibility::Recent) {
                    let days = match facts.age {
                        Some(age) => age.min_age_days,
                        None => match facts.stale {
                            Some(stale) => stale.min_age_days,
                            None => 0,
                        },
                    };
                    let mut v = chars_of("Used within the last ");
                    let d = decimal_text(days as u64);
                    append_text(&mut v, d.as_str());
                    append_text(&mut v, " days; kept until it is stale");
                    proof {
                        reveal_strlit("Used within the last ");
                        reveal_strlit(" days; kept until it is stale");
                    }
                    Some(string_of(v.as_slice()))
                } else {
                    None
                }
            },
        },
    };
    CleanupDisposition { eligibility, cleanable_bytes, reason }
}

} // verus!
