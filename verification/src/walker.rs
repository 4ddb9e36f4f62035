//! What a directory walk reports: item identities and names, the items that
//! stand for what could not be inspected, the statistics a walk folds, and
//! readable byte counts.
//!
//! Reading the filesystem is the caller's; the caller hands in what it read.
use vstd::prelude::*;
use crate::models::{
    aged_enough, derive_cleanup_disposition, disposition_reason, opt_text, spec_eligibility, AgeObservation,
    CleanStrategy, CacheMetadata, CacheSizeSemantics, CleanupUnit, DispositionFacts, EligibilityGate,
    EntryKind, FileSize, ObservationQuality, StaleEntryObservation, StructuredStateKind,
};
use crate::scan_types::ScanItem;
use crate::signature::{derived_unit_kind, Signature};
use crate::size::{sat_add, sat_add_usize, PathMeasurement};
use crate::text::{append_text, chars_of, decimal, eq_ignore_ascii_case, decimal_text, digit_char, equal_text, has_infix, has_prefix, string_of, text_contains};

verus! {

/// The Unicode lowercase of a text, as `str::to_lowercase` gives it.
pub uninterp spec fn unicode_lowercase(s: Seq<char>) -> Seq<char>;

/// The Unicode lowercase of a text.
///
/// Calls `str::to_lowercase`, whose result is a function of the text alone;
/// it is named rather than stated, since the Unicode case tables take pages.
#[verifier::external_body]
fn to_lowercase(s: &str) -> (r: String)
    ensures
        r@ == unicode_lowercase(s@),
{
    s.to_lowercase()
}

/// A cache namespace is excluded when its lowercase name begins with the
/// lowercase of some excluded prefix.
pub open spec fn namespace_excluded(name: Seq<char>, exclude_prefixes: Seq<String>) -> bool {
    exists|i: int|
        0 <= i < exclude_prefixes.len() && has_prefix(
            unicode_lowercase(name),
            unicode_lowercase(#[trigger] exclude_prefixes[i]@),
        )
}

/// Whether a cache namespace name is excluded by a signature's prefix list.
///
/// Exclusion ignores case: a namespace's on-disk casing is not stable, and an
/// exclusion that matches more is the fail-safe direction.
pub fn is_excluded_namespace(name: &str, exclude_prefixes: &[String]) -> (r: bool)
    ensures
        r == namespace_excluded(name@, exclude_prefixes@),
{
    let lowered = to_lowercase(name);
    let mut i: usize = 0;
    while i < exclude_prefixes.len()
        invariant
            i <= exclude_prefixes@.len(),
            lowered@ == unicode_lowercase(name@),
            forall|j: int|
                0 <= j < i ==> !has_prefix(unicode_lowercase(name@), unicode_lowercase((#[trigger] exclude_prefixes@[j])@)),
        decreases exclude_prefixes@.len() - i,
    {
        let prefix = to_lowercase(exclude_prefixes[i].as_str());
        if crate::text::text_starts_with(lowered.as_str(), prefix.as_str()) {
            return true;
        }
        i = i + 1;
    }
    false
}

/// A directory entry is excluded when its name equals an exclusion or its
/// path text contains one.
pub open spec fn entry_excluded(name: Option<Seq<char>>, path: Seq<char>, exclusions: Seq<String>) -> bool {
    exists|i: int|
        0 <= i < exclusions.len() && ((name is Some && name->Some_0 == (#[trigger] exclusions[i])@)
            || has_infix(path, exclusions[i]@))
}

/// Whether a walk skips an entry for an exclusion.
pub fn is_excluded_entry(name: Option<&str>, path: &str, exclusions: &[String]) -> (r: bool)
    ensures
        r == entry_excluded(
            match name {
                Some(n) => Some(n@),
                None => None,
            },
            path@,
            exclusions@,
        ),
{
    let mut i: usize = 0;
    while i < exclusions.len()
        invariant
            i <= exclusions@.len(),
            forall|j: int|
                0 <= j < i ==> !(((match name {
                    Some(n) => Some(n@),
                    None => None,
                }) is Some && (match name {
                    Some(n) => Some(n@),
                    None => None::<Seq<char>>,
                })->Some_0 == (#[trigger] exclusions@[j])@) || has_infix(path@, exclusions@[j]@)),
        decreases exclusions@.len() - i,
    {
        let named = match name {
            Some(n) => equal_text(n, exclusions[i].as_str()),
            None => false,
        };
        if named || text_contains(path, exclusions[i].as_str()) {
            return true;
        }
        i = i + 1;
    }
    false
}

fn append_decimal(out: &mut Vec<char>, n: u64)
    ensures
        final(out)@ == old(out)@ + decimal(n as nat),
{
    let d = decimal_text(n);
    append_text(out, d.as_str());
}

/// The item identity for one root: the signature id; then the pattern's
/// index when the signature has several patterns or the root has a selected
/// key; then the key; then the child.
pub open spec fn item_id(
    signature_id: Seq<char>,
    path_count: nat,
    idx: nat,
    root_key: Option<Seq<char>>,
    child: Option<Seq<char>>,
) -> Seq<char> {
    let with_index = if path_count > 1 || root_key is Some {
        signature_id + "."@ + decimal(idx)
    } else {
        signature_id
    };
    let with_key = match root_key {
        Some(key) => with_index + "."@ + key,
        None => with_index,
    };
    match child {
        Some(c) => with_key + "."@ + c,
        None => with_key,
    }
}

/// The view of an optional text.
pub open spec fn opt_view(value: Option<&str>) -> Option<Seq<char>> {
    match value {
        Some(v) => Some(v@),
        None => None,
    }
}

/// The display name for one root: the signature's name, qualified by the
/// selected key, or — when the signature has several patterns — by the
/// root's file name.
pub open spec fn display_name(
    name: Seq<char>,
    path_count: nat,
    file_name: Option<Seq<char>>,
    root_key: Option<Seq<char>>,
) -> Seq<char> {
    match root_key {
        Some(key) => name + " ("@ + key + ")"@,
        None => if path_count > 1 {
            name + " ("@ + (match file_name {
                Some(f) => f,
                None => Seq::<char>::empty(),
            }) + ")"@
        } else {
            name
        },
    }
}

/// The sentence an item carries when its age could not be verified.
pub open spec fn age_unverified_note() -> Seq<char> {
    " Age eligibility could not be verified, so cleanup is blocked."@
}

/// The id of the item that stands for a pattern match the walk could not
/// inspect.
pub open spec fn unavailable_item_id(
    signature_id: Seq<char>,
    path_count: nat,
    idx: nat,
    fail_idx: nat,
    fail_count: nat,
) -> Seq<char> {
    if fail_count > 1 {
        signature_id + "."@ + decimal(idx) + ".unavailable."@ + decimal(fail_idx)
    } else if path_count > 1 {
        signature_id + "."@ + decimal(idx) + ".unavailable"@
    } else {
        signature_id + ".unavailable"@
    }
}

/// The facts an uninspectable item's disposition is derived from: an
/// unavailable observation whose size is informational.
pub open spec fn unavailable_facts(signature: Signature, size: FileSize, gate: EligibilityGate) -> DispositionFacts {
    DispositionFacts {
        risk: signature.risk,
        quality: ObservationQuality::Unavailable,
        size_semantics: CacheSizeSemantics::Informational,
        size,
        gate,
        owner_running: false,
        age: None,
        stale: None,
        structured_state: None,
    }
}

/// The directory walker's item builders.
pub struct DirectoryScanner;

impl DirectoryScanner {
    /// The item identity for one root of a signature.
    pub fn item_id_for(signature: &Signature, idx: usize, root_key: Option<&str>, child: Option<&str>) -> (r: String)
        requires
            idx <= u64::MAX,
        ensures
            r@ == item_id(signature.id@, signature.paths@.len(), idx as nat, opt_view(root_key), opt_view(child)),
    {
        let mut id = chars_of(signature.id.as_str());
        if signature.paths.len() > 1 || root_key.is_some() {
            append_text(&mut id, ".");
            append_decimal(&mut id, idx as u64);
        }
        if let Some(key) = root_key {
            append_text(&mut id, ".");
            append_text(&mut id, key);
        }
        if let Some(c) = child {
            append_text(&mut id, ".");
            append_text(&mut id, c);
        }
        string_of(id.as_slice())
    }

    /// The display name for one root; `file_name` is the root path's final
    /// component, when it has one.
    pub fn display_name_for(signature: &Signature, file_name: Option<&str>, root_key: Option<&str>) -> (r: String)
        ensures
            r@ == display_name(signature.name@, signature.paths@.len(), opt_view(file_name), opt_view(root_key)),
    {
        let mut out = chars_of(signature.name.as_str());
        match root_key {
            Some(key) => {
                append_text(&mut out, " (");
                append_text(&mut out, key);
                append_text(&mut out, ")");
            },
            None => {
                if signature.paths.len() > 1 {
                    append_text(&mut out, " (");
                    match file_name {
                        Some(f) => append_text(&mut out, f),
                        None => {
                            assert(out@ =~= out@ + Seq::<char>::empty());
                        },
                    }
                    append_text(&mut out, ")");
                }
            },
        }
        string_of(out.as_slice())
    }

    /// The item that stands for a selector match the walk could not inspect:
    /// it is reported, unavailable and blocked, so the gap is visible rather
    /// than silently missing. `file_name` is the path's final component, when
    /// it has one.
    pub fn unavailable_selector_item(
        signature: &Signature,
        path: &str,
        file_name: Option<&str>,
        idx: usize,
        fail_idx: usize,
        fail_count: usize,
        reason: String,
        gate: EligibilityGate,
    ) -> (r: ScanItem)
        requires
            idx <= u64::MAX,
            fail_idx <= u64::MAX,
        ensures
            r.id@ == unavailable_item_id(signature.id@, signature.paths@.len(), idx as nat, fail_idx as nat, fail_count as nat),
            r.signature_id@ == signature.id@,
            r.name@ == (match file_name {
                Some(f) => if f@.len() == 0 || f@ == signature.name@ {
                    signature.name@
                } else {
                    signature.name@ + " ("@ + f@ + ")"@
                },
                None => signature.name@,
            }),
            r.category == signature.category,
            r.risk == signature.risk,
            r.path@ == path@,
            r.size == FileSize::spec_zero(),
            r.file_count == 0,
            r.description@ == if signature.min_age_days is Some {
                signature.description@ + age_unverified_note()
            } else {
                signature.description@
            },
            r.cache_metadata.size_semantics == CacheSizeSemantics::Informational,
            r.disposition.eligibility == spec_eligibility(unavailable_facts(*signature, FileSize::spec_zero(), gate)),
            r.disposition.cleanable_bytes is None,
            r.disposition.reason == Some(reason),
            r.unit.kind == derived_unit_kind(signature.unit, signature.min_age_days, signature.strategy),
            r.unit.root@ == path@,
            r.unit.path@ == path@,
            r.entry_kind == EntryKind::Directory,
            r.gate == gate,
            !r.owner_running,
            !r.is_selected,
            r.last_modified is None,
            r.exists,
            r.quality == ObservationQuality::Unavailable,
            r.incomplete_reason == Some(reason),
            r.skipped_entry_count == 1,
    {
        let display: String = match file_name {
            Some(f) => {
                if f.unicode_len() == 0 || equal_text(f, signature.name.as_str()) {
                    signature.name.clone()
                } else {
                    let mut n = chars_of(signature.name.as_str());
                    append_text(&mut n, " (");
                    append_text(&mut n, f);
                    append_text(&mut n, ")");
                    string_of(n.as_slice())
                }
            },
            None => signature.name.clone(),
        };
        let mut id = chars_of(signature.id.as_str());
        if fail_count > 1 {
            append_text(&mut id, ".");
            append_decimal(&mut id, idx as u64);
            append_text(&mut id, ".unavailable.");
            append_decimal(&mut id, fail_idx as u64);
        } else if signature.paths.len() > 1 {
            append_text(&mut id, ".");
            append_decimal(&mut id, idx as u64);
            append_text(&mut id, ".unavailable");
        } else {
            append_text(&mut id, ".unavailable");
        }
        let description = if signature.min_age_days.is_some() {
            let mut d = chars_of(signature.description.as_str());
            append_text(&mut d, " Age eligibility could not be verified, so cleanup is blocked.");
            string_of(d.as_slice())
        } else {
            signature.description.clone()
        };
        Self::unavailable_item(
            signature,
            path,
            string_of(id.as_slice()),
            display,
            FileSize::zero(),
            0,
            None,
            1,
            description,
            reason,
            gate,
            false,
        )
    }

    /// The item that stands for an aged candidate whose age could not be
    /// verified: reported, unavailable and blocked, its size informational.
    pub fn unavailable_aged_item(
        signature: &Signature,
        path: &str,
        id: String,
        name: String,
        size: FileSize,
        file_count: usize,
        last_modified: Option<u64>,
        skipped_entry_count: u64,
        reason: String,
        gate: EligibilityGate,
        owner_running: bool,
    ) -> (r: ScanItem)
        ensures
            r.id == id,
            r.signature_id@ == signature.id@,
            r.name == name,
            r.category == signature.category,
            r.risk == signature.risk,
            r.path@ == path@,
            r.size == size,
            r.file_count == file_count,
            r.description@ == signature.description@ + age_unverified_note(),
            r.cache_metadata.size_semantics == CacheSizeSemantics::Informational,
            r.disposition.eligibility == spec_eligibility(unavailable_facts(*signature, size, gate)),
            r.disposition.cleanable_bytes is None,
            r.disposition.reason == Some(reason),
            r.unit.kind == derived_unit_kind(signature.unit, signature.min_age_days, signature.strategy),
            r.unit.root@ == path@,
            r.unit.path@ == path@,
            r.entry_kind == EntryKind::Directory,
            r.gate == gate,
            r.owner_running == owner_running,
            !r.is_selected,
            r.last_modified == last_modified,
            r.exists,
            r.quality == ObservationQuality::Unavailable,
            r.incomplete_reason == Some(reason),
            r.skipped_entry_count == skipped_entry_count,
    {
        let mut d = chars_of(signature.description.as_str());
        append_text(&mut d, " Age eligibility could not be verified, so cleanup is blocked.");
        let description = string_of(d.as_slice());
        Self::unavailable_item(
            signature,
            path,
            id,
            name,
            size,
            file_count,
            last_modified,
            skipped_entry_count,
            description,
            reason,
            gate,
            owner_running,
        )
    }

    fn unavailable_item(
        signature: &Signature,
        path: &str,
        id: String,
        name: String,
        size: FileSize,
        file_count: usize,
        last_modified: Option<u64>,
        skipped_entry_count: u64,
        description: String,
        reason: String,
        gate: EligibilityGate,
        owner_running: bool,
    ) -> (r: ScanItem)
        ensures
            r.id == id,
            r.signature_id@ == signature.id@,
            r.name == name,
            r.category == signature.category,
            r.risk == signature.risk,
            r.path@ == path@,
            r.size == size,
            r.file_count == file_count,
            r.description == description,
            r.cache_metadata.size_semantics == CacheSizeSemantics::Informational,
            r.disposition.eligibility == spec_eligibility(unavailable_facts(*signature, size, gate)),
            r.disposition.cleanable_bytes is None,
            r.disposition.reason == Some(reason),
            r.unit.kind == derived_unit_kind(signature.unit, signature.min_age_days, signature.strategy),
            r.unit.root@ == path@,
            r.unit.path@ == path@,
            r.entry_kind == EntryKind::Directory,
            r.gate == gate,
            r.owner_running == owner_running,
            !r.is_selected,
            r.last_modified == last_modified,
            r.exists,
            r.quality == ObservationQuality::Unavailable,
            r.incomplete_reason == Some(reason),
            r.skipped_entry_count == skipped_entry_count,
    {
        let cache_metadata = CacheMetadata { size_semantics: CacheSizeSemantics::Informational };
        let facts = DispositionFacts {
            risk: signature.risk,
            quality: ObservationQuality::Unavailable,
            size_semantics: CacheSizeSemantics::Informational,
            size,
            gate,
            owner_running: false,
            age: None,
            stale: None,
            structured_state: None,
        };
        let disposition = derive_cleanup_disposition(&facts, Some(reason.clone()));
        let path_text = string_of(chars_of(path).as_slice());
        ScanItem {
            id,
            signature_id: signature.id.clone(),
            name,
            category: signature.category,
            risk: signature.risk,
            path: path_text.clone(),
            size,
            file_count,
            description,
            cache_metadata,
            disposition,
            unit: CleanupUnit { kind: signature.unit_kind(), root: path_text.clone(), path: path_text },
            age: None,
            stale: None,
            structured_state: None,
            entry_kind: EntryKind::Directory,
            gate,
            owner_running,
            is_selected: false,
            last_modified,
            exists: true,
            quality: ObservationQuality::Unavailable,
            incomplete_reason: Some(reason),
            skipped_entry_count,
        }
    }
}

/// The number of bytes in one unit of the scale `k` (KB for 1, MB for 2, …).
pub open spec fn scale(k: nat) -> nat
    decreases k,
{
    if k == 0 {
        1
    } else {
        1024 * scale((k - 1) as nat)
    }
}

/// The largest unit a byte count reaches, up to TB.
pub open spec fn unit_of(bytes: nat) -> nat {
    if bytes >= scale(4) {
        4
    } else if bytes >= scale(3) {
        3
    } else if bytes >= scale(2) {
        2
    } else if bytes >= scale(1) {
        1
    } else {
        0
    }
}

/// The unit's name.
pub open spec fn unit_name(k: nat) -> Seq<char> {
    if k == 4 {
        "TB"@
    } else if k == 3 {
        "GB"@
    } else if k == 2 {
        "MB"@
    } else {
        "KB"@
    }
}

/// `bytes` in tenths of the unit of scale `k`, rounded to nearest, ties to
/// even.
pub open spec fn tenths(bytes: nat, k: nat) -> nat {
    let q = bytes * 10 / scale(k);
    let r = bytes * 10 % scale(k);
    if 2 * r > scale(k) || (2 * r == scale(k) && q % 2 == 1) {
        q + 1
    } else {
        q
    }
}

/// A byte count for people: below a KB as `N B`; otherwise in the largest
/// unit it reaches, with one decimal that is dropped when it is zero.
pub open spec fn readable_bytes(bytes: nat) -> Seq<char> {
    let k = unit_of(bytes);
    if k == 0 {
        decimal(bytes) + " B"@
    } else {
        let t = tenths(bytes, k);
        let whole = decimal(t / 10);
        let number = if t % 10 == 0 {
            whole
        } else {
            whole + "."@ + seq![digit_char(t % 10)]
        };
        number + " "@ + unit_name(k)
    }
}

/// A byte count for people.
pub fn format_bytes(bytes: u64) -> (r: String)
    ensures
        r@ == readable_bytes(bytes as nat),
{
    assert(scale(1) == 1024 && scale(2) == 1048576 && scale(3) == 1073741824 && scale(4)
        == 1099511627776) by {
        reveal_with_fuel(scale, 5);
    }
    let (divisor, k, unit): (u128, u64, &str) = if bytes >= 1099511627776 {
        (1099511627776, 4, "TB")
    } else if bytes >= 1073741824 {
        (1073741824, 3, "GB")
    } else if bytes >= 1048576 {
        (1048576, 2, "MB")
    } else if bytes >= 1024 {
        (1024, 1, "KB")
    } else {
        let mut out: Vec<char> = Vec::new();
        append_decimal(&mut out, bytes);
        append_text(&mut out, " B");
        return string_of(out.as_slice());
    };
    let scaled: u128 = (bytes as u128) * 10;
    let q = scaled / divisor;
    let rem = scaled % divisor;
    let t: u128 = if 2 * rem > divisor || (2 * rem == divisor && q % 2 == 1) {
        q + 1
    } else {
        q
    };
    assert(t == tenths(bytes as nat, k as nat));
    assert(t / 10 <= u64::MAX) by (nonlinear_arith)
        requires
            t <= scaled / divisor + 1,
            divisor >= 1024,
            scaled == bytes * 10,
            bytes <= u64::MAX,
    ;
    let whole = (t / 10) as u64;
    let frac = (t % 10) as u64;
    let mut out: Vec<char> = Vec::new();
    append_decimal(&mut out, whole);
    if frac != 0 {
        append_text(&mut out, ".");
        let d = decimal_text(frac);
        assert(decimal(frac as nat) == seq![digit_char(frac as nat)]);
        append_text(&mut out, d.as_str());
    }
    append_text(&mut out, " ");
    append_text(&mut out, unit);
    string_of(out.as_slice())
}

/// What one walk of a tree found.
pub struct TreeStats {
    /// Bytes in files whose own age satisfies the stale-entry policy.
    pub stale_bytes: u64,
    /// How many files that subset holds.
    pub stale_file_count: u64,
    pub logical: u64,
    pub allocated: u64,
    pub file_count: usize,
    /// The newest modification time seen, in seconds since the epoch.
    pub newest_mtime: Option<u64>,
    pub complete: bool,
    pub incomplete_reason: Option<String>,
    /// Entries the walk did not account for: excluded, blacklisted,
    /// protected, unreadable, or beyond the depth limit.
    pub skipped_entries: u64,
}

/// The later of two optional times.
pub open spec fn newest(a: Option<u64>, b: Option<u64>) -> Option<u64> {
    match (a, b) {
        (Some(x), Some(y)) => Some(if x >= y { x } else { y }),
        (Some(x), None) => Some(x),
        (None, y) => y,
    }
}

impl TreeStats {
    /// Nothing walked yet: complete and empty.
    pub fn empty() -> (r: Self)
        ensures
            r.stale_bytes == 0 && r.stale_file_count == 0 && r.logical == 0 && r.allocated == 0,
            r.file_count == 0,
            r.newest_mtime is None,
            r.complete,
            r.incomplete_reason is None,
            r.skipped_entries == 0,
    {
        TreeStats {
            stale_bytes: 0,
            stale_file_count: 0,
            logical: 0,
            allocated: 0,
            file_count: 0,
            newest_mtime: None,
            complete: true,
            incomplete_reason: None,
            skipped_entries: 0,
        }
    }

    /// A walk that stopped at its root for `reason`: incomplete, with the
    /// root skipped.
    pub fn stopped(reason: String) -> (r: Self)
        ensures
            r.stale_bytes == 0 && r.stale_file_count == 0 && r.logical == 0 && r.allocated == 0,
            r.file_count == 0,
            r.newest_mtime is None,
            !r.complete,
            r.incomplete_reason == Some(reason),
            r.skipped_entries == 1,
    {
        TreeStats {
            stale_bytes: 0,
            stale_file_count: 0,
            logical: 0,
            allocated: 0,
            file_count: 0,
            newest_mtime: None,
            complete: false,
            incomplete_reason: Some(reason),
            skipped_entries: 1,
        }
    }

    /// One file or link: its sizes, its time, and whether the stale policy
    /// admits it.
    pub fn file(logical: u64, allocated: u64, modified: Option<u64>, stale: bool) -> (r: Self)
        ensures
            r.logical == logical,
            r.allocated == allocated,
            r.file_count == 1,
            r.newest_mtime == modified,
            r.stale_bytes == if stale { allocated } else { 0 },
            r.stale_file_count == if stale { 1u64 } else { 0 },
            r.complete,
            r.incomplete_reason is None,
            r.skipped_entries == 0,
    {
        TreeStats {
            stale_bytes: if stale { allocated } else { 0 },
            stale_file_count: if stale { 1 } else { 0 },
            logical,
            allocated,
            file_count: 1,
            newest_mtime: modified,
            complete: true,
            incomplete_reason: None,
            skipped_entries: 0,
        }
    }

    /// Counts one entry the walk did not account for.
    pub fn skip_entry(&mut self)
        requires
            old(self).skipped_entries < u64::MAX,
        ensures
            final(self).skipped_entries == old(self).skipped_entries + 1,
            final(self).complete == old(self).complete,
            final(self).incomplete_reason == old(self).incomplete_reason,
            final(self).logical == old(self).logical,
            final(self).allocated == old(self).allocated,
            final(self).file_count == old(self).file_count,
            final(self).newest_mtime == old(self).newest_mtime,
            final(self).stale_bytes == old(self).stale_bytes,
            final(self).stale_file_count == old(self).stale_file_count,
    {
        self.skipped_entries = self.skipped_entries + 1;
    }

    /// Notes that the walk missed something: incomplete, keeping the first
    /// reason.
    pub fn note_incomplete(&mut self, reason: String)
        ensures
            !final(self).complete,
            final(self).incomplete_reason == if old(self).incomplete_reason is Some {
                old(self).incomplete_reason
            } else {
                Some(reason)
            },
            final(self).skipped_entries == old(self).skipped_entries,
            final(self).logical == old(self).logical,
            final(self).allocated == old(self).allocated,
            final(self).file_count == old(self).file_count,
            final(self).newest_mtime == old(self).newest_mtime,
            final(self).stale_bytes == old(self).stale_bytes,
            final(self).stale_file_count == old(self).stale_file_count,
    {
        self.complete = false;
        if self.incomplete_reason.is_none() {
            self.incomplete_reason = Some(reason);
        }
    }

    /// Folds a child's statistics into its parent's: sizes and counts add,
    /// saturating, the newest time wins, and an incomplete child makes the
    /// parent incomplete, keeping the parent's first reason.
    pub fn absorb(&mut self, child: TreeStats)
        ensures
            *final(self) == absorbed(*old(self), child),
    {
        if !child.complete {
            self.complete = false;
            if self.incomplete_reason.is_none() {
                self.incomplete_reason = child.incomplete_reason;
            }
        }
        self.logical = self.logical.saturating_add(child.logical);
        self.allocated = self.allocated.saturating_add(child.allocated);
        self.file_count = self.file_count.saturating_add(child.file_count);
        self.stale_bytes = self.stale_bytes.saturating_add(child.stale_bytes);
        self.stale_file_count = self.stale_file_count.saturating_add(child.stale_file_count);
        self.skipped_entries = self.skipped_entries.saturating_add(child.skipped_entries);
        self.newest_mtime = match (self.newest_mtime, child.newest_mtime) {
            (Some(x), Some(y)) => Some(if x >= y { x } else { y }),
            (Some(x), None) => Some(x),
            (None, y) => y,
        };
    }

    /// One file or link measured at `now`: its sizes and time, stale when
    /// the stale-entry policy of `min_age_days` admits it.
    pub fn leaf(logical: u64, allocated: u64, modified: Option<u64>, now: u64, min_age_days: Option<u32>) -> (r:
        Self)
        ensures
            r == leaf_stats(logical, allocated, modified, stale_entry(modified, now, min_age_days)),
    {
        let stale = match (min_age_days, modified) {
            (Some(days), Some(at)) => now >= at && now - at >= (days as u64) * 86400,
            _ => false,
        };
        TreeStats::file(logical, allocated, modified, stale)
    }
}

/// A child's statistics folded into its parent's.
pub open spec fn absorbed(parent: TreeStats, child: TreeStats) -> TreeStats {
    TreeStats {
        stale_bytes: sat_add(parent.stale_bytes, child.stale_bytes),
        stale_file_count: sat_add(parent.stale_file_count, child.stale_file_count),
        logical: sat_add(parent.logical, child.logical),
        allocated: sat_add(parent.allocated, child.allocated),
        file_count: sat_add_usize(parent.file_count, child.file_count),
        newest_mtime: newest(parent.newest_mtime, child.newest_mtime),
        complete: parent.complete && child.complete,
        incomplete_reason: if !child.complete && parent.incomplete_reason is None {
            child.incomplete_reason
        } else {
            parent.incomplete_reason
        },
        skipped_entries: sat_add(parent.skipped_entries, child.skipped_entries),
    }
}

/// A file is stale at `now` under a policy of `min_age_days` days when its
/// own modification time is known and at least that many days old; a clock
/// that went back makes nothing stale, and without a policy nothing is.
pub open spec fn stale_entry(modified: Option<u64>, now: u64, min_age_days: Option<u32>) -> bool {
    match (min_age_days, modified) {
        (Some(days), Some(at)) => now >= at && now - at >= days * 86400,
        _ => false,
    }
}

/// The statistics of one file or link.
pub open spec fn leaf_stats(logical: u64, allocated: u64, modified: Option<u64>, stale: bool) -> TreeStats {
    TreeStats {
        stale_bytes: if stale { allocated } else { 0 },
        stale_file_count: if stale { 1 } else { 0 },
        logical,
        allocated,
        file_count: 1,
        newest_mtime: modified,
        complete: true,
        incomplete_reason: None,
        skipped_entries: 0,
    }
}

/// The walk of a tree stops at `path` before reading it: when the scan was
/// cancelled, or when `path` lies beyond the depth limit.
pub fn tree_precheck(path: &str, depth: usize, max_depth: usize, cancelled: bool) -> (r: Option<TreeStats>)
    ensures
        cancelled ==> (r matches Some(s) && s == stopped_stats(s.incomplete_reason->0) && s.incomplete_reason
            is Some && s.incomplete_reason->0@ == "Scan cancelled while measuring "@ + path@),
        !cancelled && depth > max_depth ==> (r matches Some(s) && s == stopped_stats(s.incomplete_reason->0)
            && s.incomplete_reason is Some && s.incomplete_reason->0@ == "Directory depth limit of "@ + decimal(
            max_depth as nat,
        ) + " exceeded at "@ + path@),
        !cancelled && depth <= max_depth ==> r is None,
{
    if cancelled {
        let mut v: Vec<char> = Vec::new();
        append_text(&mut v, "Scan cancelled while measuring ");
        append_text(&mut v, path);
        assert(v@ =~= "Scan cancelled while measuring "@ + path@);
        return Some(TreeStats::stopped(string_of(v.as_slice())));
    }
    if depth > max_depth {
        let mut v: Vec<char> = Vec::new();
        append_text(&mut v, "Directory depth limit of ");
        let d = decimal_text(max_depth as u64);
        append_text(&mut v, d.as_str());
        append_text(&mut v, " exceeded at ");
        append_text(&mut v, path);
        assert(v@ =~= "Directory depth limit of "@ + decimal(max_depth as nat) + " exceeded at "@ + path@);
        return Some(TreeStats::stopped(string_of(v.as_slice())));
    }
    None
}

/// The statistics of a walk that stopped at its root for `reason`.
pub open spec fn stopped_stats(reason: String) -> TreeStats {
    TreeStats {
        stale_bytes: 0,
        stale_file_count: 0,
        logical: 0,
        allocated: 0,
        file_count: 0,
        newest_mtime: None,
        complete: false,
        incomplete_reason: Some(reason),
        skipped_entries: 1,
    }
}

/// What one entry of a directory turned out to be, as the tree walk that
/// reads the directory observed it, in listing order.
pub enum TreeEvent {
    /// The scan was cancelled before this entry was read; the walk stops.
    Cancelled,
    /// The directory listing failed to produce this entry.
    Unreadable { error: String },
    /// The entry, named `name` at `path`, as the walk found it: measured by
    /// the same walk one level deeper unless an exclusion covers it.
    Entry { name: Option<String>, path: String, stats: Option<TreeStats> },
}

/// The running statistics of one directory of a tree walk.
pub struct TreeTally {
    pub stats: TreeStats,
    /// The walk saw a cancellation and reads no further entries.
    pub stopped: bool,
}

/// A failure of the tree walk: incomplete, one more skipped entry, and the
/// reason unless an earlier one is kept.
pub open spec fn tree_failed(s: TreeStats, reason: Seq<char>, kept: String) -> TreeStats {
    TreeStats {
        complete: false,
        skipped_entries: sat_add(s.skipped_entries, 1),
        incomplete_reason: if s.incomplete_reason is None { Some(kept) } else { s.incomplete_reason },
        ..s
    }
}

impl TreeTally {
    /// The tally of a directory modified at `modified` whose entries have
    /// not been read yet.
    pub fn new(modified: Option<u64>) -> (t: Self)
        ensures
            t.stats == (TreeStats {
                stale_bytes: 0,
                stale_file_count: 0,
                logical: 0,
                allocated: 0,
                file_count: 0,
                newest_mtime: modified,
                complete: true,
                incomplete_reason: None,
                skipped_entries: 0,
            }),
            !t.stopped,
    {
        let mut stats = TreeStats::empty();
        stats.newest_mtime = modified;
        TreeTally { stats, stopped: false }
    }

    fn fail_with(&mut self, reason: String)
        ensures
            final(self).stopped == old(self).stopped,
            final(self).stats == tree_failed(old(self).stats, reason@, reason),
    {
        self.stats.complete = false;
        self.stats.skipped_entries = self.stats.skipped_entries.saturating_add(1);
        if self.stats.incomplete_reason.is_none() {
            self.stats.incomplete_reason = Some(reason);
        }
    }

    /// Accounts for one entry of the directory `dir`, whose exclusions are
    /// `exclusions`.
    ///
    /// A cancellation stops the walk, skips one entry and makes it
    /// incomplete; an unreadable entry skips one entry and makes it
    /// incomplete; an entry an exclusion covers is skipped; any other entry
    /// folds in what the walk measured of it (nothing, if it was not
    /// measured). The first reason recorded is kept. A tally that has
    /// stopped accounts for nothing more.
    pub fn observe(&mut self, dir: &str, exclusions: &[String], event: TreeEvent)
        ensures
            old(self).stopped ==> *final(self) == *old(self),
            !old(self).stopped ==> match event {
                TreeEvent::Cancelled => final(self).stopped && final(self).stats.incomplete_reason is Some
                    && final(self).stats == tree_failed(
                    old(self).stats,
                    "Scan cancelled while measuring "@ + dir@,
                    final(self).stats.incomplete_reason->0,
                ) && (old(self).stats.incomplete_reason is None
                    ==> final(self).stats.incomplete_reason->0@ == "Scan cancelled while measuring "@ + dir@),
                TreeEvent::Unreadable { error } => !final(self).stopped
                    && final(self).stats.incomplete_reason is Some && final(self).stats == tree_failed(
                    old(self).stats,
                    "Failed to read entry in "@ + dir@ + ": "@ + error@,
                    final(self).stats.incomplete_reason->0,
                ) && (old(self).stats.incomplete_reason is None
                    ==> final(self).stats.incomplete_reason->0@ == "Failed to read entry in "@ + dir@ + ": "@
                    + error@),
                TreeEvent::Entry { name, path, stats } => !final(self).stopped && if entry_excluded(
                    match name {
                        Some(n) => Some(n@),
                        None => None,
                    },
                    path@,
                    exclusions@,
                ) {
                    final(self).stats == (TreeStats {
                        skipped_entries: sat_add(old(self).stats.skipped_entries, 1),
                        ..old(self).stats
                    })
                } else {
                    match stats {
                        Some(child) => final(self).stats == absorbed(old(self).stats, child),
                        None => final(self).stats == old(self).stats,
                    }
                },
            },
    {
        if self.stopped {
            return;
        }
        match event {
            TreeEvent::Cancelled => {
                let mut v: Vec<char> = Vec::new();
                append_text(&mut v, "Scan cancelled while measuring ");
                append_text(&mut v, dir);
                let reason = string_of(v.as_slice());
                proof {
                    assert(reason@ =~= "Scan cancelled while measuring "@ + dir@);
                }
                self.fail_with(reason);
                self.stopped = true;
            },
            TreeEvent::Unreadable { error } => {
                let mut v: Vec<char> = Vec::new();
                append_text(&mut v, "Failed to read entry in ");
                append_text(&mut v, dir);
                append_text(&mut v, ": ");
                append_text(&mut v, error.as_str());
                let reason = string_of(v.as_slice());
                proof {
                    assert(reason@ =~= "Failed to read entry in "@ + dir@ + ": "@ + error@);
                }
                self.fail_with(reason);
            },
            TreeEvent::Entry { name, path, stats } => {
                let excluded = match &name {
                    Some(n) => is_excluded_entry(Some(n.as_str()), path.as_str(), exclusions),
                    None => is_excluded_entry(None, path.as_str(), exclusions),
                };
                if excluded {
                    self.stats.skipped_entries = self.stats.skipped_entries.saturating_add(1);
                } else {
                    match stats {
                        Some(child) => self.stats.absorb(child),
                        None => {},
                    }
                }
            },
        }
    }

    /// The directory's statistics.
    pub fn finish(self) -> (r: TreeStats)
        ensures
            r == self.stats,
    {
        self.stats
    }
}

/// The identity of the item for a fixed unit: the signature id, then the
/// pattern's index when the signature has several patterns, then the
/// selected key.
pub open spec fn fixed_unit_id(signature_id: Seq<char>, path_count: nat, idx: nat, root_key: Option<Seq<char>>) -> Seq<
    char,
> {
    let indexed = if path_count > 1 {
        signature_id + "."@ + decimal(idx)
    } else {
        signature_id
    };
    match root_key {
        Some(key) => indexed + "."@ + key,
        None => indexed,
    }
}

/// How complete a fixed unit's observation is: fresh when the path is
/// absent or measured completely; otherwise unavailable when nothing was
/// measured, and partial when something was.
pub open spec fn fixed_quality(present: bool, m: PathMeasurement) -> ObservationQuality {
    if !present || m.complete {
        ObservationQuality::Fresh
    } else if m.size.spec_observed() == 0 {
        ObservationQuality::Unavailable
    } else {
        ObservationQuality::Partial
    }
}

/// Why a fixed unit's observation is incomplete: the measurement's reason,
/// or a stated one when it gave none.
pub open spec fn fixed_reason(present: bool, m: PathMeasurement) -> Option<Seq<char>> {
    if !present || m.complete {
        None
    } else {
        match m.incomplete_reason {
            Some(reason) => Some(reason@),
            None => Some(
                if m.size.spec_observed() == 0 {
                    "Inaccessible path; read failed"@
                } else {
                    "Incomplete scan; some entries could not be read"@
                },
            ),
        }
    }
}

/// The size semantics of a fixed unit: a partial measurement is a lower
/// bound, an unavailable one only informs, and a fresh one keeps the
/// signature's.
pub open spec fn fixed_semantics(base: CacheSizeSemantics, quality: ObservationQuality) -> CacheSizeSemantics {
    match quality {
        ObservationQuality::Partial => CacheSizeSemantics::ConservativeLowerBound,
        ObservationQuality::Unavailable => CacheSizeSemantics::Informational,
        _ => base,
    }
}

/// The signature's own size semantics.
pub open spec fn signature_semantics(signature: Signature) -> CacheSizeSemantics {
    if signature.reclaimable_is_lower_bound {
        CacheSizeSemantics::ConservativeLowerBound
    } else {
        CacheSizeSemantics::Exact
    }
}

impl DirectoryScanner {
    /// The item for a root that is itself the cleanup unit, from what the
    /// walk measured of it: `present` says whether the path was there,
    /// `entry_kind` what it is, and `last_modified` its time when known.
    /// The observation's quality and reason follow from the measurement, the
    /// size semantics from the quality, and the disposition from those facts;
    /// nothing is selected here.
    pub fn fixed_unit_item(
        signature: &Signature,
        path: &str,
        file_name: Option<&str>,
        idx: usize,
        root_key: Option<&str>,
        present: bool,
        measurement: PathMeasurement,
        entry_kind: EntryKind,
        structured_state: Option<StructuredStateKind>,
        last_modified: Option<u64>,
        gate: EligibilityGate,
    ) -> (r: ScanItem)
        requires
            idx <= u64::MAX,
        ensures
            r.id@ == fixed_unit_id(signature.id@, signature.paths@.len(), idx as nat, opt_view(root_key)),
            r.signature_id@ == signature.id@,
            r.name@ == display_name(signature.name@, signature.paths@.len(), opt_view(file_name), opt_view(root_key)),
            r.category == signature.category,
            r.risk == signature.risk,
            r.path@ == path@,
            r.size == measurement.size,
            r.file_count == measurement.file_count,
            r.description@ == signature.description@,
            r.quality == fixed_quality(present, measurement),
            (match r.incomplete_reason {
                Some(t) => Some(t@),
                None => None,
            }) == fixed_reason(present, measurement),
            r.cache_metadata.size_semantics == fixed_semantics(
                signature_semantics(*signature),
                fixed_quality(present, measurement),
            ),
            r.disposition.eligibility == spec_eligibility(r.spec_facts()),
            r.spec_has_current_disposition(),
            opt_text(r.disposition.reason) == disposition_reason(r.spec_facts(), opt_text(r.incomplete_reason)),
            r.unit.kind == derived_unit_kind(signature.unit, signature.min_age_days, signature.strategy),
            r.unit.root@ == path@,
            r.unit.path@ == path@,
            r.age is None,
            r.stale is None,
            r.structured_state == structured_state,
            r.entry_kind == entry_kind,
            r.gate == gate,
            !r.owner_running,
            !r.is_selected,
            r.last_modified == (if present {
                last_modified
            } else {
                None
            }),
            r.exists == present,
            r.skipped_entry_count == measurement.skipped_entries,
    {
        let observed = measurement.size.observed_bytes();
        let (quality, incomplete_reason) = if !present || measurement.complete {
            (ObservationQuality::Fresh, None)
        } else if observed == 0 {
            let reason = match measurement.incomplete_reason {
                Some(reason) => reason,
                None => {
                    proof {
                        reveal_strlit("Inaccessible path; read failed");
                    }
                    String::from_str("Inaccessible path; read failed")
                },
            };
            (ObservationQuality::Unavailable, Some(reason))
        } else {
            let reason = match measurement.incomplete_reason {
                Some(reason) => reason,
                None => {
                    proof {
                        reveal_strlit("Incomplete scan; some entries could not be read");
                    }
                    String::from_str("Incomplete scan; some entries could not be read")
                },
            };
            (ObservationQuality::Partial, Some(reason))
        };
        let mut cache_metadata = signature.cache_metadata();
        match quality {
            ObservationQuality::Partial => {
                cache_metadata.size_semantics = CacheSizeSemantics::ConservativeLowerBound;
            },
            ObservationQuality::Unavailable => {
                cache_metadata.size_semantics = CacheSizeSemantics::Informational;
            },
            _ => {},
        }
        let mut id = chars_of(signature.id.as_str());
        if signature.paths.len() > 1 {
            append_text(&mut id, ".");
            append_decimal(&mut id, idx as u64);
        }
        if let Some(key) = root_key {
            append_text(&mut id, ".");
            append_text(&mut id, key);
        }
        let name = Self::display_name_for(signature, file_name, root_key);
        let facts = DispositionFacts {
            risk: signature.risk,
            quality,
            size_semantics: cache_metadata.size_semantics,
            size: measurement.size,
            gate,
            owner_running: false,
            age: None,
            stale: None,
            structured_state,
        };
        let reason_copy = match &incomplete_reason {
            Some(reason) => Some(reason.clone()),
            None => None,
        };
        let disposition = derive_cleanup_disposition(&facts, reason_copy);
        let path_text = string_of(chars_of(path).as_slice());
        ScanItem {
            id: string_of(id.as_slice()),
            signature_id: signature.id.clone(),
            name,
            category: signature.category,
            risk: signature.risk,
            path: path_text.clone(),
            size: measurement.size,
            file_count: measurement.file_count,
            description: signature.description.clone(),
            cache_metadata,
            disposition,
            unit: CleanupUnit { kind: signature.unit_kind(), root: path_text.clone(), path: path_text },
            age: None,
            stale: None,
            structured_state,
            entry_kind,
            gate,
            owner_running: false,
            is_selected: false,
            last_modified: if present {
                last_modified
            } else {
                None
            },
            exists: present,
            quality,
            incomplete_reason,
            skipped_entry_count: measurement.skipped_entries,
        }
    }
}

/// What the aged walk decides for one child of an aged root.
pub enum AgedChild {
    /// The child is not reported: outside the signature's include prefixes,
    /// excluded by its namespace prefixes, or empty and unchanged for the
    /// whole window, so there is nothing a user could act on.
    Skipped,
    /// The child's tree could not be read completely, so its age cannot be
    /// proved: it is reported unavailable with this reason.
    Unverified { reason: String },
    /// The child is reported with this description; `owner_running` says an
    /// application of its name is running, and `age_satisfied` whether its
    /// whole tree is unchanged for the window.
    Reported { description: String, owner_running: bool, age_satisfied: bool },
}

/// The child's name is one the signature includes: it has no include
/// prefixes, or the name begins with one of them.
pub open spec fn included(name: Seq<char>, include_prefixes: Seq<String>) -> bool {
    include_prefixes.len() == 0 || exists|i: int|
        0 <= i < include_prefixes.len() && has_prefix(name, (#[trigger] include_prefixes[i])@)
}

/// The description of a reported aged child. A signature that removes
/// stale entries states how much of the child is stale; any other states
/// whether the whole child is unchanged for the window.
pub open spec fn aged_description(
    description: Seq<char>,
    days: u32,
    stale_mode: bool,
    stats: TreeStats,
    satisfied: bool,
) -> Seq<char> {
    if stale_mode {
        if stats.stale_file_count == 0 {
            description + " (nothing inside has been inactive for "@ + decimal(days as nat) + " days)"@
        } else {
            description + " ("@ + readable_bytes(stats.stale_bytes as nat) + " of it has been inactive for at least "@
                + decimal(days as nat) + " days)"@
        }
    } else if satisfied {
        description + " (unchanged for at least "@ + decimal(days as nat) + " days)"@
    } else {
        description + " (used within the last "@ + decimal(days as nat) + " days; kept until it is stale)"@
    }
}

/// Some running application is named `name`.
pub open spec fn owner_is_running(name: Seq<char>, running_owners: Seq<String>) -> bool {
    exists|i: int| 0 <= i < running_owners.len() && (#[trigger] running_owners[i])@ == name
}

fn names_any_owner(name: &str, running_owners: &[String]) -> (r: bool)
    ensures
        r == owner_is_running(name@, running_owners@),
{
    let mut i: usize = 0;
    while i < running_owners.len()
        invariant
            i <= running_owners@.len(),
            forall|j: int| 0 <= j < i ==> (#[trigger] running_owners@[j])@ != name@,
        decreases running_owners@.len() - i,
    {
        if equal_text(running_owners[i].as_str(), name) {
            return true;
        }
        i = i + 1;
    }
    false
}

fn is_included(name: &str, include_prefixes: &[String]) -> (r: bool)
    ensures
        r == included(name@, include_prefixes@),
{
    if include_prefixes.len() == 0 {
        return true;
    }
    let mut i: usize = 0;
    while i < include_prefixes.len()
        invariant
            i <= include_prefixes@.len(),
            include_prefixes@.len() > 0,
            forall|j: int| 0 <= j < i ==> !has_prefix(name@, (#[trigger] include_prefixes@[j])@),
        decreases include_prefixes@.len() - i,
    {
        if crate::text::text_starts_with(name, include_prefixes[i].as_str()) {
            return true;
        }
        i = i + 1;
    }
    false
}

impl DirectoryScanner {
    /// What the aged walk decides for the child `name` at `path` of an
    /// aged root, from the statistics of its tree, at `now`.
    ///
    /// A child outside the include prefixes, or under an excluded namespace
    /// prefix, is skipped. A child whose tree was not read completely cannot
    /// prove its age and is reported unavailable, with the walk's reason. A
    /// child that holds nothing and is unchanged for the window is skipped.
    /// Any other child is reported with its description, whether an
    /// application of its name is running, and whether it is unchanged for
    /// the window.
    pub fn aged_child(
        signature: &Signature,
        min_age_days: u32,
        name: &str,
        path: &str,
        stats: &TreeStats,
        now: u64,
        running_owners: &[String],
    ) -> (r: AgedChild)
        ensures
            !included(name@, signature.include_prefixes@) || namespace_excluded(
                name@,
                signature.exclude_prefixes@,
            ) ==> r is Skipped,
            included(name@, signature.include_prefixes@) && !namespace_excluded(name@, signature.exclude_prefixes@)
                ==> if !stats.complete {
                r matches AgedChild::Unverified { reason } && reason@ == match stats.incomplete_reason {
                    Some(t) => t@,
                    None => "Could not completely inspect "@ + path@,
                }
            } else if (FileSize { logical: stats.logical, allocated: Some(stats.allocated) }).spec_observed() == 0
                && aged_enough(stats.newest_mtime, now, min_age_days) {
                r is Skipped
            } else {
                r matches AgedChild::Reported { description, owner_running, age_satisfied }
                    && description@ == aged_description(
                    signature.description@,
                    min_age_days,
                    signature.strategy == CleanStrategy::DeleteStaleContents,
                    *stats,
                    aged_enough(stats.newest_mtime, now, min_age_days),
                ) && owner_running == owner_is_running(name@, running_owners@) && age_satisfied == aged_enough(
                    stats.newest_mtime,
                    now,
                    min_age_days,
                )
            },
    {
        if !is_included(name, signature.include_prefixes.as_slice()) {
            return AgedChild::Skipped;
        }
        if is_excluded_namespace(name, signature.exclude_prefixes.as_slice()) {
            return AgedChild::Skipped;
        }
        if !stats.complete {
            let reason = match &stats.incomplete_reason {
                Some(t) => t.clone(),
                None => {
                    let mut v: Vec<char> = Vec::new();
                    append_text(&mut v, "Could not completely inspect ");
                    append_text(&mut v, path);
                    assert(v@ =~= "Could not completely inspect "@ + path@);
                    string_of(v.as_slice())
                },
            };
            return AgedChild::Unverified { reason };
        }
        let satisfied = match stats.newest_mtime {
            Some(at) => now >= at && now - at >= (min_age_days as u64) * 86400,
            None => false,
        };
        let size = FileSize::new(stats.logical, Some(stats.allocated));
        if size.observed_bytes() == 0 && satisfied {
            return AgedChild::Skipped;
        }
        let days = decimal_text(min_age_days as u64);
        let mut v = chars_of(signature.description.as_str());
        let stale_mode = matches!(signature.strategy, CleanStrategy::DeleteStaleContents);
        if stale_mode {
            if stats.stale_file_count == 0 {
                append_text(&mut v, " (nothing inside has been inactive for ");
                append_text(&mut v, days.as_str());
                append_text(&mut v, " days)");
            } else {
                let amount = format_bytes(stats.stale_bytes);
                append_text(&mut v, " (");
                append_text(&mut v, amount.as_str());
                append_text(&mut v, " of it has been inactive for at least ");
                append_text(&mut v, days.as_str());
                append_text(&mut v, " days)");
            }
        } else if satisfied {
            append_text(&mut v, " (unchanged for at least ");
            append_text(&mut v, days.as_str());
            append_text(&mut v, " days)");
        } else {
            append_text(&mut v, " (used within the last ");
            append_text(&mut v, days.as_str());
            append_text(&mut v, " days; kept until it is stale)");
        }
        let description = string_of(v.as_slice());
        proof {
            let expected = aged_description(
                signature.description@,
                min_age_days,
                stale_mode,
                *stats,
                satisfied,
            );
            assert(description@ =~= expected);
        }
        let owner_running = names_any_owner(name, running_owners);
        AgedChild::Reported { description, owner_running, age_satisfied: satisfied }
    }
}


/// The size a measured tree reports.
pub open spec fn tree_size(stats: TreeStats) -> FileSize {
    FileSize { logical: stats.logical, allocated: Some(stats.allocated) }
}

/// The aged walk reports nothing for this child: it lies outside the
/// include prefixes, under an excluded namespace prefix, or it was read
/// completely, holds nothing, and is unchanged for the window.
pub open spec fn child_skipped(signature: Signature, min_age_days: u32, name: Seq<char>, stats: TreeStats, now: u64) -> bool {
    ||| !included(name, signature.include_prefixes@)
    ||| namespace_excluded(name, signature.exclude_prefixes@)
    ||| (stats.complete && tree_size(stats).spec_observed() == 0 && aged_enough(stats.newest_mtime, now, min_age_days))
}

/// The reason an aged tree that was not read completely carries.
pub open spec fn incomplete_tree_reason(stats: TreeStats, path: Seq<char>) -> Seq<char> {
    match stats.incomplete_reason {
        Some(t) => t@,
        None => "Could not completely inspect "@ + path,
    }
}

/// The display name of an enumerated child: its name, qualified by the
/// selected root key.
pub open spec fn child_display_name(name: Seq<char>, root_key: Option<Seq<char>>) -> Seq<char> {
    match root_key {
        Some(key) => name + " ("@ + key + ")"@,
        None => name,
    }
}

/// Whether a signature removes stale entries inside each unit.
pub open spec fn stale_mode(signature: Signature) -> bool {
    signature.strategy == CleanStrategy::DeleteStaleContents
}

/// Whether a reported item is preselected: it is cleanable without
/// confirmation and would reclaim something.
pub open spec fn preselected(item: ScanItem) -> bool {
    item.disposition.eligibility == crate::models::CleanupEligibility::AutoCleanable && match item.disposition.cleanable_bytes {
        Some(b) => b > 0,
        None => false,
    }
}

impl DirectoryScanner {
    /// The item the aged walk reports for the child `name` at `path` of the
    /// aged root `root`, from the statistics of its tree, at `now`; `idx` is
    /// the root's pattern index, `root_key` its selected key, and
    /// `structured_state` what the child's own entry holds.
    ///
    /// Nothing is reported for a skipped child. A child whose tree was not read
    /// completely is reported unavailable and blocked, under its plain name.
    /// Any other child is a fresh observation: under a stale-entry policy it
    /// carries what is stale inside it, otherwise its age verdict; its
    /// disposition follows from those facts, its owner, and its structured
    /// state, and it is preselected when it is cleanable without confirmation
    /// and would reclaim something.
    pub fn aged_child_item(
        signature: &Signature,
        min_age_days: u32,
        name: &str,
        path: &str,
        root: &str,
        idx: usize,
        root_key: Option<&str>,
        stats: &TreeStats,
        now: u64,
        running_owners: &[String],
        structured_state: Option<StructuredStateKind>,
        gate: EligibilityGate,
    ) -> (r: Option<ScanItem>)
        requires
            idx <= u64::MAX,
        ensures
            r is None <==> child_skipped(*signature, min_age_days, name@, *stats, now),
            r matches Some(item) ==> {
                &&& item.id@ == item_id(signature.id@, signature.paths@.len(), idx as nat, opt_view(root_key), Some(name@))
                &&& item.signature_id@ == signature.id@
                &&& item.category == signature.category
                &&& item.risk == signature.risk
                &&& item.path@ == path@
                &&& item.size == tree_size(*stats)
                &&& item.file_count == stats.file_count
                &&& item.last_modified == stats.newest_mtime
                &&& item.skipped_entry_count == stats.skipped_entries
                &&& item.gate == gate
                &&& item.exists
                &&& item.unit.kind == derived_unit_kind(signature.unit, signature.min_age_days, signature.strategy)
            },
            !stats.complete ==> (r matches Some(item) ==> {
                &&& item.name@ == name@
                &&& item.quality == ObservationQuality::Unavailable
                &&& opt_text(item.incomplete_reason) == Some(incomplete_tree_reason(*stats, path@))
                &&& item.description@ == signature.description@ + age_unverified_note()
                &&& item.disposition.eligibility == spec_eligibility(unavailable_facts(*signature, tree_size(*stats), gate))
                &&& item.disposition.cleanable_bytes is None
                &&& !item.owner_running
                &&& !item.is_selected
                &&& item.unit.root@ == path@
            }),
            stats.complete ==> (r matches Some(item) ==> {
                &&& item.name@ == child_display_name(name@, opt_view(root_key))
                &&& item.quality == ObservationQuality::Fresh
                &&& item.incomplete_reason is None
                &&& item.description@ == aged_description(
                    signature.description@,
                    min_age_days,
                    stale_mode(*signature),
                    *stats,
                    aged_enough(stats.newest_mtime, now, min_age_days),
                )
                &&& item.owner_running == owner_is_running(name@, running_owners@)
                &&& item.stale == if stale_mode(*signature) {
                    Some(
                        StaleEntryObservation {
                            min_age_days,
                            stale_bytes: stats.stale_bytes,
                            stale_file_count: stats.stale_file_count,
                        },
                    )
                } else {
                    None
                }
                &&& item.age == if stale_mode(*signature) {
                    None
                } else {
                    Some(AgeObservation { min_age_days, satisfied: aged_enough(stats.newest_mtime, now, min_age_days) })
                }
                &&& item.structured_state == structured_state
                &&& item.cache_metadata.size_semantics == signature_semantics(*signature)
                &&& item.disposition.eligibility == spec_eligibility(item.spec_facts())
                &&& item.spec_has_current_disposition()
                &&& opt_text(item.disposition.reason) == disposition_reason(item.spec_facts(), None)
                &&& item.is_selected == preselected(item)
                &&& item.unit.root@ == root@
                &&& item.unit.path@ == path@
            }),
    {
        let decision = Self::aged_child(signature, min_age_days, name, path, stats, now, running_owners);
        let size = FileSize::new(stats.logical, Some(stats.allocated));
        let id = Self::item_id_for(signature, idx, root_key, Some(name));
        match decision {
            AgedChild::Skipped => None,
            AgedChild::Unverified { reason } => {
                let plain = string_of(chars_of(name).as_slice());
                Some(
                    Self::unavailable_aged_item(
                        signature,
                        path,
                        id,
                        plain,
                        size,
                        stats.file_count,
                        stats.newest_mtime,
                        stats.skipped_entries,
                        reason,
                        gate,
                        false,
                    ),
                )
            },
            AgedChild::Reported { description, owner_running, age_satisfied } => {
                let stale = if matches!(signature.strategy, CleanStrategy::DeleteStaleContents) {
                    Some(
                        StaleEntryObservation {
                            min_age_days,
                            stale_bytes: stats.stale_bytes,
                            stale_file_count: stats.stale_file_count,
                        },
                    )
                } else {
                    None
                };
                let age = if stale.is_none() {
                    Some(AgeObservation { min_age_days, satisfied: age_satisfied })
                } else {
                    None
                };
                let cache_metadata = signature.cache_metadata();
                let facts = DispositionFacts {
                    risk: signature.risk,
                    quality: ObservationQuality::Fresh,
                    size_semantics: cache_metadata.size_semantics,
                    size,
                    gate,
                    owner_running,
                    age,
                    stale,
                    structured_state,
                };
                let disposition = derive_cleanup_disposition(&facts, None);
                let is_selected = matches!(disposition.eligibility, crate::models::CleanupEligibility::AutoCleanable)
                    && match disposition.cleanable_bytes {
                    Some(b) => b > 0,
                    None => false,
                };
                let mut shown = chars_of(name);
                if let Some(key) = root_key {
                    append_text(&mut shown, " (");
                    append_text(&mut shown, key);
                    append_text(&mut shown, ")");
                }
                let path_text = string_of(chars_of(path).as_slice());
                let root_text = string_of(chars_of(root).as_slice());
                Some(
                    ScanItem {
                        id,
                        signature_id: signature.id.clone(),
                        name: string_of(shown.as_slice()),
                        category: signature.category,
                        risk: signature.risk,
                        path: path_text.clone(),
                        size,
                        file_count: stats.file_count,
                        description,
                        cache_metadata,
                        disposition,
                        unit: CleanupUnit { kind: signature.unit_kind(), root: root_text, path: path_text },
                        age,
                        stale,
                        structured_state,
                        entry_kind: EntryKind::Directory,
                        gate,
                        owner_running,
                        is_selected,
                        last_modified: stats.newest_mtime,
                        exists: true,
                        quality: ObservationQuality::Fresh,
                        incomplete_reason: None,
                        skipped_entry_count: stats.skipped_entries,
                    },
                )
            },
        }
    }
}


impl DirectoryScanner {
    /// The item for a root that is itself an aged unit — a named subtree
    /// removed whole — from the statistics of its tree, at `now`;
    /// `file_name` is the root's final component, `entry_kind` and
    /// `structured_state` what its own entry is and holds.
    ///
    /// A tree that was not read completely cannot prove its age: the root is
    /// reported unavailable and blocked. Otherwise it is a fresh observation
    /// carrying its age verdict, whose disposition follows from that verdict
    /// and its structured state; nothing is selected here.
    pub fn aged_unit_item(
        signature: &Signature,
        min_age_days: u32,
        path: &str,
        file_name: Option<&str>,
        idx: usize,
        root_key: Option<&str>,
        stats: &TreeStats,
        now: u64,
        entry_kind: EntryKind,
        structured_state: Option<StructuredStateKind>,
        gate: EligibilityGate,
    ) -> (r: ScanItem)
        requires
            idx <= u64::MAX,
        ensures
            r.id@ == item_id(signature.id@, signature.paths@.len(), idx as nat, opt_view(root_key), None),
            r.name@ == display_name(signature.name@, signature.paths@.len(), opt_view(file_name), opt_view(root_key)),
            r.signature_id@ == signature.id@,
            r.category == signature.category,
            r.risk == signature.risk,
            r.path@ == path@,
            r.size == tree_size(*stats),
            r.file_count == stats.file_count,
            r.last_modified == stats.newest_mtime,
            r.skipped_entry_count == stats.skipped_entries,
            r.gate == gate,
            r.exists,
            !r.owner_running,
            !r.is_selected,
            r.unit.kind == derived_unit_kind(signature.unit, signature.min_age_days, signature.strategy),
            r.unit.root@ == path@,
            r.unit.path@ == path@,
            !stats.complete ==> {
                &&& r.quality == ObservationQuality::Unavailable
                &&& opt_text(r.incomplete_reason) == Some(incomplete_tree_reason(*stats, path@))
                &&& r.description@ == signature.description@ + age_unverified_note()
                &&& r.disposition.eligibility == spec_eligibility(unavailable_facts(*signature, tree_size(*stats), gate))
                &&& r.disposition.cleanable_bytes is None
            },
            stats.complete ==> {
                &&& r.quality == ObservationQuality::Fresh
                &&& r.incomplete_reason is None
                &&& r.description@ == aged_description(
                    signature.description@,
                    min_age_days,
                    false,
                    *stats,
                    aged_enough(stats.newest_mtime, now, min_age_days),
                )
                &&& r.age == Some(
                    AgeObservation { min_age_days, satisfied: aged_enough(stats.newest_mtime, now, min_age_days) },
                )
                &&& r.stale is None
                &&& r.structured_state == structured_state
                &&& r.entry_kind == entry_kind
                &&& r.cache_metadata.size_semantics == signature_semantics(*signature)
                &&& r.disposition.eligibility == spec_eligibility(r.spec_facts())
                &&& r.spec_has_current_disposition()
                &&& opt_text(r.disposition.reason) == disposition_reason(r.spec_facts(), None)
            },
    {
        let size = FileSize::new(stats.logical, Some(stats.allocated));
        let id = Self::item_id_for(signature, idx, root_key, None);
        let name = Self::display_name_for(signature, file_name, root_key);
        if !stats.complete {
            let reason = match &stats.incomplete_reason {
                Some(t) => t.clone(),
                None => {
                    let mut v: Vec<char> = Vec::new();
                    append_text(&mut v, "Could not completely inspect ");
                    append_text(&mut v, path);
                    assert(v@ =~= "Could not completely inspect "@ + path@);
                    string_of(v.as_slice())
                },
            };
            return Self::unavailable_aged_item(
                signature,
                path,
                id,
                name,
                size,
                stats.file_count,
                stats.newest_mtime,
                stats.skipped_entries,
                reason,
                gate,
                false,
            );
        }
        let age = AgeObservation::evaluate(min_age_days, stats.newest_mtime, now);
        let days = decimal_text(min_age_days as u64);
        let mut v = chars_of(signature.description.as_str());
        if age.satisfied {
            append_text(&mut v, " (unchanged for at least ");
            append_text(&mut v, days.as_str());
            append_text(&mut v, " days)");
        } else {
            append_text(&mut v, " (used within the last ");
            append_text(&mut v, days.as_str());
            append_text(&mut v, " days; kept until it is stale)");
        }
        let description = string_of(v.as_slice());
        proof {
            assert(description@ =~= aged_description(signature.description@, min_age_days, false, *stats, age.satisfied));
        }
        let cache_metadata = signature.cache_metadata();
        let facts = DispositionFacts {
            risk: signature.risk,
            quality: ObservationQuality::Fresh,
            size_semantics: cache_metadata.size_semantics,
            size,
            gate,
            owner_running: false,
            age: Some(age),
            stale: None,
            structured_state,
        };
        let disposition = derive_cleanup_disposition(&facts, None);
        let path_text = string_of(chars_of(path).as_slice());
        ScanItem {
            id,
            signature_id: signature.id.clone(),
            name,
            category: signature.category,
            risk: signature.risk,
            path: path_text.clone(),
            size,
            file_count: stats.file_count,
            description,
            cache_metadata,
            disposition,
            unit: CleanupUnit { kind: signature.unit_kind(), root: path_text.clone(), path: path_text },
            age: Some(age),
            stale: None,
            structured_state,
            entry_kind,
            gate,
            owner_running: false,
            is_selected: false,
            last_modified: stats.newest_mtime,
            exists: true,
            quality: ObservationQuality::Fresh,
            incomplete_reason: None,
            skipped_entry_count: stats.skipped_entries,
        }
    }
}


/// Why a candidate that is a link is not cleaned.
pub open spec fn link_reason(kind: Seq<char>, path: Seq<char>) -> Seq<char> {
    kind + " "@ + path + " is a link, junction, or mount point; cleanup is blocked"@
}

/// Why a candidate that could not be inspected is not cleaned.
pub open spec fn inspect_reason(path: Seq<char>, message: Seq<char>) -> Seq<char> {
    "Could not inspect "@ + path + ": "@ + message
}

/// Why an aged walk that lost an entry of its root is incomplete.
pub open spec fn entry_failure_reason(root: Seq<char>, error: Seq<char>) -> Seq<char> {
    "Could not read an entry in "@ + root + ": "@ + error
}

fn joined3(a: &str, b: &str, c: &str) -> (r: String)
    ensures
        r@ == a@ + b@ + c@,
{
    let mut v = chars_of(a);
    append_text(&mut v, b);
    append_text(&mut v, c);
    string_of(v.as_slice())
}

/// How an aged candidate that cannot be cleaned was found.
pub enum BlockedCandidate {
    /// The candidate is a link, junction or mount point.
    Link,
    /// Its metadata could not be read; the message says why.
    Inaccessible { message: String },
}

impl DirectoryScanner {
    /// The reason a blocked candidate at `path` carries; `kind` names what
    /// the path is ("Candidate" for a child, "Configured path" for a root).
    pub fn blocked_reason(kind: &str, path: &str, blocked: &BlockedCandidate) -> (r: String)
        ensures
            r@ == match blocked {
                BlockedCandidate::Link => link_reason(kind@, path@),
                BlockedCandidate::Inaccessible { message } => inspect_reason(path@, message@),
            },
    {
        match blocked {
            BlockedCandidate::Link => {
                let head = joined3(kind, " ", path);
                let r = joined3(head.as_str(), " is a link, junction, or mount point; cleanup is blocked", "");
                proof {
                    reveal_strlit(" ");
                    reveal_strlit(" is a link, junction, or mount point; cleanup is blocked");
                    reveal_strlit("");
                    assert(r@ =~= link_reason(kind@, path@));
                }
                r
            },
            BlockedCandidate::Inaccessible { message } => {
                let r = joined3("Could not inspect ", path, ": ");
                let r = joined3(r.as_str(), message.as_str(), "");
                proof {
                    reveal_strlit("Could not inspect ");
                    reveal_strlit(": ");
                    reveal_strlit("");
                    assert(r@ =~= inspect_reason(path@, message@));
                }
                r
            },
        }
    }

    /// The item for a child of an aged root that is a link or could not be
    /// inspected: reported under its plain name, unavailable and blocked,
    /// with one skipped entry. A child outside the include prefixes is not
    /// reported.
    pub fn blocked_child_item(
        signature: &Signature,
        name: &str,
        path: &str,
        idx: usize,
        root_key: Option<&str>,
        blocked: &BlockedCandidate,
        gate: EligibilityGate,
    ) -> (r: Option<ScanItem>)
        requires
            idx <= u64::MAX,
        ensures
            r is None <==> !included(name@, signature.include_prefixes@),
            r matches Some(item) ==> {
                &&& item.id@ == item_id(signature.id@, signature.paths@.len(), idx as nat, opt_view(root_key), Some(name@))
                &&& item.name@ == name@
                &&& item.path@ == path@
                &&& item.size == FileSize::spec_zero()
                &&& item.file_count == 0
                &&& item.skipped_entry_count == 1
                &&& item.last_modified is None
                &&& item.quality == ObservationQuality::Unavailable
                &&& opt_text(item.incomplete_reason) == Some(
                    match blocked {
                        BlockedCandidate::Link => link_reason("Candidate"@, path@),
                        BlockedCandidate::Inaccessible { message } => inspect_reason(path@, message@),
                    },
                )
                &&& item.description@ == signature.description@ + age_unverified_note()
                &&& item.disposition.eligibility == spec_eligibility(
                    unavailable_facts(*signature, FileSize::spec_zero(), gate),
                )
                &&& !item.is_selected
                &&& item.gate == gate
            },
    {
        if !is_included(name, signature.include_prefixes.as_slice()) {
            return None;
        }
        proof {
            reveal_strlit("Candidate");
        }
        let reason = Self::blocked_reason("Candidate", path, blocked);
        let id = Self::item_id_for(signature, idx, root_key, Some(name));
        let plain = string_of(chars_of(name).as_slice());
        Some(
            Self::unavailable_aged_item(
                signature,
                path,
                id,
                plain,
                FileSize::zero(),
                0,
                None,
                1,
                reason,
                gate,
                false,
            ),
        )
    }

    /// The item for an aged root that is a link, could not be inspected, or
    /// whose listing lost an entry: reported under the id of the root with
    /// `.unavailable` appended, unavailable and blocked, with one skipped
    /// entry. A root whose listing lost an entry is named as an incomplete
    /// scan.
    pub fn unavailable_root_item(
        signature: &Signature,
        root: &str,
        file_name: Option<&str>,
        idx: usize,
        root_key: Option<&str>,
        incomplete_listing: bool,
        reason: String,
        gate: EligibilityGate,
    ) -> (r: ScanItem)
        requires
            idx <= u64::MAX,
        ensures
            r.id@ == item_id(signature.id@, signature.paths@.len(), idx as nat, opt_view(root_key), None)
                + ".unavailable"@,
            r.name@ == if incomplete_listing {
                display_name(signature.name@, signature.paths@.len(), opt_view(file_name), opt_view(root_key))
                    + " (scan incomplete)"@
            } else {
                display_name(signature.name@, signature.paths@.len(), opt_view(file_name), opt_view(root_key))
            },
            r.path@ == root@,
            r.size == FileSize::spec_zero(),
            r.file_count == 0,
            r.skipped_entry_count == 1,
            r.quality == ObservationQuality::Unavailable,
            r.incomplete_reason == Some(reason),
            r.disposition.eligibility == spec_eligibility(unavailable_facts(*signature, FileSize::spec_zero(), gate)),
            !r.is_selected,
            r.gate == gate,
    {
        let base = Self::item_id_for(signature, idx, root_key, None);
        let id = joined3(base.as_str(), ".unavailable", "");
        let shown = Self::display_name_for(signature, file_name, root_key);
        let name = if incomplete_listing {
            joined3(shown.as_str(), " (scan incomplete)", "")
        } else {
            shown
        };
        proof {
            reveal_strlit(".unavailable");
            reveal_strlit(" (scan incomplete)");
            reveal_strlit("");
            assert(id@ =~= base@ + ".unavailable"@);
            if incomplete_listing {
                assert(name@ =~= shown@ + " (scan incomplete)"@);
            }
        }
        Self::unavailable_aged_item(signature, root, id, name, FileSize::zero(), 0, None, 1, reason, gate, false)
    }

    /// The reason an aged walk records for the first entry of `root` it could
    /// not read.
    pub fn entry_failure(root: &str, error: &str) -> (r: String)
        ensures
            r@ == entry_failure_reason(root@, error@),
    {
        let head = joined3("Could not read an entry in ", root, ": ");
        let r = joined3(head.as_str(), error, "");
        proof {
            reveal_strlit("Could not read an entry in ");
            reveal_strlit(": ");
            reveal_strlit("");
            assert(r@ =~= entry_failure_reason(root@, error@));
        }
        r
    }
}


impl DirectoryScanner {
    /// The reason an aged root that does not exist carries.
    pub fn missing_root_reason(path: &str) -> (r: String)
        ensures
            r@ == "Configured path "@ + path@ + " does not exist"@,
    {
        let r = joined3("Configured path ", path, " does not exist");
        proof {
            reveal_strlit("Configured path ");
            reveal_strlit(" does not exist");
        }
        r
    }
}


/// The final component of a `/`-separated path, as `Path::file_name` gives
/// it: none for an empty path or one that ends in `..`.
pub open spec fn file_name_of(path: Seq<char>) -> Option<Seq<char>> {
    let parts = crate::exclusions::components(path);
    if parts.len() == 0 || parts.last() == ".."@ {
        None
    } else {
        Some(parts.last())
    }
}

/// The extension of a file name, as `Path::extension` gives it: the text
/// after its last `.`, unless that `.` opens the name.
pub open spec fn extension_of(name: Seq<char>) -> Option<Seq<char>> {
    let last_dot = choose|k: int| 0 <= k < name.len() && name[k] == '.' && forall|j: int| k < j < name.len() ==> name[j] != '.';
    if exists|k: int| 0 < k < name.len() && name[k] == '.' {
        Some(name.subrange(last_dot + 1, name.len() as int))
    } else {
        None
    }
}

/// A directory at `path` is an application bundle: its extension is `app`,
/// ignoring ASCII case.
pub open spec fn app_bundle(path: Seq<char>) -> bool {
    file_name_of(path) matches Some(name) && extension_of(name) matches Some(ext) && eq_ignore_ascii_case(ext, "app"@)
}

/// Whether a directory at `path` is an application bundle, which no walk
/// enters.
pub fn is_app_bundle(path: &str) -> (r: bool)
    ensures
        r == app_bundle(path@),
{
    let chars = chars_of(path);
    let parts = crate::exclusions::path_components(&chars);
    proof {
        assert(crate::exclusions::char_texts(parts@) == crate::exclusions::components(path@));
    }
    if parts.len() == 0 {
        return false;
    }
    let name = &parts[parts.len() - 1];
    proof {
        assert(crate::exclusions::components(path@).last() == name@);
    }
    proof {
        reveal_strlit("..");
        reveal_strlit("app");
    }
    if name.len() == 2 && name[0] == '.' && name[1] == '.' {
        assert(name@ =~= ".."@);
        return false;
    }
    assert(name@ != ".."@);
    let mut k: usize = name.len();
    while k > 0 && name[k - 1] != '.'
        invariant
            k <= name@.len(),
            forall|j: int| k <= j < name@.len() ==> name@[j] != '.',
        decreases k,
    {
        k = k - 1;
    }
    if k <= 1 {
        proof {
            assert forall|d: int| 0 < d < name@.len() implies name@[d] != '.' by {
                if name@[d] == '.' {
                    assert(d < k || k == 1 && d == 0);
                }
            }
        }
        return false;
    }
    let dot = k - 1;
    proof {
        let ghost n = name@;
        assert(0 <= dot < n.len() && n[dot as int] == '.' && forall|j: int| dot < j < n.len() ==> n[j] != '.');
        let c = choose|c: int| 0 <= c < n.len() && n[c] == '.' && forall|j: int| c < j < n.len() ==> n[j] != '.';
        assert(c == dot as int) by {
            if c < dot as int {
                assert(n[dot as int] != '.');
            } else if c > dot as int {
                assert(n[c] != '.');
            }
        }
    }
    let mut ext: Vec<char> = Vec::new();
    let mut i: usize = k;
    while i < name.len()
        invariant
            k <= i <= name@.len(),
            ext@ == name@.subrange(k as int, i as int),
        decreases name@.len() - i,
    {
        ext.push(name[i]);
        i = i + 1;
        assert(ext@ =~= name@.subrange(k as int, i as int));
    }
    let app = chars_of("app");
    crate::exclusions::same_name_exec(&ext, &app, true)
}

/// How reading a tree's root failed.
pub enum TreeRefusal {
    /// Its metadata could not be read.
    MetadataUnreadable { error: String },
    /// It is an application bundle, which no walk enters.
    AppBundle,
    /// Its listing could not be read.
    ListingUnreadable { error: String },
}

/// The reason a tree walk that stopped at its root reports.
pub open spec fn tree_refusal_reason(path: Seq<char>, refusal: TreeRefusal) -> Seq<char> {
    match refusal {
        TreeRefusal::MetadataUnreadable { error } => "Failed to read metadata for "@ + path + ": "@ + error@,
        TreeRefusal::AppBundle => "Protected application bundle encountered in "@ + path,
        TreeRefusal::ListingUnreadable { error } => "Failed to read directory "@ + path + ": "@ + error@,
    }
}

impl TreeStats {
    /// The statistics of a walk refused at its root `path`: incomplete, with
    /// the root skipped and the refusal as its reason.
    pub fn refused(path: &str, refusal: TreeRefusal) -> (r: Self)
        ensures
            r.stale_bytes == 0 && r.stale_file_count == 0 && r.logical == 0 && r.allocated == 0,
            r.file_count == 0,
            r.newest_mtime is None,
            !r.complete,
            opt_text(r.incomplete_reason) == Some(tree_refusal_reason(path@, refusal)),
            r.skipped_entries == 1,
    {
        let reason = match &refusal {
            TreeRefusal::MetadataUnreadable { error } => {
                let head = joined3("Failed to read metadata for ", path, ": ");
                let r = joined3(head.as_str(), error.as_str(), "");
                proof {
                    reveal_strlit("Failed to read metadata for ");
                    reveal_strlit(": ");
                    reveal_strlit("");
                    assert(r@ =~= tree_refusal_reason(path@, refusal));
                }
                r
            },
            TreeRefusal::AppBundle => {
                let r = joined3("Protected application bundle encountered in ", path, "");
                proof {
                    reveal_strlit("Protected application bundle encountered in ");
                    reveal_strlit("");
                    assert(r@ =~= tree_refusal_reason(path@, refusal));
                }
                r
            },
            TreeRefusal::ListingUnreadable { error } => {
                let head = joined3("Failed to read directory ", path, ": ");
                let r = joined3(head.as_str(), error.as_str(), "");
                proof {
                    reveal_strlit("Failed to read directory ");
                    reveal_strlit(": ");
                    reveal_strlit("");
                    assert(r@ =~= tree_refusal_reason(path@, refusal));
                }
                r
            },
        };
        TreeStats::stopped(reason)
    }
}

} // verus!
