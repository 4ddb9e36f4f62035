//! Establishing which two discovered units describe the same location.
//!
//! The scan and the planner both need this answer and must derive it the same
//! way. Stable filesystem identity decides first: whether two units are the
//! same directory entry, and whether an ancestor entry of one is the other.
//! What the filesystem shows is read by the caller and handed in as
//! [`UnitFacts`]; only when an identity is unavailable does the comparison fall
//! back to path text, conservatively case-sensitive.
use vstd::prelude::*;
use crate::models::UnitRelationship;
use crate::scan_types::ScanItem;
use crate::text::{ascii_lower, ascii_lower_seq, chars_of, eq_ignore_ascii_case, equal_text, lower_char};

verus! {

/// The stable identity of a filesystem object: its volume and its index on
/// that volume.
#[derive(Debug, Clone, Copy, PartialEq, Eq, Structural)]
pub struct FileIdentity {
    pub volume: u64,
    pub index: u64,
}

/// What the filesystem showed about one unit's path.
pub struct UnitFacts {
    /// The identity of the object the path reaches; `None` when it could not
    /// be captured or the platform cannot state one.
    pub entity: Option<FileIdentity>,
    /// The identity of the path's parent directory, when it could be captured.
    pub parent: Option<FileIdentity>,
    /// The name under which the parent directory stores the entry the path
    /// reaches, when exactly one such entry was found.
    pub entry_name: Option<String>,
    /// The identities of the path's strict ancestors, nearest first; `None`
    /// for an ancestor whose identity could not be captured.
    pub ancestors: Vec<Option<FileIdentity>>,
}

impl UnitFacts {
    /// Facts for a path whose identity could not be obtained.
    pub fn unavailable() -> (r: Self)
        ensures
            r.entity is None,
            r.parent is None,
            r.entry_name is None,
            r.ancestors@.len() == 0,
    {
        UnitFacts { entity: None, parent: None, entry_name: None, ancestors: Vec::new() }
    }
}

/// Both facts name one directory entry: their parents are one directory and
/// the entry is stored there under one name.
pub open spec fn spec_same_directory_entry(first: UnitFacts, second: UnitFacts) -> bool {
    &&& first.parent is Some
    &&& second.parent is Some
    &&& first.parent == second.parent
    &&& first.entry_name is Some
    &&& second.entry_name is Some
    &&& first.entry_name.unwrap()@ == second.entry_name.unwrap()@
}

/// Whether both paths name one directory entry, whatever their spelling.
pub fn same_directory_entry(first: &UnitFacts, second: &UnitFacts) -> (r: bool)
    ensures
        r == spec_same_directory_entry(*first, *second),
{
    let parents_match = match (&first.parent, &second.parent) {
        (Some(left), Some(right)) => *left == *right,
        _ => false,
    };
    if !parents_match {
        return false;
    }
    match (&first.entry_name, &second.entry_name) {
        (Some(left), Some(right)) => equal_text(left.as_str(), right.as_str()),
        _ => false,
    }
}

/// One listed entry of a directory: its name, and the identity of the
/// object it reaches when that could be captured.
pub struct ListedEntry {
    pub name: String,
    pub entity: Option<FileIdentity>,
}

/// The entry a spelling reaches, scanning the listing from `i` with the
/// folded match found so far: an entry counts when its name is the spelling
/// up to ASCII case and it reaches `entity`; the exact spelling wins at once;
/// a second folded match makes the answer ambiguous.
pub open spec fn entry_scan(
    entries: Seq<ListedEntry>,
    requested: Seq<char>,
    entity: FileIdentity,
    i: int,
    folded: Option<Seq<char>>,
) -> Option<Seq<char>>
    decreases entries.len() - i,
{
    if i < 0 || i >= entries.len() {
        folded
    } else {
        let name = entries[i].name@;
        if !(name == requested || eq_ignore_ascii_case(name, requested)) || entries[i].entity != Some(entity) {
            entry_scan(entries, requested, entity, i + 1, folded)
        } else if name == requested {
            Some(name)
        } else if folded is Some {
            None
        } else {
            entry_scan(entries, requested, entity, i + 1, Some(name))
        }
    }
}

fn same_ignoring_case(a: &str, b: &str) -> (r: bool)
    ensures
        r == eq_ignore_ascii_case(a@, b@),
{
    let x = chars_of(a);
    let y = chars_of(b);
    if x.len() != y.len() {
        assert(ascii_lower_seq(a@).len() != ascii_lower_seq(b@).len());
        return false;
    }
    let mut i: usize = 0;
    while i < x.len()
        invariant
            x@ == a@,
            y@ == b@,
            x@.len() == y@.len(),
            i <= x@.len(),
            forall|j: int| 0 <= j < i ==> ascii_lower(x@[j]) == ascii_lower(y@[j]),
        decreases x@.len() - i,
    {
        if lower_char(x[i]) != lower_char(y[i]) {
            assert(ascii_lower_seq(a@)[i as int] != ascii_lower_seq(b@)[i as int]);
            return false;
        }
        i = i + 1;
    }
    assert(ascii_lower_seq(a@) =~= ascii_lower_seq(b@));
    true
}

/// The name under which a directory stores the entry a spelling reaches:
/// the exact spelling when the listing holds it for `entity`, else the one
/// entry that matches up to ASCII case and reaches `entity`; `None` when
/// there is none, or when two folded spellings both reach it.
pub fn actual_entry_name(requested: &str, entries: &[ListedEntry], entity: FileIdentity) -> (r: Option<String>)
    ensures
        match r {
            Some(name) => entry_scan(entries@, requested@, entity, 0, None) == Some(name@),
            None => entry_scan(entries@, requested@, entity, 0, None) is None,
        },
{
    let mut folded: Option<String> = None;
    let mut i: usize = 0;
    while i < entries.len()
        invariant
            i <= entries@.len(),
            entry_scan(entries@, requested@, entity, 0, None) == entry_scan(
                entries@,
                requested@,
                entity,
                i as int,
                match folded {
                    Some(f) => Some(f@),
                    None => None,
                },
            ),
        decreases entries@.len() - i,
    {
        let entry = &entries[i];
        let exact = equal_text(entry.name.as_str(), requested);
        let matches = exact || same_ignoring_case(entry.name.as_str(), requested);
        let reaches = match entry.entity {
            Some(found) => found == entity,
            None => false,
        };
        if matches && reaches {
            if exact {
                return Some(entry.name.clone());
            }
            if folded.is_some() {
                return None;
            }
            folded = Some(entry.name.clone());
        }
        i = i + 1;
    }
    folded
}

/// One of the candidate's ancestors is the container's object.
pub open spec fn has_ancestor(candidate: UnitFacts, container: FileIdentity) -> bool {
    exists|i: int| 0 <= i < candidate.ancestors@.len() && candidate.ancestors@[i] == Some(container)
}

/// The relationship stable identity establishes, or `None` when either
/// identity is unavailable.
pub open spec fn spec_filesystem_relationship(candidate: UnitFacts, container: UnitFacts) -> Option<
    UnitRelationship,
> {
    if candidate.entity is None || container.entity is None {
        None
    } else if candidate.entity == container.entity && spec_same_directory_entry(candidate, container) {
        Some(UnitRelationship::Equivalent)
    } else if has_ancestor(candidate, container.entity.unwrap()) {
        Some(UnitRelationship::Contained)
    } else {
        Some(UnitRelationship::Distinct)
    }
}

/// The relationship the filesystem establishes between two units, when it
/// can: one object under one entry, one inside the other, or separate.
pub fn filesystem_relationship(candidate: &UnitFacts, container: &UnitFacts) -> (r: Option<UnitRelationship>)
    ensures
        r == spec_filesystem_relationship(*candidate, *container),
        candidate.entity is None || container.entity is None ==> r is None,
        candidate.entity is Some && candidate.entity == container.entity && spec_same_directory_entry(
            *candidate,
            *container,
        ) ==> r == Some(UnitRelationship::Equivalent),
        forall|i: int|
            0 <= i < candidate.ancestors@.len() && candidate.entity is Some && container.entity is Some
                && #[trigger] candidate.ancestors@[i] == container.entity && !(candidate.entity == container.entity
                && spec_same_directory_entry(*candidate, *container)) ==> r == Some(UnitRelationship::Contained),
        r == Some(UnitRelationship::Contained) ==> exists|i: int|
            0 <= i < candidate.ancestors@.len() && #[trigger] candidate.ancestors@[i] == container.entity
                && container.entity is Some,
{
    let candidate_entity = match candidate.entity {
        Some(entity) => entity,
        None => return None,
    };
    let container_entity = match container.entity {
        Some(entity) => entity,
        None => return None,
    };
    if candidate_entity == container_entity && same_directory_entry(candidate, container) {
        return Some(UnitRelationship::Equivalent);
    }
    let mut i: usize = 0;
    while i < candidate.ancestors.len()
        invariant
            candidate.entity == Some(candidate_entity),
            container.entity == Some(container_entity),
            !(candidate_entity == container_entity && spec_same_directory_entry(*candidate, *container)),
            i <= candidate.ancestors@.len(),
            forall|j: int| 0 <= j < i ==> candidate.ancestors@[j] != Some(container_entity),
        decreases candidate.ancestors@.len() - i,
    {
        if let Some(ancestor) = candidate.ancestors[i] {
            if ancestor == container_entity {
                assert(candidate.ancestors@[i as int] == Some(container_entity));
                return Some(UnitRelationship::Contained);
            }
        }
        i = i + 1;
    }
    Some(UnitRelationship::Distinct)
}

/// A path with every `\` read as `/`.
pub open spec fn slashed(path: Seq<char>) -> Seq<char> {
    Seq::new(path.len(), |i: int| if path[i] == '\\' { '/' } else { path[i] })
}

/// A path without its trailing separators.
pub open spec fn without_trailing_separators(path: Seq<char>) -> Seq<char>
    decreases path.len(),
{
    if path.len() > 0 && path.last() == '/' {
        without_trailing_separators(path.drop_last())
    } else {
        path
    }
}

/// The case-sensitive text key of a path: separators unified, trailing
/// separators dropped.
pub open spec fn path_key(path: Seq<char>) -> Seq<char> {
    without_trailing_separators(slashed(path))
}

/// The key `inner` names a location strictly inside the key `outer`.
pub open spec fn key_within(inner: Seq<char>, outer: Seq<char>) -> bool {
    &&& inner.len() > outer.len()
    &&& inner.subrange(0, outer.len() as int) == outer
    &&& inner[outer.len() as int] == '/'
}

/// The relationship path text establishes, case-sensitively.
pub open spec fn spec_text_relationship(candidate: Seq<char>, container: Seq<char>) -> UnitRelationship {
    if path_key(candidate) == path_key(container) {
        UnitRelationship::Equivalent
    } else if key_within(path_key(candidate), path_key(container)) {
        UnitRelationship::Contained
    } else {
        UnitRelationship::Distinct
    }
}

proof fn lemma_without_trailing_prefix(path: Seq<char>)
    ensures
        without_trailing_separators(path).len() <= path.len(),
        without_trailing_separators(path) == path.subrange(0, without_trailing_separators(path).len() as int),
        without_trailing_separators(path).len() == 0 || without_trailing_separators(path).last() != '/',
        forall|i: int|
            without_trailing_separators(path).len() <= i < path.len() ==> path[i] == '/',
    decreases path.len(),
{
    if path.len() > 0 && path.last() == '/' {
        lemma_without_trailing_prefix(path.drop_last());
        let k = without_trailing_separators(path).len();
        assert forall|i: int| k <= i < path.len() implies path[i] == '/' by {
            if i < path.len() - 1 {
                assert(path.drop_last()[i] == path[i]);
            }
        }
        assert(path.drop_last().subrange(0, k as int) =~= path.subrange(0, k as int));
    } else {
        assert(path.subrange(0, path.len() as int) =~= path);
    }
}

/// The case-sensitive text key of a path.
pub fn path_key_text(path: &str) -> (r: Vec<char>)
    ensures
        r@ == path_key(path@),
{
    let chars = crate::text::chars_of(path);
    let mut out: Vec<char> = Vec::new();
    let mut i: usize = 0;
    while i < chars.len()
        invariant
            chars@ == path@,
            i <= chars@.len(),
            out@ == slashed(chars@).subrange(0, i as int),
        decreases chars@.len() - i,
    {
        let c = chars[i];
        if c == '\\' {
            out.push('/');
        } else {
            out.push(c);
        }
        i = i + 1;
        assert(out@ =~= slashed(chars@).subrange(0, i as int));
    }
    assert(out@ =~= slashed(path@));
    let ghost full = out@;
    let mut end: usize = out.len();
    while end > 0 && out[end - 1] == '/'
        invariant
            out@ == full,
            end <= full.len(),
            without_trailing_separators(full) == without_trailing_separators(full.subrange(0, end as int)),
        decreases end,
    {
        assert(full.subrange(0, end as int).drop_last() =~= full.subrange(0, end - 1));
        end = end - 1;
    }
    proof {
        let s = full.subrange(0, end as int);
        assert(!(s.len() > 0 && s.last() == '/'));
    }
    let mut key: Vec<char> = Vec::new();
    let mut j: usize = 0;
    while j < end
        invariant
            out@ == full,
            end <= full.len(),
            j <= end,
            key@ == full.subrange(0, j as int),
        decreases end - j,
    {
        key.push(out[j]);
        j = j + 1;
        assert(key@ =~= full.subrange(0, j as int));
    }
    key
}

/// Whether the key `inner` lies strictly inside the key `outer`.
pub(crate) fn key_within_exec(inner: &Vec<char>, outer: &Vec<char>) -> (r: bool)
    ensures
        r == key_within(inner@, outer@),
{
    if inner.len() <= outer.len() {
        return false;
    }
    let mut i: usize = 0;
    while i < outer.len()
        invariant
            outer@.len() < inner@.len(),
            i <= outer@.len(),
            inner@.subrange(0, i as int) == outer@.subrange(0, i as int),
        decreases outer@.len() - i,
    {
        if inner[i] != outer[i] {
            assert(inner@.subrange(0, outer@.len() as int)[i as int] != outer@[i as int]);
            return false;
        }
        i = i + 1;
        assert(inner@.subrange(0, i as int) =~= outer@.subrange(0, i as int));
    }
    assert(outer@.subrange(0, outer@.len() as int) =~= outer@);
    inner[outer.len()] == '/'
}

pub(crate) fn same_key(a: &Vec<char>, b: &Vec<char>) -> (r: bool)
    ensures
        r == (a@ == b@),
{
    if a.len() != b.len() {
        return false;
    }
    let mut i: usize = 0;
    while i < a.len()
        invariant
            a@.len() == b@.len(),
            i <= a@.len(),
            forall|j: int| 0 <= j < i ==> a@[j] == b@[j],
        decreases a@.len() - i,
    {
        if a[i] != b[i] {
            return false;
        }
        i = i + 1;
    }
    assert(a@ =~= b@);
    true
}

/// The relationship path text establishes between two unit paths,
/// case-sensitively: two spellings are two locations.
pub fn text_relationship(candidate: &str, container: &str) -> (r: UnitRelationship)
    ensures
        r == spec_text_relationship(candidate@, container@),
{
    let candidate_key = path_key_text(candidate);
    let container_key = path_key_text(container);
    if same_key(&candidate_key, &container_key) {
        UnitRelationship::Equivalent
    } else if key_within_exec(&candidate_key, &container_key) {
        UnitRelationship::Contained
    } else {
        UnitRelationship::Distinct
    }
}

/// The structural relationship between two units, without policy.
pub open spec fn spec_unit_relationship(
    candidate: ScanItem,
    candidate_facts: UnitFacts,
    container: ScanItem,
    container_facts: UnitFacts,
) -> UnitRelationship {
    match spec_filesystem_relationship(candidate_facts, container_facts) {
        Some(relationship) => relationship,
        None => spec_text_relationship(candidate.unit.path@, container.unit.path@),
    }
}

/// The relationship between two units: identity when the filesystem states
/// it, case-sensitive path text otherwise.
pub fn unit_relationship(
    candidate: &ScanItem,
    candidate_facts: &UnitFacts,
    container: &ScanItem,
    container_facts: &UnitFacts,
) -> (r: UnitRelationship)
    ensures
        r == spec_unit_relationship(*candidate, *candidate_facts, *container, *container_facts),
{
    match filesystem_relationship(candidate_facts, container_facts) {
        Some(relationship) => relationship,
        None => text_relationship(candidate.unit.path.as_str(), container.unit.path.as_str()),
    }
}

} // verus!
