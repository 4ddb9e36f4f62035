//! The manifest lint: the findings one catalog entry earns in one
//! environment, decided from what that environment made of each of its
//! patterns, and the catalog's report in a fixed order.
use vstd::prelude::*;
use crate::loader::{
    dynamic_pattern, finding, is_dynamic_pattern, names_platform, platform_findings, platform_message,
    platform_of_pattern, platforms_in_order, token_of, undeclared, ManifestLintFinding,
};
use crate::models::{CleanStrategy, PlatformKind};
use crate::registry::SignatureRegistry;
use crate::signature::Signature;
use crate::text::{
    append_text, equal_text, lemma_seq_lt_irreflexive, lemma_seq_lt_transitive, seq_lt,
    str_less, string_of, trim_seq, trim_text,
};

verus! {

/// What the selector parser made of a resolved pattern's text.
pub enum SelectorShape {
    /// The text holds no selector.
    Literal,
    /// A selector whose literal prefix is an absolute path.
    Anchored,
    /// A selector without an absolute literal prefix.
    Unanchored,
    /// Text the parser refused, with the parser's error.
    Unusable(String),
}

/// What guards the path a pattern resolved to.
pub enum Protection {
    /// Nothing protects it.
    Unprotected,
    /// It lies under a protected root, named by the root's reason.
    ProtectedRoot(String),
    /// It is a blacklisted location.
    Blacklisted,
}

/// What the environment made of a pattern it could resolve.
pub struct ResolvedPattern {
    pub selector: SelectorShape,
    /// The resolved path is absolute in the environment's own spelling.
    pub absolute: bool,
    pub protection: Protection,
}

/// The platform an environment's path spelling stands for.
pub open spec fn stated_platform(windows: bool) -> PlatformKind {
    if windows {
        PlatformKind::Windows
    } else {
        PlatformKind::Macos
    }
}

/// A pattern written for another platform than the environment's: it is
/// checked when the lint runs against that platform.
pub open spec fn foreign(pattern: Seq<char>, windows: bool) -> bool {
    match platform_of_pattern(pattern) {
        Some(target) => target != stated_platform(windows),
        None => false,
    }
}

/// A path pattern the lint looks at in this environment.
pub open spec fn examined(pattern: Seq<char>, windows: bool) -> bool {
    trim_seq(pattern).len() > 0 && !foreign(pattern, windows)
}

/// The entry may delete what it covers and keeps no aged children, so its
/// resolved paths must stay clear of protected locations. An observation-only
/// entry reports bytes and never removes them.
pub open spec fn boundary_checked(signature: Signature) -> bool {
    signature.strategy != CleanStrategy::Manual && signature.min_age_days is None
}

/// The findings of one examined pattern, given what the environment made
/// of it (`None`: nothing).
pub open spec fn pattern_messages(
    pattern: Seq<char>,
    resolution: Option<ResolvedPattern>,
    checked: bool,
) -> Seq<Seq<char>> {
    match resolution {
        None => if dynamic_pattern(pattern) {
            Seq::empty()
        } else {
            seq!["path pattern `"@ + pattern + "` is not an absolute path"@]
        },
        Some(r) => {
            let selector = match r.selector {
                SelectorShape::Unanchored => seq![
                    "pattern `"@ + pattern + "` begins with a selector; it needs an absolute literal prefix"@,
                ],
                SelectorShape::Unusable(error) => seq![
                    "pattern `"@ + pattern + "` is not a usable selector: "@ + error@,
                ],
                _ => Seq::empty(),
            };
            let absolute = if r.absolute {
                Seq::empty()
            } else {
                seq!["path pattern `"@ + pattern + "` did not resolve to an absolute path"@]
            };
            let protection = if !checked {
                Seq::empty()
            } else {
                match r.protection {
                    Protection::ProtectedRoot(reason) => seq![
                        "path pattern `"@ + pattern + "` resolves under a protected "@ + reason@,
                    ],
                    Protection::Blacklisted => seq![
                        "path pattern `"@ + pattern + "` resolves to a blacklisted location"@,
                    ],
                    Protection::Unprotected => Seq::empty(),
                }
            };
            selector + absolute + protection
        },
    }
}

/// The findings of the first `n` patterns, in pattern order.
pub open spec fn patterns_messages(
    paths: Seq<String>,
    resolutions: Seq<Option<ResolvedPattern>>,
    windows: bool,
    checked: bool,
    n: int,
) -> Seq<Seq<char>>
    decreases n,
{
    if n <= 0 {
        Seq::empty()
    } else {
        let earlier = patterns_messages(paths, resolutions, windows, checked, n - 1);
        if examined(paths[n - 1]@, windows) {
            earlier + pattern_messages(paths[n - 1]@, resolutions[n - 1], checked)
        } else {
            earlier
        }
    }
}

/// Pattern `i` is examined and resolved: its path is part of the entry's
/// scope here.
pub open spec fn scope_root(
    paths: Seq<String>,
    resolutions: Seq<Option<ResolvedPattern>>,
    windows: bool,
    i: int,
) -> bool {
    0 <= i < paths.len() && examined(paths[i]@, windows) && resolutions[i] is Some
}

/// An exclusion lies at or below some root of the scope, by its reach over
/// the patterns.
pub open spec fn reaches_scope(
    paths: Seq<String>,
    resolutions: Seq<Option<ResolvedPattern>>,
    windows: bool,
    reach: Seq<bool>,
) -> bool {
    exists|i: int| scope_root(paths, resolutions, windows, i) && #[trigger] reach[i]
}

/// The findings of the first `n` exclusions. An exclusion's reach is `None`
/// when it is a bare entry name or does not resolve, and otherwise says for
/// each pattern whether the exclusion lies at or below that pattern's path.
pub open spec fn exclusions_messages(
    exclusions: Seq<String>,
    reach: Seq<Option<Vec<bool>>>,
    paths: Seq<String>,
    resolutions: Seq<Option<ResolvedPattern>>,
    windows: bool,
    n: int,
) -> Seq<Seq<char>>
    decreases n,
{
    if n <= 0 {
        Seq::empty()
    } else {
        let earlier = exclusions_messages(exclusions, reach, paths, resolutions, windows, n - 1);
        let exclusion = exclusions[n - 1]@;
        if !foreign(exclusion, windows) && reach[n - 1] is Some && !reaches_scope(
            paths,
            resolutions,
            windows,
            reach[n - 1]->0@,
        ) {
            earlier.push("exclusion `"@ + exclusion + "` resolves outside the signature's scope"@)
        } else {
            earlier
        }
    }
}

/// The items joined with `", "`.
pub open spec fn joined(items: Seq<String>) -> Seq<char>
    decreases items.len(),
{
    if items.len() == 0 {
        Seq::empty()
    } else if items.len() == 1 {
        items[0]@
    } else {
        joined(items.drop_last()) + ", "@ + items.last()@
    }
}

/// Some item holds exactly the characters `id`.
pub open spec fn lists(items: Seq<String>, id: Seq<char>) -> bool {
    exists|k: int| 0 <= k < items.len() && (#[trigger] items[k])@ == id
}

/// The registry an entry's strategy dispatches a provider action into.
pub open spec fn dispatch_registry(
    signature: Signature,
    owner_providers: Seq<String>,
    lifecycle_providers: Seq<String>,
) -> Seq<String> {
    if signature.strategy == CleanStrategy::OwnerProvider {
        owner_providers
    } else {
        lifecycle_providers
    }
}

/// How a finding names the registry an entry's strategy dispatches into.
pub open spec fn provider_kind(signature: Signature) -> Seq<char> {
    if signature.strategy == CleanStrategy::OwnerProvider {
        "owner-scoped provider"@
    } else {
        "lifecycle provider"@
    }
}

/// The provider finding of an entry that names a provider this build does
/// not implement, looked up in the registry its strategy dispatches into.
pub open spec fn provider_messages(
    signature: Signature,
    owner_providers: Seq<String>,
    lifecycle_providers: Seq<String>,
) -> Seq<Seq<char>> {
    let implemented = dispatch_registry(signature, owner_providers, lifecycle_providers);
    if signature.provider_id is Some && trim_seq(signature.provider_id->0@).len() > 0 && !lists(
        implemented,
        signature.provider_id->0@,
    ) {
        seq![
            "names "@ + provider_kind(signature) + " `"@ + signature.provider_id->0@
                + "`, which this build does not implement (implemented: "@ + joined(implemented) + ")"@,
        ]
    } else {
        Seq::empty()
    }
}

/// A finding as the pair of its platform and its message.
pub open spec fn finding_view(f: ManifestLintFinding) -> (Option<Seq<char>>, Seq<char>) {
    (
        match f.platform {
            Some(t) => Some(t@),
            None => None,
        },
        f.message@,
    )
}

/// Findings that name no platform.
pub open spec fn untagged(messages: Seq<Seq<char>>) -> Seq<(Option<Seq<char>>, Seq<char>)> {
    messages.map_values(|m: Seq<char>| (None::<Seq<char>>, m))
}

/// The platform findings for the given platforms.
pub open spec fn tagged(platforms: Seq<PlatformKind>) -> Seq<(Option<Seq<char>>, Seq<char>)> {
    platforms.map_values(|p: PlatformKind| (Some(token_of(p)), platform_message(p)))
}

/// `out` holds, in order, findings about entry `id` with these views.
pub open spec fn carries(
    out: Seq<ManifestLintFinding>,
    id: Seq<char>,
    entries: Seq<(Option<Seq<char>>, Seq<char>)>,
) -> bool {
    &&& out.len() == entries.len()
    &&& forall|k: int|
        0 <= k < out.len() ==> (#[trigger] out[k]).signature_id@ == id && finding_view(out[k]) == entries[k]
}

/// The findings an entry earns: its patterns' findings in order, then those
/// of its exclusions when any pattern resolved, then its undeclared
/// platforms, then a provider this build lacks.
pub open spec fn lint_entries(
    signature: Signature,
    windows: bool,
    resolutions: Seq<Option<ResolvedPattern>>,
    reach: Seq<Option<Vec<bool>>>,
    owner_providers: Seq<String>,
    lifecycle_providers: Seq<String>,
) -> Seq<(Option<Seq<char>>, Seq<char>)> {
    let paths = signature.paths@;
    let patterns = patterns_messages(
        paths,
        resolutions,
        windows,
        boundary_checked(signature),
        paths.len() as int,
    );
    let exclusions = if exists|i: int| scope_root(paths, resolutions, windows, i) {
        exclusions_messages(
            signature.exclusions@,
            reach,
            paths,
            resolutions,
            windows,
            signature.exclusions@.len() as int,
        )
    } else {
        Seq::empty()
    };
    untagged(patterns + exclusions) + tagged(
        undeclared(platforms_in_order(|p: PlatformKind| names_platform(paths, p)), signature.platforms@),
    ) + untagged(provider_messages(signature, owner_providers, lifecycle_providers))
}

proof fn lemma_carries_append(
    a: Seq<ManifestLintFinding>,
    b: Seq<ManifestLintFinding>,
    id: Seq<char>,
    x: Seq<(Option<Seq<char>>, Seq<char>)>,
    y: Seq<(Option<Seq<char>>, Seq<char>)>,
)
    requires
        carries(a, id, x),
        carries(b, id, y),
    ensures
        carries(a + b, id, x + y),
{
    assert forall|k: int| 0 <= k < (a + b).len() implies (#[trigger] (a + b)[k]).signature_id@ == id
        && finding_view((a + b)[k]) == (x + y)[k] by {
        if k >= a.len() {
            assert((a + b)[k] == b[k - a.len()]);
        }
    }
}

proof fn lemma_untagged_append(x: Seq<Seq<char>>, y: Seq<Seq<char>>)
    ensures
        untagged(x + y) == untagged(x) + untagged(y),
{
    assert(untagged(x + y) =~= untagged(x) + untagged(y));
}

/// The text `a`, `b`, `c` in order.
fn message3(a: &str, b: &str, c: &str) -> (r: String)
    ensures
        r@ == a@ + b@ + c@,
{
    let mut v: Vec<char> = Vec::new();
    append_text(&mut v, a);
    append_text(&mut v, b);
    append_text(&mut v, c);
    assert(v@ =~= a@ + b@ + c@);
    string_of(v.as_slice())
}

/// The text `a`, `b`, `c`, `d` in order.
fn message4(a: &str, b: &str, c: &str, d: &str) -> (r: String)
    ensures
        r@ == a@ + b@ + c@ + d@,
{
    let mut v: Vec<char> = Vec::new();
    append_text(&mut v, a);
    append_text(&mut v, b);
    append_text(&mut v, c);
    append_text(&mut v, d);
    assert(v@ =~= a@ + b@ + c@ + d@);
    string_of(v.as_slice())
}

/// Whether a pattern names a platform other than the environment's.
fn is_foreign(pattern: &str, windows: bool) -> (r: bool)
    ensures
        r == foreign(pattern@, windows),
{
    match SignatureRegistry::is_platform_specific_path(pattern) {
        Some(target) => if windows {
            target != PlatformKind::Windows
        } else {
            target != PlatformKind::Macos
        },
        None => false,
    }
}

fn is_examined(pattern: &str, windows: bool) -> (r: bool)
    ensures
        r == examined(pattern@, windows),
{
    trim_text(pattern).len() > 0 && !is_foreign(pattern, windows)
}

/// The findings of one examined pattern.
fn pattern_step(pattern: &String, resolution: &Option<ResolvedPattern>, checked: bool) -> (r: Vec<String>)
    ensures
        r@.len() == pattern_messages(pattern@, *resolution, checked).len(),
        forall|k: int| 0 <= k < r@.len() ==> (#[trigger] r@[k])@ == pattern_messages(pattern@, *resolution, checked)[k],
{
    let p = pattern.as_str();
    let mut out: Vec<String> = Vec::new();
    match resolution {
        None => {
            if !is_dynamic_pattern(p) {
                out.push(message3("path pattern `", p, "` is not an absolute path"));
            }
        },
        Some(r) => {
            match &r.selector {
                SelectorShape::Unanchored => {
                    out.push(
                        message3("pattern `", p, "` begins with a selector; it needs an absolute literal prefix"),
                    );
                },
                SelectorShape::Unusable(error) => {
                    out.push(message4("pattern `", p, "` is not a usable selector: ", error.as_str()));
                },
                _ => {},
            }
            let ghost after_selector = out@;
            if !r.absolute {
                out.push(message3("path pattern `", p, "` did not resolve to an absolute path"));
            }
            let ghost after_absolute = out@;
            if checked {
                match &r.protection {
                    Protection::ProtectedRoot(reason) => {
                        out.push(message4("path pattern `", p, "` resolves under a protected ", reason.as_str()));
                    },
                    Protection::Blacklisted => {
                        out.push(message3("path pattern `", p, "` resolves to a blacklisted location"));
                    },
                    Protection::Unprotected => {},
                }
            }
            proof {
                let msgs = pattern_messages(pattern@, *resolution, checked);
                assert(out@.len() == msgs.len());
                assert forall|k: int| 0 <= k < out@.len() implies (#[trigger] out@[k])@ == msgs[k] by {
                    if k < after_selector.len() {
                        assert(out@[k] == after_selector[k]);
                    } else if k < after_absolute.len() {
                        assert(out@[k] == after_absolute[k]);
                    }
                }
            }
        },
    }
    out
}

/// Appends findings about `signature` with the given messages and no
/// platform.
fn push_untagged(out: &mut Vec<ManifestLintFinding>, signature: &Signature, messages: Vec<String>)
    ensures
        final(out)@ == old(out)@ + final(out)@.subrange(old(out)@.len() as int, final(out)@.len() as int),
        carries(
            final(out)@.subrange(old(out)@.len() as int, final(out)@.len() as int),
            signature.id@,
            untagged(messages@.map_values(|m: String| m@)),
        ),
{
    let ghost start = out@.len();
    let ghost msgs = messages@.map_values(|m: String| m@);
    let mut rest = messages;
    let ghost all = rest@;
    let total = rest.len();
    let mut k: usize = 0;
    while rest.len() > 0
        invariant
            start <= out@.len(),
            out@.len() == start + k,
            k + rest@.len() == all.len(),
            all.len() == total,
            rest@ == all.skip(k as int),
            msgs == all.map_values(|m: String| m@),
            out@.subrange(0, start as int) == old(out)@,
            carries(out@.subrange(start as int, out@.len() as int), signature.id@, untagged(msgs.take(k as int))),
        decreases rest@.len(),
    {
        let m = rest.remove(0);
        proof {
            assert(all.skip(k as int)[0] == all[k as int]);
            assert(all.skip(k as int).remove(0) =~= all.skip(k + 1));
        }
        let ghost before = out@;
        out.push(finding(signature, None, m));
        k = k + 1;
        proof {
            assert(out@.subrange(0, start as int) =~= before.subrange(0, start as int));
            let tail = out@.subrange(start as int, out@.len() as int);
            let expect = untagged(msgs.take(k as int));
            assert forall|j: int| 0 <= j < tail.len() implies (#[trigger] tail[j]).signature_id@ == signature.id@
                && finding_view(tail[j]) == expect[j] by {
                if j < tail.len() - 1 {
                    assert(tail[j] == before.subrange(start as int, before.len() as int)[j]);
                    assert(msgs.take(k - 1)[j] == msgs.take(k as int)[j]);
                }
            }
        }
    }
    proof {
        assert(msgs.take(k as int) =~= msgs);
        assert(out@ =~= old(out)@ + out@.subrange(old(out)@.len() as int, out@.len() as int));
    }
}

proof fn lemma_carries_push(
    out: Seq<ManifestLintFinding>,
    f: ManifestLintFinding,
    id: Seq<char>,
    entries: Seq<(Option<Seq<char>>, Seq<char>)>,
)
    requires
        carries(out, id, entries),
        f.signature_id@ == id,
    ensures
        carries(out.push(f), id, entries.push(finding_view(f))),
{
    assert forall|k: int| 0 <= k < out.push(f).len() implies (#[trigger] out.push(f)[k]).signature_id@ == id
        && finding_view(out.push(f)[k]) == entries.push(finding_view(f))[k] by {
        if k < out.len() {
            assert(out.push(f)[k] == out[k]);
        }
    }
}

/// The items joined with `", "`.
fn join_commas(items: &[String]) -> (r: Vec<char>)
    ensures
        r@ == joined(items@),
{
    let mut out: Vec<char> = Vec::new();
    let mut k: usize = 0;
    while k < items.len()
        invariant
            k <= items@.len(),
            out@ == joined(items@.take(k as int)),
        decreases items@.len() - k,
    {
        let ghost before = out@;
        if k > 0 {
            append_text(&mut out, ", ");
        }
        append_text(&mut out, items[k].as_str());
        proof {
            let next = items@.take(k + 1);
            assert(next.drop_last() =~= items@.take(k as int));
            assert(next.last() == items@[k as int]);
            if k == 0 {
                assert(next.len() == 1);
                assert(out@ =~= next[0]@);
            } else {
                assert(out@ =~= joined(items@.take(k as int)) + ", "@ + next.last()@);
            }
        }
        k = k + 1;
    }
    proof {
        assert(items@.take(items@.len() as int) =~= items@);
    }
    out
}

/// Whether some item holds exactly the characters of `id`.
fn names_any(items: &[String], id: &String) -> (r: bool)
    ensures
        r == lists(items@, id@),
{
    let mut k: usize = 0;
    while k < items.len()
        invariant
            k <= items@.len(),
            forall|j: int| 0 <= j < k ==> (#[trigger] items@[j])@ != id@,
        decreases items@.len() - k,
    {
        if equal_text(items[k].as_str(), id.as_str()) {
            return true;
        }
        k = k + 1;
    }
    false
}

/// The provider finding of an entry, if it earns one.
fn provider_step(signature: &Signature, owner_providers: &[String], lifecycle_providers: &[String]) -> (r:
    Option<String>)
    ensures
        provider_messages(*signature, owner_providers@, lifecycle_providers@) == match r {
            Some(m) => seq![m@],
            None => Seq::<Seq<char>>::empty(),
        },
{
    match &signature.provider_id {
        Some(id) => {
            if trim_text(id.as_str()).len() == 0 {
                return None;
            }
            let owner = matches!(signature.strategy, CleanStrategy::OwnerProvider);
            let implemented: &[String] = if owner {
                owner_providers
            } else {
                lifecycle_providers
            };
            if names_any(implemented, id) {
                return None;
            }
            let kind = if owner {
                "owner-scoped provider"
            } else {
                "lifecycle provider"
            };
            let mut v: Vec<char> = Vec::new();
            append_text(&mut v, "names ");
            append_text(&mut v, kind);
            append_text(&mut v, " `");
            append_text(&mut v, id.as_str());
            append_text(&mut v, "`, which this build does not implement (implemented: ");
            let mut list = join_commas(implemented);
            v.append(&mut list);
            append_text(&mut v, ")");
            let m = string_of(v.as_slice());
            proof {
                let expected = "names "@ + kind@ + " `"@ + id@
                    + "`, which this build does not implement (implemented: "@ + joined(implemented@) + ")"@;
                assert(m@ =~= expected);
                assert(provider_messages(*signature, owner_providers@, lifecycle_providers@) =~= seq![m@]);
            }
            Some(m)
        },
        None => None,
    }
}

/// The lint findings of one catalog entry in an environment: its patterns'
/// findings in pattern order, then those of its exclusions when any pattern
/// resolved, then one per platform its paths name without its declaring it,
/// then one when it names a provider this build does not implement.
///
/// `windows` states the environment's path spelling. `resolutions` holds,
/// for each pattern, what the environment made of it (`None`: it did not
/// resolve). `exclusion_reach` holds, for each exclusion, `None` when it is a
/// bare entry name or does not resolve, and otherwise, for each pattern,
/// whether the exclusion lies at or below that pattern's resolved path. The
/// provider lists are the ids the owner-scoped and the lifecycle registries
/// implement.
pub fn audit_signature(
    signature: &Signature,
    windows: bool,
    resolutions: &Vec<Option<ResolvedPattern>>,
    exclusion_reach: &Vec<Option<Vec<bool>>>,
    owner_providers: &[String],
    lifecycle_providers: &[String],
) -> (r: Vec<ManifestLintFinding>)
    requires
        resolutions@.len() == signature.paths@.len(),
        exclusion_reach@.len() == signature.exclusions@.len(),
        forall|j: int|
            0 <= j < exclusion_reach@.len() && (#[trigger] exclusion_reach@[j]) is Some
                ==> exclusion_reach@[j]->0@.len() == signature.paths@.len(),
    ensures
        carries(
            r@,
            signature.id@,
            lint_entries(
                *signature,
                windows,
                resolutions@,
                exclusion_reach@,
                owner_providers@,
                lifecycle_providers@,
            ),
        ),
{
    let ghost paths = signature.paths@;
    let ghost res = resolutions@;
    let checked = !matches!(signature.strategy, CleanStrategy::Manual) && signature.min_age_days.is_none();
    let mut out: Vec<ManifestLintFinding> = Vec::new();
    let mut roots: Vec<bool> = Vec::new();
    let mut any_root = false;
    let mut i: usize = 0;
    while i < signature.paths.len()
        invariant
            paths == signature.paths@,
            res == resolutions@,
            res.len() == paths.len(),
            checked == boundary_checked(*signature),
            i <= paths.len(),
            roots@.len() == i,
            forall|j: int| 0 <= j < i ==> roots@[j] == scope_root(paths, res, windows, j),
            any_root == exists|j: int| 0 <= j < i && scope_root(paths, res, windows, j),
            carries(out@, signature.id@, untagged(patterns_messages(paths, res, windows, checked, i as int))),
        decreases paths.len() - i,
    {
        let p = &signature.paths[i];
        let examined_here = is_examined(p.as_str(), windows);
        if examined_here {
            let msgs = pattern_step(p, &resolutions[i], checked);
            let ghost before = out@;
            let ghost step = pattern_messages(p@, res[i as int], checked);
            proof {
                assert(msgs@.map_values(|m: String| m@) =~= step);
            }
            push_untagged(&mut out, signature, msgs);
            proof {
                let tail = out@.subrange(before.len() as int, out@.len() as int);
                lemma_carries_append(before, tail, signature.id@,
                    untagged(patterns_messages(paths, res, windows, checked, i as int)), untagged(step));
                assert(before + tail =~= out@);
                lemma_untagged_append(patterns_messages(paths, res, windows, checked, i as int), step);
            }
        }
        let root = examined_here && resolutions[i].is_some();
        roots.push(root);
        proof {
            if any_root || root {
                if root {
                    assert(scope_root(paths, res, windows, i as int));
                }
            } else {
                assert forall|j: int| 0 <= j < i + 1 implies !scope_root(paths, res, windows, j) by {
                    if j < i {
                    }
                }
            }
        }
        any_root = any_root || root;
        i = i + 1;
    }
    let ghost pattern_part = patterns_messages(paths, res, windows, checked, paths.len() as int);
    let ghost excl = signature.exclusions@;
    let ghost reach = exclusion_reach@;
    if any_root {
        let mut j: usize = 0;
        while j < signature.exclusions.len()
            invariant
                paths == signature.paths@,
                res == resolutions@,
                excl == signature.exclusions@,
                reach == exclusion_reach@,
                reach.len() == excl.len(),
                forall|t: int| 0 <= t < reach.len() && (#[trigger] reach[t]) is Some ==> reach[t]->0@.len() == paths.len(),
                roots@.len() == paths.len(),
                forall|t: int| 0 <= t < paths.len() ==> roots@[t] == scope_root(paths, res, windows, t),
                j <= excl.len(),
                carries(
                    out@,
                    signature.id@,
                    untagged(pattern_part + exclusions_messages(excl, reach, paths, res, windows, j as int)),
                ),
            decreases excl.len() - j,
        {
            let e = &signature.exclusions[j];
            let ghost earlier = exclusions_messages(excl, reach, paths, res, windows, j as int);
            if !is_foreign(e.as_str(), windows) {
                match &exclusion_reach[j] {
                    Some(r) => {
                        let mut reached = false;
                        let mut t: usize = 0;
                        while t < r.len()
                            invariant
                                r@.len() == paths.len(),
                                roots@.len() == paths.len(),
                                forall|u: int| 0 <= u < paths.len() ==> roots@[u] == scope_root(paths, res, windows, u),
                                t <= r@.len(),
                                reached == exists|u: int| 0 <= u < t && scope_root(paths, res, windows, u) && r@[u],
                            decreases r@.len() - t,
                        {
                            if roots[t] && r[t] {
                                reached = true;
                            }
                            t = t + 1;
                        }
                        proof {
                            assert(reached == reaches_scope(paths, res, windows, r@));
                        }
                        if !reached {
                            let m = message3("exclusion `", e.as_str(), "` resolves outside the signature's scope");
                            let f = finding(signature, None, m);
                            proof {
                                lemma_carries_push(out@, f, signature.id@, untagged(pattern_part + earlier));
                                assert(untagged(pattern_part + earlier).push(finding_view(f)) =~= untagged(
                                    pattern_part + exclusions_messages(excl, reach, paths, res, windows, j + 1),
                                ));
                            }
                            out.push(f);
                        } else {
                            assert(exclusions_messages(excl, reach, paths, res, windows, j + 1) == earlier);
                        }
                    },
                    None => {
                        assert(exclusions_messages(excl, reach, paths, res, windows, j + 1) == earlier);
                    },
                }
            } else {
                assert(exclusions_messages(excl, reach, paths, res, windows, j + 1) == earlier);
            }
            j = j + 1;
        }
    } else {
        proof {
            assert(pattern_part + Seq::<Seq<char>>::empty() =~= pattern_part);
        }
    }
    let ghost first = out@;
    let mut platform = platform_findings(signature);
    let ghost undeclared_list = undeclared(
        platforms_in_order(|p: PlatformKind| names_platform(signature.paths@, p)),
        signature.platforms@,
    );
    proof {
        assert(carries(platform@, signature.id@, tagged(undeclared_list)));
    }
    let ghost platform_part = platform@;
    out.append(&mut platform);
    proof {
        lemma_carries_append(first, platform_part, signature.id@,
            untagged(pattern_part + (if exists|t: int| scope_root(paths, res, windows, t) {
                exclusions_messages(excl, reach, paths, res, windows, excl.len() as int)
            } else {
                Seq::empty()
            })), tagged(undeclared_list));
    }
    let ghost second = out@;
    match provider_step(signature, owner_providers, lifecycle_providers) {
        Some(m) => {
            let f = finding(signature, None, m);
            proof {
                lemma_carries_push(out@, f, signature.id@, untagged(pattern_part + (if exists|t: int| scope_root(paths, res, windows, t) {
                exclusions_messages(excl, reach, paths, res, windows, excl.len() as int)
            } else {
                Seq::empty()
            })) + tagged(undeclared_list));
            }
            out.push(f);
        },
        None => {},
    }
    out
}

/// The findings of several entries, entry after entry.
pub open spec fn all_findings(audits: Seq<Vec<ManifestLintFinding>>) -> Seq<ManifestLintFinding> {
    audits.map_values(|v: Vec<ManifestLintFinding>| v@).flatten()
}

/// `a` is reported before `b`: by entry id, then by message.
pub open spec fn reported_before(a: ManifestLintFinding, b: ManifestLintFinding) -> bool {
    seq_lt(a.signature_id@, b.signature_id@) || (a.signature_id@ == b.signature_id@ && seq_lt(
        a.message@,
        b.message@,
    ))
}

proof fn lemma_reported_before_transitive(a: ManifestLintFinding, b: ManifestLintFinding, c: ManifestLintFinding)
    requires
        reported_before(a, b),
        reported_before(b, c),
    ensures
        reported_before(a, c),
{
    if seq_lt(a.signature_id@, b.signature_id@) && seq_lt(b.signature_id@, c.signature_id@) {
        lemma_seq_lt_transitive(a.signature_id@, b.signature_id@, c.signature_id@);
    } else if a.signature_id@ == b.signature_id@ && b.signature_id@ == c.signature_id@ {
        lemma_seq_lt_transitive(a.message@, b.message@, c.message@);
    }
}

proof fn lemma_reported_before_asymmetric(a: ManifestLintFinding, b: ManifestLintFinding)
    requires
        reported_before(a, b),
    ensures
        !reported_before(b, a),
{
    if reported_before(b, a) {
        lemma_reported_before_transitive(a, b, a);
        lemma_seq_lt_irreflexive(a.signature_id@);
        lemma_seq_lt_irreflexive(a.message@);
    }
}

fn reported_before_exec(a: &ManifestLintFinding, b: &ManifestLintFinding) -> (r: bool)
    ensures
        r == reported_before(*a, *b),
{
    str_less(a.signature_id.as_str(), b.signature_id.as_str()) || (equal_text(
        a.signature_id.as_str(),
        b.signature_id.as_str(),
    ) && str_less(a.message.as_str(), b.message.as_str()))
}

/// The findings that share `y`'s entry id and message.
pub open spec fn same_key(y: ManifestLintFinding) -> spec_fn(ManifestLintFinding) -> bool {
    |f: ManifestLintFinding| f.signature_id@ == y.signature_id@ && f.message@ == y.message@
}

/// Two findings are ordered one way or the other, or share their key.
pub proof fn lemma_reported_before_total(a: ManifestLintFinding, b: ManifestLintFinding)
    ensures
        reported_before(a, b) || reported_before(b, a) || (same_key(b))(a),
{
    if a.signature_id@ != b.signature_id@ {
        crate::text::lemma_seq_lt_total(a.signature_id@, b.signature_id@);
    } else if a.message@ != b.message@ {
        crate::text::lemma_seq_lt_total(a.message@, b.message@);
    }
}

/// A finding reported strictly before another does not share its key.
proof fn lemma_before_differs(a: ManifestLintFinding, b: ManifestLintFinding)
    requires
        reported_before(a, b),
    ensures
        !(same_key(b))(a),
{
    lemma_seq_lt_irreflexive(a.signature_id@);
    lemma_seq_lt_irreflexive(a.message@);
}

/// What a key filter keeps of one finding.
proof fn lemma_filter_one(x: ManifestLintFinding, y: ManifestLintFinding)
    ensures
        seq![x].filter(same_key(y)) == if (same_key(y))(x) {
            seq![x]
        } else {
            Seq::<ManifestLintFinding>::empty()
        },
{
    reveal_with_fuel(Seq::filter, 2);
    assert(seq![x].drop_last() =~= Seq::<ManifestLintFinding>::empty());
}

/// The lint report of a catalog: the findings of every entry, ordered by
/// entry id and then by message, so the report does not depend on the order
/// the entries were audited in. The order is stable: findings that share an
/// entry id and a message keep the order they were audited in.
pub fn audit_signature_platforms(audits: Vec<Vec<ManifestLintFinding>>) -> (r: Vec<ManifestLintFinding>)
    ensures
        r@.to_multiset() == all_findings(audits@).to_multiset(),
        forall|i: int, j: int| 0 <= i < j < r@.len() ==> !reported_before(#[trigger] r@[j], #[trigger] r@[i]),
        forall|y: ManifestLintFinding| #[trigger] r@.filter(same_key(y)) == all_findings(audits@).filter(same_key(y)),
{
    let ghost given = audits@;
    let mut rest = audits;
    let total = rest.len();
    let mut all: Vec<ManifestLintFinding> = Vec::new();
    let mut k: usize = 0;
    proof {
        assert(given.take(0).map_values(|v: Vec<ManifestLintFinding>| v@) =~= Seq::<Seq<ManifestLintFinding>>::empty());
        assert(all@ =~= all_findings(given.take(0)));
    }
    while rest.len() > 0
        invariant
            given.len() == total,
            k + rest@.len() == total,
            rest@ == given.skip(k as int),
            all@ == all_findings(given.take(k as int)),
        decreases rest@.len(),
    {
        let mut next = rest.remove(0);
        proof {
            assert(given.skip(k as int)[0] == given[k as int]);
            assert(given.skip(k as int).remove(0) =~= given.skip(k + 1));
            let f = |v: Vec<ManifestLintFinding>| v@;
            assert(given.take(k + 1).map_values(f) =~= given.take(k as int).map_values(f).push(given[k as int]@));
            given.take(k as int).map_values(f).lemma_flatten_push(given[k as int]@);
        }
        all.append(&mut next);
        k = k + 1;
    }
    proof {
        assert(given.take(k as int) =~= given);
    }
    let ghost input = all@;
    let mut rest = all;
    let mut out: Vec<ManifestLintFinding> = Vec::new();
    proof {
        vstd::seq_lib::to_multiset_len(out@);
        assert(out@.to_multiset() =~= vstd::multiset::Multiset::<ManifestLintFinding>::empty());
        assert(out@.to_multiset().add(rest@.to_multiset()) =~= rest@.to_multiset());
        assert forall|y: ManifestLintFinding| #[trigger] out@.filter(same_key(y)) == input.subrange(
            rest@.len() as int,
            input.len() as int,
        ).filter(same_key(y)) by {
            reveal(Seq::filter);
            assert(input.subrange(rest@.len() as int, input.len() as int) =~= Seq::<ManifestLintFinding>::empty());
        }
    }
    while rest.len() > 0
        invariant
            input == all_findings(given),
            rest@ == input.subrange(0, rest@.len() as int),
            rest@.len() <= input.len(),
            out@.to_multiset().add(rest@.to_multiset()) == all_findings(given).to_multiset(),
            forall|i: int, j: int| 0 <= i < j < out@.len() ==> !reported_before(#[trigger] out@[j], #[trigger] out@[i]),
            forall|y: ManifestLintFinding| #[trigger] out@.filter(same_key(y)) == input.subrange(
                rest@.len() as int,
                input.len() as int,
            ).filter(same_key(y)),
        decreases rest@.len(),
    {
        let ghost rest_before = rest@;
        let x = rest.pop().unwrap();
        proof {
            assert(rest_before =~= rest@.push(x));
            assert(rest@ =~= input.subrange(0, rest@.len() as int));
            assert(x == input[rest@.len() as int]);
        }
        let mut p: usize = 0;
        while p < out.len()
            invariant
                p <= out@.len(),
                forall|j: int| 0 <= j < p ==> reported_before(#[trigger] out@[j], x),
            ensures
                p <= out@.len(),
                forall|j: int| 0 <= j < p ==> reported_before(#[trigger] out@[j], x),
                p == out@.len() || !reported_before(out@[p as int], x),
            decreases out@.len() - p,
        {
            if !reported_before_exec(&out[p], &x) {
                break;
            }
            p = p + 1;
        }
        let ghost prior = out@;
        proof {
            assert forall|k: int| p <= k < prior.len() implies !reported_before(#[trigger] prior[k], x) by {
                if reported_before(prior[k], x) && k > p {
                    lemma_reported_before_total(prior[p as int], prior[k]);
                    if reported_before(prior[p as int], prior[k]) {
                        lemma_reported_before_transitive(prior[p as int], prior[k], x);
                    }
                }
            }
            assert forall|k: int| 0 <= k < p implies !reported_before(x, #[trigger] prior[k]) by {
                lemma_reported_before_asymmetric(prior[k], x);
            }
        }
        out.insert(p, x);
        proof {
            let after = out@;
            assert(after == prior.insert(p as int, x));
            assert forall|i: int, j: int| 0 <= i < j < after.len() implies !reported_before(
                #[trigger] after[j],
                #[trigger] after[i],
            ) by {
                if j < p {
                    assert(after[i] == prior[i] && after[j] == prior[j]);
                } else if j == p {
                    assert(after[i] == prior[i]);
                } else if i == p {
                    assert(after[j] == prior[j - 1]);
                } else if i < p {
                    assert(after[i] == prior[i]);
                    assert(after[j] == prior[j - 1]);
                } else {
                    assert(after[i] == prior[i - 1]);
                    assert(after[j] == prior[j - 1]);
                }
            }
            vstd::seq_lib::to_multiset_insert(prior, p as int, x);
            vstd::seq_lib::to_multiset_build(rest@, x);
            assert(out@.to_multiset().add(rest@.to_multiset()) =~= prior.to_multiset().add(
                rest_before.to_multiset(),
            ));
            let m = rest@.len() as int;
            let head = prior.subrange(0, p as int);
            let tail = prior.subrange(p as int, prior.len() as int);
            assert(after =~= head + seq![x] + tail);
            assert(prior =~= head + tail);
            assert(input.subrange(m, input.len() as int) =~= seq![x] + input.subrange(m + 1, input.len() as int));
            assert forall|y: ManifestLintFinding| #[trigger] out@.filter(same_key(y)) == input.subrange(
                m,
                input.len() as int,
            ).filter(same_key(y)) by {
                let pred = same_key(y);
                Seq::filter_distributes_over_add(head + seq![x], tail, pred);
                Seq::filter_distributes_over_add(head, seq![x], pred);
                Seq::filter_distributes_over_add(head, tail, pred);
                Seq::filter_distributes_over_add(seq![x], input.subrange(m + 1, input.len() as int), pred);
                lemma_filter_one(x, y);
                assert(prior.filter(pred) == input.subrange(m + 1, input.len() as int).filter(pred));
                if pred(x) {
                    assert forall|k: int| 0 <= k < head.len() implies !pred(#[trigger] head[k]) by {
                        lemma_before_differs(prior[k], x);
                    }
                    head.lemma_all_neg_filter_empty(pred);
                    assert(head.filter(pred) =~= Seq::<ManifestLintFinding>::empty());
                    assert(head.filter(pred) + seq![x] + tail.filter(pred) =~= seq![x] + (head.filter(pred)
                        + tail.filter(pred)));
                } else {
                    assert(head.filter(pred) + Seq::<ManifestLintFinding>::empty() + tail.filter(pred) =~= head.filter(pred)
                        + tail.filter(pred));
                    assert(Seq::<ManifestLintFinding>::empty() + input.subrange(m + 1, input.len() as int).filter(pred)
                        =~= input.subrange(m + 1, input.len() as int).filter(pred));
                }
            }
        }
    }
    proof {
        assert(rest@ =~= Seq::<ManifestLintFinding>::empty());
        vstd::seq_lib::to_multiset_len(rest@);
        assert(rest@.to_multiset() =~= vstd::multiset::Multiset::<ManifestLintFinding>::empty());
        assert(out@.to_multiset().add(rest@.to_multiset()) =~= out@.to_multiset());
        assert(input.subrange(0, input.len() as int) =~= input);
    }
    out
}

} // verus!
