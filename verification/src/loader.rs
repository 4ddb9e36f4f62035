//! Reading catalog entries: the one spelling of a path pattern, and the
//! platform vocabulary a pattern names.
use vstd::prelude::*;
use crate::models::PlatformKind;
use crate::registry::{declared_only, SignatureRegistry};
use crate::relationship::slashed;
use crate::signature::{contradiction, derived_unit_kind, first_contradiction, has_unknown_variable, is_process_name, owns_paths, string_views, Signature};
use crate::models::CleanupUnitKind;
use crate::exclusions::{first_exclusion_error, reachability_error, texts, validate_reachability, windows_only};
use crate::text::{
    ascii_lower, ascii_lower_seq, chars_of, eq_ignore_ascii_case, has_infix, has_prefix, lower_char,
    string_of, trim_seq, trim_text, contains_chars, starts_with_chars,
};

verus! {

/// The index of the first `%` at or after `from`, or the length when there is
/// none.
pub open spec fn next_percent(s: Seq<char>, from: int) -> int
    decreases s.len() - from,
{
    if from < 0 || from >= s.len() {
        s.len() as int
    } else if s[from] == '%' {
        from
    } else {
        next_percent(s, from + 1)
    }
}

pub proof fn lemma_next_percent(s: Seq<char>, from: int)
    requires
        0 <= from <= s.len(),
    ensures
        from <= next_percent(s, from) <= s.len(),
        next_percent(s, from) < s.len() ==> s[next_percent(s, from)] == '%',
        forall|k: int| from <= k < next_percent(s, from) ==> s[k] != '%',
    decreases s.len() - from,
{
    if from < s.len() && s[from] != '%' {
        lemma_next_percent(s, from + 1);
    }
}

/// One pass of the `%VAR%` rewrite from position `pos` on: each `%...%` pair
/// whose inner text equals `name` ignoring ASCII case becomes `placeholder`;
/// any other pair is kept, and the search resumes after its closing `%`.
pub open spec fn replaced_from(s: Seq<char>, pos: int, name: Seq<char>, placeholder: Seq<char>) -> Seq<
    char,
>
    decreases s.len() - pos,
{
    if pos < 0 || pos >= s.len() {
        Seq::empty()
    } else {
        let open = next_percent(s, pos);
        if open >= s.len() {
            s.subrange(pos, s.len() as int)
        } else {
            let close = next_percent(s, open + 1);
            if close >= s.len() {
                s.subrange(pos, s.len() as int)
            } else {
                proof {
                    lemma_next_percent(s, pos);
                    lemma_next_percent(s, open + 1);
                }
                if eq_ignore_ascii_case(s.subrange(open + 1, close), name) {
                    s.subrange(pos, open) + placeholder + replaced_from(s, close + 1, name, placeholder)
                } else {
                    s.subrange(pos, close + 1) + replaced_from(s, close + 1, name, placeholder)
                }
            }
        }
    }
}

/// The Windows variable names the loader rewrites, in the order the passes
/// run. Only spellings whose placeholder resolves to the same directory are
/// listed; `%PROGRAMFILES(X86)%` is deliberately absent.
pub open spec fn known_name(i: int) -> Seq<char> {
    if i == 0 {
        "USERPROFILE"@
    } else if i == 1 {
        "LOCALAPPDATA"@
    } else if i == 2 {
        "APPDATA"@
    } else if i == 3 {
        "PROGRAMDATA"@
    } else if i == 4 {
        "PROGRAMFILES"@
    } else if i == 5 {
        "SYSTEMROOT"@
    } else if i == 6 {
        "WINDIR"@
    } else if i == 7 {
        "TEMP"@
    } else {
        "TMP"@
    }
}

/// The placeholder each known variable becomes.
pub open spec fn known_placeholder(i: int) -> Seq<char> {
    if i == 0 {
        "${USER_HOME}"@
    } else if i == 1 {
        "${LOCAL_APP_DATA}"@
    } else if i == 2 {
        "${ROAMING_APP_DATA}"@
    } else if i == 3 {
        "${PROGRAM_DATA}"@
    } else if i == 4 {
        "${PROGRAM_FILES}"@
    } else if i == 5 || i == 6 {
        "${SYSTEM_ROOT}"@
    } else {
        "${TEMP}"@
    }
}

/// How many variables the loader knows.
pub const KNOWN_VARIABLES: usize = 9;

/// The pattern after the first `n` rewrite passes.
pub open spec fn rewritten(s: Seq<char>, n: nat) -> Seq<char>
    decreases n,
{
    if n == 0 {
        s
    } else {
        let before = rewritten(s, (n - 1) as nat);
        replaced_from(before, 0, known_name(n - 1), known_placeholder(n - 1))
    }
}

/// The one spelling of a pattern: every known `%VAR%` rewritten to its
/// placeholder, everything else unchanged.
pub open spec fn normalized(s: Seq<char>) -> Seq<char> {
    rewritten(s, KNOWN_VARIABLES as nat)
}

fn known_variable(i: usize) -> (r: (&'static str, &'static str))
    requires
        i < KNOWN_VARIABLES,
    ensures
        r.0@ == known_name(i as int),
        r.1@ == known_placeholder(i as int),
{
    if i == 0 {
        ("USERPROFILE", "${USER_HOME}")
    } else if i == 1 {
        ("LOCALAPPDATA", "${LOCAL_APP_DATA}")
    } else if i == 2 {
        ("APPDATA", "${ROAMING_APP_DATA}")
    } else if i == 3 {
        ("PROGRAMDATA", "${PROGRAM_DATA}")
    } else if i == 4 {
        ("PROGRAMFILES", "${PROGRAM_FILES}")
    } else if i == 5 {
        ("SYSTEMROOT", "${SYSTEM_ROOT}")
    } else if i == 6 {
        ("WINDIR", "${SYSTEM_ROOT}")
    } else if i == 7 {
        ("TEMP", "${TEMP}")
    } else {
        ("TMP", "${TEMP}")
    }
}

fn find_percent(s: &Vec<char>, from: usize) -> (r: usize)
    requires
        from <= s@.len(),
    ensures
        r == next_percent(s@, from as int),
{
    let mut i = from;
    while i < s.len()
        invariant
            from <= i <= s@.len(),
            next_percent(s@, from as int) == next_percent(s@, i as int),
        decreases s@.len() - i,
    {
        if s[i] == '%' {
            return i;
        }
        i = i + 1;
    }
    i
}

fn append_range(out: &mut Vec<char>, s: &Vec<char>, from: usize, to: usize)
    requires
        from <= to <= s@.len(),
    ensures
        final(out)@ == old(out)@ + s@.subrange(from as int, to as int),
{
    let mut i = from;
    while i < to
        invariant
            from <= i <= to <= s@.len(),
            out@ == old(out)@ + s@.subrange(from as int, i as int),
        decreases to - i,
    {
        out.push(s[i]);
        i = i + 1;
        assert(out@ =~= old(out)@ + s@.subrange(from as int, i as int));
    }
}

fn range_eq_ignore_case(s: &Vec<char>, from: usize, to: usize, name: &Vec<char>) -> (r: bool)
    requires
        from <= to <= s@.len(),
    ensures
        r == eq_ignore_ascii_case(s@.subrange(from as int, to as int), name@),
{
    let ghost inner = s@.subrange(from as int, to as int);
    if to - from != name.len() {
        proof {
            assert(ascii_lower_seq(inner).len() != ascii_lower_seq(name@).len());
        }
        return false;
    }
    let mut k: usize = 0;
    while k < name.len()
        invariant
            from <= to <= s@.len(),
            to - from == name@.len(),
            inner == s@.subrange(from as int, to as int),
            k <= name@.len(),
            forall|j: int| 0 <= j < k ==> ascii_lower(inner[j]) == ascii_lower(name@[j]),
        decreases name@.len() - k,
    {
        if lower_char(s[from + k]) != lower_char(name[k]) {
            proof {
                assert(ascii_lower_seq(inner)[k as int] != ascii_lower_seq(name@)[k as int]);
            }
            return false;
        }
        k = k + 1;
    }
    assert(ascii_lower_seq(inner) =~= ascii_lower_seq(name@));
    true
}

/// One rewrite pass over a pattern's characters.
fn replace_variable(s: &Vec<char>, name: &Vec<char>, placeholder: &Vec<char>) -> (r: Vec<char>)
    ensures
        r@ == replaced_from(s@, 0, name@, placeholder@),
{
    let mut out: Vec<char> = Vec::new();
    let mut pos: usize = 0;
    while pos < s.len()
        invariant
            pos <= s@.len(),
            out@ + replaced_from(s@, pos as int, name@, placeholder@) == replaced_from(s@, 0, name@, placeholder@),
        ensures
            pos == s@.len(),
            out@ + replaced_from(s@, pos as int, name@, placeholder@) == replaced_from(s@, 0, name@, placeholder@),
        decreases s@.len() - pos,
    {
        let ghost before = out@;
        assert(pos < s@.len());
        let open = find_percent(s, pos);
        if open >= s.len() {
            append_range(&mut out, s, pos, s.len());
            assert(out@ == before + replaced_from(s@, pos as int, name@, placeholder@));
            pos = s.len();
            break;
        }
        let close = find_percent(s, open + 1);
        proof {
            lemma_next_percent(s@, pos as int);
            lemma_next_percent(s@, open + 1);
        }
        if close >= s.len() {
            append_range(&mut out, s, pos, s.len());
            assert(out@ == before + replaced_from(s@, pos as int, name@, placeholder@));
            pos = s.len();
            break;
        }
        if range_eq_ignore_case(s, open + 1, close, name) {
            append_range(&mut out, s, pos, open);
            append_range(&mut out, placeholder, 0, placeholder.len());
            assert(placeholder@.subrange(0, placeholder@.len() as int) =~= placeholder@);
        } else {
            append_range(&mut out, s, pos, close + 1);
        }
        let ghost old_pos = pos;
        pos = close + 1;
        proof {
            assert(replaced_from(s@, old_pos as int, name@, placeholder@) =~= (out@.subrange(
                before.len() as int,
                out@.len() as int,
            )) + replaced_from(s@, pos as int, name@, placeholder@));
            assert(out@ =~= before + out@.subrange(before.len() as int, out@.len() as int));
        }
    }
    proof {
        assert(replaced_from(s@, pos as int, name@, placeholder@) =~= Seq::<char>::empty());
        assert(out@ + Seq::<char>::empty() =~= out@);
    }
    out
}

/// Reading catalog entries.
pub struct SignatureLoader;

impl SignatureLoader {
    /// Rewrites every Windows `%VAR%` spelling the loader knows into the
    /// placeholder the expander resolves, so the catalog has one spelling. A
    /// `%VAR%` the table does not know is left alone, for validation to refuse.
    /// Normalizing a normalized pattern changes nothing.
    pub fn normalize_pattern(value: &str) -> (r: String)
        ensures
            r@ == normalized(value@),
            normalized(r@) == r@,
    {
        proof {
            crate::laws::law_normalization_is_idempotent(value@);
        }
        let mut v = chars_of(value);
        let mut i: usize = 0;
        while i < KNOWN_VARIABLES
            invariant
                i <= KNOWN_VARIABLES,
                v@ == rewritten(value@, i as nat),
            decreases KNOWN_VARIABLES - i,
        {
            let (name, placeholder) = known_variable(i);
            let name_chars = chars_of(name);
            let placeholder_chars = chars_of(placeholder);
            v = replace_variable(&v, &name_chars, &placeholder_chars);
            i = i + 1;
        }
        string_of(v.as_slice())
    }
}


/// The platform a path pattern is tied to, judged on the trimmed pattern:
/// macOS roots and the Darwin cache placeholder, then Windows placeholders,
/// drive-`C` roots and `%VAR%` spellings; `None` for a portable pattern.
pub open spec fn platform_of_pattern(pattern: Seq<char>) -> Option<PlatformKind> {
    let p = trim_seq(pattern);
    if has_prefix(p, "~/Library"@) || has_prefix(p, "/Applications"@) || has_prefix(p, "/Library"@)
        || has_prefix(p, "/System"@) || has_prefix(p, "/Volumes"@) || has_prefix(p, "/private/"@)
        || has_infix(p, "${DARWIN_USER_CACHE}"@) {
        Some(PlatformKind::Macos)
    } else if has_infix(p, "${SYSTEM_ROOT}"@) || has_infix(p, "${LOCAL_APP_DATA}"@) || has_infix(
        p,
        "${ROAMING_APP_DATA}"@,
    ) || has_infix(p, "${PROGRAM_DATA}"@) || has_infix(p, "${PROGRAM_FILES}"@) || has_prefix(
        p,
        "C:\\"@,
    ) || has_prefix(p, "c:\\"@) || has_prefix(p, "%USERPROFILE%"@) || has_prefix(p, "%APPDATA%"@)
        || has_prefix(p, "%LOCALAPPDATA%"@) || has_prefix(p, "%PROGRAMDATA%"@) || has_prefix(
        p,
        "%PROGRAMFILES%"@,
    ) || has_prefix(p, "%SYSTEMROOT%"@) || has_prefix(p, "%WINDIR%"@) {
        Some(PlatformKind::Windows)
    } else {
        None
    }
}

fn begins(p: &Vec<char>, prefix: &str) -> (r: bool)
    ensures
        r == has_prefix(p@, prefix@),
{
    let q = chars_of(prefix);
    starts_with_chars(p, &q)
}

fn holds(p: &Vec<char>, needle: &str) -> (r: bool)
    ensures
        r == has_infix(p@, needle@),
{
    let q = chars_of(needle);
    contains_chars(p, &q)
}

impl SignatureRegistry {
    /// Which platform, if any, a path pattern or placeholder is tied to.
    ///
    /// Patterns arrive normalized, so a `%VAR%` spelling is judged by the
    /// placeholder it became; the `%VAR%` arms stay for hand-built entries, so
    /// a Windows spelling is never read as portable.
    pub fn is_platform_specific_path(pattern: &str) -> (r: Option<PlatformKind>)
        ensures
            r == platform_of_pattern(pattern@),
    {
        let p = trim_text(pattern);
        if begins(&p, "~/Library") || begins(&p, "/Applications") || begins(&p, "/Library") || begins(
            &p,
            "/System",
        ) || begins(&p, "/Volumes") || begins(&p, "/private/") || holds(&p, "${DARWIN_USER_CACHE}") {
            Some(PlatformKind::Macos)
        } else if holds(&p, "${SYSTEM_ROOT}") || holds(&p, "${LOCAL_APP_DATA}") || holds(
            &p,
            "${ROAMING_APP_DATA}",
        ) || holds(&p, "${PROGRAM_DATA}") || holds(&p, "${PROGRAM_FILES}") || begins(&p, "C:\\")
            || begins(&p, "c:\\") || begins(&p, "%USERPROFILE%") || begins(&p, "%APPDATA%") || begins(
            &p,
            "%LOCALAPPDATA%",
        ) || begins(&p, "%PROGRAMDATA%") || begins(&p, "%PROGRAMFILES%") || begins(&p, "%SYSTEMROOT%")
            || begins(&p, "%WINDIR%") {
            Some(PlatformKind::Windows)
        } else {
            None
        }
    }
}

/// A pattern the environment may legitimately fail to resolve: it names a
/// placeholder (`~`, `${...}`, `%VAR%`, `$TMPDIR`) rather than a literal path.
pub open spec fn dynamic_pattern(pattern: Seq<char>) -> bool {
    let p = trim_seq(pattern);
    has_infix(p, "${"@) || has_prefix(p, "~"@) || has_prefix(p, "$"@) || has_prefix(p, "%"@) || has_infix(
        p,
        "%"@,
    )
}

/// Whether a pattern names a placeholder rather than a literal path.
pub fn is_dynamic_pattern(pattern: &str) -> (r: bool)
    ensures
        r == dynamic_pattern(pattern@),
{
    let p = trim_text(pattern);
    holds(&p, "${") || begins(&p, "~") || begins(&p, "$") || begins(&p, "%") || holds(&p, "%")
}

/// The manifest token of a platform.
pub open spec fn token_of(platform: PlatformKind) -> Seq<char> {
    match platform {
        PlatformKind::Macos => "macos"@,
        PlatformKind::Windows => "windows"@,
        PlatformKind::Linux => "linux"@,
        PlatformKind::Other => "other"@,
    }
}

/// The manifest token of a platform.
pub fn platform_token(platform: PlatformKind) -> (r: &'static str)
    ensures
        r@ == token_of(platform),
{
    match platform {
        PlatformKind::Macos => "macos",
        PlatformKind::Windows => "windows",
        PlatformKind::Linux => "linux",
        PlatformKind::Other => "other",
    }
}

/// Some pattern of the list is tied to `platform`.
pub open spec fn names_platform(patterns: Seq<String>, platform: PlatformKind) -> bool {
    exists|i: int| 0 <= i < patterns.len() && platform_of_pattern(#[trigger] patterns[i]@) == Some(platform)
}

/// The platforms of a list, each once, in declaration order.
pub open spec fn platforms_in_order(has: spec_fn(PlatformKind) -> bool) -> Seq<PlatformKind> {
    let m = if has(PlatformKind::Macos) { seq![PlatformKind::Macos] } else { Seq::empty() };
    let w = if has(PlatformKind::Windows) { seq![PlatformKind::Windows] } else { Seq::empty() };
    let l = if has(PlatformKind::Linux) { seq![PlatformKind::Linux] } else { Seq::empty() };
    let o = if has(PlatformKind::Other) { seq![PlatformKind::Other] } else { Seq::empty() };
    m + w + l + o
}

/// The platforms a signature's path patterns name, each once, in
/// declaration order. The vocabulary is the manifest's, not the host's.
pub fn inferred_platforms(patterns: &[String]) -> (r: Vec<PlatformKind>)
    ensures
        r@ == platforms_in_order(|p: PlatformKind| names_platform(patterns@, p)),
{
    let mut macos = false;
    let mut windows = false;
    let mut i: usize = 0;
    while i < patterns.len()
        invariant
            i <= patterns@.len(),
            macos == exists|j: int| 0 <= j < i && platform_of_pattern(#[trigger] patterns@[j]@) == Some(
                PlatformKind::Macos,
            ),
            windows == exists|j: int| 0 <= j < i && platform_of_pattern(#[trigger] patterns@[j]@) == Some(
                PlatformKind::Windows,
            ),
            forall|j: int| 0 <= j < i ==> {
                let k = platform_of_pattern(#[trigger] patterns@[j]@);
                k is None || k == Some(PlatformKind::Macos) || k == Some(PlatformKind::Windows)
            },
        decreases patterns@.len() - i,
    {
        match SignatureRegistry::is_platform_specific_path(patterns[i].as_str()) {
            Some(PlatformKind::Macos) => macos = true,
            Some(PlatformKind::Windows) => windows = true,
            _ => {},
        }
        i = i + 1;
    }
    let mut out: Vec<PlatformKind> = Vec::new();
    if macos {
        out.push(PlatformKind::Macos);
    }
    if windows {
        out.push(PlatformKind::Windows);
    }
    proof {
        assert(!names_platform(patterns@, PlatformKind::Linux));
        assert(!names_platform(patterns@, PlatformKind::Other));
        let expected = platforms_in_order(|p: PlatformKind| names_platform(patterns@, p));
        assert(out@ =~= expected);
    }
    out
}

/// One manifest lint result. `platform` is set when the finding is that a
/// path resolves under a platform-specific root the signature does not
/// declare; the other findings leave it `None`.
pub struct ManifestLintFinding {
    pub signature_id: String,
    pub platform: Option<String>,
    pub message: String,
}

/// A lint finding about `signature`.
pub fn finding(signature: &Signature, platform: Option<String>, message: String) -> (r: ManifestLintFinding)
    ensures
        r.signature_id@ == signature.id@,
        r.platform == platform,
        r.message == message,
{
    ManifestLintFinding { signature_id: signature.id.clone(), platform, message }
}


/// The index of the first `c` at or after `from`, or the length when there
/// is none.
pub open spec fn next_index_of(s: Seq<char>, from: int, c: char) -> int
    decreases s.len() - from,
{
    if from < 0 || from >= s.len() {
        s.len() as int
    } else if s[from] == c {
        from
    } else {
        next_index_of(s, from + 1, c)
    }
}

fn find_char(s: &Vec<char>, from: usize, c: char) -> (r: usize)
    requires
        from <= s@.len(),
    ensures
        r == next_index_of(s@, from as int, c),
        from <= r <= s@.len(),
{
    let mut i = from;
    while i < s.len()
        invariant
            from <= i <= s@.len(),
            next_index_of(s@, from as int, c) == next_index_of(s@, i as int, c),
        decreases s@.len() - i,
    {
        if s[i] == c {
            return i;
        }
        i = i + 1;
    }
    i
}

/// `~` spelled as the home placeholder.
pub open spec fn home_spelled(v: Seq<char>) -> Seq<char> {
    if v == "~"@ || has_prefix(v, "~/"@) {
        "${USER_HOME}"@ + v.subrange(1, v.len() as int)
    } else {
        v
    }
}

/// `$TMPDIR` spelled as the temporary-directory placeholder.
pub open spec fn temp_spelled(v: Seq<char>) -> Seq<char> {
    if v == "$TMPDIR"@ || has_prefix(v, "$TMPDIR/"@) {
        "${TEMP}"@ + v.subrange(7, v.len() as int)
    } else {
        v
    }
}

/// A leading `${NAME}` spelled as a root of its own.
pub open spec fn placeholder_rooted(v: Seq<char>) -> Seq<char> {
    if has_prefix(v, "${"@) && next_index_of(v, 2, '}') < v.len() {
        let close = next_index_of(v, 2, '}');
        "/__zenith_placeholder/"@ + v.subrange(2, close) + v.subrange(close + 1, v.len() as int)
    } else {
        v
    }
}

/// The authoring-time symbol of a path: normalized, with `/` separators, the
/// home and temporary directories spelled as placeholders, and a leading
/// placeholder made a root of its own, so no host decides whether a portable
/// catalog loads.
pub open spec fn symbol_of(value: Seq<char>) -> Seq<char> {
    placeholder_rooted(temp_spelled(home_spelled(slashed(normalized(value)))))
}

fn concat_chars(a: &Vec<char>, b: &Vec<char>, from: usize) -> (r: Vec<char>)
    requires
        from <= b@.len(),
    ensures
        r@ == a@ + b@.subrange(from as int, b@.len() as int),
{
    let mut out = a.clone();
    assert(out@ == a@);
    append_range(&mut out, b, from, b.len());
    out
}

fn equals_literal(v: &Vec<char>, literal: &str) -> (r: bool)
    ensures
        r == (v@ == literal@),
{
    let l = chars_of(literal);
    if v.len() != l.len() {
        return false;
    }
    assert(v@.subrange(0, l@.len() as int) =~= v@);
    starts_with_chars(v, &l)
}

/// The authoring-time symbol of a path.
pub fn symbolic(value: &str) -> (r: String)
    ensures
        r@ == symbol_of(value@),
{
    let normalized_value = SignatureLoader::normalize_pattern(value);
    let chars = chars_of(normalized_value.as_str());
    let mut v: Vec<char> = Vec::new();
    let mut i: usize = 0;
    while i < chars.len()
        invariant
            i <= chars@.len(),
            v@ == slashed(chars@).subrange(0, i as int),
        decreases chars@.len() - i,
    {
        if chars[i] == '\\' {
            v.push('/');
        } else {
            v.push(chars[i]);
        }
        i = i + 1;
        assert(v@ =~= slashed(chars@).subrange(0, i as int));
    }
    assert(v@ =~= slashed(normalized(value@)));
    if equals_literal(&v, "~") || begins(&v, "~/") {
        let home = chars_of("${USER_HOME}");
        proof {
            reveal_strlit("~");
            reveal_strlit("~/");
        }
        v = concat_chars(&home, &v, 1);
    }
    if equals_literal(&v, "$TMPDIR") || begins(&v, "$TMPDIR/") {
        let temp = chars_of("${TEMP}");
        proof {
            reveal_strlit("$TMPDIR");
            reveal_strlit("$TMPDIR/");
            assert(v@.len() >= 7);
        }
        v = concat_chars(&temp, &v, 7);
    }
    if begins(&v, "${") {
        proof {
            reveal_strlit("${");
        }
        let close = find_char(&v, 2, '}');
        if close < v.len() {
            let root = chars_of("/__zenith_placeholder/");
            let mut out = root.clone();
            assert(out@ == root@);
            append_range(&mut out, &v, 2, close);
            append_range(&mut out, &v, close + 1, v.len());
            return string_of(out.as_slice());
        }
    }
    string_of(v.as_slice())
}

/// An entry names something: its id is not blank.
pub open spec fn names_entry(s: Signature) -> bool {
    trim_seq(s.id@).len() > 0
}

/// `entry` is `parsed` with its path patterns and exclusions normalized.
pub open spec fn prepared_from(parsed: Signature, entry: Signature) -> bool {
    &&& entry == (Signature { paths: entry.paths, exclusions: entry.exclusions, ..parsed })
    &&& entry.paths@.len() == parsed.paths@.len()
    &&& forall|i: int| 0 <= i < entry.paths@.len() ==> (#[trigger] entry.paths@[i])@ == normalized(parsed.paths@[i]@)
    &&& entry.exclusions@.len() == parsed.exclusions@.len()
    &&& forall|i: int|
        0 <= i < entry.exclusions@.len() ==> (#[trigger] entry.exclusions@[i])@ == normalized(
            parsed.exclusions@[i]@,
        )
}

/// An entry contradicts itself once its patterns are normalized.
pub open spec fn contradicts(s: Signature) -> bool {
    let kind = derived_unit_kind(s.unit, s.min_age_days, s.strategy);
    ||| (s.unit == Some(CleanupUnitKind::ChildNamespace) || s.unit == Some(CleanupUnitKind::NamedSubtree))
        && s.min_age_days is None
    ||| s.unit == Some(CleanupUnitKind::FixedPath) && s.min_age_days is Some
    ||| kind is ProviderAction && (s.paths@.len() > 0 || owns_paths(s.strategy))
    ||| exists|i: int| 0 <= i < s.fail_if_running@.len() && !is_process_name(s.fail_if_running@[i]@)
    ||| exists|i: int| 0 <= i < s.paths@.len() && has_unknown_variable(normalized(s.paths@[i]@))
    ||| exists|i: int| 0 <= i < s.exclusions@.len() && has_unknown_variable(normalized(s.exclusions@[i]@))
}

/// The normalized texts of a list of patterns.
pub open spec fn normalized_texts(v: Seq<String>) -> Seq<Seq<char>> {
    v.map_values(|p: String| normalized(p@))
}

/// The refusal an entry's exclusions earn once its patterns are normalized:
/// an exclusion that is neither a bare entry name nor a rooted path, or a
/// rooted one no path of the entry reaches.
pub open spec fn exclusion_refusal(s: Signature) -> Option<Seq<char>> {
    first_exclusion_error(
        s.id@,
        normalized_texts(s.paths@),
        normalized_texts(s.exclusions@),
        windows_only(s.platforms@),
        0,
    )
}

/// An entry the loader refuses: it contradicts itself, or one of its
/// exclusions is refused.
pub open spec fn refused(s: Signature) -> bool {
    contradicts(s) || exclusion_refusal(s) is Some
}

proof fn lemma_prepared_refused(parsed: Signature, entry: Signature)
    requires
        prepared_from(parsed, entry),
    ensures
        contradiction(entry) == contradicts(parsed),
        reachability_error(entry) == exclusion_refusal(parsed),
{
    assert(texts(entry.paths@) =~= normalized_texts(parsed.paths@));
    assert(texts(entry.exclusions@) =~= normalized_texts(parsed.exclusions@));
    assert(entry.id == parsed.id);
    assert(entry.platforms == parsed.platforms);
    assert(entry.unit == parsed.unit);
    assert(entry.min_age_days == parsed.min_age_days);
    assert(entry.strategy == parsed.strategy);
    assert(entry.fail_if_running == parsed.fail_if_running);
    if exists|i: int| 0 <= i < entry.paths@.len() && has_unknown_variable(entry.paths@[i]@) {
        let i = choose|i: int| 0 <= i < entry.paths@.len() && has_unknown_variable(entry.paths@[i]@);
        assert(has_unknown_variable(normalized(parsed.paths@[i]@)));
    }
    if exists|i: int| 0 <= i < parsed.paths@.len() && has_unknown_variable(normalized(parsed.paths@[i]@)) {
        let i = choose|i: int| 0 <= i < parsed.paths@.len() && has_unknown_variable(normalized(parsed.paths@[i]@));
        assert(has_unknown_variable(entry.paths@[i]@));
    }
    if exists|i: int| 0 <= i < entry.exclusions@.len() && has_unknown_variable(entry.exclusions@[i]@) {
        let i = choose|i: int| 0 <= i < entry.exclusions@.len() && has_unknown_variable(entry.exclusions@[i]@);
        assert(has_unknown_variable(normalized(parsed.exclusions@[i]@)));
    }
    if exists|i: int| 0 <= i < parsed.exclusions@.len() && has_unknown_variable(
        normalized(parsed.exclusions@[i]@),
    ) {
        let i = choose|i: int|
            0 <= i < parsed.exclusions@.len() && has_unknown_variable(normalized(parsed.exclusions@[i]@));
        assert(has_unknown_variable(entry.exclusions@[i]@));
    }
}

/// The entries of a parsed manifest that name something, in order.
pub open spec fn named_entries(parsed: Seq<Signature>) -> Seq<Signature>
    decreases parsed.len(),
{
    if parsed.len() == 0 {
        Seq::empty()
    } else if names_entry(parsed.last()) {
        named_entries(parsed.drop_last()).push(parsed.last())
    } else {
        named_entries(parsed.drop_last())
    }
}

fn normalize_all(patterns: &Vec<String>) -> (r: Vec<String>)
    ensures
        r@.len() == patterns@.len(),
        forall|i: int| 0 <= i < r@.len() ==> (#[trigger] r@[i])@ == normalized(patterns@[i]@),
{
    let mut out: Vec<String> = Vec::new();
    let mut i: usize = 0;
    while i < patterns.len()
        invariant
            i <= patterns@.len(),
            out@.len() == i,
            forall|j: int| 0 <= j < i ==> (#[trigger] out@[j])@ == normalized(patterns@[j]@),
        decreases patterns@.len() - i,
    {
        out.push(SignatureLoader::normalize_pattern(patterns[i].as_str()));
        i = i + 1;
    }
    out
}

/// The entries of a parsed manifest, ready to register: an entry with a
/// blank id names nothing and is skipped; every other entry has its path
/// patterns and exclusions normalized and must not contradict itself. One
/// contradiction fails the whole manifest: a catalog that half-loads is a
/// catalog nobody can reason about.
pub fn prepare_signatures(parsed: Vec<Signature>) -> (r: Result<Vec<Signature>, String>)
    ensures
        r is Err <==> exists|i: int| 0 <= i < parsed@.len() && names_entry(parsed@[i]) && refused(parsed@[i]),
        r is Ok ==> r->Ok_0@.len() == named_entries(parsed@).len() && forall|i: int|
            0 <= i < r->Ok_0@.len() ==> prepared_from(named_entries(parsed@)[i], #[trigger] r->Ok_0@[i]),
        r matches Err(message) ==> exists|i: int|
            0 <= i < parsed@.len() && names_entry(#[trigger] parsed@[i]) && refused(parsed@[i]) && (forall|j: int|
                0 <= j < i ==> !(names_entry(#[trigger] parsed@[j]) && refused(parsed@[j]))) && (!contradicts(
                parsed@[i],
            ) ==> exclusion_refusal(parsed@[i]) == Some(message@)) && (contradicts(parsed@[i]) ==> first_contradiction(
                parsed@[i],
                normalized_texts(parsed@[i].paths@),
                normalized_texts(parsed@[i].exclusions@),
            ) == Some(message@)),
{
    let ghost all = parsed@;
    let total = parsed.len();
    let mut rest = parsed;
    let mut out: Vec<Signature> = Vec::new();
    let mut k: usize = 0;
    while rest.len() > 0
        invariant
            all == parsed@,
            all.len() == total,
            k <= all.len(),
            k + rest@.len() == all.len(),
            rest@ == all.skip(k as int),
            out@.len() == named_entries(all.take(k as int)).len(),
            forall|i: int| 0 <= i < out@.len() ==> prepared_from(named_entries(all.take(k as int))[i], #[trigger] out@[i]),
            forall|i: int| 0 <= i < k ==> !(names_entry(all[i]) && refused(all[i])),
        decreases rest@.len(),
    {
        let sig = rest.remove(0);
        proof {
            assert(all.skip(k as int)[0] == all[k as int]);
            assert(all.skip(k as int).remove(0) =~= all.skip(k + 1));
            assert(all.take(k + 1).drop_last() =~= all.take(k as int));
            assert(all.take(k + 1).last() == all[k as int]);
        }
        let id = trim_text(sig.id.as_str());
        if id.len() > 0 {
            let paths = normalize_all(&sig.paths);
            let exclusions = normalize_all(&sig.exclusions);
            let entry = Signature { paths, exclusions, ..sig };
            proof {
                assert(prepared_from(sig, entry));
                lemma_prepared_refused(sig, entry);
            }
            match entry.validate() {
                Ok(()) => {},
                Err(message) => {
                    proof {
                        assert(names_entry(all[k as int]) && refused(all[k as int]));
                        assert(string_views(entry.paths@) =~= normalized_texts(sig.paths@));
                        assert(string_views(entry.exclusions@) =~= normalized_texts(sig.exclusions@));
                        assert(entry.unit == sig.unit && entry.min_age_days == sig.min_age_days);
                        assert(entry.strategy == sig.strategy && entry.fail_if_running == sig.fail_if_running);
                        assert(entry.paths@.len() == sig.paths@.len());
                        assert(sig == all[k as int]);
                        assert(first_contradiction(sig, normalized_texts(sig.paths@), normalized_texts(sig.exclusions@))
                            == Some(message@));
                    }
                    return Err(message);
                },
            }
            match validate_reachability(&entry) {
                Ok(()) => {},
                Err(message) => {
                    proof {
                        assert(names_entry(all[k as int]) && refused(all[k as int]));
                        assert(!contradicts(all[k as int]));
                    }
                    return Err(message);
                },
            }
            let ghost prior = out@;
            out.push(entry);
            proof {
                assert forall|i: int| 0 <= i < out@.len() implies prepared_from(
                    named_entries(all.take(k + 1))[i],
                    #[trigger] out@[i],
                ) by {
                    if i < prior.len() {
                        assert(out@[i] == prior[i]);
                    }
                }
            }
        }
        k = k + 1;
    }
    proof {
        assert(all.skip(k as int).len() == 0);
        assert(all.take(k as int) =~= all);
    }
    Ok(out)
}

/// The platforms an entry resolves under without declaring them. An entry
/// that declares none is offered everywhere, which is only truthful when its
/// paths do not all name a single platform: then that platform is
/// undeclared. An entry that declares some must cover every platform its
/// paths name.
pub open spec fn undeclared(inferred: Seq<PlatformKind>, declared: Seq<PlatformKind>) -> Seq<PlatformKind> {
    if declared.len() == 0 {
        if inferred.len() == 1 {
            inferred
        } else {
            Seq::empty()
        }
    } else {
        inferred.filter(|p: PlatformKind| !declared.contains(p))
    }
}

fn declares(declared: &[PlatformKind], platform: PlatformKind) -> (r: bool)
    ensures
        r == declared@.contains(platform),
{
    let mut i: usize = 0;
    while i < declared.len()
        invariant
            i <= declared@.len(),
            forall|j: int| 0 <= j < i ==> declared@[j] != platform,
        decreases declared@.len() - i,
    {
        if declared[i] == platform {
            assert(declared@[i as int] == platform);
            return true;
        }
        i = i + 1;
    }
    false
}

/// The platforms a signature's paths resolve under without its declaring
/// them.
pub fn undeclared_platforms(paths: &[String], declared: &[PlatformKind]) -> (r: Vec<PlatformKind>)
    ensures
        r@ == undeclared(platforms_in_order(|p: PlatformKind| names_platform(paths@, p)), declared@),
{
    let inferred = inferred_platforms(paths);
    if declared.len() == 0 {
        if inferred.len() == 1 {
            return inferred;
        }
        return Vec::new();
    }
    let mut out: Vec<PlatformKind> = Vec::new();
    let mut i: usize = 0;
    assert(inferred@.take(0).filter(|p: PlatformKind| !declared@.contains(p)) =~= Seq::<PlatformKind>::empty());
    while i < inferred.len()
        invariant
            i <= inferred@.len(),
            out@ == inferred@.take(i as int).filter(|p: PlatformKind| !declared@.contains(p)),
        decreases inferred@.len() - i,
    {
        proof {
            assert(inferred@.take(i + 1) =~= inferred@.take(i as int).push(inferred@[i as int]));
            inferred@.take(i as int).lemma_filter_push(inferred@[i as int], |p: PlatformKind| !declared@.contains(p));
        }
        if !declares(declared, inferred[i]) {
            out.push(inferred[i]);
        }
        i = i + 1;
    }
    assert(inferred@.take(inferred@.len() as int) =~= inferred@);
    out
}

/// The message of a platform finding.
pub open spec fn platform_message(platform: PlatformKind) -> Seq<char> {
    "resolves under a "@ + token_of(platform) + "-specific root but does not declare `platforms`"@
}

/// The platform findings of one signature: one per platform its paths
/// resolve under without its declaring it, naming that platform.
pub fn platform_findings(signature: &Signature) -> (r: Vec<ManifestLintFinding>)
    ensures
        r@.len() == undeclared(
            platforms_in_order(|p: PlatformKind| names_platform(signature.paths@, p)),
            signature.platforms@,
        ).len(),
        forall|i: int|
            0 <= i < r@.len() ==> {
                let platform = undeclared(
                    platforms_in_order(|p: PlatformKind| names_platform(signature.paths@, p)),
                    signature.platforms@,
                )[i];
                &&& (#[trigger] r@[i]).signature_id@ == signature.id@
                &&& r@[i].platform matches Some(t) && t@ == token_of(platform)
                &&& r@[i].message@ == platform_message(platform)
            },
{
    let undeclared_list = undeclared_platforms(signature.paths.as_slice(), signature.platforms.as_slice());
    let mut out: Vec<ManifestLintFinding> = Vec::new();
    let mut i: usize = 0;
    while i < undeclared_list.len()
        invariant
            i <= undeclared_list@.len(),
            out@.len() == i,
            forall|j: int|
                0 <= j < i ==> {
                    let platform = undeclared_list@[j];
                    &&& (#[trigger] out@[j]).signature_id@ == signature.id@
                    &&& out@[j].platform matches Some(t) && t@ == token_of(platform)
                    &&& out@[j].message@ == platform_message(platform)
                },
        decreases undeclared_list@.len() - i,
    {
        let token = platform_token(undeclared_list[i]);
        let mut message = chars_of("resolves under a ");
        let t = chars_of(token);
        append_range(&mut message, &t, 0, t.len());
        let tail = chars_of("-specific root but does not declare `platforms`");
        append_range(&mut message, &tail, 0, tail.len());
        proof {
            assert(t@.subrange(0, t@.len() as int) =~= t@);
            assert(tail@.subrange(0, tail@.len() as int) =~= tail@);
        }
        out.push(finding(signature, Some(string_of(t.as_slice())), string_of(message.as_slice())));
        i = i + 1;
    }
    out
}

/// The catalog registering `entries` in order gives: a later entry replaces
/// an earlier one with its id.
pub open spec fn registered(entries: Seq<Signature>) -> Map<Seq<char>, Signature>
    decreases entries.len(),
{
    if entries.len() == 0 {
        Map::empty()
    } else {
        registered(entries.drop_last()).insert(entries.last().id@, entries.last())
    }
}

impl SignatureRegistry {
    /// The catalog built from parsed manifest entries, in order: refused as a
    /// whole when any entry that names something contradicts itself, and
    /// otherwise every such entry registered, normalized, a later entry
    /// replacing an earlier one with its id.
    pub fn load_embedded_catalog(parsed: Vec<Signature>) -> (r: Result<SignatureRegistry, String>)
        ensures
            r is Err <==> exists|i: int| 0 <= i < parsed@.len() && names_entry(parsed@[i]) && refused(parsed@[i]),
            r is Ok ==> r->Ok_0.wf() && exists|entries: Seq<Signature>|
                entries.len() == named_entries(parsed@).len() && (forall|i: int|
                    0 <= i < entries.len() ==> prepared_from(named_entries(parsed@)[i], #[trigger] entries[i]))
                    && r->Ok_0.catalog() == registered(entries),
    {
        let prepared = match prepare_signatures(parsed) {
            Ok(entries) => entries,
            Err(message) => return Err(message),
        };
        let ghost entries = prepared@;
        let total = prepared.len();
        let mut registry = SignatureRegistry::new();
        let mut rest = prepared;
        let mut k: usize = 0;
        while rest.len() > 0
            invariant
                k <= entries.len(),
                entries.len() == total,
                k + rest@.len() == entries.len(),
                rest@ == entries.skip(k as int),
                registry.wf(),
                registry.catalog() == registered(entries.take(k as int)),
            decreases rest@.len(),
        {
            let sig = rest.remove(0);
            proof {
                assert(entries.skip(k as int)[0] == entries[k as int]);
                assert(entries.skip(k as int).remove(0) =~= entries.skip(k + 1));
                assert(entries.take(k + 1).drop_last() =~= entries.take(k as int));
            }
            registry.register(sig);
            k = k + 1;
        }
        proof {
            assert(entries.take(k as int) =~= entries);
        }
        Ok(registry)
    }

    /// The catalog built from parsed manifest entries, as
    /// `load_embedded_catalog` builds it, with every entry the
    /// platform-declaration rule refuses dropped: a refused entry is never
    /// registered, so a scan can never offer it. Which entries the rule
    /// refuses depends on the manifest alone, not on the machine.
    pub fn load_embedded_with(parsed: Vec<Signature>) -> (r: Result<SignatureRegistry, String>)
        ensures
            r is Err <==> exists|i: int| 0 <= i < parsed@.len() && names_entry(parsed@[i]) && refused(parsed@[i]),
            r is Ok ==> r->Ok_0.wf() && exists|entries: Seq<Signature>|
                entries.len() == named_entries(parsed@).len() && (forall|i: int|
                    0 <= i < entries.len() ==> prepared_from(named_entries(parsed@)[i], #[trigger] entries[i]))
                    && r->Ok_0.catalog() == declared_only(registered(entries)),
    {
        match SignatureRegistry::load_embedded_catalog(parsed) {
            Ok(registry) => {
                let mut registry = registry;
                registry.enforce_platform_declarations();
                Ok(registry)
            },
            Err(message) => Err(message),
        }
    }
}

} // verus!
