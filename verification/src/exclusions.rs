//! One exclusion contract for the catalog: an exclusion is a bare entry name
//! or a rooted path, and a rooted one lies at or below a path of its own
//! signature. Reachability is decided on authoring-time symbols, so no host
//! filesystem or profile decides whether a portable catalog loads.
use vstd::prelude::*;
use crate::loader::{symbol_of, symbolic};
use crate::models::PlatformKind;
use crate::signature::Signature;
use crate::text::{append_text, ascii_lower_seq, chars_of, lower_char, string_of};

verus! {

/// An ASCII letter.
pub open spec fn ascii_letter(c: char) -> bool {
    ('a' <= c && c <= 'z') || ('A' <= c && c <= 'Z')
}

/// Absolute in Windows spelling: a drive letter, a colon and a separator.
/// `C:cache` is relative to the current directory of drive `C`, so it is
/// not absolute.
pub open spec fn windows_absolute(p: Seq<char>) -> bool {
    p.len() >= 3 && ascii_letter(p[0]) && p[1] == ':' && (p[2] == '\\' || p[2] == '/')
}

/// `s` begins with the character `c`.
pub open spec fn begins_with(s: Seq<char>, c: char) -> bool {
    s.len() > 0 && s[0] == c
}

/// An exclusion written as a path: it names the profile, a placeholder or
/// a root, or is absolute in Windows spelling.
pub open spec fn rooted(e: Seq<char>) -> bool {
    begins_with(e, '~') || begins_with(e, '$') || begins_with(e, '/') || begins_with(e, '\\') || windows_absolute(e)
}

/// The non-empty pieces of `s` between occurrences of `sep`, with `cur`
/// the piece read so far.
pub open spec fn pieces(s: Seq<char>, sep: char, cur: Seq<char>) -> Seq<Seq<char>>
    decreases s.len(),
{
    if s.len() == 0 {
        if cur.len() == 0 {
            Seq::empty()
        } else {
            seq![cur]
        }
    } else if s[0] == sep {
        (if cur.len() == 0 {
            Seq::empty()
        } else {
            seq![cur]
        }) + pieces(s.drop_first(), sep, Seq::empty())
    } else {
        pieces(s.drop_first(), sep, cur.push(s[0]))
    }
}

/// The components of a `/`-separated path, empty ones dropped.
pub open spec fn components(s: Seq<char>) -> Seq<Seq<char>> {
    pieces(s, '/', Seq::empty())
}

/// Two names are the same, up to ASCII case where `fold` says so.
pub open spec fn same_name(a: Seq<char>, b: Seq<char>, fold: bool) -> bool {
    if fold {
        ascii_lower_seq(a) == ascii_lower_seq(b)
    } else {
        a == b
    }
}

/// A `{a,b}` group of alternatives.
pub open spec fn braced(p: Seq<char>) -> bool {
    p.len() >= 2 && p[0] == '{' && p[p.len() - 1] == '}'
}

/// The alternatives of a braced group.
pub open spec fn alternatives(p: Seq<char>) -> Seq<Seq<char>> {
    pieces(p.subrange(1, p.len() - 1), ',', Seq::empty())
}

/// A root component matches a path component: `*` matches any one
/// component, a braced group matches any of its alternatives, and anything
/// else matches the same name.
pub open spec fn component_matches(p: Seq<char>, c: Seq<char>, fold: bool) -> bool {
    if p == seq!['*'] {
        true
    } else if braced(p) {
        exists|k: int| 0 <= k < alternatives(p).len() && same_name(#[trigger] alternatives(p)[k], c, fold)
    } else {
        same_name(p, c, fold)
    }
}

/// `path` lies at or below a location `root` selects: the root's
/// components match the path's leading components.
pub open spec fn reaches(root: Seq<char>, path: Seq<char>, fold: bool) -> bool {
    let rc = components(root);
    let pc = components(path);
    rc.len() <= pc.len() && forall|i: int| 0 <= i < rc.len() ==> component_matches(rc[i], pc[i], fold)
}

/// A root is compared in Windows spelling, case-insensitively, when its
/// signature is for Windows alone or it is a drive-absolute path.
pub open spec fn windows_root(root: Seq<char>, windows_only: bool) -> bool {
    windows_only || (windows_absolute(root) && !begins_with(root, '/'))
}

/// The message refusing an exclusion that is neither a bare name nor a
/// rooted path.
pub open spec fn bare_name_message(id: Seq<char>, e: Seq<char>) -> Seq<char> {
    "Signature `"@ + id + "` exclusion `"@ + e + "` must be a bare entry name or rooted path"@
}

/// The message refusing an exclusion outside every path of its signature.
pub open spec fn unreachable_message(id: Seq<char>, e: Seq<char>) -> Seq<char> {
    "Signature `"@ + id + "` has unreachable exclusion `"@ + e + "`"@
}

/// Some path of the signature reaches the exclusion.
pub open spec fn reachable(paths: Seq<Seq<char>>, e: Seq<char>, windows_only: bool) -> bool {
    exists|i: int|
        0 <= i < paths.len() && reaches(
            symbol_of(#[trigger] paths[i]),
            symbol_of(e),
            windows_root(symbol_of(paths[i]), windows_only),
        )
}

/// The refusal one exclusion earns, if any.
pub open spec fn exclusion_error(id: Seq<char>, e: Seq<char>, paths: Seq<Seq<char>>, windows_only: bool) -> Option<
    Seq<char>,
> {
    if !rooted(e) {
        if e.len() == 0 || e.contains('/') || e.contains('\\') {
            Some(bare_name_message(id, e))
        } else {
            None
        }
    } else if reachable(paths, e, windows_only) {
        None
    } else {
        Some(unreachable_message(id, e))
    }
}

/// The refusal of the first exclusion from `j` on that earns one.
pub open spec fn first_exclusion_error(
    id: Seq<char>,
    paths: Seq<Seq<char>>,
    exclusions: Seq<Seq<char>>,
    windows_only: bool,
    j: int,
) -> Option<Seq<char>>
    decreases exclusions.len() - j,
{
    if j < 0 || j >= exclusions.len() {
        None
    } else {
        match exclusion_error(id, exclusions[j], paths, windows_only) {
            Some(m) => Some(m),
            None => first_exclusion_error(id, paths, exclusions, windows_only, j + 1),
        }
    }
}

/// The texts of a list of strings.
pub open spec fn texts(v: Seq<String>) -> Seq<Seq<char>> {
    v.map_values(|s: String| s@)
}

/// The signature is for Windows alone.
pub open spec fn windows_only(platforms: Seq<PlatformKind>) -> bool {
    platforms == seq![PlatformKind::Windows]
}

/// The refusal a signature's exclusions earn, if any.
pub open spec fn reachability_error(s: Signature) -> Option<Seq<char>> {
    first_exclusion_error(s.id@, texts(s.paths@), texts(s.exclusions@), windows_only(s.platforms@), 0)
}

/// The texts of a list of character vectors.
pub open spec fn char_texts(v: Seq<Vec<char>>) -> Seq<Seq<char>> {
    v.map_values(|x: Vec<char>| x@)
}

/// The components of a `/`-separated path, empty ones dropped.
pub(crate) fn path_components(s: &Vec<char>) -> (r: Vec<Vec<char>>)
    ensures
        char_texts(r@) == components(s@),
{
    split_pieces(s, '/')
}

fn split_pieces(s: &Vec<char>, sep: char) -> (r: Vec<Vec<char>>)
    ensures
        char_texts(r@) == pieces(s@, sep, Seq::empty()),
{
    let mut out: Vec<Vec<char>> = Vec::new();
    let mut cur: Vec<char> = Vec::new();
    let mut i: usize = 0;
    proof {
        assert(s@.skip(0) =~= s@);
        assert(char_texts(out@) + pieces(s@.skip(0), sep, cur@) =~= pieces(s@, sep, Seq::empty()));
    }
    while i < s.len()
        invariant
            i <= s@.len(),
            char_texts(out@) + pieces(s@.skip(i as int), sep, cur@) == pieces(s@, sep, Seq::empty()),
        decreases s@.len() - i,
    {
        let c = s[i];
        let ghost rest = s@.skip(i as int);
        let ghost prior_out = out@;
        let ghost prior_cur = cur@;
        proof {
            assert(rest[0] == c);
            assert(rest.drop_first() =~= s@.skip(i + 1));
        }
        if c == sep {
            if cur.len() > 0 {
                out.push(cur);
            }
            cur = Vec::new();
            proof {
                if prior_cur.len() > 0 {
                    assert(char_texts(out@) =~= char_texts(prior_out) + seq![prior_cur]);
                } else {
                    assert(out@ == prior_out);
                }
                assert(char_texts(out@) + pieces(s@.skip(i + 1), sep, cur@) =~= char_texts(prior_out) + pieces(
                    rest,
                    sep,
                    prior_cur,
                ));
            }
        } else {
            cur.push(c);
            proof {
                assert(cur@ == prior_cur.push(c));
            }
        }
        i = i + 1;
    }
    proof {
        assert(s@.skip(i as int).len() == 0);
    }
    let ghost prior_out = out@;
    let ghost prior_cur = cur@;
    if cur.len() > 0 {
        out.push(cur);
        proof {
            assert(char_texts(out@) =~= char_texts(prior_out) + seq![prior_cur]);
        }
    } else {
        proof {
            assert(char_texts(out@) =~= char_texts(prior_out) + Seq::<Seq<char>>::empty());
        }
    }
    out
}

/// Whether two names are the same, up to ASCII case where `fold` says so.
pub(crate) fn same_name_exec(a: &Vec<char>, b: &Vec<char>, fold: bool) -> (r: bool)
    ensures
        r == same_name(a@, b@, fold),
{
    if a.len() != b.len() {
        proof {
            if fold {
                assert(ascii_lower_seq(a@).len() != ascii_lower_seq(b@).len());
            }
        }
        return false;
    }
    let mut i: usize = 0;
    while i < a.len()
        invariant
            a@.len() == b@.len(),
            i <= a@.len(),
            forall|j: int|
                0 <= j < i ==> if fold {
                    ascii_lower_seq(a@)[j] == ascii_lower_seq(b@)[j]
                } else {
                    a@[j] == b@[j]
                },
        decreases a@.len() - i,
    {
        let x = if fold {
            lower_char(a[i])
        } else {
            a[i]
        };
        let y = if fold {
            lower_char(b[i])
        } else {
            b[i]
        };
        if x != y {
            proof {
                if fold {
                    assert(ascii_lower_seq(a@)[i as int] != ascii_lower_seq(b@)[i as int]);
                } else {
                    assert(a@[i as int] != b@[i as int]);
                }
            }
            return false;
        }
        i = i + 1;
    }
    proof {
        if fold {
            assert(ascii_lower_seq(a@) =~= ascii_lower_seq(b@));
        } else {
            assert(a@ =~= b@);
        }
    }
    true
}

fn component_matches_exec(p: &Vec<char>, c: &Vec<char>, fold: bool) -> (r: bool)
    ensures
        r == component_matches(p@, c@, fold),
{
    if p.len() == 1 && p[0] == '*' {
        assert(p@ =~= seq!['*']);
        return true;
    }
    assert(p@ != seq!['*']) by {
        if p@ == seq!['*'] {
            assert(p@.len() == 1 && p@[0] == '*');
        }
    }
    if p.len() >= 2 && p[0] == '{' && p[p.len() - 1] == '}' {
        let mut inner: Vec<char> = Vec::new();
        let mut i: usize = 1;
        while i < p.len() - 1
            invariant
                1 <= i <= p@.len() - 1,
                p@.len() >= 2,
                inner@ == p@.subrange(1, i as int),
            decreases p@.len() - 1 - i,
        {
            inner.push(p[i]);
            i = i + 1;
            assert(inner@ =~= p@.subrange(1, i as int));
        }
        let alts = split_pieces(&inner, ',');
        let mut k: usize = 0;
        while k < alts.len()
            invariant
                braced(p@),
                p@ != seq!['*'],
                char_texts(alts@) == alternatives(p@),
                k <= alts@.len(),
                forall|j: int| 0 <= j < k ==> !same_name(#[trigger] alternatives(p@)[j], c@, fold),
            decreases alts@.len() - k,
        {
            if same_name_exec(&alts[k], c, fold) {
                assert(alternatives(p@)[k as int] == alts@[k as int]@);
                assert(same_name(alternatives(p@)[k as int], c@, fold));
                assert(braced(p@));
                return true;
            }
            assert(alternatives(p@)[k as int] == alts@[k as int]@);
            k = k + 1;
        }
        return false;
    }
    same_name_exec(p, c, fold)
}

fn reaches_exec(root: &Vec<char>, path: &Vec<char>, fold: bool) -> (r: bool)
    ensures
        r == reaches(root@, path@, fold),
{
    let rc = split_pieces(root, '/');
    let pc = split_pieces(path, '/');
    let ghost rs = components(root@);
    let ghost ps = components(path@);
    if rc.len() > pc.len() {
        assert(char_texts(rc@) == rs);
        assert(char_texts(pc@) == ps);
        assert(char_texts(rc@).len() == rc@.len());
        assert(char_texts(pc@).len() == pc@.len());
        assert(rs.len() > ps.len());
        assert(!reaches(root@, path@, fold));
        return false;
    }
    let mut i: usize = 0;
    while i < rc.len()
        invariant
            rs == components(root@),
            ps == components(path@),
            char_texts(rc@) == rs,
            char_texts(pc@) == ps,
            rc@.len() <= pc@.len(),
            i <= rc@.len(),
            forall|j: int| 0 <= j < i ==> component_matches(rs[j], ps[j], fold),
        decreases rc@.len() - i,
    {
        assert(rs[i as int] == rc@[i as int]@ && ps[i as int] == pc@[i as int]@);
        if !component_matches_exec(&rc[i], &pc[i], fold) {
            assert(!component_matches(rs[i as int], ps[i as int], fold));
            assert(rs == components(root@) && ps == components(path@));
            assert(!component_matches(components(root@)[i as int], components(path@)[i as int], fold));
            return false;
        }
        i = i + 1;
    }
    true
}

fn windows_absolute_exec(p: &Vec<char>) -> (r: bool)
    ensures
        r == windows_absolute(p@),
{
    p.len() >= 3 && (('a' <= p[0] && p[0] <= 'z') || ('A' <= p[0] && p[0] <= 'Z')) && p[1] == ':' && (p[2] == '\\'
        || p[2] == '/')
}

fn holds_char(s: &Vec<char>, c: char) -> (r: bool)
    ensures
        r == s@.contains(c),
{
    let mut i: usize = 0;
    while i < s.len()
        invariant
            i <= s@.len(),
            forall|j: int| 0 <= j < i ==> s@[j] != c,
        decreases s@.len() - i,
    {
        if s[i] == c {
            assert(s@[i as int] == c);
            return true;
        }
        i = i + 1;
    }
    false
}

/// The text `a`, `b`, `c`, `d`, `e` in order.
fn message5(a: &str, b: &str, c: &str, d: &str, e: &str) -> (r: String)
    ensures
        r@ == a@ + b@ + c@ + d@ + e@,
{
    let mut v: Vec<char> = Vec::new();
    append_text(&mut v, a);
    append_text(&mut v, b);
    append_text(&mut v, c);
    append_text(&mut v, d);
    append_text(&mut v, e);
    assert(v@ =~= a@ + b@ + c@ + d@ + e@);
    string_of(v.as_slice())
}

/// Refuses an exclusion that is neither a bare entry name nor a rooted
/// path, and a rooted exclusion that no path of its signature reaches; the
/// first offending exclusion, in order, names the refusal.
pub fn validate_reachability(signature: &Signature) -> (r: Result<(), String>)
    ensures
        r is Ok <==> reachability_error(*signature) is None,
        r matches Err(m) ==> reachability_error(*signature) == Some(m@),
{
    let ghost paths = texts(signature.paths@);
    let ghost excl = texts(signature.exclusions@);
    let only_windows = signature.platforms.len() == 1 && signature.platforms[0] == PlatformKind::Windows;
    proof {
        if only_windows {
            assert(signature.platforms@ =~= seq![PlatformKind::Windows]);
        } else if signature.platforms@ == seq![PlatformKind::Windows] {
            assert(signature.platforms@.len() == 1);
        }
    }
    let ghost wo = windows_only(signature.platforms@);
    let mut j: usize = 0;
    while j < signature.exclusions.len()
        invariant
            paths == texts(signature.paths@),
            excl == texts(signature.exclusions@),
            wo == windows_only(signature.platforms@),
            only_windows == wo,
            j <= excl.len(),
            reachability_error(*signature) == first_exclusion_error(signature.id@, paths, excl, wo, j as int),
        decreases excl.len() - j,
    {
        let e = chars_of(signature.exclusions[j].as_str());
        proof {
            assert(excl[j as int] == e@);
        }
        let is_rooted = (e.len() > 0 && (e[0] == '~' || e[0] == '$' || e[0] == '/' || e[0] == '\\'))
            || windows_absolute_exec(&e);
        if !is_rooted {
            if e.len() == 0 || holds_char(&e, '/') || holds_char(&e, '\\') {
                let m = message5(
                    "Signature `",
                    signature.id.as_str(),
                    "` exclusion `",
                    signature.exclusions[j].as_str(),
                    "` must be a bare entry name or rooted path",
                );
                return Err(m);
            }
        } else {
            let excluded = symbolic(signature.exclusions[j].as_str());
            let excluded_chars = chars_of(excluded.as_str());
            let mut found = false;
            let mut i: usize = 0;
            while i < signature.paths.len()
                invariant
                    paths == texts(signature.paths@),
                    wo == windows_only(signature.platforms@),
                    only_windows == wo,
                    excluded_chars@ == symbol_of(e@),
                    i <= paths.len(),
                    found == exists|t: int|
                        0 <= t < i && reaches(
                            symbol_of(#[trigger] paths[t]),
                            symbol_of(e@),
                            windows_root(symbol_of(paths[t]), wo),
                        ),
                decreases paths.len() - i,
            {
                let root = symbolic(signature.paths[i].as_str());
                let root_chars = chars_of(root.as_str());
                proof {
                    assert(paths[i as int] == signature.paths@[i as int]@);
                }
                let fold = only_windows || (windows_absolute_exec(&root_chars) && !(root_chars.len() > 0
                    && root_chars[0] == '/'));
                if reaches_exec(&root_chars, &excluded_chars, fold) {
                    found = true;
                }
                i = i + 1;
            }
            if !found {
                let m = message5(
                    "Signature `",
                    signature.id.as_str(),
                    "` has unreachable exclusion `",
                    signature.exclusions[j].as_str(),
                    "`",
                );
                return Err(m);
            }
        }
        j = j + 1;
    }
    Ok(())
}


/// The final component of a path, when it has one.
pub open spec fn final_component(path: Seq<char>) -> Option<Seq<char>> {
    if components(path).len() == 0 {
        None
    } else {
        Some(components(path).last())
    }
}

/// `path` lies at or below `location`: the location's components are the
/// path's leading components, compared as names.
pub open spec fn contains_path(location: Seq<char>, path: Seq<char>, fold: bool) -> bool {
    let lc = components(location);
    let pc = components(path);
    lc.len() <= pc.len() && forall|i: int| 0 <= i < lc.len() ==> same_name(lc[i], pc[i], fold)
}

/// The spelling a path is compared in: on Windows both separators are one.
pub open spec fn compared(path: Seq<char>, windows: bool) -> Seq<char> {
    if windows {
        crate::relationship::slashed(path)
    } else {
        path
    }
}

/// An exclusion applies to a path: a rooted exclusion contains it, and a
/// bare name is its final component. On Windows both compare without case.
pub open spec fn exclusion_applies(exclusion: Seq<char>, path: Seq<char>, windows: bool) -> bool {
    if rooted(exclusion) {
        contains_path(compared(exclusion, windows), compared(path, windows), windows)
    } else {
        final_component(compared(path, windows)) matches Some(name) && same_name(name, exclusion, windows)
    }
}

fn compared_exec(path: &str, windows: bool) -> (r: Vec<char>)
    ensures
        r@ == compared(path@, windows),
{
    let chars = chars_of(path);
    if !windows {
        return chars;
    }
    let mut v: Vec<char> = Vec::new();
    let mut i: usize = 0;
    while i < chars.len()
        invariant
            chars@ == path@,
            i <= chars@.len(),
            v@ == crate::relationship::slashed(chars@).subrange(0, i as int),
        decreases chars@.len() - i,
    {
        if chars[i] == '\\' {
            v.push('/');
        } else {
            v.push(chars[i]);
        }
        i = i + 1;
        assert(v@ =~= crate::relationship::slashed(chars@).subrange(0, i as int));
    }
    assert(v@ =~= crate::relationship::slashed(chars@));
    v
}

fn contains_path_exec(location: &Vec<char>, path: &Vec<char>, fold: bool) -> (r: bool)
    ensures
        r == contains_path(location@, path@, fold),
{
    let lc = split_pieces(location, '/');
    let pc = split_pieces(path, '/');
    let ghost ls = components(location@);
    let ghost ps = components(path@);
    proof {
        assert(char_texts(lc@) == ls);
        assert(char_texts(pc@) == ps);
    }
    if lc.len() > pc.len() {
        return false;
    }
    let mut i: usize = 0;
    while i < lc.len()
        invariant
            char_texts(lc@) == ls,
            char_texts(pc@) == ps,
            ls == components(location@),
            ps == components(path@),
            lc@.len() <= pc@.len(),
            i <= lc@.len(),
            forall|k: int| 0 <= k < i ==> same_name(ls[k], ps[k], fold),
        decreases lc@.len() - i,
    {
        proof {
            assert(ls[i as int] == lc@[i as int]@);
            assert(ps[i as int] == pc@[i as int]@);
        }
        if !same_name_exec(&lc[i], &pc[i], fold) {
            return false;
        }
        i = i + 1;
    }
    true
}

fn exclusion_applies_exec(exclusion: &str, path: &str, windows: bool) -> (r: bool)
    ensures
        r == exclusion_applies(exclusion@, path@, windows),
{
    let e = chars_of(exclusion);
    let is_rooted = (e.len() > 0 && (e[0] == '~' || e[0] == '$' || e[0] == '/' || e[0] == '\\'))
        || windows_absolute_exec(&e);
    let p = compared_exec(path, windows);
    if is_rooted {
        let l = compared_exec(exclusion, windows);
        contains_path_exec(&l, &p, windows)
    } else {
        let parts = split_pieces(&p, '/');
        proof {
            assert(char_texts(parts@) == components(p@));
        }
        if parts.len() == 0 {
            return false;
        }
        let last = parts.len() - 1;
        proof {
            assert(components(p@).last() == parts@[last as int]@);
        }
        same_name_exec(&parts[last], &e, windows)
    }
}

/// Whether an exclusion applies to `path`, among exclusions as the caller
/// expanded them for its platform; `windows` says whether paths there are
/// compared in Windows spelling. A rooted exclusion applies to the path it
/// names and everything below it, component by component; a bare name
/// applies to an entry of exactly that name.
pub fn is_excluded(path: &str, exclusions: &[String], windows: bool) -> (r: bool)
    ensures
        r == exists|i: int| 0 <= i < exclusions@.len() && exclusion_applies((#[trigger] exclusions@[i])@, path@, windows),
        forall|i: int|
            0 <= i < exclusions@.len() && rooted((#[trigger] exclusions@[i])@) && components(
                compared(exclusions@[i]@, windows),
            ) == components(compared(path@, windows)) ==> r,
{
    proof {
        assert forall|i: int|
            0 <= i < exclusions@.len() && rooted((#[trigger] exclusions@[i])@) && components(
                compared(exclusions@[i]@, windows),
            ) == components(compared(path@, windows)) implies exclusion_applies(exclusions@[i]@, path@, windows) by {
            crate::laws::law_a_rooted_exclusion_applies_at_its_own_location(exclusions@[i]@, path@, windows);
        }
    }
    let mut i: usize = 0;
    while i < exclusions.len()
        invariant
            i <= exclusions@.len(),
            forall|k: int| 0 <= k < i ==> !exclusion_applies((#[trigger] exclusions@[k])@, path@, windows),
        decreases exclusions@.len() - i,
    {
        if exclusion_applies_exec(exclusions[i].as_str(), path, windows) {
            return true;
        }
        i = i + 1;
    }
    false
}

} // verus!
