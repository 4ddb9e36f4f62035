//! Where the settings live in the configuration directory, and which of its
//! files are preserved corrupt settings. Reading and writing the files is
//! the caller's; the rules about names, order and retention are here.
use vstd::prelude::*;
use crate::text::{
    chars_of, has_prefix, has_suffix, seq_lt, str_less, string_of, text_ends_with, text_starts_with,
};

verus! {

/// The settings file's name.
pub open spec fn settings_file() -> Seq<char> {
    "settings.json"@
}

/// How many corrupt settings files are kept.
pub const MAX_CORRUPT_BACKUPS: usize = 5;

/// `dir` joined with `name`: a `/` is inserted unless `dir` is empty or
/// already ends with a separator.
pub open spec fn joined(dir: Seq<char>, name: Seq<char>) -> Seq<char> {
    if dir.len() == 0 {
        name
    } else if dir.last() == '/' || dir.last() == '\\' {
        dir + name
    } else {
        dir + seq!['/'] + name
    }
}

/// The settings file inside a configuration directory.
pub fn settings_path(config_dir: &str) -> (r: String)
    ensures
        r@ == joined(config_dir@, settings_file()),
{
    let mut out = chars_of(config_dir);
    let n = out.len();
    if n > 0 && out[n - 1] != '/' && out[n - 1] != '\\' {
        out.push('/');
    }
    let name = chars_of("settings.json");
    let mut i: usize = 0;
    let ghost start = out@;
    while i < name.len()
        invariant
            i <= name@.len(),
            out@ == start + name@.subrange(0, i as int),
        decreases name@.len() - i,
    {
        out.push(name[i]);
        i = i + 1;
        assert(out@ =~= start + name@.subrange(0, i as int));
    }
    proof {
        assert(name@.subrange(0, name@.len() as int) =~= name@);
        if config_dir@.len() > 0 && !(config_dir@.last() == '/' || config_dir@.last() == '\\') {
            assert(start =~= config_dir@ + seq!['/']);
        }
    }
    string_of(out.as_slice())
}

/// The value of a sequence of decimal digits.
pub open spec fn digits_value(digits: Seq<char>) -> int
    decreases digits.len(),
{
    if digits.len() == 0 {
        0
    } else {
        digits_value(digits.drop_last()) * 10 + (digits.last() as int - '0' as int)
    }
}

/// Every character is an ASCII digit.
pub open spec fn all_digits(digits: Seq<char>) -> bool {
    forall|i: int| 0 <= i < digits.len() ==> '0' <= #[trigger] digits[i] <= '9'
}

/// What `u128::from_str` gives: an optional `+`, then at least one digit,
/// nothing else, and a value that fits.
pub open spec fn parsed_u128(text: Seq<char>) -> Option<u128> {
    let digits = if text.len() > 0 && text[0] == '+' { text.drop_first() } else { text };
    if digits.len() > 0 && all_digits(digits) && digits_value(digits) <= u128::MAX {
        Some(digits_value(digits) as u128)
    } else {
        None
    }
}

/// The leading part of a corrupt settings file's name.
pub open spec fn backup_prefix() -> Seq<char> {
    "settings.corrupt."@
}

/// The trailing part of a corrupt settings file's name.
pub open spec fn backup_suffix() -> Seq<char> {
    ".json"@
}

/// The timestamp a corrupt settings file's name carries.
pub open spec fn backup_timestamp(name: Seq<char>) -> Option<u128> {
    if has_prefix(name, backup_prefix()) && has_suffix(
        name.subrange(17, name.len() as int),
        backup_suffix(),
    ) {
        parsed_u128(name.subrange(17, name.len() - 5))
    } else {
        None
    }
}

proof fn lemma_digits_value_nonneg(digits: Seq<char>)
    requires
        all_digits(digits),
    ensures
        digits_value(digits) >= 0,
    decreases digits.len(),
{
    if digits.len() > 0 {
        assert(all_digits(digits.drop_last())) by {
            assert forall|i: int| 0 <= i < digits.drop_last().len() implies '0' <= #[trigger] digits.drop_last()[i] <= '9' by {
                assert(digits.drop_last()[i] == digits[i]);
            }
        }
        lemma_digits_value_nonneg(digits.drop_last());
    }
}

proof fn lemma_digits_value_prefix(digits: Seq<char>, i: int)
    requires
        all_digits(digits),
        0 <= i <= digits.len(),
    ensures
        0 <= digits_value(digits.subrange(0, i)) <= digits_value(digits),
    decreases digits.len() - i,
{
    lemma_digits_value_nonneg(digits.subrange(0, i));
    if i < digits.len() {
        lemma_digits_value_prefix(digits, i + 1);
        let next = digits.subrange(0, i + 1);
        assert(next.drop_last() =~= digits.subrange(0, i));
        assert('0' <= digits[i] <= '9');
    }
    if i == digits.len() {
        assert(digits.subrange(0, i) =~= digits);
    }
}

/// The value of a decimal text, as `u128::from_str` reads it.
fn parse_u128(text: &Vec<char>, from: usize, to: usize) -> (r: Option<u128>)
    requires
        from <= to <= text@.len(),
    ensures
        r == parsed_u128(text@.subrange(from as int, to as int)),
{
    let ghost whole = text@.subrange(from as int, to as int);
    let mut start = from;
    if start < to && text[start] == '+' {
        start = start + 1;
    }
    let ghost digits = text@.subrange(start as int, to as int);
    proof {
        if from < to && text@[from as int] == '+' {
            assert(whole.drop_first() =~= digits);
        } else {
            assert(whole =~= digits);
        }
        assert(parsed_u128(whole) == if digits.len() > 0 && all_digits(digits) && digits_value(digits)
            <= u128::MAX {
            Some(digits_value(digits) as u128)
        } else {
            None
        });
    }
    if start == to {
        proof {
            assert(digits.len() == 0);
        }
        return None;
    }
    let mut value: u128 = 0;
    let mut i = start;
    while i < to
        invariant
            start <= i <= to <= text@.len(),
            digits == text@.subrange(start as int, to as int),
            digits.len() > 0,
            parsed_u128(text@.subrange(from as int, to as int)) == if digits.len() > 0 && all_digits(digits)
                && digits_value(digits) <= u128::MAX {
                Some(digits_value(digits) as u128)
            } else {
                None
            },
            all_digits(text@.subrange(start as int, i as int)),
            value == digits_value(text@.subrange(start as int, i as int)),
        decreases to - i,
    {
        let c = text[i];
        let ghost prefix = text@.subrange(start as int, i + 1);
        proof {
            assert(prefix.drop_last() =~= text@.subrange(start as int, i as int));
        }
        if !('0' <= c && c <= '9') {
            proof {
                assert(!all_digits(digits)) by {
                    assert(digits[i - start] == c);
                }
            }
            return None;
        }
        proof {
            assert(all_digits(prefix)) by {
                assert forall|k: int| 0 <= k < prefix.len() implies '0' <= #[trigger] prefix[k] <= '9' by {
                    if k < prefix.len() - 1 {
                        assert(prefix[k] == text@.subrange(start as int, i as int)[k]);
                    }
                }
            }
        }
        let d = (c as u32 - '0' as u32) as u128;
        let scaled = value.checked_mul(10);
        let next = match scaled {
            Some(v) => v.checked_add(d),
            None => None,
        };
        match next {
            Some(v) => {
                value = v;
            },
            None => {
                proof {
                    assert(digits_value(prefix) == value * 10 + (c as int - '0' as int));
                    assert(digits_value(prefix) > u128::MAX);
                    let rest = text@.subrange(start as int, to as int);
                    assert(text@.subrange(start as int, i + 1) =~= rest.subrange(0, i + 1 - start));
                    if all_digits(rest) {
                        lemma_digits_value_prefix(rest, i + 1 - start);
                    }
                }
                return None;
            },
        }
        i = i + 1;
    }
    proof {
        assert(text@.subrange(start as int, i as int) =~= digits);
    }
    Some(value)
}

/// The timestamp a corrupt settings file's name carries, when its name is
/// `settings.corrupt.<u128>.json`.
pub fn parse_backup_timestamp(name: &str) -> (r: Option<u128>)
    ensures
        r == backup_timestamp(name@),
{
    let chars = chars_of(name);
    let prefix = chars_of("settings.corrupt.");
    let suffix = chars_of(".json");
    proof {
        reveal_strlit("settings.corrupt.");
        reveal_strlit(".json");
    }
    if !crate::text::starts_with_chars(&chars, &prefix) {
        return None;
    }
    let mut rest: Vec<char> = Vec::new();
    let mut i: usize = 17;
    while i < chars.len()
        invariant
            17 <= i <= chars@.len(),
            rest@ == chars@.subrange(17, i as int),
        decreases chars@.len() - i,
    {
        rest.push(chars[i]);
        i = i + 1;
        assert(rest@ =~= chars@.subrange(17, i as int));
    }
    if !crate::text::ends_with_chars(&rest, &suffix) {
        return None;
    }
    let end = rest.len() - 5;
    proof {
        assert(rest@.subrange(0, end as int) =~= name@.subrange(17, name@.len() - 5));
    }
    parse_u128(&rest, 0, end)
}

/// Whether a file name is a preserved corrupt settings file's.
pub open spec fn is_backup_name(name: Seq<char>) -> bool {
    has_prefix(name, backup_prefix()) && has_suffix(name, backup_suffix())
}

/// What the directory listing showed about one entry.
pub struct BackupCandidate {
    /// The entry's file name.
    pub name: String,
    /// Whether the entry is a regular file.
    pub is_file: bool,
    /// When the file was last modified, in nanoseconds since the epoch, when
    /// that could be read.
    pub modified: Option<u128>,
}

/// The entry is a preserved corrupt settings file: a regular file with a
/// backup name. A directory with such a name is never one.
pub open spec fn is_backup(entry: BackupCandidate) -> bool {
    entry.is_file && is_backup_name(entry.name@)
}

/// Whether an entry is a preserved corrupt settings file.
pub fn is_corrupted_backup(entry: &BackupCandidate) -> (r: bool)
    ensures
        r == is_backup(*entry),
{
    proof {
        reveal_strlit("settings.corrupt.");
        reveal_strlit(".json");
    }
    entry.is_file && text_starts_with(entry.name.as_str(), "settings.corrupt.") && text_ends_with(
        entry.name.as_str(),
        ".json",
    )
}

/// How many entries of a listing are preserved corrupt settings files.
pub open spec fn backup_count(entries: Seq<BackupCandidate>) -> nat
    decreases entries.len(),
{
    if entries.len() == 0 {
        0
    } else {
        backup_count(entries.drop_last()) + if is_backup(entries.last()) { 1nat } else { 0nat }
    }
}

/// How many preserved corrupt settings files a directory listing holds.
pub fn count_corrupted_backups(entries: &[BackupCandidate]) -> (r: usize)
    ensures
        r == backup_count(entries@),
{
    let mut count: usize = 0;
    let mut i: usize = 0;
    while i < entries.len()
        invariant
            i <= entries@.len(),
            count == backup_count(entries@.take(i as int)),
            count <= i,
        decreases entries@.len() - i,
    {
        assert(entries@.take(i + 1).drop_last() =~= entries@.take(i as int));
        if is_corrupted_backup(&entries[i]) {
            count = count + 1;
        }
        i = i + 1;
    }
    assert(entries@.take(entries@.len() as int) =~= entries@);
    count
}

/// Whether a directory listing holds a preserved corrupt settings file.
pub fn has_corrupted_backup(entries: &[BackupCandidate]) -> (r: bool)
    ensures
        r == (backup_count(entries@) > 0),
{
    count_corrupted_backups(entries) > 0
}

/// Whether backup `a` is older than backup `b`: by the timestamps their
/// names carry when both do, else by modification time when both have one,
/// else by name.
pub open spec fn older_backup(a: BackupCandidate, b: BackupCandidate) -> bool {
    match (backup_timestamp(a.name@), backup_timestamp(b.name@)) {
        (Some(x), Some(y)) => x < y,
        _ => match (a.modified, b.modified) {
            (Some(x), Some(y)) => x < y,
            _ => seq_lt(a.name@, b.name@),
        },
    }
}

fn older_backup_exec(a: &BackupCandidate, b: &BackupCandidate) -> (r: bool)
    ensures
        r == older_backup(*a, *b),
{
    match (parse_backup_timestamp(a.name.as_str()), parse_backup_timestamp(b.name.as_str())) {
        (Some(x), Some(y)) => x < y,
        _ => match (a.modified, b.modified) {
            (Some(x), Some(y)) => x < y,
            _ => str_less(a.name.as_str(), b.name.as_str()),
        },
    }
}

/// Every backup's name carries a timestamp.
pub open spec fn all_timestamped(backups: Seq<BackupCandidate>) -> bool {
    forall|i: int| 0 <= i < backups.len() ==> (#[trigger] backup_timestamp(backups[i].name@)) is Some
}

/// The backups of a listing, oldest first: every backup file of the listing
/// once, and — when every name carries a timestamp — in timestamp order.
pub fn list_corrupted_backups(entries: Vec<BackupCandidate>) -> (r: Vec<BackupCandidate>)
    ensures
        r@.to_multiset() == entries@.filter(|e: BackupCandidate| is_backup(e)).to_multiset(),
        all_timestamped(r@) ==> forall|i: int, j: int|
            0 <= i < j < r@.len() ==> backup_timestamp((#[trigger] r@[i]).name@)->Some_0
                <= backup_timestamp((#[trigger] r@[j]).name@)->Some_0,
{
    let ghost all = entries@;
    let mut rest = entries;
    let mut out: Vec<BackupCandidate> = Vec::new();
    let mut k: usize = 0;
    let total = rest.len();
    proof {
        vstd::seq_lib::to_multiset_len(out@);
        assert(out@.to_multiset() =~= vstd::multiset::Multiset::<BackupCandidate>::empty());
        assert(all.take(0).filter(|e: BackupCandidate| is_backup(e)) =~= Seq::<BackupCandidate>::empty());
    }
    while rest.len() > 0
        invariant
            all.len() == total,
            k <= all.len(),
            k + rest@.len() == all.len(),
            rest@ == all.skip(k as int),
            out@.to_multiset() == all.take(k as int).filter(|e: BackupCandidate| is_backup(e)).to_multiset(),
            all_timestamped(out@) ==> forall|i: int, j: int|
                0 <= i < j < out@.len() ==> !older_backup(#[trigger] out@[j], #[trigger] out@[i]),
            forall|i: int| 0 <= i < out@.len() ==> is_backup(#[trigger] out@[i]),
        decreases rest@.len(),
    {
        let x = rest.remove(0);
        proof {
            assert(all.skip(k as int)[0] == all[k as int]);
            assert(all.skip(k as int).remove(0) =~= all.skip(k + 1));
            assert(all.take(k + 1) =~= all.take(k as int).push(all[k as int]));
            all.take(k as int).lemma_filter_push(all[k as int], |e: BackupCandidate| is_backup(e));
        }
        if is_corrupted_backup(&x) {
            let mut p: usize = 0;
            while p < out.len()
                invariant
                    p <= out@.len(),
                    forall|j: int| 0 <= j < p ==> !older_backup(x, #[trigger] out@[j]),
                ensures
                    p <= out@.len(),
                    forall|j: int| 0 <= j < p ==> !older_backup(x, #[trigger] out@[j]),
                    p == out@.len() || older_backup(x, out@[p as int]),
                decreases out@.len() - p,
            {
                if older_backup_exec(&x, &out[p]) {
                    break;
                }
                p = p + 1;
            }
            let ghost prior = out@;
            out.insert(p, x);
            proof {
                let after = out@;
                assert(after == prior.insert(p as int, x));
                vstd::seq_lib::to_multiset_insert(prior, p as int, x);
                vstd::seq_lib::to_multiset_build(all.take(k as int).filter(|e: BackupCandidate| is_backup(e)), x);
                assert forall|i: int| 0 <= i < after.len() implies is_backup(#[trigger] after[i]) by {
                    if i < p {
                        assert(after[i] == prior[i]);
                    } else if i > p {
                        assert(after[i] == prior[i - 1]);
                    }
                }
                if all_timestamped(after) {
                    assert(all_timestamped(prior)) by {
                        assert forall|i: int| 0 <= i < prior.len() implies (#[trigger] backup_timestamp(prior[i].name@)) is Some by {
                            if i < p {
                                assert(after[i] == prior[i]);
                            } else {
                                assert(after[i + 1] == prior[i]);
                            }
                        }
                    }
                    assert(backup_timestamp(after[p as int].name@) is Some);
                    assert forall|i: int, j: int| 0 <= i < j < after.len() implies !older_backup(#[trigger] after[j], #[trigger] after[i]) by {
                        if j < p {
                            assert(after[i] == prior[i] && after[j] == prior[j]);
                        } else if j == p {
                            assert(after[i] == prior[i]);
                        } else if i == p {
                            assert(after[j] == prior[j - 1]);
                            if j - 1 > p {
                                assert(backup_timestamp(after[j].name@) is Some);
                                assert(backup_timestamp(prior[p as int].name@) is Some);
                                assert(!older_backup(prior[j - 1], prior[p as int]));
                            }
                        } else if i < p {
                            assert(after[i] == prior[i]);
                            assert(after[j] == prior[j - 1]);
                        } else {
                            assert(after[i] == prior[i - 1]);
                            assert(after[j] == prior[j - 1]);
                        }
                    }
                }
            }
        }
        k = k + 1;
    }
    proof {
        assert(all.take(k as int) =~= all);
        if all_timestamped(out@) {
            assert forall|i: int, j: int|
                0 <= i < j < out@.len() implies backup_timestamp((#[trigger] out@[i]).name@)->Some_0
                    <= backup_timestamp((#[trigger] out@[j]).name@)->Some_0 by {
                assert(!older_backup(out@[j], out@[i]));
            }
        }
    }
    out
}

/// The names of the backups a retention of `max_backups` removes: the
/// oldest beyond the limit, oldest first.
pub fn backups_to_prune(backups: &Vec<BackupCandidate>, max_backups: usize) -> (r: Vec<String>)
    ensures
        r@.len() == if backups@.len() > max_backups { backups@.len() - max_backups } else { 0 },
        forall|i: int| 0 <= i < r@.len() ==> (#[trigger] r@[i])@ == backups@[i].name@,
{
    let mut out: Vec<String> = Vec::new();
    if backups.len() <= max_backups {
        return out;
    }
    let remove_count = backups.len() - max_backups;
    let mut i: usize = 0;
    while i < remove_count
        invariant
            remove_count <= backups@.len(),
            i <= remove_count,
            out@.len() == i,
            forall|j: int| 0 <= j < i ==> (#[trigger] out@[j])@ == backups@[j].name@,
        decreases remove_count - i,
    {
        out.push(backups[i].name.clone());
        i = i + 1;
    }
    out
}

} // verus!
