//! Version and digest rules of the in-app updater.

use vstd::prelude::*;
use crate::text::{
    chars_eq, copy_range, lower, lower_chars, parse_u64_chars, parse_u64_spec, split_chars,
    split_on, first_index_of, string_from_chars, trim, trim_start_char, trim_start_char_exec,
    trim_str,
};

verus! {

/// Index of the first `-` or `+`, or the length when neither occurs.
pub open spec fn pre_release_start(s: Seq<char>) -> nat
    decreases s.len(),
{
    if s.len() == 0 {
        0
    } else if s[0] == '-' || s[0] == '+' {
        0
    } else {
        1 + pre_release_start(s.drop_first())
    }
}

/// The dotted numeric core of a version text: trimmed, leading `v`s dropped,
/// and cut before any pre-release or build suffix.
pub open spec fn semver_core(v: Seq<char>) -> Seq<char> {
    let t = trim_start_char(trim(v), 'v');
    t.subrange(0, pre_release_start(t) as int)
}

/// A missing minor or patch component reads as `0`.
pub open spec fn component_or_zero(parts: Seq<Seq<char>>, k: int) -> Option<u64> {
    if k < parts.len() {
        parse_u64_spec(parts[k])
    } else {
        Some(0)
    }
}

/// `(major, minor, patch)` of a version text, as the updater reads it.
pub open spec fn semver_triple_spec(v: Seq<char>) -> Option<(u64, u64, u64)> {
    let parts = split_on(semver_core(v), '.');
    match (parse_u64_spec(parts[0]), component_or_zero(parts, 1), component_or_zero(parts, 2)) {
        (Some(a), Some(b), Some(c)) => Some((a, b, c)),
        _ => None,
    }
}

/// Lexicographic order on version triples.
pub open spec fn triple_gt(a: (u64, u64, u64), b: (u64, u64, u64)) -> bool {
    a.0 > b.0 || (a.0 == b.0 && (a.1 > b.1 || (a.1 == b.1 && a.2 > b.2)))
}

/// Whether `remote` is a newer release than `current`.
pub open spec fn is_newer_spec(remote: Seq<char>, current: Seq<char>) -> bool {
    match (semver_triple_spec(remote), semver_triple_spec(current)) {
        (Some(r), Some(c)) => triple_gt(r, c),
        _ => trim(remote) != trim(current),
    }
}

/// An ASCII hexadecimal digit.
pub open spec fn is_hex_digit(c: char) -> bool {
    ('0' <= c && c <= '9') || ('a' <= c && c <= 'f') || ('A' <= c && c <= 'F')
}

/// The normal form of a SHA-256 digest text, when it is one.
pub open spec fn normalized_sha256_spec(v: Seq<char>) -> Option<Seq<char>> {
    let cleaned = lower(trim(v));
    if cleaned.len() == 64 && forall|i: int| 0 <= i < cleaned.len() ==> is_hex_digit(
        #[trigger] cleaned[i],
    ) {
        Some(cleaned)
    } else {
        None
    }
}

fn pre_release_start_exec(s: &[char]) -> (r: usize)
    ensures
        r == pre_release_start(s@),
        r <= s.len(),
{
    let mut i: usize = 0;
    proof {
        assert(s@.subrange(0, s@.len() as int) =~= s@);
    }
    while i < s.len() && s[i] != '-' && s[i] != '+'
        invariant
            i <= s.len(),
            pre_release_start(s@) == i + pre_release_start(s@.subrange(i as int, s@.len() as int)),
        decreases s.len() - i,
    {
        proof {
            assert(s@.subrange(i as int, s@.len() as int).drop_first() =~= s@.subrange(
                i + 1,
                s@.len() as int,
            ));
        }
        i = i + 1;
    }
    i
}

/// Reads `(major, minor, patch)` from a version text such as `v1.2` or
/// `2.0.0-beta`; a missing minor or patch reads as `0`.
pub fn parse_semver_triple(version: &str) -> (r: Option<(u64, u64, u64)>)
    ensures
        r == semver_triple_spec(version@),
{
    let trimmed = trim_str(version);
    let stripped = trim_start_char_exec(trimmed.as_slice(), 'v');
    let end = pre_release_start_exec(stripped.as_slice());
    let numeric = copy_range(stripped.as_slice(), 0, end);
    let parts = split_chars(numeric.as_slice(), '.');
    let ghost sp = split_on(semver_core(version@), '.');
    proof {
        assert(numeric@ == semver_core(version@));
        lemma_split_nonempty(numeric@, '.');
    }
    let major = match parse_u64_chars(parts[0].as_slice()) {
        Some(v) => v,
        None => return None,
    };
    let minor = if parts.len() > 1 {
        match parse_u64_chars(parts[1].as_slice()) {
            Some(v) => v,
            None => return None,
        }
    } else {
        0
    };
    let patch = if parts.len() > 2 {
        match parse_u64_chars(parts[2].as_slice()) {
            Some(v) => v,
            None => return None,
        }
    } else {
        0
    };
    Some((major, minor, patch))
}

/// `split` always yields at least one piece.
pub proof fn lemma_split_nonempty(s: Seq<char>, c: char)
    ensures
        split_on(s, c).len() >= 1,
    decreases s.len(),
{
    let i = first_index_of(s, c);
    if i < s.len() {
        lemma_first_index_bound(s, c);
        lemma_split_nonempty(s.subrange(i as int + 1, s.len() as int), c);
    }
}

/// `first_index_of` never passes the end.
pub proof fn lemma_first_index_bound(s: Seq<char>, c: char)
    ensures
        first_index_of(s, c) <= s.len(),
        first_index_of(s, c) < s.len() ==> s[first_index_of(s, c) as int] == c,
    decreases s.len(),
{
    if s.len() > 0 && s[0] != c {
        lemma_first_index_bound(s.drop_first(), c);
    }
}

/// True when `remote` names a newer release than `current`; when either is not
/// a version triple, any difference of the trimmed texts counts as newer.
pub fn is_newer_version(remote: &str, current: &str) -> (r: bool)
    ensures
        r == is_newer_spec(remote@, current@),
{
    match (parse_semver_triple(remote), parse_semver_triple(current)) {
        (Some(r), Some(c)) => r.0 > c.0 || (r.0 == c.0 && (r.1 > c.1 || (r.1 == c.1 && r.2
            > c.2))),
        _ => {
            let a = trim_str(remote);
            let b = trim_str(current);
            !chars_eq(a.as_slice(), b.as_slice())
        },
    }
}

/// Checks and normalizes a SHA-256 digest text: trimmed, lower-cased, exactly 64
/// hex digits. Anything else is refused with a fixed message.
pub fn normalize_sha256(value: &str) -> (r: Result<String, String>)
    ensures
        match normalized_sha256_spec(value@) {
            Some(n) => r matches Ok(s) && s@ == n,
            None => r matches Err(e) && e@ == "Expected a 64-character hex SHA-256 digest."@,
        },
{
    let trimmed = trim_str(value);
    let cleaned = lower_chars(trimmed.as_slice());
    let mut ok = cleaned.len() == 64;
    let mut i: usize = 0;
    while ok && i < cleaned.len()
        invariant
            i <= cleaned.len(),
            ok ==> cleaned.len() == 64,
            ok ==> forall|j: int| 0 <= j < i ==> is_hex_digit(#[trigger] cleaned@[j]),
            !ok ==> !(cleaned@.len() == 64 && forall|j: int|
                0 <= j < cleaned@.len() ==> is_hex_digit(#[trigger] cleaned@[j])),
        decreases cleaned.len() - i,
    {
        let c = cleaned[i];
        if !(('0' <= c && c <= '9') || ('a' <= c && c <= 'f') || ('A' <= c && c <= 'F')) {
            ok = false;
        }
        i = i + 1;
    }
    if ok {
        Ok(string_from_chars(cleaned.as_slice()))
    } else {
        Err(String::from_str("Expected a 64-character hex SHA-256 digest."))
    }
}

/// What the Android storage plugin reports.
pub struct AndroidStorageStatus {
    pub all_files_granted: bool,
    pub geode_readable: bool,
    pub geode_path: Option<String>,
}

impl AndroidStorageStatus {
    /// Ready once all-files access is granted and the Geode tree is readable.
    pub fn ready(&self) -> (r: bool)
        ensures
            r == (self.all_files_granted && self.geode_readable),
    {
        self.all_files_granted && self.geode_readable
    }
}

} // verus!
