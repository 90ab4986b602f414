//! Finding sheets (a `.plist` with the `.png` of the same stem beside it),
//! standalone images and fonts, and merge source folders in an input tree.
//!
//! The caller walks the tree (skipping the folders for which
//! [`path_is_under_reserved_output_subtree`] holds) and hands over the paths
//! it found; the pairing, filtering and ordering happen here.

use vstd::prelude::*;
use crate::errors::AppError;
use crate::order::{lex_lt, lex_lt_str, lemma_lex_asymmetric, lemma_lex_irreflexive, lemma_lex_total, lemma_lex_transitive, strs};
use crate::paths::{
    extension_of, extension_spec, file_name_of, file_name_spec, join_path, opt_str, parent_of,
    parent_spec, rebuild, rebuild_path, remove_dotdot, stem_spec, file_stem_of,
    strip_path_prefix, strip_prefix_spec, without_dotdot, lemma_strs_push,
};
use crate::game_files::j;
use crate::paths::{join_all, last_dot, lemma_segments_of_joined, lemma_segments_plain, plain_seg, segments};
use crate::text::{chars_of, ends_with_str, eq_ic, eq_ignore_case_str, has_suffix};
use crate::facts::{list_contains, PathFacts};
use crate::path_order::{sort_paths, sorted_paths};

verus! {

/// A sheet found in an input tree.
#[derive(Debug, PartialEq, Eq)]
pub struct SheetCandidate {
    /// The file stem shared by the `.plist` and the `.png`.
    pub stem: String,
    /// The folder of the sheet, relative to the input root.
    pub relative_dir: String,
    pub plist_path: String,
    pub png_path: String,
}

impl Clone for SheetCandidate {
    fn clone(&self) -> (r: Self)
        ensures
            r == *self,
    {
        SheetCandidate {
            stem: self.stem.clone(),
            relative_dir: self.relative_dir.clone(),
            plist_path: self.plist_path.clone(),
            png_path: self.png_path.clone(),
        }
    }
}

/// The name of one of the tools' output folders, in any case.
pub open spec fn reserved_name(s: Seq<char>) -> bool {
    ||| eq_ic(s, "Split"@)
    ||| eq_ic(s, "Merged"@)
    ||| eq_ic(s, "Ported"@)
    ||| eq_ic(s, "GeneratedGlow"@)
    ||| eq_ic(s, "ConvertedToLatestVersion"@)
}

/// `path` lies under `root`, and below it the first named segment is an
/// output folder or some named segment is `GeneratedGlow`.
pub open spec fn under_reserved_spec(root: Seq<char>, path: Seq<char>) -> bool {
    match strip_prefix_spec(path, root) {
        Some(rest) => {
            let c = without_dotdot(rest);
            c.len() > 0 && (reserved_name(c[0]) || exists|k: int|
                0 <= k < c.len() && eq_ic(#[trigger] c[k], "GeneratedGlow"@))
        },
        None => false,
    }
}

/// Whether `name` is one of the tools' output folders.
pub fn reserved_output_dir_name(name: &str) -> (r: bool)
    ensures
        r == reserved_name(name@),
{
    let v = chars_of(name);
    eq_ignore_case_str(v.as_slice(), "Split") || eq_ignore_case_str(v.as_slice(), "Merged")
        || eq_ignore_case_str(v.as_slice(), "Ported") || eq_ignore_case_str(
        v.as_slice(),
        "GeneratedGlow",
    ) || eq_ignore_case_str(v.as_slice(), "ConvertedToLatestVersion")
}

/// Whether `path` lies in one of the tools' output folders under `input_root`
/// (the walks do not descend into those).
pub fn path_is_under_reserved_output_subtree(input_root: &str, path: &str) -> (r: bool)
    ensures
        r == under_reserved_spec(input_root@, path@),
{
    let rest = match strip_path_prefix(path, input_root) {
        Some(rest) => rest,
        None => return false,
    };
    let c = remove_dotdot(rest.as_slice());
    if c.len() == 0 {
        return false;
    }
    if reserved_output_dir_name(c[0].as_str()) {
        return true;
    }
    let ghost cs = strs(c@);
    let mut k: usize = 0;
    while k < c.len()
        invariant
            k <= c.len(),
            cs == strs(c@),
            c.len() > 0,
            strip_prefix_spec(path@, input_root@) is Some,
            cs == without_dotdot(strip_prefix_spec(path@, input_root@)->0),
            forall|m: int| 0 <= m < k ==> !eq_ic(#[trigger] cs[m], "GeneratedGlow"@),
        decreases c.len() - k,
    {
        let v = chars_of(c[k].as_str());
        if eq_ignore_case_str(v.as_slice(), "GeneratedGlow") {
            proof {
                assert(cs[k as int] == c@[k as int]@);
            }
            return true;
        }
        proof {
            assert(cs[k as int] == c@[k as int]@);
        }
        k = k + 1;
    }
    false
}

/// The parent of a relative path given by its segments (empty for none).
pub open spec fn rel_parent(rest: Seq<Seq<char>>) -> Seq<char> {
    if rest.len() > 0 {
        rebuild(false, rest.drop_last())
    } else {
        Seq::empty()
    }
}

/// What discovery reads of one file: nothing when it lies in one of the
/// tools' output folders (see [`under_reserved_spec`]) or its name has no
/// stem or no extension; a failure when it does not lie under the input
/// folder; else the sheet key (the relative folder joined with the stem) and
/// the extension.
pub open spec fn file_entry(input: Seq<char>, f: Seq<char>) -> Option<
    Option<(Seq<char>, Seq<char>)>,
> {
    if under_reserved_spec(input, f) {
        None
    } else {
        file_entry_outside_reserved(input, f)
    }
}

/// [`file_entry`] for a file outside the output folders.
pub open spec fn file_entry_outside_reserved(input: Seq<char>, f: Seq<char>) -> Option<
    Option<(Seq<char>, Seq<char>)>,
> {
    match file_name_spec(f) {
        None => None,
        Some(n) => match extension_spec(n) {
            None => None,
            Some(e) => match strip_prefix_spec(f, input) {
                None => Some(None),
                Some(rest) => Some(Some((j(rel_parent(rest), stem_spec(n)), e))),
            },
        },
    }
}

/// Some file does not lie under the input folder.
pub open spec fn walk_fails(input: Seq<char>, files: Seq<Seq<char>>) -> bool {
    exists|i: int| 0 <= i < files.len() && file_entry(input, #[trigger] files[i]) == Some(
        None::<(Seq<char>, Seq<char>)>,
    )
}

/// File `f` has key `k` and an extension equal to `kind` in any case.
pub open spec fn kind_matches(input: Seq<char>, f: Seq<char>, k: Seq<char>, kind: Seq<char>) -> bool {
    match file_entry(input, f) {
        Some(Some((key, e))) => key == k && eq_ic(e, kind),
        _ => false,
    }
}

/// The last file with key `k` and extension `kind` (a later one replaces an
/// earlier one).
pub open spec fn last_of(input: Seq<char>, files: Seq<Seq<char>>, k: Seq<char>, kind: Seq<char>) -> Option<
    Seq<char>,
>
    decreases files.len(),
{
    if files.len() == 0 {
        None
    } else if kind_matches(input, files.last(), k, kind) {
        Some(files.last())
    } else {
        last_of(input, files.drop_last(), k, kind)
    }
}

/// A key with both a `.plist` and a `.png`.
pub open spec fn is_sheet_key(input: Seq<char>, files: Seq<Seq<char>>, k: Seq<char>) -> bool {
    last_of(input, files, k, "plist"@) is Some && last_of(input, files, k, "png"@) is Some
}

/// A sheet key whose file name cannot be taken.
pub open spec fn bad_key_exists(input: Seq<char>, files: Seq<Seq<char>>) -> bool {
    exists|k: Seq<char>| #[trigger] is_sheet_key(input, files, k) && file_name_spec(k) is None
}

/// The fields of a candidate.
pub open spec fn cand_view(c: SheetCandidate) -> (Seq<char>, Seq<char>, Seq<char>, Seq<char>) {
    (c.stem@, c.relative_dir@, c.plist_path@, c.png_path@)
}

/// The fields of a list of candidates.
pub open spec fn cand_views(v: Seq<SheetCandidate>) -> Seq<(Seq<char>, Seq<char>, Seq<char>, Seq<char>)> {
    v.map_values(|c: SheetCandidate| cand_view(c))
}

/// The candidate of a sheet key: its file name as the stem, its parent as
/// the relative folder, and the last `.plist` and `.png` with that key.
pub open spec fn key_cand(input: Seq<char>, files: Seq<Seq<char>>, k: Seq<char>) -> (Seq<char>, Seq<char>, Seq<char>, Seq<char>) {
    (
        file_name_spec(k)->0,
        match parent_spec(k) {
            Some(p) => p,
            None => Seq::empty(),
        },
        last_of(input, files, k, "plist"@)->0,
        last_of(input, files, k, "png"@)->0,
    )
}

/// Ascending by stem.
pub open spec fn sorted_by_stem(v: Seq<SheetCandidate>) -> bool {
    forall|i: int, k: int| 0 <= i < k < v.len() ==> !lex_lt(#[trigger] v[k].stem@, #[trigger] v[i].stem@)
}

/// No two equal elements.
pub open spec fn no_dup<T>(s: Seq<T>) -> bool {
    forall|i: int, k: int| 0 <= i < k < s.len() ==> #[trigger] s[i] != #[trigger] s[k]
}

/// What discovery reads of one file.
pub fn classify_file(input: &str, f: &str) -> (r: Option<Option<(String, String)>>)
    ensures
        match r {
            None => file_entry(input@, f@) is None,
            Some(None) => file_entry(input@, f@) == Some(None::<(Seq<char>, Seq<char>)>),
            Some(Some((k, e))) => file_entry(input@, f@) == Some(Some((k@, e@))),
        },
{
    if path_is_under_reserved_output_subtree(input, f) {
        return None;
    }
    let name = match file_name_of(f) {
        Some(n) => n,
        None => return None,
    };
    let ext = match extension_of(name.as_str()) {
        Some(e) => e,
        None => return None,
    };
    let rest = match strip_path_prefix(f, input) {
        Some(rest) => rest,
        None => return Some(None),
    };
    let parent = if rest.len() > 0 {
        let mut r = rest;
        let ghost all = strs(r@);
        let _ = r.pop();
        proof {
            assert(strs(r@) =~= all.drop_last());
        }
        rebuild_path(false, r.as_slice())
    } else {
        String::new()
    };
    let stem = file_stem_of(name.as_str());
    let key = join_path(parent.as_str(), stem.as_str());
    Some(Some((key, ext)))
}

/// The last value stored for `k` in a list of key/value pairs.
pub open spec fn lookup_last(v: Seq<(String, String)>, k: Seq<char>) -> Option<Seq<char>>
    decreases v.len(),
{
    if v.len() == 0 {
        None
    } else if v.last().0@ == k {
        Some(v.last().1@)
    } else {
        lookup_last(v.drop_last(), k)
    }
}

/// Entry `m` is the last one with its key.
pub open spec fn live(v: Seq<(String, String)>, m: int) -> bool {
    forall|n: int| m < n < v.len() ==> #[trigger] v[n].0@ != v[m].0@
}

pub proof fn lemma_live_lookup(v: Seq<(String, String)>, m: int)
    requires
        0 <= m < v.len(),
        live(v, m),
    ensures
        lookup_last(v, v[m].0@) == Some(v[m].1@),
    decreases v.len(),
{
    if m < v.len() - 1 {
        assert(v[v.len() - 1].0@ != v[m].0@);
        let d = v.drop_last();
        assert(d[m] == v[m]);
        assert forall|n: int| m < n < d.len() implies #[trigger] d[n].0@ != d[m].0@ by {
            assert(d[n] == v[n]);
        }
        lemma_live_lookup(d, m);
    }
}

pub proof fn lemma_lookup_live(v: Seq<(String, String)>, k: Seq<char>)
    requires
        lookup_last(v, k) is Some,
    ensures
        exists|m: int| 0 <= m < v.len() && live(v, m) && v[m].0@ == k && lookup_last(v, k) == Some(
            #[trigger] v[m].1@,
        ),
    decreases v.len(),
{
    let m = v.len() - 1;
    if v.last().0@ == k {
        assert(live(v, m));
    } else {
        let d = v.drop_last();
        lemma_lookup_live(d, k);
        let m2 = choose|m2: int|
            0 <= m2 < d.len() && live(d, m2) && d[m2].0@ == k && lookup_last(d, k) == Some(
                #[trigger] d[m2].1@,
            );
        assert(d[m2] == v[m2]);
        assert forall|n: int| m2 < n < v.len() implies #[trigger] v[n].0@ != v[m2].0@ by {
            if n < v.len() - 1 {
                assert(d[n] == v[n]);
            }
        }
        assert(live(v, m2));
    }
}

pub proof fn lemma_last_of_matches(input: Seq<char>, files: Seq<Seq<char>>, k: Seq<char>, kind: Seq<char>)
    requires
        last_of(input, files, k, kind) is Some,
    ensures
        kind_matches(input, last_of(input, files, k, kind)->0, k, kind),
    decreases files.len(),
{
    if !kind_matches(input, files.last(), k, kind) {
        lemma_last_of_matches(input, files.drop_last(), k, kind);
    }
}

/// The last value stored for `k`.
pub fn lookup_last_exec(v: &Vec<(String, String)>, k: &str) -> (r: Option<String>)
    ensures
        opt_str(r) == lookup_last(v@, k@),
{
    let mut i: usize = v.len();
    proof {
        assert(v@.subrange(0, v@.len() as int) =~= v@);
    }
    while i > 0
        invariant
            i <= v.len(),
            lookup_last(v@, k@) == lookup_last(v@.subrange(0, i as int), k@),
        decreases i,
    {
        proof {
            assert(v@.subrange(0, i as int).drop_last() =~= v@.subrange(0, i - 1));
        }
        if crate::facts::str_eq(v[i - 1].0.as_str(), k) {
            return Some(v[i - 1].1.clone());
        }
        i = i - 1;
    }
    None
}

/// Whether no entry after `m` has the key of entry `m`.
pub fn is_live(v: &Vec<(String, String)>, m: usize) -> (r: bool)
    requires
        m < v.len(),
    ensures
        r == live(v@, m as int),
{
    let mut n: usize = m + 1;
    while n < v.len()
        invariant
            m < n <= v.len(),
            forall|q: int| m < q < n ==> #[trigger] v@[q].0@ != v@[m as int].0@,
        decreases v.len() - n,
    {
        if crate::facts::str_eq(v[n].0.as_str(), v[m].0.as_str()) {
            return false;
        }
        n = n + 1;
    }
    true
}

/// Inserts `c` after every candidate whose stem is not greater.
pub fn insert_by_stem(out: &mut Vec<SheetCandidate>, c: SheetCandidate)
    requires
        sorted_by_stem(old(out)@),
    ensures
        sorted_by_stem(final(out)@),
        exists|pos: int| 0 <= pos <= old(out)@.len() && #[trigger] cand_views(final(out)@) == cand_views(old(out)@).insert(pos, cand_view(c)),
{
    let mut pos: usize = 0;
    while pos < out.len() && !lex_lt_str(c.stem.as_str(), out[pos].stem.as_str())
        invariant
            pos <= out.len(),
            sorted_by_stem(out@),
            forall|k: int| 0 <= k < pos ==> !lex_lt(c.stem@, #[trigger] out@[k].stem@),
        decreases out.len() - pos,
    {
        pos = pos + 1;
    }
    let ghost before = out@;
    proof {
        assert forall|k: int| pos <= k < before.len() implies lex_lt(c.stem@, #[trigger] before[k].stem@) by {
            if pos < before.len() {
                assert(lex_lt(c.stem@, before[pos as int].stem@));
                if k > pos {
                    assert(!lex_lt(before[k].stem@, before[pos as int].stem@));
                    lemma_lex_total(before[k].stem@, before[pos as int].stem@);
                    if before[k].stem@ != before[pos as int].stem@ {
                        lemma_lex_transitive(c.stem@, before[pos as int].stem@, before[k].stem@);
                    }
                }
            }
        }
    }
    let ghost cv = cand_view(c);
    let ghost cs = c.stem@;
    out.insert(pos, c);
    proof {
        let after = out@;
        assert(after =~= before.insert(pos as int, after[pos as int]));
        assert(after[pos as int].stem@ == cs);
        assert forall|p: int, q: int| 0 <= p < q < after.len() implies !lex_lt(
            #[trigger] after[q].stem@,
            #[trigger] after[p].stem@,
        ) by {
            if q < pos {
                assert(after[q] == before[q] && after[p] == before[p]);
            } else if q == pos {
                assert(after[p] == before[p]);
                assert(!lex_lt(cs, before[p].stem@));
                lemma_lex_total(cs, before[p].stem@);
                lemma_lex_irreflexive(cs);
            } else if p < pos {
                assert(after[q] == before[q - 1] && after[p] == before[p]);
            } else if p == pos {
                assert(after[q] == before[q - 1]);
                assert(lex_lt(cs, before[q - 1].stem@));
                lemma_lex_asymmetric(cs, before[q - 1].stem@);
            } else {
                assert(after[q] == before[q - 1] && after[p] == before[p - 1]);
            }
        }
        assert(cand_views(after) =~= cand_views(before).insert(pos as int, cv));
    }
}

/// The sheets of an input tree, from the paths of its files: every key (a
/// relative folder and a stem) with both a `.plist` and a `.png` (extensions
/// in any case; of several files with one key, the last one listed counts),
/// ascending by stem. Fails when a file does not lie under `input_dir`, or
/// when a key has no file name.
pub fn discover_sheet_pairs(input_dir: &str, files: &Vec<String>) -> (r: Result<
    Vec<SheetCandidate>,
    AppError,
>)
    ensures
        r is Err <==> walk_fails(input_dir@, strs(files@)) || bad_key_exists(
            input_dir@,
            strs(files@),
        ),
        walk_fails(input_dir@, strs(files@)) ==> (r matches Err(AppError::InvalidOperation(m))
            && m@ == "failed to compute relative file path"@),
        !walk_fails(input_dir@, strs(files@)) && bad_key_exists(input_dir@, strs(files@)) ==> (
        r matches Err(AppError::InvalidOperation(m)) && m@ == "invalid sheet key stem"@),
        r matches Ok(out) ==> {
            &&& sorted_by_stem(out@)
            &&& no_dup(cand_views(out@))
            &&& forall|x: (Seq<char>, Seq<char>, Seq<char>, Seq<char>)| #[trigger]
                cand_views(out@).contains(x) <==> exists|k: Seq<char>|
                is_sheet_key(input_dir@, strs(files@), k) && x == key_cand(
                    input_dir@,
                    strs(files@),
                    k,
                )
        },
{
    let ghost fs = strs(files@);
    let mut plists: Vec<(String, String)> = Vec::new();
    let mut pngs: Vec<(String, String)> = Vec::new();
    let mut i: usize = 0;
    while i < files.len()
        invariant
            i <= files.len(),
            fs == strs(files@),
            !walk_fails(input_dir@, fs.subrange(0, i as int)),
            forall|k: Seq<char>| #[trigger] last_of(input_dir@, fs.subrange(0, i as int), k, "plist"@) == lookup_last(plists@, k),
            forall|k: Seq<char>| #[trigger] last_of(input_dir@, fs.subrange(0, i as int), k, "png"@) == lookup_last(pngs@, k),
        decreases files.len() - i,
    {
        let ghost pre = fs.subrange(0, i as int);
        let ghost post = fs.subrange(0, i as int + 1);
        proof {
            assert(post.drop_last() =~= pre);
            assert(post.last() == files@[i as int]@);
        }
        match classify_file(input_dir, files[i].as_str()) {
            None => {
                proof {
                    assert forall|k: Seq<char>| #[trigger] last_of(input_dir@, post, k, "plist"@) == lookup_last(plists@, k) by {
                        assert(last_of(input_dir@, post, k, "plist"@) == last_of(input_dir@, pre, k, "plist"@));
                    }
                    assert forall|k: Seq<char>| #[trigger] last_of(input_dir@, post, k, "png"@) == lookup_last(pngs@, k) by {
                        assert(last_of(input_dir@, post, k, "png"@) == last_of(input_dir@, pre, k, "png"@));
                    }
                    assert forall|q: int| 0 <= q < post.len() implies file_entry(input_dir@, #[trigger] post[q]) != Some(None::<(Seq<char>, Seq<char>)>) by {
                        if q < pre.len() {
                            assert(post[q] == pre[q]);
                        }
                    }
                }
            },
            Some(None) => {
                proof {
                    assert(fs[i as int] == files@[i as int]@);
                    assert(walk_fails(input_dir@, fs));
                }
                return Err(AppError::InvalidOperation("failed to compute relative file path"));
            },
            Some(Some((key, ext))) => {
                let ev = chars_of(ext.as_str());
                let is_plist = eq_ignore_case_str(ev.as_slice(), "plist");
                let is_png = eq_ignore_case_str(ev.as_slice(), "png");
                proof {
                    assert forall|q: int| 0 <= q < post.len() implies file_entry(input_dir@, #[trigger] post[q]) != Some(None::<(Seq<char>, Seq<char>)>) by {
                        if q < pre.len() {
                            assert(post[q] == pre[q]);
                        }
                    }
                }
                if is_plist {
                    let ghost old_p = plists@;
                    plists.push((key, files[i].clone()));
                    proof {
                        assert(plists@.drop_last() =~= old_p);
                        assert forall|k: Seq<char>| #[trigger] last_of(input_dir@, post, k, "plist"@) == lookup_last(plists@, k) by {
                            if k != plists@.last().0@ {
                                assert(last_of(input_dir@, post, k, "plist"@) == last_of(input_dir@, pre, k, "plist"@));
                            }
                        }
                        assert forall|k: Seq<char>| #[trigger] last_of(input_dir@, post, k, "png"@) == lookup_last(pngs@, k) by {
                            reveal_strlit("plist");
                            reveal_strlit("png");
                            assert(!eq_ic(ext@, "png"@)) by {
                                assert(crate::text::lower(ext@) == crate::text::lower("plist"@));
                                assert(crate::text::lower("plist"@).len() != crate::text::lower("png"@).len());
                            }
                            assert(last_of(input_dir@, post, k, "png"@) == last_of(input_dir@, pre, k, "png"@));
                        }
                    }
                } else if is_png {
                    let ghost old_g = pngs@;
                    pngs.push((key, files[i].clone()));
                    proof {
                        assert(pngs@.drop_last() =~= old_g);
                        assert forall|k: Seq<char>| #[trigger] last_of(input_dir@, post, k, "png"@) == lookup_last(pngs@, k) by {
                            if k != pngs@.last().0@ {
                                assert(last_of(input_dir@, post, k, "png"@) == last_of(input_dir@, pre, k, "png"@));
                            }
                        }
                        assert forall|k: Seq<char>| #[trigger] last_of(input_dir@, post, k, "plist"@) == lookup_last(plists@, k) by {
                            assert(last_of(input_dir@, post, k, "plist"@) == last_of(input_dir@, pre, k, "plist"@));
                        }
                    }
                } else {
                    proof {
                        assert forall|k: Seq<char>| #[trigger] last_of(input_dir@, post, k, "plist"@) == lookup_last(plists@, k) by {
                            assert(last_of(input_dir@, post, k, "plist"@) == last_of(input_dir@, pre, k, "plist"@));
                        }
                        assert forall|k: Seq<char>| #[trigger] last_of(input_dir@, post, k, "png"@) == lookup_last(pngs@, k) by {
                            assert(last_of(input_dir@, post, k, "png"@) == last_of(input_dir@, pre, k, "png"@));
                        }
                    }
                }
            },
        }
        i = i + 1;
    }
    proof {
        assert(fs.subrange(0, fs.len() as int) =~= fs);
    }
    let mut out: Vec<SheetCandidate> = Vec::new();
    let mut m: usize = 0;
    while m < plists.len()
        invariant
            m <= plists.len(),
            fs == strs(files@),
            !walk_fails(input_dir@, fs),
            forall|k: Seq<char>| #[trigger] last_of(input_dir@, fs, k, "plist"@) == lookup_last(plists@, k),
            forall|k: Seq<char>| #[trigger] last_of(input_dir@, fs, k, "png"@) == lookup_last(pngs@, k),
            sorted_by_stem(out@),
            no_dup(cand_views(out@)),
            forall|q: int| 0 <= q < m && live(plists@, q) && lookup_last(pngs@, plists@[q].0@) is Some ==> file_name_spec(#[trigger] plists@[q].0@) is Some,
            forall|x: (Seq<char>, Seq<char>, Seq<char>, Seq<char>)| #[trigger] cand_views(out@).contains(x) <==> exists|q: int|
                0 <= q < m && live(plists@, q) && #[trigger] lookup_last(pngs@, plists@[q].0@) is Some && x == key_cand(input_dir@, fs, plists@[q].0@),
        decreases plists.len() - m,
    {
        if is_live(&plists, m) {
            match lookup_last_exec(&pngs, plists[m].0.as_str()) {
                None => {
                    proof {
                        assert forall|x: (Seq<char>, Seq<char>, Seq<char>, Seq<char>)| #[trigger] cand_views(out@).contains(x) <==> exists|q: int|
                            0 <= q < m + 1 && live(plists@, q) && #[trigger] lookup_last(pngs@, plists@[q].0@) is Some && x == key_cand(input_dir@, fs, plists@[q].0@) by {
                            if exists|q: int| 0 <= q < m + 1 && live(plists@, q) && #[trigger] lookup_last(pngs@, plists@[q].0@) is Some && x == key_cand(input_dir@, fs, plists@[q].0@) {
                                let q = choose|q: int| 0 <= q < m + 1 && live(plists@, q) && #[trigger] lookup_last(pngs@, plists@[q].0@) is Some && x == key_cand(input_dir@, fs, plists@[q].0@);
                                assert(q != m);
                            }
                        }
                    }
                },
                Some(png) => {
                    let key = plists[m].0.clone();
                    let name = match file_name_of(key.as_str()) {
                        Some(n) => n,
                        None => {
                            proof {
                                lemma_live_lookup(plists@, m as int);
                                assert(is_sheet_key(input_dir@, fs, key@));
                            }
                            return Err(AppError::InvalidOperation("invalid sheet key stem"));
                        },
                    };
                    let rel = match parent_of(key.as_str()) {
                        Some(p) => p,
                        None => String::new(),
                    };
                    let c = SheetCandidate {
                        stem: name,
                        relative_dir: rel,
                        plist_path: plists[m].1.clone(),
                        png_path: png,
                    };
                    let ghost old_out = out@;
                    proof {
                        lemma_live_lookup(plists@, m as int);
                        assert(cand_view(c) == key_cand(input_dir@, fs, key@));
                        if cand_views(old_out).contains(cand_view(c)) {
                            let q = choose|q: int| 0 <= q < m && live(plists@, q) && #[trigger] lookup_last(pngs@, plists@[q].0@) is Some && cand_view(c) == key_cand(input_dir@, fs, plists@[q].0@);
                            lemma_live_lookup(plists@, q);
                            let kq = plists@[q].0@;
                            assert(last_of(input_dir@, fs, kq, "plist"@) == Some(plists@[q].1@));
                            assert(last_of(input_dir@, fs, key@, "plist"@) == Some(plists@[m as int].1@));
                            lemma_last_of_matches(input_dir@, fs, kq, "plist"@);
                            lemma_last_of_matches(input_dir@, fs, key@, "plist"@);
                            assert(kq == key@);
                            assert(false);
                        }
                    }
                    insert_by_stem(&mut out, c);
                    proof {
                        let pos = choose|pos: int| 0 <= pos <= old_out.len() && #[trigger] cand_views(out@) == cand_views(old_out).insert(pos, key_cand(input_dir@, fs, key@));
                        let nv = cand_views(out@);
                        let ov = cand_views(old_out);
                        let xc = key_cand(input_dir@, fs, key@);
                        assert(nv.len() == ov.len() + 1);
                        assert forall|y: (Seq<char>, Seq<char>, Seq<char>, Seq<char>)| nv.contains(y) <==> (y == xc || ov.contains(y)) by {
                            if nv.contains(y) {
                                let t = choose|t: int| 0 <= t < nv.len() && nv[t] == y;
                                if t < pos {
                                    assert(nv[t] == ov[t]);
                                } else if t > pos {
                                    assert(nv[t] == ov[t - 1]);
                                }
                            }
                            if ov.contains(y) {
                                let t = choose|t: int| 0 <= t < ov.len() && ov[t] == y;
                                if t < pos {
                                    assert(nv[t] == ov[t]);
                                } else {
                                    assert(nv[t + 1] == ov[t]);
                                }
                            }
                            if y == xc {
                                assert(nv[pos] == xc);
                            }
                        }
                        assert forall|a: int, b: int| 0 <= a < b < nv.len() implies #[trigger] nv[a] != #[trigger] nv[b] by {
                            if a == pos {
                                assert(nv[b] == ov[b - 1]);
                                assert(ov.contains(nv[b]));
                            } else if b == pos {
                                assert(nv[a] == ov[a]);
                                assert(ov.contains(nv[a]));
                            } else {
                                let a2 = if a < pos { a } else { a - 1 };
                                let b2 = if b < pos { b } else { b - 1 };
                                assert(nv[a] == ov[a2]);
                                assert(nv[b] == ov[b2]);
                            }
                        }
                        assert forall|x: (Seq<char>, Seq<char>, Seq<char>, Seq<char>)| #[trigger] cand_views(out@).contains(x) <==> exists|q: int|
                            0 <= q < m + 1 && live(plists@, q) && #[trigger] lookup_last(pngs@, plists@[q].0@) is Some && x == key_cand(input_dir@, fs, plists@[q].0@) by {
                            if x == xc {
                                assert(live(plists@, m as int) && lookup_last(pngs@, plists@[m as int].0@) is Some);
                            }
                        }
                    }
                },
            }
        } else {
            proof {
                assert forall|x: (Seq<char>, Seq<char>, Seq<char>, Seq<char>)| #[trigger] cand_views(out@).contains(x) <==> exists|q: int|
                    0 <= q < m + 1 && live(plists@, q) && #[trigger] lookup_last(pngs@, plists@[q].0@) is Some && x == key_cand(input_dir@, fs, plists@[q].0@) by {
                    if exists|q: int| 0 <= q < m + 1 && live(plists@, q) && #[trigger] lookup_last(pngs@, plists@[q].0@) is Some && x == key_cand(input_dir@, fs, plists@[q].0@) {
                        let q = choose|q: int| 0 <= q < m + 1 && live(plists@, q) && #[trigger] lookup_last(pngs@, plists@[q].0@) is Some && x == key_cand(input_dir@, fs, plists@[q].0@);
                        assert(q != m);
                    }
                }
            }
        }
        m = m + 1;
    }
    proof {
        assert(!bad_key_exists(input_dir@, fs)) by {
            if bad_key_exists(input_dir@, fs) {
                let k = choose|k: Seq<char>| #[trigger] is_sheet_key(input_dir@, fs, k) && file_name_spec(k) is None;
                lemma_lookup_live(plists@, k);
                let q = choose|q: int| 0 <= q < plists@.len() && live(plists@, q) && plists@[q].0@ == k && lookup_last(plists@, k) == Some(#[trigger] plists@[q].1@);
                assert(lookup_last(pngs@, plists@[q].0@) is Some);
            }
        }
        assert forall|x: (Seq<char>, Seq<char>, Seq<char>, Seq<char>)| #[trigger] cand_views(out@).contains(x) <==> exists|k: Seq<char>|
            is_sheet_key(input_dir@, fs, k) && x == key_cand(input_dir@, fs, k) by {
            if exists|k: Seq<char>| is_sheet_key(input_dir@, fs, k) && x == key_cand(input_dir@, fs, k) {
                let k = choose|k: Seq<char>| is_sheet_key(input_dir@, fs, k) && x == key_cand(input_dir@, fs, k);
                lemma_lookup_live(plists@, k);
                let q = choose|q: int| 0 <= q < plists@.len() && live(plists@, q) && plists@[q].0@ == k && lookup_last(plists@, k) == Some(#[trigger] plists@[q].1@);
                assert(lookup_last(pngs@, plists@[q].0@) is Some);
            }
            if cand_views(out@).contains(x) {
                let q = choose|q: int| 0 <= q < plists@.len() && live(plists@, q) && #[trigger] lookup_last(pngs@, plists@[q].0@) is Some && x == key_cand(input_dir@, fs, plists@[q].0@);
                lemma_live_lookup(plists@, q);
                assert(is_sheet_key(input_dir@, fs, plists@[q].0@));
            }
        }
    }
    Ok(out)
}


/// The extension of a path's file name.
pub open spec fn file_ext(f: Seq<char>) -> Option<Seq<char>> {
    match file_name_spec(f) {
        Some(n) => extension_spec(n),
        None => None,
    }
}

/// The stem of a path's file name.
pub open spec fn file_stem(f: Seq<char>) -> Option<Seq<char>> {
    match file_name_spec(f) {
        Some(n) => Some(stem_spec(n)),
        None => None,
    }
}

/// A stem the porter handles: one ending in `-hd` or `-uhd`.
pub open spec fn porter_eligible(stem: Seq<char>) -> bool {
    has_suffix(stem, "-hd"@) || has_suffix(stem, "-uhd"@)
}

/// Whether the porter handles a stem.
pub fn porter_stem_eligible(stem: &str) -> (r: bool)
    ensures
        r == porter_eligible(stem@),
{
    let v = chars_of(stem);
    ends_with_str(v.as_slice(), "-hd") || ends_with_str(v.as_slice(), "-uhd")
}

/// Whether the extension of the path's file name is `ext`, in any case.
pub open spec fn has_ext(f: Seq<char>, ext: Seq<char>) -> bool {
    file_ext(f) matches Some(e) && eq_ic(e, ext)
}

/// Whether the extension of the path's file name is `ext`, in any case.
pub fn has_ext_exec(f: &str, ext: &str) -> (r: bool)
    ensures
        r == has_ext(f@, ext@),
{
    match file_name_of(f) {
        Some(n) => match extension_of(n.as_str()) {
            Some(e) => {
                let ev = chars_of(e.as_str());
                eq_ignore_case_str(ev.as_slice(), ext)
            },
            None => false,
        },
        None => false,
    }
}

/// Whether the stem of the path's file name is one the porter handles.
pub open spec fn eligible_file(f: Seq<char>) -> bool {
    file_stem(f) matches Some(s) && porter_eligible(s)
}

/// Whether the stem of the path's file name is one the porter handles.
pub fn eligible_file_exec(f: &str) -> (r: bool)
    ensures
        r == eligible_file(f@),
{
    match file_name_of(f) {
        Some(n) => {
            let stem = file_stem_of(n.as_str());
            porter_stem_eligible(stem.as_str())
        },
        None => false,
    }
}

/// A standalone image: a regular `.png` file outside the tools' output
/// folders that is not the image of a sheet and whose stem the porter
/// handles.
pub open spec fn standalone_png(input: Seq<char>, facts: PathFacts, paired: Seq<Seq<char>>, f: Seq<char>) -> bool {
    !under_reserved_spec(input, f) && facts.has_file(f) && has_ext(f, "png"@) && !paired.contains(f) && eligible_file(f)
}

/// A standalone font: a `.fnt` file whose stem the porter handles.
pub open spec fn standalone_fnt(f: Seq<char>) -> bool {
    has_ext(f, "fnt"@) && eligible_file(f)
}

/// Filtering a list without repeats gives a list without repeats, and so
/// does any list with the same elements as that.
proof fn lemma_filtered_no_dup(out: Seq<Seq<char>>, s: Seq<Seq<char>>, p: spec_fn(Seq<char>) -> bool)
    requires
        s.no_duplicates(),
        out.to_multiset() == s.filter(p).to_multiset(),
    ensures
        out.no_duplicates(),
{
    lemma_filter_keeps_no_dup(s, p);
    s.filter(p).lemma_multiset_has_no_duplicates();
    out.lemma_multiset_has_no_duplicates_conv();
}

proof fn lemma_filter_keeps_no_dup(s: Seq<Seq<char>>, p: spec_fn(Seq<char>) -> bool)
    requires
        s.no_duplicates(),
    ensures
        s.filter(p).no_duplicates(),
    decreases s.len(),
{
    reveal(Seq::filter);
    if s.len() > 0 {
        let r = s.drop_last();
        assert(r.no_duplicates());
        lemma_filter_keeps_no_dup(r, p);
        assert(s =~= r.push(s.last()));
        r.lemma_filter_push(s.last(), p);
        if p(s.last()) {
            if r.filter(p).contains(s.last()) {
                r.lemma_filter_contains_rev(p, s.last());
                let k = choose|k: int| 0 <= k < r.len() && r[k] == s.last();
                assert(s[k] == s[s.len() - 1]);
            }
        }
    }
}

/// The standalone images among the walked files, ascending.
pub fn discover_standalone_pngs(
    input_dir: &str,
    files: &Vec<String>,
    facts: &PathFacts,
    paired_png_paths: &Vec<String>,
) -> (out: Vec<String>)
    ensures
        sorted_paths(strs(out@)),
        strs(out@).to_multiset() == strs(files@).filter(
            |f: Seq<char>| standalone_png(input_dir@, *facts, strs(paired_png_paths@), f),
        ).to_multiset(),
        strs(files@).no_duplicates() ==> strs(out@).no_duplicates(),
{
    let ghost fs = strs(files@);
    let ghost pred = |f: Seq<char>| standalone_png(input_dir@, *facts, strs(paired_png_paths@), f);
    let mut picked: Vec<String> = Vec::new();
    let mut i: usize = 0;
    proof {
        reveal(Seq::filter);
        assert(fs.subrange(0, 0) =~= Seq::<Seq<char>>::empty());
        assert(strs(picked@) =~= Seq::<Seq<char>>::empty());
    }
    while i < files.len()
        invariant
            i <= files.len(),
            fs == strs(files@),
            pred == (|f: Seq<char>| standalone_png(input_dir@, *facts, strs(paired_png_paths@), f)),
            strs(picked@) == fs.subrange(0, i as int).filter(pred),
        decreases files.len() - i,
    {
        let f = files[i].as_str();
        let keep = !path_is_under_reserved_output_subtree(input_dir, f) && facts.is_file(f) && has_ext_exec(f, "png") && !list_contains(
            paired_png_paths,
            f,
        ) && eligible_file_exec(f);
        proof {
            fs.subrange(0, i as int).lemma_filter_push(fs[i as int], pred);
            assert(fs.subrange(0, i as int + 1) =~= fs.subrange(0, i as int).push(fs[i as int]));
            assert(fs[i as int] == f@);
        }
        if keep {
            let s = files[i].clone();
            proof {
                lemma_strs_push(picked@, s);
            }
            picked.push(s);
        }
        i = i + 1;
    }
    proof {
        assert(fs.subrange(0, fs.len() as int) =~= fs);
    }
    let out = sort_paths(picked);
    proof {
        if fs.no_duplicates() {
            lemma_filtered_no_dup(strs(out@), fs, pred);
        }
    }
    out
}

/// The standalone fonts among the walked files, ascending.
pub fn discover_standalone_fnts(files: &Vec<String>) -> (out: Vec<String>)
    ensures
        sorted_paths(strs(out@)),
        strs(out@).to_multiset() == strs(files@).filter(|f: Seq<char>| standalone_fnt(f)).to_multiset(),
{
    let ghost fs = strs(files@);
    let ghost pred = |f: Seq<char>| standalone_fnt(f);
    let mut picked: Vec<String> = Vec::new();
    let mut i: usize = 0;
    proof {
        reveal(Seq::filter);
        assert(fs.subrange(0, 0) =~= Seq::<Seq<char>>::empty());
        assert(strs(picked@) =~= Seq::<Seq<char>>::empty());
    }
    while i < files.len()
        invariant
            i <= files.len(),
            fs == strs(files@),
            pred == (|f: Seq<char>| standalone_fnt(f)),
            strs(picked@) == fs.subrange(0, i as int).filter(pred),
        decreases files.len() - i,
    {
        let f = files[i].as_str();
        let keep = has_ext_exec(f, "fnt") && eligible_file_exec(f);
        proof {
            fs.subrange(0, i as int).lemma_filter_push(fs[i as int], pred);
            assert(fs.subrange(0, i as int + 1) =~= fs.subrange(0, i as int).push(fs[i as int]));
            assert(fs[i as int] == f@);
        }
        if keep {
            let s = files[i].clone();
            proof {
                lemma_strs_push(picked@, s);
            }
            picked.push(s);
        }
        i = i + 1;
    }
    proof {
        assert(fs.subrange(0, fs.len() as int) =~= fs);
    }
    let out = sort_paths(picked);
    proof {
        if fs.no_duplicates() {
            lemma_filtered_no_dup(strs(out@), fs, pred);
        }
    }
    out
}

/// A folder that directly holds a regular `.plist` file.
pub open spec fn has_direct_plist(files: Seq<Seq<char>>, facts: PathFacts, d: Seq<char>) -> bool {
    exists|k: int|
        0 <= k < files.len() && parent_spec(#[trigger] files[k]) == Some(d) && facts.has_file(
            files[k],
        ) && has_ext(files[k], "plist"@)
}

/// Whether a folder directly holds a regular `.plist` file.
pub fn directory_has_direct_plist_file(files: &Vec<String>, facts: &PathFacts, dir: &str) -> (r:
    bool)
    ensures
        r == has_direct_plist(strs(files@), *facts, dir@),
{
    let ghost fs = strs(files@);
    let mut k: usize = 0;
    while k < files.len()
        invariant
            k <= files.len(),
            fs == strs(files@),
            forall|q: int|
                0 <= q < k ==> !(parent_spec(#[trigger] fs[q]) == Some(dir@) && facts.has_file(
                    fs[q],
                ) && has_ext(fs[q], "plist"@)),
        decreases files.len() - k,
    {
        let f = files[k].as_str();
        proof {
            assert(fs[k as int] == f@);
        }
        let parent_matches = match parent_of(f) {
            Some(p) => crate::facts::str_eq(p.as_str(), dir),
            None => false,
        };
        if parent_matches && facts.is_file(f) && has_ext_exec(f, "plist") {
            return true;
        }
        k = k + 1;
    }
    false
}

/// A merge source: a folder outside the tools' output folders that directly
/// holds a regular `.plist` file.
pub open spec fn merge_source(input: Seq<char>, files: Seq<Seq<char>>, facts: PathFacts, d: Seq<char>) -> bool {
    !under_reserved_spec(input, d) && has_direct_plist(files, facts, d)
}

/// The walked folders (the input folder among them) outside the tools'
/// output folders that directly hold a `.plist` file, ascending.
pub fn discover_merge_source_dirs(input_dir: &str, dirs: &Vec<String>, files: &Vec<String>, facts: &PathFacts) -> (out:
    Vec<String>)
    ensures
        sorted_paths(strs(out@)),
        strs(out@).to_multiset() == strs(dirs@).filter(
            |d: Seq<char>| merge_source(input_dir@, strs(files@), *facts, d),
        ).to_multiset(),
        strs(dirs@).no_duplicates() ==> strs(out@).no_duplicates(),
{
    let ghost ds = strs(dirs@);
    let ghost pred = |d: Seq<char>| merge_source(input_dir@, strs(files@), *facts, d);
    let mut picked: Vec<String> = Vec::new();
    let mut i: usize = 0;
    proof {
        reveal(Seq::filter);
        assert(ds.subrange(0, 0) =~= Seq::<Seq<char>>::empty());
        assert(strs(picked@) =~= Seq::<Seq<char>>::empty());
    }
    while i < dirs.len()
        invariant
            i <= dirs.len(),
            ds == strs(dirs@),
            pred == (|d: Seq<char>| merge_source(input_dir@, strs(files@), *facts, d)),
            strs(picked@) == ds.subrange(0, i as int).filter(pred),
        decreases dirs.len() - i,
    {
        let keep = !path_is_under_reserved_output_subtree(input_dir, dirs[i].as_str())
            && directory_has_direct_plist_file(files, facts, dirs[i].as_str());
        proof {
            ds.subrange(0, i as int).lemma_filter_push(ds[i as int], pred);
            assert(ds.subrange(0, i as int + 1) =~= ds.subrange(0, i as int).push(ds[i as int]));
            assert(ds[i as int] == dirs@[i as int]@);
        }
        if keep {
            let s = dirs[i].clone();
            proof {
                lemma_strs_push(picked@, s);
            }
            picked.push(s);
        }
        i = i + 1;
    }
    proof {
        assert(ds.subrange(0, ds.len() as int) =~= ds);
    }
    let out = sort_paths(picked);
    proof {
        if ds.no_duplicates() {
            lemma_filtered_no_dup(strs(out@), ds, pred);
        }
    }
    out
}


proof fn lemma_last_dot_below(n: Seq<char>)
    ensures
        -1 <= last_dot(n) < n.len(),
    decreases n.len(),
{
    if n.len() > 0 {
        lemma_last_dot_below(n.drop_last());
    }
}

/// A discovered file's sheet key keeps the whole folder the file lies in
/// below the input: its segments are those of the file's path relative to
/// the input folder, with the file name replaced by its stem (a stem other
/// than `.`, which a path cannot hold as a segment).
pub proof fn law_sheet_key_keeps_the_whole_folder(input: Seq<char>, f: Seq<char>, key: Seq<char>, e: Seq<char>)
    requires
        file_entry(input, f) == Some(Some((key, e))),
        stem_spec(file_name_spec(f)->0) != seq!['.'],
    ensures
        strip_prefix_spec(f, input) matches Some(rest) && segments(key) == (if rest.len() > 0 {
            rest.drop_last()
        } else {
            Seq::empty()
        }).push(stem_spec(file_name_spec(f)->0)),
{
    let n = file_name_spec(f)->0;
    let sp = segments(f);
    lemma_segments_plain(f);
    assert(n == sp[sp.len() - 1]);
    assert(plain_seg(n));
    lemma_last_dot_below(n);
    let st = stem_spec(n);
    assert(st == n.subrange(0, last_dot(n)));
    assert forall|i: int| 0 <= i < st.len() implies st[i] != '/' by {
        assert(st[i] == n[i]);
    }
    assert(plain_seg(st));
    let rest = strip_prefix_spec(f, input)->0;
    let sb = segments(input);
    assert(rest == sp.subrange(sb.len() as int, sp.len() as int));
    let dirs = if rest.len() > 0 { rest.drop_last() } else { Seq::<Seq<char>>::empty() };
    assert forall|k: int| 0 <= k < dirs.len() implies plain_seg(#[trigger] dirs[k]) by {
        assert(dirs[k] == sp[sb.len() + k]);
    }
    let all = dirs.push(st);
    assert forall|k: int| 0 <= k < all.len() implies plain_seg(#[trigger] all[k]) by {
        if k < dirs.len() {
            assert(all[k] == dirs[k]);
        }
    }
    lemma_segments_of_joined(all);
    lemma_segments_of_joined(dirs);
    assert(all.drop_last() =~= dirs);
    assert(rel_parent(rest) == join_all(Seq::empty(), dirs));
    assert(key == j(rel_parent(rest), st));
    assert(key == join_all(Seq::empty(), all));
}

} // verus!
