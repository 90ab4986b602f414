//! Finding the live (latest) sheet that an input pack sheet replaces, and the
//! split cache bookkeeping.

use vstd::prelude::*;
use crate::discovery::{
    discover_sheet_pairs, file_stem, has_direct_plist, live, lookup_last, SheetCandidate,
    is_live, sorted_by_stem, walk_fails, bad_key_exists, no_dup, cand_views, is_sheet_key,
    key_cand, has_ext, has_ext_exec,
};
use crate::errors::AppError;
use crate::facts::{list_contains, str_eq, PathFacts};
use crate::game_files::{j, Platform};
use crate::layout::{current_source_spec, resolve_current_source_dir, split_cache_entry_key, split_cache_key_spec, GameFilesLayout};
use crate::order::strs;
use crate::path_order::{sort_paths, sorted_paths};
use crate::paths::{
    file_name_of, file_name_spec, file_stem_of, join_path, lemma_strs_push, opt_str, parent_of,
    parent_spec, stem_spec, is_dotdot, kept_seg, strip_path_prefix, strip_prefix_spec,
    rebuild, rebuild_path, remove_dotdot, without_dotdot, join_all, join_all_exec,
};
use crate::text::{chars_of, concat_str, contains_chars, eq_ic, eq_ignore_case_chars, eq_ignore_case_str, lower, lower_chars, string_from_chars};

verus! {

/// `stem` followed by `suffix`.
pub fn with_suffix(stem: &str, suffix: &str) -> (r: String)
    ensures
        r@ == stem@ + suffix@,
{
    let a = chars_of(stem);
    let v = concat_str(a.as_slice(), suffix);
    string_from_chars(v.as_slice())
}

/// The image of a sheet: the `.png` of the same stem beside the `.plist`.
pub open spec fn png_beside_spec(plist: Seq<char>) -> Seq<char> {
    match (parent_spec(plist), file_name_spec(plist)) {
        (Some(p), Some(n)) => j(p, stem_spec(n) + ".png"@),
        _ => plist,
    }
}

/// The image of a sheet: the `.png` of the same stem beside the `.plist`.
pub fn resolve_png_beside_plist(plist_path: &str) -> (r: String)
    ensures
        r@ == png_beside_spec(plist_path@),
{
    match (parent_of(plist_path), file_name_of(plist_path)) {
        (Some(p), Some(n)) => {
            let stem = file_stem_of(n.as_str());
            let name = with_suffix(stem.as_str(), ".png");
            join_path(p.as_str(), name.as_str())
        },
        _ => plist_path.to_string(),
    }
}

/// A file name that is one plain segment: not empty, not `.` or `..`, and
/// without separators.
pub open spec fn safe_segment(s: Seq<char>) -> bool {
    kept_seg(s) && !is_dotdot(s) && !s.contains('/') && !s.contains('\\')
}

/// Whether a file name is one plain segment.
pub fn is_safe_path_segment(s: &str) -> (r: bool)
    ensures
        r == safe_segment(s@),
{
    let v = chars_of(s);
    if !crate::paths::is_kept_piece(v.as_slice()) || crate::paths::is_dotdot_str(s) {
        return false;
    }
    let mut i: usize = 0;
    while i < v.len()
        invariant
            i <= v.len(),
            v@ == s@,
            forall|k: int| 0 <= k < i ==> v@[k] != '/' && v@[k] != '\\',
        decreases v.len() - i,
    {
        if v[i] == '/' || v[i] == '\\' {
            proof {
                assert(v@[i as int] == '/' ==> s@.contains('/'));
                assert(v@[i as int] == '\\' ==> s@.contains('\\'));
            }
            return false;
        }
        i = i + 1;
    }
    true
}

/// The first listed file whose name equals `wanted` in any case, when
/// `wanted` is one plain segment.
pub open spec fn find_named_spec(tree: Seq<Seq<char>>, wanted: Seq<char>) -> Option<Seq<char>>
    decreases tree.len(),
{
    if !safe_segment(wanted) || tree.len() == 0 {
        None
    } else if file_name_spec(tree[0]) matches Some(n) && eq_ic(n, wanted) {
        Some(tree[0])
    } else {
        find_named_spec(tree.drop_first(), wanted)
    }
}

/// The first listed file (in the order the walk met them) whose name equals
/// `wanted` in any case.
pub fn recursive_find_file_named(tree_files: &Vec<String>, wanted: &str) -> (r: Option<String>)
    ensures
        opt_str(r) == find_named_spec(strs(tree_files@), wanted@),
{
    if !is_safe_path_segment(wanted) {
        return None;
    }
    let wv = chars_of(wanted);
    let ghost ts = strs(tree_files@);
    let mut i: usize = 0;
    proof {
        assert(ts.subrange(0, ts.len() as int) =~= ts);
    }
    while i < tree_files.len()
        invariant
            i <= tree_files.len(),
            ts == strs(tree_files@),
            wv@ == wanted@,
            safe_segment(wanted@),
            find_named_spec(ts, wanted@) == find_named_spec(ts.subrange(i as int, ts.len() as int), wanted@),
        decreases tree_files.len() - i,
    {
        proof {
            let rest = ts.subrange(i as int, ts.len() as int);
            assert(rest[0] == tree_files@[i as int]@);
            assert(rest.drop_first() =~= ts.subrange(i + 1, ts.len() as int));
        }
        let matches = match file_name_of(tree_files[i].as_str()) {
            Some(n) => {
                let nv = chars_of(n.as_str());
                eq_ignore_case_chars(nv.as_slice(), wv.as_slice())
            },
            None => false,
        };
        if matches {
            return Some(tree_files[i].clone());
        }
        i = i + 1;
    }
    None
}

/// The live sheet for an input sheet: in the live source folder of its
/// relative folder, `{stem}.plist` when it exists there, else the first file
/// of that name the walk of the source folder met; with the `.png` beside it;
/// none unless the source folder is a directory and both files are regular
/// files.
pub open spec fn locate_spec(
    layout: GameFilesLayout,
    rel: Seq<char>,
    stem: Seq<char>,
    facts: PathFacts,
    platform: Platform,
    tree: Seq<Seq<char>>,
) -> Option<(Seq<char>, Seq<char>, Seq<char>, Seq<char>)> {
    let source = current_source_spec(layout, rel, facts, platform);
    let direct = j(source, stem + ".plist"@);
    let plist = if facts.has_path(direct) {
        Some(direct)
    } else {
        find_named_spec(tree, stem + ".plist"@)
    };
    if !facts.has_dir(source) || plist is None {
        None
    } else if facts.has_file(plist->0) && facts.has_file(png_beside_spec(plist->0)) {
        Some((stem, rel, plist->0, png_beside_spec(plist->0)))
    } else {
        None
    }
}

/// The live sheet for an input sheet, from the facts about the source folder
/// and the files its walk met.
pub fn locate_current_sheet_pair(
    layout: &GameFilesLayout,
    relative_dir: &str,
    stem: &str,
    facts: &PathFacts,
    platform: Platform,
    source_tree_files: &Vec<String>,
) -> (r: Option<SheetCandidate>)
    ensures
        match r {
            Some(c) => locate_spec(*layout, relative_dir@, stem@, *facts, platform, strs(source_tree_files@)) == Some(crate::discovery::cand_view(c)),
            None => locate_spec(*layout, relative_dir@, stem@, *facts, platform, strs(source_tree_files@)) is None,
        },
{
    let source_dir = resolve_current_source_dir(layout, relative_dir, facts, platform);
    if !facts.is_dir(source_dir.as_str()) {
        return None;
    }
    let wanted = with_suffix(stem, ".plist");
    let direct = join_path(source_dir.as_str(), wanted.as_str());
    let plist_path = if facts.path_exists(direct.as_str()) {
        direct
    } else {
        match recursive_find_file_named(source_tree_files, wanted.as_str()) {
            Some(p) => p,
            None => return None,
        }
    };
    let png_path = resolve_png_beside_plist(plist_path.as_str());
    if !facts.is_file(plist_path.as_str()) || !facts.is_file(png_path.as_str()) {
        return None;
    }
    Some(
        SheetCandidate {
            stem: stem.to_string(),
            relative_dir: relative_dir.to_string(),
            plist_path,
            png_path,
        },
    )
}

/// The live sheet for an input sheet (see [`locate_current_sheet_pair`]).
pub fn find_current_sheet_for_input(
    layout: &GameFilesLayout,
    relative_dir: &str,
    stem: &str,
    facts: &PathFacts,
    platform: Platform,
    source_tree_files: &Vec<String>,
) -> (r: Option<SheetCandidate>)
    ensures
        match r {
            Some(c) => locate_spec(*layout, relative_dir@, stem@, *facts, platform, strs(source_tree_files@)) == Some(crate::discovery::cand_view(c)),
            None => locate_spec(*layout, relative_dir@, stem@, *facts, platform, strs(source_tree_files@)) is None,
        },
{
    locate_current_sheet_pair(layout, relative_dir, stem, facts, platform, source_tree_files)
}

/// The sheets of the vanilla resources folder, from the files its walk met.
pub fn discover_current_sheet_pairs(layout: &GameFilesLayout, files: &Vec<String>) -> (r: Result<
    Vec<SheetCandidate>,
    AppError,
>)
    ensures
        r is Err <==> walk_fails(layout.resources@, strs(files@)) || bad_key_exists(
            layout.resources@,
            strs(files@),
        ),
        r matches Ok(out) ==> {
            &&& sorted_by_stem(out@)
            &&& no_dup(cand_views(out@))
            &&& forall|x: (Seq<char>, Seq<char>, Seq<char>, Seq<char>)| #[trigger]
                cand_views(out@).contains(x) <==> exists|k: Seq<char>|
                is_sheet_key(layout.resources@, strs(files@), k) && x == key_cand(
                    layout.resources@,
                    strs(files@),
                    k,
                )
        },
{
    discover_sheet_pairs(layout.resources.as_str(), files)
}

/// `p` lies under `base` (`Path::starts_with`).
pub open spec fn starts_with_path(p: Seq<char>, base: Seq<char>) -> bool {
    strip_prefix_spec(p, base) is Some
}

/// Whether a sheet's `.plist` lies outside the input folder (it came from the
/// vanilla resources). The canonical forms are those the file system gave,
/// when it gave them; without the input folder's, the paths are compared as
/// they are.
pub open spec fn external_plist_spec(
    input_dir: Seq<char>,
    input_canon: Option<Seq<char>>,
    plist: Seq<char>,
    plist_canon: Option<Seq<char>>,
) -> bool {
    match input_canon {
        None => !starts_with_path(plist, input_dir),
        Some(ic) => !starts_with_path(
            match plist_canon {
                Some(pc) => pc,
                None => plist,
            },
            ic,
        ),
    }
}

/// Whether a sheet's `.plist` lies outside the input folder.
pub fn sheet_uses_external_plist(
    input_dir: &str,
    input_canon: Option<String>,
    pair: &SheetCandidate,
    plist_canon: Option<String>,
) -> (r: bool)
    ensures
        r == external_plist_spec(input_dir@, opt_str(input_canon), pair.plist_path@, opt_str(plist_canon)),
{
    match input_canon {
        None => strip_path_prefix(pair.plist_path.as_str(), input_dir).is_none(),
        Some(ic) => {
            let p = match plist_canon {
                Some(pc) => pc,
                None => pair.plist_path.clone(),
            };
            strip_path_prefix(p.as_str(), ic.as_str()).is_none()
        },
    }
}

/// The hashes of a sheet's two files, as the split cache records them.
#[derive(Debug, Clone, PartialEq, Eq)]
pub struct SplitCacheHashEntry {
    pub plist_sha256: String,
    pub png_sha256: String,
}

/// The hashes recorded for `key`, when some are.
pub open spec fn recorded_for(entries: Seq<(String, SplitCacheHashEntry)>, key: Seq<char>) -> Option<(Seq<char>, Seq<char>)>
    decreases entries.len(),
{
    if entries.len() == 0 {
        None
    } else if entries.last().0@ == key {
        Some((entries.last().1.plist_sha256@, entries.last().1.png_sha256@))
    } else {
        recorded_for(entries.drop_last(), key)
    }
}

/// `{split dir}/{stem}.plist`: the split sheet is in the cache.
pub open spec fn cached_plist_spec(pair: SheetCandidate, split_dir: Seq<char>) -> Seq<char> {
    j(split_dir, pair.stem@ + ".plist"@)
}

/// Whether the split sheet is in the cache folder.
pub fn split_dir_has_cached_plist(pair: &SheetCandidate, split_dir: &str, facts: &PathFacts) -> (r:
    bool)
    ensures
        r == facts.has_path(cached_plist_spec(*pair, split_dir@)),
{
    let name = with_suffix(pair.stem.as_str(), ".plist");
    let p = join_path(split_dir, name.as_str());
    facts.path_exists(p.as_str())
}

/// Whether the split cache of a sheet is current: its split `.plist` is in
/// the cache folder and the hashes recorded for the sheet's key are those of
/// its files now.
pub fn split_cache_is_valid(
    pair: &SheetCandidate,
    split_dir: &str,
    facts: &PathFacts,
    current: &SplitCacheHashEntry,
    entries: &Vec<(String, SplitCacheHashEntry)>,
) -> (r: bool)
    ensures
        r == (facts.has_path(cached_plist_spec(*pair, split_dir@)) && recorded_for(
            entries@,
            split_cache_key_spec(*pair),
        ) == Some((current.plist_sha256@, current.png_sha256@))),
{
    if !split_dir_has_cached_plist(pair, split_dir, facts) {
        return false;
    }
    let key = split_cache_entry_key(pair);
    let mut i: usize = entries.len();
    proof {
        assert(entries@.subrange(0, entries@.len() as int) =~= entries@);
    }
    while i > 0
        invariant
            i <= entries.len(),
            key@ == split_cache_key_spec(*pair),
            facts.has_path(cached_plist_spec(*pair, split_dir@)),
            recorded_for(entries@, key@) == recorded_for(entries@.subrange(0, i as int), key@),
        decreases i,
    {
        proof {
            assert(entries@.subrange(0, i as int).drop_last() =~= entries@.subrange(0, i - 1));
        }
        if str_eq(entries[i - 1].0.as_str(), key.as_str()) {
            let e = &entries[i - 1].1;
            return str_eq(e.plist_sha256.as_str(), current.plist_sha256.as_str()) && str_eq(
                e.png_sha256.as_str(),
                current.png_sha256.as_str(),
            );
        }
        i = i - 1;
    }
    false
}

/// The `.plist` files among the walked files, ascending, each keyed by its
/// stem in lower case (of several with one key, the last in that order).
pub open spec fn plist_index_spec(sorted: Seq<Seq<char>>, k: Seq<char>) -> Option<Seq<char>>
    decreases sorted.len(),
{
    if sorted.len() == 0 {
        None
    } else if file_stem(sorted.last()) matches Some(s) && lower(s) == k {
        Some(sorted.last())
    } else {
        plist_index_spec(sorted.drop_last(), k)
    }
}

/// Index of the `.plist` files under a folder by lower-case stem: the walked
/// files with a `.plist` extension (any case), ascending; a later file
/// replaces an earlier one with the same key. The keys are distinct.
pub fn build_plist_index_under(files: &Vec<String>) -> (out: Vec<(String, String)>)
    ensures
        exists|sorted: Seq<Seq<char>>|
            #![trigger sorted_paths(sorted)]
            sorted_paths(sorted) && sorted.to_multiset() == strs(files@).filter(
                |f: Seq<char>| has_ext(f, "plist"@),
            ).to_multiset() && forall|k: Seq<char>| #[trigger]
                lookup_last(out@, k) == plist_index_spec(sorted, k),
        unique_keys(out@),
{
    let ghost fs = strs(files@);
    let ghost pred = |f: Seq<char>| has_ext(f, "plist"@);
    let mut picked: Vec<String> = Vec::new();
    let mut i: usize = 0;
    proof {
        reveal(Seq::filter);
        assert(fs.subrange(0, 0) =~= Seq::<Seq<char>>::empty());
        assert(strs(picked@) =~= Seq::<Seq<char>>::empty());
    }
    while i < files.len()
        invariant
            i <= files.len(),
            fs == strs(files@),
            pred == (|f: Seq<char>| has_ext(f, "plist"@)),
            strs(picked@) == fs.subrange(0, i as int).filter(pred),
        decreases files.len() - i,
    {
        let keep = has_ext_exec(files[i].as_str(), "plist");
        proof {
            fs.subrange(0, i as int).lemma_filter_push(fs[i as int], pred);
            assert(fs.subrange(0, i as int + 1) =~= fs.subrange(0, i as int).push(fs[i as int]));
            assert(fs[i as int] == files@[i as int]@);
        }
        if keep {
            let s = files[i].clone();
            proof {
                lemma_strs_push(picked@, s);
            }
            picked.push(s);
        }
        i = i + 1;
    }
    proof {
        assert(fs.subrange(0, fs.len() as int) =~= fs);
    }
    let sorted = sort_paths(picked);
    let ghost ss = strs(sorted@);
    let mut out: Vec<(String, String)> = Vec::new();
    let mut m: usize = 0;
    proof {
        assert(ss.subrange(0, 0) =~= Seq::<Seq<char>>::empty());
    }
    while m < sorted.len()
        invariant
            m <= sorted.len(),
            ss == strs(sorted@),
            unique_keys(out@),
            forall|k: Seq<char>| #[trigger] lookup_last(out@, k) == plist_index_spec(ss.subrange(0, m as int), k),
        decreases sorted.len() - m,
    {
        let ghost pre = ss.subrange(0, m as int);
        let ghost post = ss.subrange(0, m as int + 1);
        proof {
            assert(post.drop_last() =~= pre);
            assert(post.last() == sorted@[m as int]@);
        }
        match file_name_of(sorted[m].as_str()) {
            Some(n) => {
                let stem = file_stem_of(n.as_str());
                let sv = chars_of(stem.as_str());
                let lv = lower_chars(sv.as_slice());
                let key = string_from_chars(lv.as_slice());
                let val = sorted[m].clone();
                proof {
                    assert(file_stem(post.last()) == Some(stem@));
                    assert(key@ == lower(stem@));
                    assert(plist_index_spec(post, key@) == Some(val@));
                }
                upsert(&mut out, key, val);
                proof {
                    assert forall|k: Seq<char>| #[trigger] lookup_last(out@, k) == plist_index_spec(post, k) by {
                        if k != key@ {
                            assert(plist_index_spec(post, k) == plist_index_spec(pre, k));
                        }
                    }
                }
            },
            None => {
                proof {
                    assert forall|k: Seq<char>| #[trigger] lookup_last(out@, k) == plist_index_spec(post, k) by {
                        assert(plist_index_spec(post, k) == plist_index_spec(pre, k));
                    }
                }
            },
        }
        m = m + 1;
    }
    proof {
        assert(ss.subrange(0, ss.len() as int) =~= ss);
    }
    out
}

/// No two entries share a key.
pub open spec fn unique_keys(v: Seq<(String, String)>) -> bool {
    forall|a: int, b: int| 0 <= a < b < v.len() ==> #[trigger] v[a].0@ != #[trigger] v[b].0@
}

proof fn lemma_lookup_same(a: Seq<(String, String)>, b: Seq<(String, String)>, k: Seq<char>)
    requires
        a.len() == b.len(),
        forall|i: int| 0 <= i < a.len() ==> ((#[trigger] a[i]).0@ == k) == (b[i].0@ == k),
        forall|i: int| 0 <= i < a.len() && (#[trigger] a[i]).0@ == k ==> a[i].1@ == b[i].1@,
    ensures
        lookup_last(a, k) == lookup_last(b, k),
    decreases a.len(),
{
    if a.len() > 0 {
        let a2 = a.drop_last();
        let b2 = b.drop_last();
        assert forall|i: int| 0 <= i < a2.len() implies ((#[trigger] a2[i]).0@ == k) == (b2[i].0@ == k) by {
            assert(a2[i] == a[i] && b2[i] == b[i]);
        }
        assert forall|i: int| 0 <= i < a2.len() && (#[trigger] a2[i]).0@ == k implies a2[i].1@ == b2[i].1@ by {
            assert(a2[i] == a[i] && b2[i] == b[i]);
        }
        assert(a.last() == a[a.len() - 1] && b.last() == b[b.len() - 1]);
        lemma_lookup_same(a2, b2, k);
    }
}

/// The index of the entry with key `k`, when there is one.
pub fn key_position(v: &Vec<(String, String)>, k: &str) -> (r: Option<usize>)
    ensures
        match r {
            Some(i) => i < v@.len() && v@[i as int].0@ == k@,
            None => forall|t: int| 0 <= t < v@.len() ==> (#[trigger] v@[t]).0@ != k@,
        },
{
    let mut idx: usize = 0;
    while idx < v.len()
        invariant
            idx <= v.len(),
            forall|t: int| 0 <= t < idx ==> (#[trigger] v@[t]).0@ != k@,
        decreases v.len() - idx,
    {
        if str_eq(v[idx].0.as_str(), k) {
            return Some(idx);
        }
        idx = idx + 1;
    }
    None
}

/// Sets the value of `k`, adding it when absent.
pub fn upsert(v: &mut Vec<(String, String)>, k: String, val: String)
    requires
        unique_keys(old(v)@),
    ensures
        unique_keys(final(v)@),
        forall|q: Seq<char>| #[trigger] lookup_last(final(v)@, q) == if q == k@ {
            Some(val@)
        } else {
            lookup_last(old(v)@, q)
        },
{
    let pos = key_position(v, k.as_str());
    let ghost before = v@;
    if let Some(idx) = pos {
        let ghost kk = k@;
        let ghost vv = val@;
        v.set(idx, (k, val));
        proof {
            assert(before[idx as int].0@ == kk);
            assert forall|a: int, b: int| 0 <= a < b < v@.len() implies #[trigger] v@[a].0@ != #[trigger] v@[b].0@ by {
                assert(v@[a].0@ == before[a].0@);
                assert(v@[b].0@ == before[b].0@);
            }
            lemma_unique_lookup_at(v@, idx as int);
            assert forall|q: Seq<char>| #[trigger] lookup_last(v@, q) == if q == kk {
                Some(vv)
            } else {
                lookup_last(before, q)
            } by {
                if q != kk {
                    assert forall|i: int| 0 <= i < v@.len() implies ((#[trigger] v@[i]).0@ == q) == (before[i].0@ == q) by {
                        assert(v@[i].0@ == before[i].0@);
                    }
                    assert forall|i: int| 0 <= i < v@.len() && (#[trigger] v@[i]).0@ == q implies v@[i].1@ == before[i].1@ by {
                        assert(i != idx);
                    }
                    lemma_lookup_same(v@, before, q);
                }
            }
        }
    } else {
        v.push((k, val));
        proof {
            assert(v@.drop_last() =~= before);
            assert forall|a: int, b: int| 0 <= a < b < v@.len() implies #[trigger] v@[a].0@ != #[trigger] v@[b].0@ by {
                if b == v@.len() - 1 {
                    assert(v@[a] == before[a]);
                } else {
                    assert(v@[a] == before[a] && v@[b] == before[b]);
                }
            }
        }
    }
}

proof fn lemma_unique_lookup_at(v: Seq<(String, String)>, a: int)
    requires
        0 <= a < v.len(),
        forall|x: int, y: int| 0 <= x < y < v.len() ==> #[trigger] v[x].0@ != #[trigger] v[y].0@,
    ensures
        lookup_last(v, v[a].0@) == Some(v[a].1@),
{
    assert forall|n: int| a < n < v.len() implies #[trigger] v[n].0@ != v[a].0@ by {
        assert(v[a].0@ != v[n].0@);
    }
    crate::discovery::lemma_live_lookup(v, a);
}

/// Where a live `.plist` sits, as the input folder and stem to look it up by:
/// under the vanilla resources by its folder there; under Geode's
/// `geode.loader` as `geode.loader/...`; under `{unzipped}/{mod}/resources/`
/// as `{mod}/...` (what follows `resources/{mod}`); else at the pack root.
/// None when the file has no stem.
pub open spec fn plist_query_spec(layout: GameFilesLayout, plist: Seq<char>) -> Option<(Seq<char>, Seq<char>)> {
    let stem = match file_stem(plist) {
        Some(s) => s,
        None => Seq::empty(),
    };
    if stem.len() == 0 {
        None
    } else {
        match parent_spec(plist) {
            None => Some((Seq::empty(), stem)),
            Some(parent) => if strip_prefix_spec(parent, layout.resources@) is Some {
                Some((rebuild(false, strip_prefix_spec(parent, layout.resources@)->0), stem))
            } else if strip_prefix_spec(parent, j(layout.geode_resources@, "geode.loader"@)) is Some {
                Some((j("geode.loader"@, rebuild(false, strip_prefix_spec(parent, j(layout.geode_resources@, "geode.loader"@))->0)), stem))
            } else if strip_prefix_spec(parent, layout.geode_unzipped@) is Some && {
                let parts = without_dotdot(strip_prefix_spec(parent, layout.geode_unzipped@)->0);
                parts.len() >= 3 && eq_ic(parts[1], "resources"@)
            } {
                let parts = without_dotdot(strip_prefix_spec(parent, layout.geode_unzipped@)->0);
                Some((join_all(parts[0], parts.subrange(3, parts.len() as int)), stem))
            } else {
                Some((Seq::empty(), stem))
            },
        }
    }
}

/// Where a live `.plist` sits, as the input folder and stem to look it up by.
pub fn current_sheet_query_for_plist(layout: &GameFilesLayout, plist_path: &str) -> (r: Option<(String, String)>)
    ensures
        match r {
            Some((rel, stem)) => plist_query_spec(*layout, plist_path@) == Some((rel@, stem@)),
            None => plist_query_spec(*layout, plist_path@) is None,
        },
{
    let stem = match file_name_of(plist_path) {
        Some(n) => file_stem_of(n.as_str()),
        None => String::new(),
    };
    if stem.as_str().unicode_len() == 0 {
        return None;
    }
    let parent = match parent_of(plist_path) {
        Some(p) => p,
        None => return Some((String::new(), stem)),
    };
    if let Some(rel) = strip_path_prefix(parent.as_str(), layout.resources.as_str()) {
        return Some((rebuild_path(false, rel.as_slice()), stem));
    }
    let loader_root = join_path(layout.geode_resources.as_str(), "geode.loader");
    if let Some(rel) = strip_path_prefix(parent.as_str(), loader_root.as_str()) {
        let r = rebuild_path(false, rel.as_slice());
        return Some((join_path("geode.loader", r.as_str()), stem));
    }
    if let Some(after) = strip_path_prefix(parent.as_str(), layout.geode_unzipped.as_str()) {
        let mut parts = remove_dotdot(after.as_slice());
        if parts.len() >= 3 {
            let p1 = chars_of(parts[1].as_str());
            if eq_ignore_case_str(p1.as_slice(), "resources") {
                let ghost all = strs(parts@);
                let first = parts.remove(0);
                let _ = parts.remove(0);
                let _ = parts.remove(0);
                proof {
                    assert(strs(parts@) =~= all.subrange(3, all.len() as int));
                }
                return Some((join_all_exec(first.as_str(), parts.as_slice()), stem));
            }
        }
    }
    Some((String::new(), stem))
}

/// The live sheet a live `.plist` belongs to (the path as the file system
/// resolved it), looked up where [`current_sheet_query_for_plist`] says.
pub fn find_current_sheet_for_plist(
    layout: &GameFilesLayout,
    plist_path: &str,
    facts: &PathFacts,
    platform: Platform,
    source_tree_files: &Vec<String>,
) -> (r: Option<SheetCandidate>)
    ensures
        match plist_query_spec(*layout, plist_path@) {
            None => r is None,
            Some((rel, stem)) => match r {
                Some(c) => locate_spec(*layout, rel, stem, *facts, platform, strs(source_tree_files@)) == Some(crate::discovery::cand_view(c)),
                None => locate_spec(*layout, rel, stem, *facts, platform, strs(source_tree_files@)) is None,
            },
        },
{
    match current_sheet_query_for_plist(layout, plist_path) {
        None => None,
        Some((rel, stem)) => find_current_sheet_for_input(layout, rel.as_str(), stem.as_str(), facts, platform, source_tree_files),
    }
}
} // verus!
