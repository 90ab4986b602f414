//! Sheets of an input tree that lean on the game: a `.png` with no `.plist`
//! of its own is paired with the game's live `.plist` of the same stem.

use vstd::prelude::*;
use crate::discovery::{
    bad_key_exists, cand_view, cand_views, classify_file, discover_sheet_pairs, file_entry,
    is_sheet_key, key_cand, last_of, no_dup, sorted_by_stem, walk_fails,
    SheetCandidate,
};
use crate::errors::AppError;
use crate::facts::{str_eq, PathFacts};
use crate::game_files::{j, Platform};
use crate::layout::{current_source_spec, resolve_current_source_dir, GameFilesLayout};
use crate::order::{lemma_lex_asymmetric, lemma_lex_irreflexive, lemma_lex_total, lemma_lex_transitive, lex_lt, lex_lt_str, strs};
use crate::paths::{file_name_of, file_name_spec, join_path, opt_str, parent_of, parent_spec, strip_path_prefix, strip_prefix_spec};
use crate::sheet_lookup::{find_current_sheet_for_input, locate_spec};
use crate::text::{chars_of, eq_ic, eq_ignore_case_str};

verus! {

/// Candidate `a` comes before `b`: by relative folder, then by stem.
pub open spec fn dir_stem_lt(a: SheetCandidate, b: SheetCandidate) -> bool {
    lex_lt(a.relative_dir@, b.relative_dir@) || (a.relative_dir@ == b.relative_dir@ && lex_lt(a.stem@, b.stem@))
}

/// Ascending by relative folder, then stem.
pub open spec fn sorted_by_dir_stem(v: Seq<SheetCandidate>) -> bool {
    forall|p: int, q: int| 0 <= p < q < v.len() ==> !dir_stem_lt(#[trigger] v[q], #[trigger] v[p])
}

proof fn lemma_dir_stem_order(a: SheetCandidate, b: SheetCandidate, c: SheetCandidate)
    ensures
        !dir_stem_lt(a, a),
        dir_stem_lt(a, b) ==> !dir_stem_lt(b, a),
        !dir_stem_lt(a, b) && !dir_stem_lt(b, a) ==> a.relative_dir@ == b.relative_dir@ && a.stem@ == b.stem@,
        dir_stem_lt(a, b) && dir_stem_lt(b, c) ==> dir_stem_lt(a, c),
        !dir_stem_lt(a, b) ==> dir_stem_lt(b, a) || (a.relative_dir@ == b.relative_dir@ && a.stem@ == b.stem@),
        dir_stem_lt(a, b) && !dir_stem_lt(c, b) ==> dir_stem_lt(a, c),
{
    lemma_lex_irreflexive(a.relative_dir@);
    lemma_lex_irreflexive(a.stem@);
    lemma_lex_asymmetric(a.relative_dir@, b.relative_dir@);
    lemma_lex_asymmetric(a.stem@, b.stem@);
    lemma_lex_total(a.relative_dir@, b.relative_dir@);
    lemma_lex_total(a.stem@, b.stem@);
    lemma_lex_total(b.relative_dir@, c.relative_dir@);
    lemma_lex_total(b.stem@, c.stem@);
    lemma_lex_transitive(a.relative_dir@, b.relative_dir@, c.relative_dir@);
    lemma_lex_transitive(a.stem@, b.stem@, c.stem@);
}

/// Inserts `c` after every candidate that does not come after it.
fn insert_by_dir_stem(out: &mut Vec<SheetCandidate>, c: SheetCandidate)
    requires
        sorted_by_dir_stem(old(out)@),
    ensures
        sorted_by_dir_stem(final(out)@),
        exists|pos: int| 0 <= pos <= old(out)@.len() && #[trigger] cand_views(final(out)@) == cand_views(old(out)@).insert(pos, cand_view(c)),
{
    let mut pos: usize = 0;
    while pos < out.len() && !(lex_lt_str(c.relative_dir.as_str(), out[pos].relative_dir.as_str()) || (str_eq(
        c.relative_dir.as_str(),
        out[pos].relative_dir.as_str(),
    ) && lex_lt_str(c.stem.as_str(), out[pos].stem.as_str())))
        invariant
            pos <= out.len(),
            sorted_by_dir_stem(out@),
            forall|k: int| 0 <= k < pos ==> !dir_stem_lt(c, #[trigger] out@[k]),
        decreases out.len() - pos,
    {
        pos = pos + 1;
    }
    let ghost before = out@;
    let ghost cc = c;
    proof {
        assert forall|k: int| pos <= k < before.len() implies dir_stem_lt(cc, #[trigger] before[k]) by {
            assert(dir_stem_lt(cc, before[pos as int]));
            if k > pos {
                assert(!dir_stem_lt(before[k], before[pos as int]));
                lemma_dir_stem_order(cc, before[pos as int], before[k]);
            }
        }
    }
    let ghost cv = cand_view(c);
    out.insert(pos, c);
    proof {
        let after = out@;
        assert(after =~= before.insert(pos as int, cc));
        assert forall|p: int, q: int| 0 <= p < q < after.len() implies !dir_stem_lt(#[trigger] after[q], #[trigger] after[p]) by {
            if q < pos {
                assert(after[q] == before[q] && after[p] == before[p]);
            } else if q == pos {
                assert(after[p] == before[p]);
                lemma_dir_stem_order(cc, before[p], before[p]);
                lemma_dir_stem_order(before[p], cc, cc);
            } else if p < pos {
                assert(after[q] == before[q - 1] && after[p] == before[p]);
            } else if p == pos {
                assert(after[q] == before[q - 1]);
                lemma_dir_stem_order(cc, before[q - 1], cc);
            } else {
                assert(after[q] == before[q - 1] && after[p] == before[p - 1]);
            }
        }
        assert(cand_views(after) =~= cand_views(before).insert(pos as int, cv));
    }
}

/// The last file with key `key` and extension `kind` (see [`last_of`]).
fn last_of_exec(input_dir: &str, files: &Vec<String>, key: &str, kind: &str) -> (r: Option<String>)
    ensures
        opt_str(r) == last_of(input_dir@, strs(files@), key@, kind@),
{
    let ghost fs = strs(files@);
    let mut i: usize = files.len();
    proof {
        assert(fs.subrange(0, fs.len() as int) =~= fs);
    }
    while i > 0
        invariant
            i <= files@.len(),
            fs == strs(files@),
            last_of(input_dir@, fs, key@, kind@) == last_of(input_dir@, fs.subrange(0, i as int), key@, kind@),
        decreases i,
    {
        let ghost pre = fs.subrange(0, i as int);
        proof {
            assert(pre.drop_last() =~= fs.subrange(0, i - 1));
            assert(pre.last() == files@[i - 1]@);
        }
        let m = match classify_file(input_dir, files[i - 1].as_str()) {
            Some(Some((k, e))) => str_eq(k.as_str(), key) && {
                let ec = chars_of(e.as_str());
                eq_ignore_case_str(ec.as_slice(), kind)
            },
            _ => false,
        };
        if m {
            return Some(files[i - 1].clone());
        }
        i = i - 1;
    }
    None
}

/// File `i` is the last `.png` (any case) of its key, and no `.plist` has
/// that key.
pub open spec fn lone_png_at(input: Seq<char>, files: Seq<Seq<char>>, i: int) -> bool {
    &&& 0 <= i < files.len()
    &&& file_entry(input, files[i]) matches Some(Some((k, e)))
    &&& eq_ic(e, "png"@)
    &&& last_of(input, files, k, "png"@) == Some(files[i])
    &&& last_of(input, files, k, "plist"@) is None
}

/// The key of file `i`.
pub open spec fn key_at(input: Seq<char>, files: Seq<Seq<char>>, i: int) -> Seq<char> {
    match file_entry(input, files[i]) {
        Some(Some((k, _e))) => k,
        _ => Seq::empty(),
    }
}

/// The folder the game's sheet is looked up in: the prefix joined with the
/// relative folder (either alone where the other is empty).
pub open spec fn lookup_dir_spec(prefix: Seq<char>, rel: Seq<char>) -> Seq<char> {
    if prefix.len() == 0 {
        rel
    } else if rel.len() == 0 {
        prefix
    } else {
        j(prefix, rel)
    }
}

/// The files of a walk that lie under `base`.
pub open spec fn under_spec(tree: Seq<Seq<char>>, base: Seq<char>) -> Seq<Seq<char>> {
    tree.filter(|f: Seq<char>| strip_prefix_spec(f, base) is Some)
}

/// The candidate for the lone `.png` `png` with key `key`: its stem and
/// folder, the game's live `.plist` for them, and the `.png` itself.
pub open spec fn fallback_cand(
    layout: GameFilesLayout,
    facts: PathFacts,
    platform: Platform,
    prefix: Seq<char>,
    tree: Seq<Seq<char>>,
    key: Seq<char>,
    png: Seq<char>,
) -> Option<(Seq<char>, Seq<char>, Seq<char>, Seq<char>)> {
    match file_name_spec(key) {
        None => None,
        Some(stem) => {
            let rel = match parent_spec(key) {
                Some(p) => p,
                None => Seq::empty(),
            };
            let lk = lookup_dir_spec(prefix, rel);
            let src = current_source_spec(layout, lk, facts, platform);
            match locate_spec(layout, lk, stem, facts, platform, under_spec(tree, src)) {
                Some(v) => Some((stem, rel, v.2, png)),
                None => None,
            }
        },
    }
}

/// The files of `tree` under `base`, in walk order.
fn files_under(tree: &Vec<String>, base: &str) -> (r: Vec<String>)
    ensures
        strs(r@) == under_spec(strs(tree@), base@),
{
    let ghost t = strs(tree@);
    let mut out: Vec<String> = Vec::new();
    let mut i: usize = 0;
    while i < tree.len()
        invariant
            i <= tree@.len(),
            t == strs(tree@),
            strs(out@) == under_spec(t.subrange(0, i as int), base@),
        decreases tree@.len() - i,
    {
        let ghost pre = t.subrange(0, i as int);
        proof {
            assert(t.subrange(0, i + 1) =~= pre.push(t[i as int]));
            pre.lemma_filter_push(t[i as int], |f: Seq<char>| strip_prefix_spec(f, base@) is Some);
            assert(t[i as int] == tree@[i as int]@);
        }
        if strip_path_prefix(tree[i].as_str(), base).is_some() {
            out.push(tree[i].clone());
            proof {
                assert(strs(out@) =~= strs(out@).drop_last().push(tree@[i as int]@));
            }
        }
        i = i + 1;
    }
    proof {
        assert(t.subrange(0, t.len() as int) =~= t);
    }
    out
}

/// [`discover_sheet_pairs`], with each lone `.png` (see [`lone_png_at`])
/// paired with the game's live `.plist` of its stem, looked up in the
/// `vanilla_relative_prefix` joined with its folder (`source_tree_files` are
/// the files the walk of the game's textures met); the lone ones without
/// such a `.plist` are left out. Where Geometry Dash is not found, the
/// sheets as [`discover_sheet_pairs`] finds them; otherwise all of them
/// ascending by relative folder, then stem.
pub fn discover_sheet_pairs_with_game_plist_fallback_in(
    layout: &GameFilesLayout,
    facts: &PathFacts,
    platform: Platform,
    input_dir: &str,
    files: &Vec<String>,
    vanilla_relative_prefix: &str,
    source_tree_files: &Vec<String>,
) -> (r: Result<Vec<SheetCandidate>, AppError>)
    ensures
        r is Err <==> walk_fails(input_dir@, strs(files@)) || bad_key_exists(input_dir@, strs(files@)),
        walk_fails(input_dir@, strs(files@)) ==> (r matches Err(AppError::InvalidOperation(m))
            && m@ == "failed to compute relative file path"@),
        !walk_fails(input_dir@, strs(files@)) && bad_key_exists(input_dir@, strs(files@)) ==> (
        r matches Err(AppError::InvalidOperation(m)) && m@ == "invalid sheet key stem"@),
        !layout.found_spec(*facts) ==> (r matches Ok(out) ==> {
            &&& sorted_by_stem(out@)
            &&& no_dup(cand_views(out@))
            &&& forall|x: (Seq<char>, Seq<char>, Seq<char>, Seq<char>)| #[trigger]
                cand_views(out@).contains(x) <==> exists|k: Seq<char>|
                is_sheet_key(input_dir@, strs(files@), k) && x == key_cand(input_dir@, strs(files@), k)
        }),
        layout.found_spec(*facts) ==> (r matches Ok(out) ==> {
            &&& sorted_by_dir_stem(out@)
            &&& forall|x: (Seq<char>, Seq<char>, Seq<char>, Seq<char>)| #[trigger]
                cand_views(out@).contains(x) <==> ((exists|k: Seq<char>|
                is_sheet_key(input_dir@, strs(files@), k) && x == key_cand(input_dir@, strs(files@), k))
                || exists|i: int| lone_png_at(input_dir@, strs(files@), i) && fallback_cand(
                *layout,
                *facts,
                platform,
                vanilla_relative_prefix@,
                strs(source_tree_files@),
                key_at(input_dir@, strs(files@), i),
                strs(files@)[i],
            ) == Some(x))
        }),
{
    let pairs = match discover_sheet_pairs(input_dir, files) {
        Ok(p) => p,
        Err(e) => return Err(e),
    };
    if !layout.geometry_dash_found(facts) {
        return Ok(pairs);
    }
    let ghost fs = strs(files@);
    let ghost base = cand_views(pairs@);
    let ghost tree = strs(source_tree_files@);
    let ghost pfx = vanilla_relative_prefix@;
    let mut out: Vec<SheetCandidate> = Vec::new();
    let mut n: usize = 0;
    proof {
        assert(cand_views(out@).to_multiset() =~= base.subrange(0, 0).to_multiset()) by {
            assert(cand_views(out@) =~= Seq::<(Seq<char>, Seq<char>, Seq<char>, Seq<char>)>::empty());
            assert(base.subrange(0, 0) =~= Seq::<(Seq<char>, Seq<char>, Seq<char>, Seq<char>)>::empty());
        }
    }
    while n < pairs.len()
        invariant
            n <= pairs@.len(),
            base == cand_views(pairs@),
            sorted_by_dir_stem(out@),
            forall|x| #[trigger] cand_views(out@).contains(x) <==> base.subrange(0, n as int).contains(x),
        decreases pairs@.len() - n,
    {
        let ghost prev = cand_views(out@);
        insert_by_dir_stem(&mut out, pairs[n].clone());
        proof {
            let s0 = base.subrange(0, n as int);
            let s1 = base.subrange(0, n as int + 1);
            assert(s1 =~= s0.push(base[n as int]));
            assert(base[n as int] == cand_view(pairs@[n as int]));
            let pos = choose|pos: int| 0 <= pos <= prev.len() && #[trigger] cand_views(out@) == prev.insert(pos, cand_view(pairs@[n as int]));
            assert forall|x| #[trigger] cand_views(out@).contains(x) <==> s1.contains(x) by {
                if cand_views(out@).contains(x) {
                    let t = choose|t: int| 0 <= t < cand_views(out@).len() && cand_views(out@)[t] == x;
                    if t < pos {
                        assert(prev[t] == x);
                        assert(prev.contains(x));
                        let u = choose|u: int| 0 <= u < s0.len() && s0[u] == x;
                        assert(s1[u] == x);
                    } else if t == pos {
                        assert(s1[n as int] == x);
                    } else {
                        assert(prev[t - 1] == x);
                        assert(prev.contains(x));
                        let u = choose|u: int| 0 <= u < s0.len() && s0[u] == x;
                        assert(s1[u] == x);
                    }
                }
                if s1.contains(x) {
                    let u = choose|u: int| 0 <= u < s1.len() && s1[u] == x;
                    if u == n {
                        assert(cand_views(out@)[pos] == x);
                    } else {
                        assert(s0[u] == x);
                        assert(prev.contains(x));
                        let t = choose|t: int| 0 <= t < prev.len() && prev[t] == x;
                        if t < pos {
                            assert(cand_views(out@)[t] == x);
                        } else {
                            assert(cand_views(out@)[t + 1] == x);
                        }
                    }
                }
            }
        }
        n = n + 1;
    }
    proof {
        assert(base.subrange(0, base.len() as int) =~= base);
    }
    let mut i: usize = 0;
    while i < files.len()
        invariant
            i <= files@.len(),
            fs == strs(files@),
            base == cand_views(pairs@),
            tree == strs(source_tree_files@),
            pfx == vanilla_relative_prefix@,
            sorted_by_dir_stem(out@),
            forall|x| #[trigger] cand_views(out@).contains(x) <==> (base.contains(x) || exists|t: int|
                0 <= t < i && lone_png_at(input_dir@, fs, t) && fallback_cand(*layout, *facts, platform, pfx, tree, key_at(input_dir@, fs, t), fs[t]) == Some(x)),
        decreases files@.len() - i,
    {
        let ghost prev = cand_views(out@);
        let ghost fc = fallback_cand(*layout, *facts, platform, pfx, tree, key_at(input_dir@, fs, i as int), fs[i as int]);
        let ghost ok_i = lone_png_at(input_dir@, fs, i as int) && fc is Some;
        let mut added: Option<SheetCandidate> = None;
        proof {
            assert(fs[i as int] == files@[i as int]@);
        }
        match classify_file(input_dir, files[i].as_str()) {
            Some(Some((k, e))) => {
                let ec = chars_of(e.as_str());
                proof {
                    assert(key_at(input_dir@, fs, i as int) == k@);
                }
                if eq_ignore_case_str(ec.as_slice(), "png") {
                    let last_png = last_of_exec(input_dir, files, k.as_str(), "png");
                    let last_plist = last_of_exec(input_dir, files, k.as_str(), "plist");
                    let is_last = match &last_png {
                        Some(p) => str_eq(p.as_str(), files[i].as_str()),
                        None => false,
                    };
                    proof {
                        assert(lone_png_at(input_dir@, fs, i as int) == (is_last && last_plist.is_none()));
                    }
                    if is_last && last_plist.is_none() {
                        match file_name_of(k.as_str()) {
                            Some(stem) => {
                                let rel = match parent_of(k.as_str()) {
                                    Some(p) => p,
                                    None => String::new(),
                                };
                                let pc = chars_of(vanilla_relative_prefix);
                                let rc = chars_of(rel.as_str());
                                let lk = if pc.len() == 0 {
                                    rel.clone()
                                } else if rc.len() == 0 {
                                    vanilla_relative_prefix.to_string()
                                } else {
                                    join_path(vanilla_relative_prefix, rel.as_str())
                                };
                                proof {
                                    assert(lk@ == lookup_dir_spec(pfx, rel@));
                                }
                                let src = resolve_current_source_dir(layout, lk.as_str(), facts, platform);
                                let under = files_under(source_tree_files, src.as_str());
                                match find_current_sheet_for_input(layout, lk.as_str(), stem.as_str(), facts, platform, &under) {
                                    Some(v) => {
                                        let c = SheetCandidate {
                                            stem,
                                            relative_dir: rel,
                                            plist_path: v.plist_path,
                                            png_path: files[i].clone(),
                                        };
                                        proof {
                                            assert(fc == Some(cand_view(c)));
                                        }
                                        added = Some(c);
                                    },
                                    None => {
                                        proof {
                                            assert(fc is None);
                                        }
                                    },
                                }
                            },
                            None => {
                                proof {
                                    assert(fc is None);
                                }
                            },
                        }
                    }
                } else {
                    proof {
                        assert(!lone_png_at(input_dir@, fs, i as int));
                    }
                }
            },
            _ => {
                proof {
                    assert(!lone_png_at(input_dir@, fs, i as int));
                }
            },
        }
        proof {
            assert(added is Some == ok_i);
            assert(added matches Some(c) ==> fc == Some(cand_view(c)));
        }
        match added {
            Some(c) => {
                let ghost cv = cand_view(c);
                insert_by_dir_stem(&mut out, c);
                proof {
                    let pos = choose|pos: int| 0 <= pos <= prev.len() && #[trigger] cand_views(out@) == prev.insert(pos, cv);
                    assert forall|x| #[trigger] cand_views(out@).contains(x) <==> (prev.contains(x) || x == cv) by {
                        if cand_views(out@).contains(x) {
                            let t = choose|t: int| 0 <= t < cand_views(out@).len() && cand_views(out@)[t] == x;
                            if t < pos {
                                assert(prev[t] == x);
                            } else if t > pos {
                                assert(prev[t - 1] == x);
                            }
                        }
                        if prev.contains(x) {
                            let t = choose|t: int| 0 <= t < prev.len() && prev[t] == x;
                            if t < pos {
                                assert(cand_views(out@)[t] == x);
                            } else {
                                assert(cand_views(out@)[t + 1] == x);
                            }
                        }
                        if x == cv {
                            assert(cand_views(out@)[pos] == x);
                        }
                    }
                }
            },
            None => {},
        }
        proof {
            assert forall|x| #[trigger] cand_views(out@).contains(x) <==> (base.contains(x) || exists|t: int|
                0 <= t < i + 1 && lone_png_at(input_dir@, fs, t) && fallback_cand(*layout, *facts, platform, pfx, tree, key_at(input_dir@, fs, t), fs[t]) == Some(x)) by {
                if exists|t: int| 0 <= t < i + 1 && lone_png_at(input_dir@, fs, t) && fallback_cand(*layout, *facts, platform, pfx, tree, key_at(input_dir@, fs, t), fs[t]) == Some(x) {
                    let t = choose|t: int| 0 <= t < i + 1 && lone_png_at(input_dir@, fs, t) && fallback_cand(*layout, *facts, platform, pfx, tree, key_at(input_dir@, fs, t), fs[t]) == Some(x);
                    if t < i {
                        assert(prev.contains(x));
                    }
                }
            }
        }
        i = i + 1;
    }
    Ok(out)
}

/// [`discover_sheet_pairs_with_game_plist_fallback_in`] with the game's
/// sheets looked up in the input's own relative folders.
pub fn discover_sheet_pairs_with_game_plist_fallback(
    layout: &GameFilesLayout,
    facts: &PathFacts,
    platform: Platform,
    input_dir: &str,
    files: &Vec<String>,
    source_tree_files: &Vec<String>,
) -> (r: Result<Vec<SheetCandidate>, AppError>)
    ensures
        r is Err <==> walk_fails(input_dir@, strs(files@)) || bad_key_exists(input_dir@, strs(files@)),
        walk_fails(input_dir@, strs(files@)) ==> (r matches Err(AppError::InvalidOperation(m))
            && m@ == "failed to compute relative file path"@),
        !walk_fails(input_dir@, strs(files@)) && bad_key_exists(input_dir@, strs(files@)) ==> (
        r matches Err(AppError::InvalidOperation(m)) && m@ == "invalid sheet key stem"@),
        !layout.found_spec(*facts) ==> (r matches Ok(out) ==> {
            &&& sorted_by_stem(out@)
            &&& no_dup(cand_views(out@))
            &&& forall|x: (Seq<char>, Seq<char>, Seq<char>, Seq<char>)| #[trigger]
                cand_views(out@).contains(x) <==> exists|k: Seq<char>|
                is_sheet_key(input_dir@, strs(files@), k) && x == key_cand(input_dir@, strs(files@), k)
        }),
        layout.found_spec(*facts) ==> (r matches Ok(out) ==> {
            &&& sorted_by_dir_stem(out@)
            &&& forall|x: (Seq<char>, Seq<char>, Seq<char>, Seq<char>)| #[trigger]
                cand_views(out@).contains(x) <==> ((exists|k: Seq<char>|
                is_sheet_key(input_dir@, strs(files@), k) && x == key_cand(input_dir@, strs(files@), k))
                || exists|i: int| lone_png_at(input_dir@, strs(files@), i) && fallback_cand(
                *layout,
                *facts,
                platform,
                Seq::empty(),
                strs(source_tree_files@),
                key_at(input_dir@, strs(files@), i),
                strs(files@)[i],
            ) == Some(x))
        }),
{
    proof {
        reveal_strlit("");
    }
    discover_sheet_pairs_with_game_plist_fallback_in(layout, facts, platform, input_dir, files, "", source_tree_files)
}

} // verus!
