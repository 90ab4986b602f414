//! Where the Geode launcher keeps the game and the saves on Android storage.

use vstd::prelude::*;
use crate::facts::{list_contains, PathFacts};
use crate::game_files::{j, looks_like_geode_dir, looks_like_geode_spec};
use crate::order::strs;
use crate::paths::{join_path, lemma_strs_push, opt_str, parent_of, parent_spec};
use crate::text::{string_from_chars, trim, trim_str};

verus! {

/// `roots` with `path` added at the end, unless it is empty or already there.
pub open spec fn push_unique_spec(roots: Seq<Seq<char>>, path: Seq<char>) -> Seq<Seq<char>> {
    if path.len() == 0 || roots.contains(path) {
        roots
    } else {
        roots.push(path)
    }
}

/// Adds `path` at the end of `roots`, unless it is empty or already there.
pub fn push_unique(roots: &mut Vec<String>, path: String)
    ensures
        strs(final(roots)@) == push_unique_spec(strs(old(roots)@), path@),
{
    if path.as_str().unicode_len() == 0 {
        return;
    }
    if !list_contains(roots, path.as_str()) {
        proof {
            lemma_strs_push(roots@, path);
        }
        roots.push(path);
    }
}

/// The storage roots searched: `$EXTERNAL_STORAGE` (trimmed, when set),
/// `/storage/emulated/0` and `/sdcard`, without repeats.
pub open spec fn storage_roots_spec(external_storage: Option<Seq<char>>) -> Seq<Seq<char>> {
    let start = match external_storage {
        Some(e) => push_unique_spec(Seq::empty(), trim(e)),
        None => Seq::empty(),
    };
    push_unique_spec(push_unique_spec(start, "/storage/emulated/0"@), "/sdcard"@)
}

/// The storage roots searched, given `$EXTERNAL_STORAGE` when it is set.
pub fn android_geode_internal_storage_roots(external_storage: Option<String>) -> (out: Vec<String>)
    ensures
        strs(out@) == storage_roots_spec(opt_str(external_storage)),
{
    let mut roots: Vec<String> = Vec::new();
    proof {
        assert(strs(roots@) =~= Seq::<Seq<char>>::empty());
    }
    match external_storage {
        Some(e) => {
            let t = trim_str(e.as_str());
            push_unique(&mut roots, string_from_chars(t.as_slice()));
        },
        None => {},
    }
    push_unique(&mut roots, "/storage/emulated/0".to_string());
    push_unique(&mut roots, "/sdcard".to_string());
    roots
}

/// The Geode launcher package ids.
pub open spec fn package_ids() -> Seq<Seq<char>> {
    seq!["com.geode.launcher"@, "com.geode.launcher.play"@]
}

/// `{root}/Android/media/{package}`.
pub open spec fn media_dir(root: Seq<char>, package: Seq<char>) -> Seq<char> {
    j(j(j(root, "Android"@), "media"@), package)
}

/// For each root and each package, `tail(media dir)`, without repeats.
pub open spec fn per_package(roots: Seq<Seq<char>>, save: bool) -> Seq<Seq<char>>
    decreases roots.len(),
{
    if roots.len() == 0 {
        Seq::empty()
    } else {
        let prev = per_package(roots.drop_last(), save);
        let r = roots.last();
        let a = if save {
            j(media_dir(r, package_ids()[0]), "save"@)
        } else {
            j(j(media_dir(r, package_ids()[0]), "game"@), "geode"@)
        };
        let b = if save {
            j(media_dir(r, package_ids()[1]), "save"@)
        } else {
            j(j(media_dir(r, package_ids()[1]), "game"@), "geode"@)
        };
        push_unique_spec(push_unique_spec(prev, a), b)
    }
}

fn media_dir_exec(root: &str, package: &str) -> (r: String)
    ensures
        r@ == media_dir(root@, package@),
{
    let a = join_path(root, "Android");
    let b = join_path(a.as_str(), "media");
    join_path(b.as_str(), package)
}

fn candidates(roots: &Vec<String>, save: bool) -> (out: Vec<String>)
    ensures
        strs(out@) == per_package(strs(roots@), save),
{
    let ghost rs = strs(roots@);
    let mut out: Vec<String> = Vec::new();
    let mut i: usize = 0;
    proof {
        assert(rs.subrange(0, 0) =~= Seq::<Seq<char>>::empty());
        assert(strs(out@) =~= Seq::<Seq<char>>::empty());
    }
    while i < roots.len()
        invariant
            i <= roots.len(),
            rs == strs(roots@),
            strs(out@) == per_package(rs.subrange(0, i as int), save),
        decreases roots.len() - i,
    {
        proof {
            assert(rs.subrange(0, i as int + 1).drop_last() =~= rs.subrange(0, i as int));
            assert(rs.subrange(0, i as int + 1).last() == roots@[i as int]@);
            reveal_strlit("com.geode.launcher");
            reveal_strlit("com.geode.launcher.play");
        }
        let root = roots[i].as_str();
        let m1 = media_dir_exec(root, "com.geode.launcher");
        let m2 = media_dir_exec(root, "com.geode.launcher.play");
        if save {
            push_unique(&mut out, join_path(m1.as_str(), "save"));
            push_unique(&mut out, join_path(m2.as_str(), "save"));
        } else {
            let g1 = join_path(m1.as_str(), "game");
            push_unique(&mut out, join_path(g1.as_str(), "geode"));
            let g2 = join_path(m2.as_str(), "game");
            push_unique(&mut out, join_path(g2.as_str(), "geode"));
        }
        i = i + 1;
    }
    proof {
        assert(rs.subrange(0, rs.len() as int) =~= rs);
    }
    out
}

/// The launcher save folders (`…/Android/media/{package}/save`) under each
/// storage root, without repeats.
pub fn android_geode_save_dir_candidates(roots: &Vec<String>) -> (out: Vec<String>)
    ensures
        strs(out@) == per_package(strs(roots@), true),
{
    candidates(roots, true)
}

/// The Geode folders (`…/Android/media/{package}/game/geode`) under each
/// storage root, without repeats.
pub fn android_geode_media_candidates(roots: &Vec<String>) -> (out: Vec<String>)
    ensures
        strs(out@) == per_package(strs(roots@), false),
{
    candidates(roots, false)
}

/// A Geode folder candidate whose `game` parent is the install: the folder is
/// a directory (which covers looking like a Geode folder) and the media tree
/// under its parent is readable.
pub open spec fn android_game_ok(facts: PathFacts, geode: Seq<char>) -> bool {
    parent_spec(geode) is Some && ((looks_like_geode_spec(facts, geode) && facts.readable_game(
        parent_spec(geode)->0,
    )) || (facts.has_dir(geode) && facts.readable_game(parent_spec(geode)->0)))
}

/// The `game` folder of the first Geode folder candidate that is usable.
pub open spec fn detect_android_spec(facts: PathFacts, cands: Seq<Seq<char>>) -> Option<Seq<char>>
    decreases cands.len(),
{
    if cands.len() == 0 {
        None
    } else if android_game_ok(facts, cands[0]) {
        Some(parent_spec(cands[0])->0)
    } else {
        detect_android_spec(facts, cands.drop_first())
    }
}

/// The Geometry Dash `game` folder (the parent of `geode/`) on Android storage.
pub fn detect_android_geometry_dash_dir(facts: &PathFacts, geode_candidates: &Vec<String>) -> (r:
    Option<String>)
    ensures
        opt_str(r) == detect_android_spec(*facts, strs(geode_candidates@)),
{
    let ghost cs = strs(geode_candidates@);
    let mut i: usize = 0;
    proof {
        assert(cs.subrange(0, cs.len() as int) =~= cs);
    }
    while i < geode_candidates.len()
        invariant
            i <= geode_candidates.len(),
            cs == strs(geode_candidates@),
            detect_android_spec(*facts, cs) == detect_android_spec(
                *facts,
                cs.subrange(i as int, cs.len() as int),
            ),
        decreases geode_candidates.len() - i,
    {
        let geode = geode_candidates[i].as_str();
        proof {
            let rest = cs.subrange(i as int, cs.len() as int);
            assert(rest[0] == geode@);
            assert(rest.drop_first() =~= cs.subrange(i + 1, cs.len() as int));
        }
        if looks_like_geode_dir(facts, geode) {
            if let Some(game) = parent_of(geode) {
                if facts.game_storage_readable(game.as_str()) {
                    return Some(game);
                }
            }
        }
        if let Some(game) = parent_of(geode) {
            if facts.is_dir(geode) && facts.game_storage_readable(game.as_str()) {
                return Some(game);
            }
        }
        i = i + 1;
    }
    None
}

/// What was seen at one Geode folder candidate.
#[derive(Debug, Clone)]
pub struct AndroidGeodePathProbe {
    pub path: String,
    pub exists: bool,
    pub is_dir: bool,
    pub looks_like_geode: bool,
}

/// What was seen at each Geode folder candidate, in order.
pub fn probe_android_geode_paths(facts: &PathFacts, geode_candidates: &Vec<String>) -> (out: Vec<
    AndroidGeodePathProbe,
>)
    ensures
        out@.len() == geode_candidates@.len(),
        forall|k: int|
            0 <= k < out@.len() ==> {
                let p = geode_candidates@[k]@;
                &&& (#[trigger] out@[k]).path@ == p
                &&& out@[k].exists == facts.has_path(p)
                &&& out@[k].is_dir == facts.has_dir(p)
                &&& out@[k].looks_like_geode == looks_like_geode_spec(*facts, p)
            },
{
    let mut out: Vec<AndroidGeodePathProbe> = Vec::new();
    let mut i: usize = 0;
    while i < geode_candidates.len()
        invariant
            i <= geode_candidates.len(),
            out@.len() == i,
            forall|k: int|
                0 <= k < i ==> {
                    let p = geode_candidates@[k]@;
                    &&& (#[trigger] out@[k]).path@ == p
                    &&& out@[k].exists == facts.has_path(p)
                    &&& out@[k].is_dir == facts.has_dir(p)
                    &&& out@[k].looks_like_geode == looks_like_geode_spec(*facts, p)
                },
        decreases geode_candidates.len() - i,
    {
        let p = geode_candidates[i].as_str();
        out.push(
            AndroidGeodePathProbe {
                exists: facts.path_exists(p),
                is_dir: facts.is_dir(p),
                looks_like_geode: looks_like_geode_dir(facts, p),
                path: geode_candidates[i].clone(),
            },
        );
        i = i + 1;
    }
    out
}

} // verus!
