//! The property-list side of merging a folder of sprites back into a sheet:
//! which frames are packed, in which order, and what is reported about the
//! others; and what the sheet's list records of the packed atlas.
//!
//! The caller loads and trims the sprites, takes the square root for the
//! atlas width, and draws and writes the atlas.

use vstd::prelude::*;
use crate::errors::AppError;
use crate::merger::{pack_sprites_maxrects, packable, packed_as, total_slot_height, PackPlacement, INITIAL_FREE_HEIGHT};
use crate::order::{lemma_lex_asymmetric, lemma_lex_irreflexive, lemma_lex_total, lemma_lex_transitive, lex_lt, sort_strings, strs};
use crate::plist_tree::{
    entry_shapes, find_entry, key_index, lemma_entry_shapes_all, lemma_key_index, shape_of, PlistNode,
    PlistShape,
};
use crate::report::{issues_view, ReportIssue, ReportLevel};
use crate::text::{chars_eq, chars_of, concat_chars, concat_str, decimal_chars, decimal_chars_exec, string_from_chars};
use crate::icon_editor::{format_texture_rect, texture_rect_text, IconEditorRect};
use crate::plist_tree::{put_entry, put_entry_exec};

verus! {

/// The entries of the `frames` dictionary of a sheet's list: the value under
/// the root's `frames` key, where the root and that value are dictionaries.
pub open spec fn frames_dict(root: PlistShape) -> Option<Seq<(Seq<char>, PlistShape)>> {
    match root {
        PlistShape::Dict(es) => {
            let j = key_index(es, "frames"@);
            if j >= 0 {
                match es[j].1 {
                    PlistShape::Dict(fs) => Some(fs),
                    _ => None,
                }
            } else {
                None
            }
        },
        _ => None,
    }
}

/// The order of names `String`'s `<=` gives.
pub open spec fn name_leq() -> spec_fn(Seq<char>, Seq<char>) -> bool {
    |a: Seq<char>, b: Seq<char>| !lex_lt(b, a)
}

/// The names of the frames, sorted.
pub open spec fn frame_order(fs: Seq<(Seq<char>, PlistShape)>) -> Seq<Seq<char>> {
    fs.map_values(|e: (Seq<char>, PlistShape)| e.0).sort_by(name_leq())
}

/// The size of the first sprite listed under `name`.
pub open spec fn sprite_size(sprites: Seq<(Seq<char>, u32, u32)>, name: Seq<char>) -> Option<(u32, u32)>
    decreases sprites.len(),
{
    if sprites.len() == 0 {
        None
    } else if sprites[0].0 == name {
        Some((sprites[0].1, sprites[0].2))
    } else {
        sprite_size(sprites.drop_first(), name)
    }
}

/// The sprites as plain values.
pub open spec fn sprite_views(sprites: Seq<(String, u32, u32)>) -> Seq<(Seq<char>, u32, u32)> {
    sprites.map_values(|t: (String, u32, u32)| (t.0@, t.1, t.2))
}

/// At least 1.
pub open spec fn at_least_one(v: u32) -> u32 {
    if v > 1 {
        v
    } else {
        1
    }
}

/// What merging does with the frame `name`: the slot to pack (the sprite's
/// size, each side at least 1) where its entry is a dictionary and a sprite
/// was loaded for it; else the warning it reports.
pub open spec fn frame_outcome(
    fs: Seq<(Seq<char>, PlistShape)>,
    sprites: Seq<(Seq<char>, u32, u32)>,
    name: Seq<char>,
) -> Result<(Seq<char>, u32, u32), Seq<char>> {
    if !(fs[key_index(fs, name)].1 is Dict) {
        Err("frame entry is not a dictionary; skipping"@)
    } else {
        match sprite_size(sprites, name) {
            None => Err("sprite file not found; skipping"@),
            Some((w, h)) => Ok((name, at_least_one(w), at_least_one(h))),
        }
    }
}

/// The slots of the first `k` names of `order`, in that order.
pub open spec fn planned_slots(
    fs: Seq<(Seq<char>, PlistShape)>,
    sprites: Seq<(Seq<char>, u32, u32)>,
    order: Seq<Seq<char>>,
    k: int,
) -> Seq<(Seq<char>, u32, u32)>
    decreases k,
{
    if k <= 0 || k > order.len() {
        seq![]
    } else {
        let p = planned_slots(fs, sprites, order, k - 1);
        match frame_outcome(fs, sprites, order[k - 1]) {
            Ok(x) => p.push(x),
            Err(_) => p,
        }
    }
}

/// The warnings about the first `k` names of `order`, in that order.
pub open spec fn planned_issues(
    fs: Seq<(Seq<char>, PlistShape)>,
    sprites: Seq<(Seq<char>, u32, u32)>,
    order: Seq<Seq<char>>,
    k: int,
) -> Seq<(ReportLevel, Seq<char>, Option<Seq<char>>)>
    decreases k,
{
    if k <= 0 || k > order.len() {
        seq![]
    } else {
        let p = planned_issues(fs, sprites, order, k - 1);
        match frame_outcome(fs, sprites, order[k - 1]) {
            Ok(_) => p,
            Err(m) => p.push((ReportLevel::Warning, m, Some(order[k - 1]))),
        }
    }
}

/// A placement as its name and size.
pub open spec fn slot_view(p: PackPlacement) -> (Seq<char>, u32, u32) {
    (p.name@, p.width, p.height)
}

/// `String`'s `<=` is a total order.
pub proof fn lemma_name_leq_total()
    ensures
        vstd::relations::total_ordering(name_leq()),
{
    assert forall|a: Seq<char>| #[trigger] (name_leq())(a, a) by {
        lemma_lex_irreflexive(a);
    }
    assert forall|a: Seq<char>, b: Seq<char>| #[trigger] (name_leq())(a, b) && #[trigger] (name_leq())(b, a) implies a == b by {
        lemma_lex_total(a, b);
    }
    assert forall|a: Seq<char>, b: Seq<char>, c: Seq<char>| #[trigger] (name_leq())(a, b) && #[trigger] (name_leq())(b, c) implies (name_leq())(a, c) by {
        lemma_lex_total(a, b);
        lemma_lex_transitive(c, a, b);
    }
    assert forall|a: Seq<char>, b: Seq<char>| #[trigger] (name_leq())(a, b) || #[trigger] (name_leq())(b, a) by {
        lemma_lex_asymmetric(a, b);
    }
}

/// The first sprite listed under `name`.
fn find_sprite(sprites: &Vec<(String, u32, u32)>, name: &str) -> (r: Option<(u32, u32)>)
    ensures
        r == sprite_size(sprite_views(sprites@), name@),
{
    let ghost sv = sprite_views(sprites@);
    let nc = chars_of(name);
    let mut i: usize = 0;
    proof {
        assert(sv.subrange(0, sv.len() as int) =~= sv);
    }
    while i < sprites.len()
        invariant
            i <= sprites@.len(),
            sv == sprite_views(sprites@),
            nc@ == name@,
            sprite_size(sv, name@) == sprite_size(sv.subrange(i as int, sv.len() as int), name@),
        decreases sprites@.len() - i,
    {
        let sc = chars_of(sprites[i].0.as_str());
        let ghost rest = sv.subrange(i as int, sv.len() as int);
        proof {
            assert(rest[0] == sv[i as int]);
        }
        if chars_eq(sc.as_slice(), nc.as_slice()) {
            return Some((sprites[i].1, sprites[i].2));
        }
        proof {
            assert(rest.drop_first() =~= sv.subrange(i + 1, sv.len() as int));
        }
        i = i + 1;
    }
    None
}

/// The frames of a sheet's list to merge, and the warnings about the rest:
/// the frames are taken in name order; a frame whose entry is not a
/// dictionary, or for which no sprite was loaded (`sprites` holds the name,
/// width and height of each loaded sprite), is reported and left out; the
/// others become slots to pack, each side at least 1. Fails where the root
/// is not a dictionary or has no `frames` dictionary.
pub fn plan_merged_frames(root: &PlistNode, sprites: &Vec<(String, u32, u32)>) -> (r: Result<
    (Vec<PackPlacement>, Vec<ReportIssue>),
    AppError,
>)
    ensures
        match frames_dict(shape_of(*root)) {
            None => if root is Dict {
                r matches Err(AppError::ParseError(m)) && m@ == "plist missing top-level `frames` dictionary"@
            } else {
                r matches Err(AppError::ParseError(m)) && m@ == "plist root must be a dictionary"@
            },
            Some(fs) => r matches Ok((ps, is)) && {
                let order = frame_order(fs);
                let sv = sprite_views(sprites@);
                &&& ps@.map_values(|p: PackPlacement| slot_view(p)) == planned_slots(fs, sv, order, order.len() as int)
                &&& forall|t: int| 0 <= t < ps@.len() ==> #[trigger] ps@[t].x == 0 && ps@[t].y == 0
                &&& issues_view(is@) == planned_issues(fs, sv, order, order.len() as int)
            },
        },
{
    let es = match root {
        PlistNode::Dict(es) => es,
        _ => return Err(AppError::ParseError("plist root must be a dictionary".to_string())),
    };
    let ghost ess = entry_shapes(es@, es@.len() as int);
    proof {
        lemma_entry_shapes_all(es@);
        lemma_key_index(ess, "frames"@);
    }
    let fi = match find_entry(es, "frames") {
        Some(j) => j,
        None => return Err(AppError::ParseError("plist missing top-level `frames` dictionary".to_string())),
    };
    proof {
        assert(ess[fi as int] == (es@[fi as int].0@, shape_of(es@[fi as int].1)));
    }
    let frames = match &es[fi].1 {
        PlistNode::Dict(f) => f,
        _ => return Err(AppError::ParseError("plist missing top-level `frames` dictionary".to_string())),
    };
    let ghost fs = entry_shapes(frames@, frames@.len() as int);
    proof {
        assert(ess[fi as int] == (es@[fi as int].0@, shape_of(es@[fi as int].1)));
        lemma_entry_shapes_all(frames@);
        assert(frames_dict(shape_of(*root)) == Some(fs));
    }
    let mut keys: Vec<String> = Vec::new();
    let mut k: usize = 0;
    while k < frames.len()
        invariant
            k <= frames@.len(),
            keys@.len() == k,
            fs == entry_shapes(frames@, frames@.len() as int),
            fs.len() == frames@.len(),
            forall|t: int| 0 <= t < frames@.len() ==> #[trigger] fs[t] == (frames@[t].0@, shape_of(frames@[t].1)),
            forall|t: int| 0 <= t < k ==> #[trigger] keys@[t]@ == fs[t].0,
        decreases frames@.len() - k,
    {
        keys.push(frames[k].0.clone());
        k = k + 1;
    }
    let ghost names = fs.map_values(|e: (Seq<char>, PlistShape)| e.0);
    proof {
        assert(strs(keys@) =~= names);
    }
    let order = sort_strings(keys);
    proof {
        lemma_name_leq_total();
        names.lemma_sort_by_ensures(name_leq());
        assert(vstd::relations::sorted_by(strs(order@), name_leq())) by {
            assert forall|a: int, b: int| 0 <= a < b < strs(order@).len() implies #[trigger] (name_leq())(strs(order@)[a], strs(order@)[b]) by {
                assert(!lex_lt(strs(order@)[b], strs(order@)[a]));
            }
        }
        vstd::seq_lib::lemma_sorted_unique(strs(order@), names.sort_by(name_leq()), name_leq());
        assert(strs(order@) == frame_order(fs));
    }
    let ghost ord = frame_order(fs);
    let ghost sv = sprite_views(sprites@);
    let mut placements: Vec<PackPlacement> = Vec::new();
    let mut issues: Vec<ReportIssue> = Vec::new();
    let mut i: usize = 0;
    while i < order.len()
        invariant
            i <= order@.len(),
            strs(order@) == ord,
            ord == frame_order(fs),
            names == fs.map_values(|e: (Seq<char>, PlistShape)| e.0),
            ord == names.sort_by(name_leq()),
            vstd::relations::total_ordering(name_leq()),
            sv == sprite_views(sprites@),
            fs == entry_shapes(frames@, frames@.len() as int),
            fs.len() == frames@.len(),
            forall|t: int| 0 <= t < frames@.len() ==> #[trigger] fs[t] == (frames@[t].0@, shape_of(frames@[t].1)),
            placements@.map_values(|p: PackPlacement| slot_view(p)) == planned_slots(fs, sv, ord, i as int),
            forall|t: int| 0 <= t < placements@.len() ==> #[trigger] placements@[t].x == 0 && placements@[t].y == 0,
            issues_view(issues@) == planned_issues(fs, sv, ord, i as int),
        decreases order@.len() - i,
    {
        let name = &order[i];
        let ghost n = ord[i as int];
        proof {
            assert(strs(order@)[i as int] == name@);
        }
        let j = match find_entry(frames, name.as_str()) {
            Some(j) => j,
            None => {
                proof {
                    names.lemma_sort_by_ensures(name_leq());
                    assert(ord[i as int] == n);
                    assert(ord.contains(n));
                    assert(names.contains(n));
                    let t = choose|t: int| 0 <= t < names.len() && names[t] == n;
                    assert(names[t] == fs[t].0);
                    lemma_key_index(fs, n);
                    assert(fs[t].0 == n);
                }
                return Err(AppError::ParseError("plist missing top-level `frames` dictionary".to_string()));
            },
        };
        proof {
            lemma_key_index(fs, n);
        }
        let is_dict = match &frames[j].1 {
            PlistNode::Dict(_) => true,
            _ => false,
        };
        let ghost before_p = placements@.map_values(|p: PackPlacement| slot_view(p));
        let ghost before_i = issues_view(issues@);
        let ghost prev_p = placements@;
        let ghost prev_i = issues@;
        if !is_dict {
            issues.push(
                ReportIssue {
                    level: ReportLevel::Warning,
                    message: "frame entry is not a dictionary; skipping".to_string(),
                    file: Some(name.clone()),
                },
            );
        } else {
            match find_sprite(sprites, name.as_str()) {
                None => {
                    issues.push(
                        ReportIssue {
                            level: ReportLevel::Warning,
                            message: "sprite file not found; skipping".to_string(),
                            file: Some(name.clone()),
                        },
                    );
                },
                Some((w, h)) => {
                    let width = if w > 1 { w } else { 1 };
                    let height = if h > 1 { h } else { 1 };
                    placements.push(PackPlacement { name: name.clone(), width, height, x: 0, y: 0 });
                },
            }
        }
        proof {
            assert(ord.subrange(0, i as int + 1).len() == i + 1);
            if placements@.len() > prev_p.len() {
                assert(placements@.map_values(|p: PackPlacement| slot_view(p)) =~= before_p.push(slot_view(placements@[prev_p.len() as int])));
            } else {
                assert(placements@.map_values(|p: PackPlacement| slot_view(p)) =~= before_p);
            }
            if issues@.len() > prev_i.len() {
                assert(issues_view(issues@) =~= before_i.push(crate::report::issue_view(issues@[prev_i.len() as int])));
            } else {
                assert(issues_view(issues@) =~= before_i);
            }
        }
        i = i + 1;
    }
    Ok((placements, issues))
}

/// The `{w,h}` text of a size.
pub open spec fn size_text(w: u32, h: u32) -> Seq<char> {
    "{"@ + decimal_chars(w as nat) + ","@ + decimal_chars(h as nat) + "}"@
}

/// The `{w,h}` text of a size.
pub fn format_size(w: u32, h: u32) -> (r: String)
    ensures
        r@ == size_text(w, h),
{
    let a = chars_of("{");
    let b = concat_chars(a.as_slice(), decimal_chars_exec(w as u64).as_slice());
    let c = concat_str(b.as_slice(), ",");
    let d = concat_chars(c.as_slice(), decimal_chars_exec(h as u64).as_slice());
    let e = concat_str(d.as_slice(), "}");
    string_from_chars(e.as_slice())
}

/// The first placement named `name`.
pub open spec fn placement_named(ps: Seq<PackPlacement>, name: Seq<char>) -> Option<PackPlacement>
    decreases ps.len(),
{
    if ps.len() == 0 {
        None
    } else if ps[0].name@ == name {
        Some(ps[0])
    } else {
        placement_named(ps.drop_first(), name)
    }
}

/// A frame's entries once it is packed at `p`: not rotated, its sprite and
/// source size the slot's size, its texture rectangle where it was packed.
pub open spec fn packed_frame(fd: Seq<(Seq<char>, PlistShape)>, p: PackPlacement) -> Seq<(Seq<char>, PlistShape)> {
    let size = PlistShape::Text(size_text(p.width, p.height));
    let rect = PlistShape::Text(texture_rect_text(IconEditorRect { x: p.x, y: p.y, width: p.width, height: p.height }));
    put_entry(
        put_entry(put_entry(put_entry(fd, "textureRotated"@, PlistShape::Bool(false)), "spriteSize"@, size), "spriteSourceSize"@, size),
        "textureRect"@,
        rect,
    )
}

/// Entry `j` of the frames dictionary after packing: a dictionary that is
/// the first entry under its name, with a placement of that name, records
/// it; every other entry stays.
pub open spec fn merged_frame(fs: Seq<(Seq<char>, PlistShape)>, ps: Seq<PackPlacement>, j: int) -> (Seq<char>, PlistShape) {
    match placement_named(ps, fs[j].0) {
        Some(p) => match fs[j].1 {
            PlistShape::Dict(fd) => if j == key_index(fs, fs[j].0) {
                (fs[j].0, PlistShape::Dict(packed_frame(fd, p)))
            } else {
                fs[j]
            },
            _ => fs[j],
        },
        None => fs[j],
    }
}

/// The root's entries with the `metadata` dictionary (added empty at the
/// end where there is none) recording the atlas size; `None` where the
/// `metadata` entry is not a dictionary.
pub open spec fn with_atlas_size(es: Seq<(Seq<char>, PlistShape)>, w: u32, h: u32) -> Option<Seq<(Seq<char>, PlistShape)>> {
    let es1 = if key_index(es, "metadata"@) >= 0 {
        es
    } else {
        es.push(("metadata"@, PlistShape::Dict(seq![])))
    };
    let m = key_index(es1, "metadata"@);
    match es1[m].1 {
        PlistShape::Dict(md) => Some(es1.update(m, ("metadata"@, PlistShape::Dict(put_entry(md, "size"@, PlistShape::Text(size_text(w, h))))))),
        _ => None,
    }
}

/// The root's entries after packing (see [`merged_frame`] and
/// [`with_atlas_size`]), for a root with a `frames` dictionary.
pub open spec fn merged_root(es: Seq<(Seq<char>, PlistShape)>, ps: Seq<PackPlacement>, w: u32, h: u32) -> Option<Seq<(Seq<char>, PlistShape)>> {
    let f = key_index(es, "frames"@);
    match es[f].1 {
        PlistShape::Dict(fs) => with_atlas_size(
            es.update(f, ("frames"@, PlistShape::Dict(Seq::new(fs.len(), |j: int| merged_frame(fs, ps, j))))),
            at_least_one(w),
            at_least_one(h),
        ),
        _ => None,
    }
}

/// The first placement named `name`.
fn find_placement(ps: &Vec<PackPlacement>, name: &str) -> (r: Option<usize>)
    ensures
        match r {
            Some(t) => t < ps@.len() && placement_named(ps@, name@) == Some(ps@[t as int]),
            None => placement_named(ps@, name@) is None,
        },
{
    let nc = chars_of(name);
    let mut i: usize = 0;
    proof {
        assert(ps@.subrange(0, ps@.len() as int) =~= ps@);
    }
    while i < ps.len()
        invariant
            i <= ps@.len(),
            nc@ == name@,
            placement_named(ps@, name@) == placement_named(ps@.subrange(i as int, ps@.len() as int), name@),
        decreases ps@.len() - i,
    {
        let pc = chars_of(ps[i].name.as_str());
        let ghost rest = ps@.subrange(i as int, ps@.len() as int);
        proof {
            assert(rest[0] == ps@[i as int]);
        }
        if chars_eq(pc.as_slice(), nc.as_slice()) {
            return Some(i);
        }
        proof {
            assert(rest.drop_first() =~= ps@.subrange(i + 1, ps@.len() as int));
        }
        i = i + 1;
    }
    None
}

/// Records a placement in a frame's entries (see [`packed_frame`]).
fn record_placement(fd: &mut Vec<(String, PlistNode)>, p: &PackPlacement)
    ensures
        entry_shapes(final(fd)@, final(fd)@.len() as int) == packed_frame(entry_shapes(old(fd)@, old(fd)@.len() as int), *p),
{
    put_entry_exec(fd, "textureRotated".to_string(), PlistNode::Bool(false));
    put_entry_exec(fd, "spriteSize".to_string(), PlistNode::Text(format_size(p.width, p.height)));
    put_entry_exec(fd, "spriteSourceSize".to_string(), PlistNode::Text(format_size(p.width, p.height)));
    let rect = IconEditorRect { x: p.x, y: p.y, width: p.width, height: p.height };
    put_entry_exec(fd, "textureRect".to_string(), PlistNode::Text(format_texture_rect(&rect)));
}

/// `key_index` reads only the keys.
proof fn lemma_key_index_keys(a: Seq<(Seq<char>, PlistShape)>, b: Seq<(Seq<char>, PlistShape)>, key: Seq<char>)
    requires
        a.len() == b.len(),
        forall|t: int| 0 <= t < a.len() ==> #[trigger] a[t].0 == b[t].0,
    ensures
        key_index(a, key) == key_index(b, key),
    decreases a.len(),
{
    if a.len() > 0 {
        assert forall|t: int| 0 <= t < a.len() - 1 implies #[trigger] a.drop_last()[t].0 == b.drop_last()[t].0 by {
            assert(a.drop_last()[t] == a[t] && b.drop_last()[t] == b[t]);
        }
        lemma_key_index_keys(a.drop_last(), b.drop_last(), key);
    }
}

/// The frames dictionary with each packed frame recorded (see
/// [`merged_frame`]).
fn record_frames(fes: &mut Vec<(String, PlistNode)>, placements: &Vec<PackPlacement>)
    ensures
        entry_shapes(final(fes)@, final(fes)@.len() as int) == Seq::new(
            old(fes)@.len(),
            |j: int| merged_frame(entry_shapes(old(fes)@, old(fes)@.len() as int), placements@, j),
        ),
{
    let ghost fs = entry_shapes(fes@, fes@.len() as int);
    let ghost n = fes@.len();
    proof {
        lemma_entry_shapes_all(fes@);
    }
    let mut j: usize = 0;
    while j < fes.len()
        invariant
            fes@.len() == n,
            j <= n,
            fs.len() == n,
            forall|t: int| 0 <= t < n ==> #[trigger] entry_shapes(fes@, n as int)[t] == if t < j {
                merged_frame(fs, placements@, t)
            } else {
                fs[t]
            },
            forall|t: int| 0 <= t < n ==> #[trigger] fes@[t].0@ == fs[t].0,
            entry_shapes(fes@, n as int).len() == n,
        decreases n - j,
    {
        let ghost cur = entry_shapes(fes@, n as int);
        proof {
            lemma_entry_shapes_all(fes@);
            assert forall|t: int| 0 <= t < n implies #[trigger] cur[t].0 == fs[t].0 by {}
            lemma_key_index_keys(cur, fs, fes@[j as int].0@);
            assert(fs[j as int] == cur[j as int]);
        }
        let first = find_entry(fes, fes[j].0.as_str());
        let is_first = match first {
            Some(f) => f == j,
            None => false,
        };
        let pi = find_placement(placements, fes[j].0.as_str());
        let ghost old_fes = fes@;
        let (k, v) = fes.remove(j);
        let nv = match v {
            PlistNode::Dict(mut fd) => {
                if is_first {
                    match pi {
                        Some(t) => {
                            record_placement(&mut fd, &placements[t]);
                        },
                        None => {},
                    }
                }
                PlistNode::Dict(fd)
            },
            other => other,
        };
        proof {
            lemma_key_index(cur, fs[j as int].0);
            assert(is_first == (key_index(fs, fs[j as int].0) == j));
            assert((k@, shape_of(nv)) == merged_frame(fs, placements@, j as int));
        }
        fes.insert(j, (k, nv));
        proof {
            assert(fes@ =~= old_fes.update(j as int, fes@[j as int]));
            lemma_entry_shapes_all(fes@);
            assert forall|t: int| 0 <= t < n implies #[trigger] entry_shapes(fes@, n as int)[t] == if t < j + 1 {
                merged_frame(fs, placements@, t)
            } else {
                fs[t]
            } by {
                if t != j {
                    assert(fes@[t] == old_fes[t]);
                    assert(cur[t] == (old_fes[t].0@, shape_of(old_fes[t].1)));
                }
            }
            assert forall|t: int| 0 <= t < n implies #[trigger] fes@[t].0@ == fs[t].0 by {
                if t != j {
                    assert(fes@[t] == old_fes[t]);
                }
            }
        }
        j = j + 1;
    }
    proof {
        lemma_entry_shapes_all(fes@);
        assert(entry_shapes(fes@, n as int) =~= Seq::new(n, |t: int| merged_frame(fs, placements@, t)));
    }
}

/// A sheet's list after packing (see [`merged_root`]); `None` where its
/// `metadata` entry is not a dictionary.
pub open spec fn merged_sheet(root: PlistShape, ps: Seq<PackPlacement>, w: u32, h: u32) -> Option<PlistShape> {
    match root {
        PlistShape::Dict(es) => match merged_root(es, ps, w, h) {
            Some(x) => Some(PlistShape::Dict(x)),
            None => None,
        },
        _ => None,
    }
}

/// Records a packed atlas in its sheet's list: each frame packed at a
/// placement (matched by name) is marked not rotated and gets its sprite
/// size, source size and texture rectangle; the `metadata` dictionary
/// (added where there is none) gets the atlas size, each side at least 1.
/// Fails where the root is not a dictionary, has no `frames` dictionary, or
/// its `metadata` entry is not a dictionary.
pub fn write_merged_sheet(root: PlistNode, placements: &Vec<PackPlacement>, width: u32, height: u32) -> (r: Result<
    PlistNode,
    AppError,
>)
    ensures
        match frames_dict(shape_of(root)) {
            None => if root is Dict {
                r matches Err(AppError::ParseError(m)) && m@ == "plist missing top-level `frames` dictionary"@
            } else {
                r matches Err(AppError::ParseError(m)) && m@ == "plist root must be a dictionary"@
            },
            Some(_) => match merged_sheet(shape_of(root), placements@, width, height) {
                Some(x) => r matches Ok(n) && shape_of(n) == x,
                None => r matches Err(AppError::ParseError(m)) && m@ == "metadata section must be dictionary"@,
            },
        },
{
    let ghost root_shape = shape_of(root);
    let mut es = match root {
        PlistNode::Dict(es) => es,
        _ => return Err(AppError::ParseError("plist root must be a dictionary".to_string())),
    };
    let ghost es0 = es@;
    let ghost ess = entry_shapes(es0, es0.len() as int);
    proof {
        lemma_entry_shapes_all(es0);
        lemma_key_index(ess, "frames"@);
        assert(root_shape == PlistShape::Dict(ess));
    }
    let fi = match find_entry(&es, "frames") {
        Some(j) => j,
        None => return Err(AppError::ParseError("plist missing top-level `frames` dictionary".to_string())),
    };
    proof {
        assert(ess[fi as int] == (es0[fi as int].0@, shape_of(es0[fi as int].1)));
    }
    let (fk, fv) = es.remove(fi);
    let mut fes = match fv {
        PlistNode::Dict(fes) => fes,
        _ => return Err(AppError::ParseError("plist missing top-level `frames` dictionary".to_string())),
    };
    let ghost fs = entry_shapes(fes@, fes@.len() as int);
    proof {
        lemma_entry_shapes_all(fes@);
    }
    record_frames(&mut fes, placements);
    let ghost new_frames = PlistShape::Dict(Seq::new(fs.len(), |j: int| merged_frame(fs, placements@, j)));
    proof {
        lemma_entry_shapes_all(es0);
    }
    es.insert(fi, ("frames".to_string(), PlistNode::Dict(fes)));
    let ghost es1 = ess.update(fi as int, ("frames"@, new_frames));
    proof {
        lemma_entry_shapes_all(es@);
        assert(es@ =~= es0.update(fi as int, es@[fi as int]));
        assert forall|t: int| 0 <= t < es@.len() implies #[trigger] entry_shapes(es@, es@.len() as int)[t] == es1[t] by {
            if t != fi {
                assert(es@[t] == es0[t]);
            } else {
                assert(es@[t].0@ == "frames"@);
                assert(shape_of(es@[t].1) == new_frames);
            }
        }
        assert(entry_shapes(es@, es@.len() as int) =~= es1);
        reveal_strlit("frames");
        reveal_strlit("metadata");
    }
    let w1 = if width > 1 { width } else { 1 };
    let h1 = if height > 1 { height } else { 1 };
    let mi = match find_entry(&es, "metadata") {
        Some(m) => m,
        None => {
            let ghost before = es@;
            es.push(("metadata".to_string(), PlistNode::Dict(Vec::new())));
            proof {
                lemma_entry_shapes_all(es@);
                lemma_entry_shapes_all(before);
                assert forall|t: int| 0 <= t < before.len() implies #[trigger] es@[t] == before[t] by {}
                assert(entry_shapes(es@, es@.len() as int) =~= es1.push(("metadata"@, PlistShape::Dict(seq![]))));
            }
            es.len() - 1
        },
    };
    let ghost es2 = entry_shapes(es@, es@.len() as int);
    proof {
        lemma_entry_shapes_all(es@);
        lemma_key_index(es1, "metadata"@);
        lemma_key_index(es2, "metadata"@);
        assert(key_index(es2, "metadata"@) == mi);
    }
    let ghost es_before_m = es@;
    let (mk, mv) = es.remove(mi);
    let mut md = match mv {
        PlistNode::Dict(md) => md,
        _ => return Err(AppError::ParseError("metadata section must be dictionary".to_string())),
    };
    put_entry_exec(&mut md, "size".to_string(), PlistNode::Text(format_size(w1, h1)));
    es.insert(mi, ("metadata".to_string(), PlistNode::Dict(md)));
    proof {
        lemma_entry_shapes_all(es@);
        assert(es@ =~= es_before_m.update(mi as int, es@[mi as int]));
        assert forall|t: int| 0 <= t < es@.len() && t != mi implies #[trigger] es@[t] == es_before_m[t] by {}
        assert(entry_shapes(es@, es@.len() as int) =~= es2.update(mi as int, (es2[mi as int].0, shape_of(es@[mi as int].1))));
    }
    Ok(PlistNode::Dict(es))
}

/// The total height of the slots (each sprite plus its seam).
pub open spec fn slots_height(v: Seq<(Seq<char>, u32, u32)>) -> int
    decreases v.len(),
{
    if v.len() == 0 {
        0
    } else {
        v[0].2 + 1 + slots_height(v.drop_first())
    }
}

/// The slots fit the packer's `u32` arithmetic: each narrower than the
/// largest width less the margins, shorter than the first free band, and
/// the bands together within `u32`.
pub open spec fn slots_fit(v: Seq<(Seq<char>, u32, u32)>) -> bool {
    &&& forall|k: int| 0 <= k < v.len() ==> (#[trigger] v[k]).2 < INITIAL_FREE_HEIGHT && v[k].1 + 3 <= u32::MAX
    &&& slots_height(v) + INITIAL_FREE_HEIGHT + 2 <= u32::MAX
}

proof fn lemma_slots_height(s: Seq<PackPlacement>)
    ensures
        total_slot_height(s) == slots_height(s.map_values(|p: PackPlacement| slot_view(p))),
    decreases s.len(),
{
    if s.len() > 0 {
        assert(s.map_values(|p: PackPlacement| slot_view(p)).drop_first() =~= s.drop_first().map_values(
            |p: PackPlacement| slot_view(p),
        ));
        lemma_slots_height(s.drop_first());
    }
}

/// The placements as names and sizes.
pub open spec fn slot_views(ps: Seq<PackPlacement>) -> Seq<(Seq<char>, u32, u32)> {
    ps.map_values(|p: PackPlacement| slot_view(p))
}

/// The frames dictionary's entries (empty where there is none).
pub open spec fn fs_of(root: PlistShape) -> Seq<(Seq<char>, PlistShape)> {
    match frames_dict(root) {
        Some(fs) => fs,
        None => seq![],
    }
}

/// The root's `metadata` entry is there and is not a dictionary.
pub open spec fn metadata_not_dict(root: PlistShape) -> bool {
    match root {
        PlistShape::Dict(es) => {
            let m = key_index(es, "metadata"@);
            m >= 0 && !(es[m].1 is Dict)
        },
        _ => false,
    }
}

/// What a merge gives for a root with frames `fs`: the warnings of the
/// plan, the planned slots packed, and the list recording the packing.
pub open spec fn merge_done(
    root: PlistShape,
    fs: Seq<(Seq<char>, PlistShape)>,
    sv: Seq<(Seq<char>, u32, u32)>,
    target_width: u32,
    m: MergedSheet,
) -> bool {
    let order = frame_order(fs);
    &&& issues_view(m.issues@) == planned_issues(fs, sv, order, order.len() as int)
    &&& exists|orig: Seq<PackPlacement>|
        #[trigger] slot_views(orig) == planned_slots(fs, sv, order, order.len() as int)
        && (forall|t: int| 0 <= t < orig.len() ==> #[trigger] orig[t].x == 0 && orig[t].y == 0)
        && packed_as(orig, m.placements@, target_width, (m.width, m.height))
    &&& merged_sheet(root, m.placements@, m.width, m.height) == Some(shape_of(m.plist))
}

/// A merged sheet: its list, the placements in packing order, the atlas
/// size, and the warnings about the frames left out.
pub struct MergedSheet {
    pub plist: PlistNode,
    pub placements: Vec<PackPlacement>,
    pub width: u32,
    pub height: u32,
    pub issues: Vec<ReportIssue>,
}

/// Merges the sprites of a sheet's frames into an atlas `target_width` wide
/// (see [`crate::merger::resolve_target_width`]): the frames are planned as
/// [`plan_merged_frames`] says, packed as [`pack_sprites_maxrects`] says, and
/// recorded in the list as [`write_merged_sheet`] says. So every placed
/// frame's slot lies inside the margins, no two slots overlap, and the list's
/// metadata gives the atlas size. Fails as those do.
pub fn merge_sheet_layout(root: PlistNode, sprites: &Vec<(String, u32, u32)>, target_width: u32) -> (r: Result<
    MergedSheet,
    AppError,
>)
    requires
        frames_dict(shape_of(root)) matches Some(fs) ==> slots_fit(
            planned_slots(fs, sprite_views(sprites@), frame_order(fs), frame_order(fs).len() as int),
        ),
    ensures
        match frames_dict(shape_of(root)) {
            None => if root is Dict {
                r matches Err(AppError::ParseError(m)) && m@ == "plist missing top-level `frames` dictionary"@
            } else {
                r matches Err(AppError::ParseError(m)) && m@ == "plist root must be a dictionary"@
            },
            Some(fs) => if metadata_not_dict(shape_of(root)) {
                r matches Err(AppError::ParseError(m)) && m@ == "metadata section must be dictionary"@
            } else {
                r matches Ok(m) && merge_done(shape_of(root), fs, sprite_views(sprites@), target_width, m)
            },
        },
{
    let (mut placements, issues) = match plan_merged_frames(&root, sprites) {
        Ok(p) => p,
        Err(e) => return Err(e),
    };
    let ghost orig = placements@;
    proof {
        lemma_slots_height(orig);
        let v = orig.map_values(|p: PackPlacement| slot_view(p));
        assert forall|k: int| 0 <= k < orig.len() implies (#[trigger] orig[k]).height < INITIAL_FREE_HEIGHT && orig[k].width + 3 <= u32::MAX by {
            assert(v[k] == slot_view(orig[k]));
        }
        assert(packable(orig));
    }
    let ghost root_shape = shape_of(root);
    let (w, h) = pack_sprites_maxrects(&mut placements, target_width);
    proof {
        lemma_merged_sheet_fails(root_shape, placements@, w, h);
    }
    match write_merged_sheet(root, &placements, w, h) {
        Ok(plist) => {
            let m = MergedSheet { plist, placements, width: w, height: h, issues };
            proof {
                assert(slot_views(orig) == planned_slots(fs_of(root_shape), sprite_views(sprites@), frame_order(fs_of(root_shape)), frame_order(fs_of(root_shape)).len() as int));
            }
            Ok(m)
        },
        Err(e) => Err(e),
    }
}

/// With a `frames` dictionary, recording a packing fails exactly when the
/// `metadata` entry is not a dictionary.
pub proof fn lemma_merged_sheet_fails(root: PlistShape, ps: Seq<PackPlacement>, w: u32, h: u32)
    requires
        frames_dict(root) is Some,
    ensures
        merged_sheet(root, ps, w, h) is None <==> metadata_not_dict(root),
{
    match root {
        PlistShape::Dict(es) => {
            let f = key_index(es, "frames"@);
            lemma_key_index(es, "frames"@);
            match es[f].1 {
                PlistShape::Dict(fs) => {
                    let es2 = es.update(f, ("frames"@, PlistShape::Dict(Seq::new(fs.len(), |j: int| merged_frame(fs, ps, j)))));
                    assert forall|t: int| 0 <= t < es2.len() implies #[trigger] es2[t].0 == es[t].0 by {}
                    lemma_key_index_keys(es2, es, "metadata"@);
                    let pushed = es2.push(("metadata"@, PlistShape::Dict(seq![])));
                    assert(pushed.drop_last() =~= es2);
                    lemma_key_index(es, "metadata"@);
                    let m = key_index(es, "metadata"@);
                    if m >= 0 {
                        assert(m != f) by {
                            reveal_strlit("frames");
                            reveal_strlit("metadata");
                            assert("frames"@[0] != "metadata"@[0]);
                        }
                        assert(es2[m] == es[m]);
                    }
                },
                _ => {},
            }
        },
        _ => {},
    }
}


/// The first placement under a name is what the lookup finds.
proof fn lemma_placement_named_first(ps: Seq<PackPlacement>, name: Seq<char>, i: int)
    requires
        0 <= i < ps.len(),
        ps[i].name@ == name,
        forall|t: int| 0 <= t < i ==> (#[trigger] ps[t]).name@ != name,
    ensures
        placement_named(ps, name) == Some(ps[i]),
    decreases i,
{
    if i > 0 {
        let r = ps.drop_first();
        assert forall|t: int| 0 <= t < i - 1 implies (#[trigger] r[t]).name@ != name by {
            assert(r[t] == ps[t + 1]);
        }
        assert(ps[0].name@ != name);
        lemma_placement_named_first(r, name, i - 1);
    }
}

/// A name no placement has is not found.
proof fn lemma_placement_named_absent(ps: Seq<PackPlacement>, name: Seq<char>)
    requires
        forall|t: int| 0 <= t < ps.len() ==> (#[trigger] ps[t]).name@ != name,
    ensures
        placement_named(ps, name) is None,
    decreases ps.len(),
{
    if ps.len() > 0 {
        let r = ps.drop_first();
        assert forall|t: int| 0 <= t < r.len() implies (#[trigger] r[t]).name@ != name by {
            assert(r[t] == ps[t + 1]);
        }
        assert(ps[0].name@ != name);
        lemma_placement_named_absent(r, name);
    }
}

/// A value stored under a key is what the key then holds.
pub proof fn lemma_put_entry_holds(es: Seq<(Seq<char>, PlistShape)>, key: Seq<char>, v: PlistShape)
    ensures
        key_index(put_entry(es, key, v), key) >= 0,
        put_entry(es, key, v)[key_index(put_entry(es, key, v), key)] == (key, v),
{
    let r = put_entry(es, key, v);
    lemma_key_index(es, key);
    lemma_key_index(r, key);
    let j = key_index(es, key);
    let p = if j >= 0 { j } else { es.len() as int };
    assert(r[p] == (key, v));
    let ki = key_index(r, key);
    if ki >= 0 && ki < p {
        assert(r[ki] == es[ki]);
    }
}

/// Merging records each packed frame at its own placement: a frame that is
/// a dictionary and the first entry under its name, when some placement
/// carries that name, gets the first such placement's texture rectangle,
/// sprite size, source size and no rotation; a frame whose name no
/// placement carries stays as it was.
pub proof fn law_merged_frame_records_its_placement(fs: Seq<(Seq<char>, PlistShape)>, ps: Seq<PackPlacement>, j: int, i: int)
    requires
        0 <= j < fs.len(),
        fs[j].1 is Dict,
        forall|t: int| 0 <= t < j ==> (#[trigger] fs[t]).0 != fs[j].0,
        0 <= i < ps.len(),
        ps[i].name@ == fs[j].0,
        forall|t: int| 0 <= t < i ==> (#[trigger] ps[t]).name@ != fs[j].0,
    ensures
        merged_frame(fs, ps, j).0 == fs[j].0,
        merged_frame(fs, ps, j).1 matches PlistShape::Dict(nd) && ({
            let k = key_index(nd, "textureRect"@);
            &&& k >= 0
            &&& nd[k].1 == PlistShape::Text(
                texture_rect_text(IconEditorRect { x: ps[i].x, y: ps[i].y, width: ps[i].width, height: ps[i].height }),
            )
        }),
        merged_frame(fs, ps, j) == (fs[j].0, PlistShape::Dict(packed_frame(fs[j].1->Dict_0, ps[i]))),
{
    lemma_placement_named_first(ps, fs[j].0, i);
    lemma_key_index(fs, fs[j].0);
    let fd = fs[j].1->Dict_0;
    let p = ps[i];
    let size = PlistShape::Text(size_text(p.width, p.height));
    let a = put_entry(put_entry(put_entry(fd, "textureRotated"@, PlistShape::Bool(false)), "spriteSize"@, size), "spriteSourceSize"@, size);
    lemma_put_entry_holds(a, "textureRect"@, PlistShape::Text(texture_rect_text(IconEditorRect { x: p.x, y: p.y, width: p.width, height: p.height })));
}

/// A frame whose name no placement carries stays as it was.
pub proof fn law_unplaced_frame_stays(fs: Seq<(Seq<char>, PlistShape)>, ps: Seq<PackPlacement>, j: int)
    requires
        0 <= j < fs.len(),
        forall|t: int| 0 <= t < ps.len() ==> (#[trigger] ps[t]).name@ != fs[j].0,
    ensures
        merged_frame(fs, ps, j) == fs[j],
{
    lemma_placement_named_absent(ps, fs[j].0);
}

} // verus!
