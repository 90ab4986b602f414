//! Edits made to a sheet's property list before it is merged again:
//! dropping the extra frames the icon editor's user removed, and taking the
//! menu buttons that moved to `GJ_GameSheet04` out of a converted sheet.

use vstd::prelude::*;
use crate::errors::AppError;
use crate::icon_editor::{is_removable_extra_frame_key, removable_extra_spec};
use crate::legacy_icons::{gamesheet04_moved_spec, is_gamesheet04_moved_frame};
use crate::plist_tree::copy_node;
use crate::merge_sheet::frames_dict;
use crate::plist_tree::{
    entry_shapes, find_entry, key_index, lemma_entry_shapes_all, lemma_key_index, shape_of, PlistNode,
    PlistShape,
};
use crate::text::{string_from_chars, trim, trim_str};

verus! {

/// The entries without the first one under `key`, the last entry taking its
/// place (a property-list dictionary's `remove`); unchanged where there is
/// none.
pub open spec fn swap_removed(es: Seq<(Seq<char>, PlistShape)>, key: Seq<char>) -> Seq<(Seq<char>, PlistShape)> {
    let j = key_index(es, key);
    if j < 0 {
        es
    } else {
        es.update(j, es.last()).drop_last()
    }
}

/// The name a removal request names: the request trimmed, where it is not
/// empty and names an extra frame.
pub open spec fn removal_target(raw: Seq<char>) -> Option<Seq<char>> {
    if trim(raw).len() > 0 && removable_extra_spec(trim(raw)) {
        Some(trim(raw))
    } else {
        None
    }
}

/// The frames after the first `k` removal requests, in order.
pub open spec fn frames_after_removals(
    fs: Seq<(Seq<char>, PlistShape)>,
    removed: Seq<Seq<char>>,
    k: int,
) -> Seq<(Seq<char>, PlistShape)>
    decreases k,
{
    if k <= 0 || k > removed.len() {
        fs
    } else {
        let prev = frames_after_removals(fs, removed, k - 1);
        match removal_target(removed[k - 1]) {
            Some(name) => swap_removed(prev, name),
            None => prev,
        }
    }
}

/// The root's entries with the `frames` dictionary after the removals.
pub open spec fn sheet_after_removals(root: PlistShape, removed: Seq<Seq<char>>) -> PlistShape {
    match root {
        PlistShape::Dict(es) => {
            let f = key_index(es, "frames"@);
            match es[f].1 {
                PlistShape::Dict(fs) => PlistShape::Dict(
                    es.update(f, ("frames"@, PlistShape::Dict(frames_after_removals(fs, removed, removed.len() as int)))),
                ),
                _ => root,
            }
        },
        _ => root,
    }
}

/// Drops from the sheet's frames each extra frame the user removed (see
/// [`removal_target`]), one request after the other; names that are not
/// extra frames, or not there, change nothing. With no request the list is
/// handed back as it is; otherwise the root must be a dictionary with a
/// `frames` dictionary.
pub fn remove_extra_frames(root: PlistNode, removed_frame_names: &Vec<String>) -> (r: Result<PlistNode, AppError>)
    ensures
        removed_frame_names@.len() == 0 ==> r == Ok::<PlistNode, AppError>(root),
        removed_frame_names@.len() > 0 ==> match frames_dict(shape_of(root)) {
            None => if root is Dict {
                r matches Err(AppError::ParseError(m)) && m@ == "plist missing top-level `frames` dictionary"@
            } else {
                r matches Err(AppError::ParseError(m)) && m@ == "plist root must be a dictionary"@
            },
            Some(_) => r matches Ok(n) && shape_of(n) == sheet_after_removals(
                shape_of(root),
                removed_frame_names@.map_values(|s: String| s@),
            ),
        },
{
    if removed_frame_names.len() == 0 {
        return Ok(root);
    }
    let ghost rm = removed_frame_names@.map_values(|s: String| s@);
    let ghost root_shape = shape_of(root);
    let mut es = match root {
        PlistNode::Dict(es) => es,
        _ => return Err(AppError::ParseError("plist root must be a dictionary".to_string())),
    };
    let ghost es0 = es@;
    let ghost ess = entry_shapes(es0, es0.len() as int);
    proof {
        lemma_entry_shapes_all(es0);
        lemma_key_index(ess, "frames"@);
    }
    let fi = match find_entry(&es, "frames") {
        Some(j) => j,
        None => return Err(AppError::ParseError("plist missing top-level `frames` dictionary".to_string())),
    };
    proof {
        assert(ess[fi as int] == (es0[fi as int].0@, shape_of(es0[fi as int].1)));
    }
    let (fk, fv) = es.remove(fi);
    let mut fes = match fv {
        PlistNode::Dict(fes) => fes,
        _ => return Err(AppError::ParseError("plist missing top-level `frames` dictionary".to_string())),
    };
    let ghost fs = entry_shapes(fes@, fes@.len() as int);
    proof {
        lemma_entry_shapes_all(fes@);
    }
    let mut i: usize = 0;
    while i < removed_frame_names.len()
        invariant
            i <= removed_frame_names@.len(),
            rm == removed_frame_names@.map_values(|s: String| s@),
            entry_shapes(fes@, fes@.len() as int) == frames_after_removals(fs, rm, i as int),
        decreases removed_frame_names@.len() - i,
    {
        let t = trim_str(removed_frame_names[i].as_str());
        let ghost cur = entry_shapes(fes@, fes@.len() as int);
        proof {
            assert(rm[i as int] == removed_frame_names@[i as int]@);
        }
        if t.len() > 0 {
            let name = string_from_chars(t.as_slice());
            if is_removable_extra_frame_key(name.as_str()) {
                proof {
                    lemma_entry_shapes_all(fes@);
                    lemma_key_index(cur, name@);
                }
                match find_entry(&fes, name.as_str()) {
                    Some(j) => {
                        let ghost before = fes@;
                        let _ = fes.swap_remove(j);
                        proof {
                            lemma_entry_shapes_all(fes@);
                            assert(entry_shapes(fes@, fes@.len() as int) =~= cur.update(j as int, cur.last()).drop_last()) by {
                                assert forall|t2: int| 0 <= t2 < fes@.len() implies #[trigger] fes@[t2] == before.update(j as int, before.last())[t2] by {}
                            }
                        }
                    },
                    None => {},
                }
            }
        }
        i = i + 1;
    }
    let ghost new_frames = PlistShape::Dict(frames_after_removals(fs, rm, rm.len() as int));
    proof {
        lemma_entry_shapes_all(es0);
    }
    es.insert(fi, ("frames".to_string(), PlistNode::Dict(fes)));
    proof {
        lemma_entry_shapes_all(es@);
        assert(es@ =~= es0.update(fi as int, es@[fi as int]));
        assert forall|t: int| 0 <= t < es@.len() implies #[trigger] entry_shapes(es@, es@.len() as int)[t] == ess.update(fi as int, ("frames"@, new_frames))[t] by {
            if t != fi {
                assert(es@[t] == es0[t]);
            }
        }
        assert(entry_shapes(es@, es@.len() as int) =~= ess.update(fi as int, ("frames"@, new_frames)));
    }
    Ok(PlistNode::Dict(es))
}

/// After the first `k` sprite names: the frames left, the frames taken (a
/// moved menu button with a frame goes, with that frame), and the sprite
/// names that stay.
pub open spec fn menu_button_take(
    fs: Seq<(Seq<char>, PlistShape)>,
    names: Seq<Seq<char>>,
    k: int,
) -> (Seq<(Seq<char>, PlistShape)>, Seq<(Seq<char>, PlistShape)>, Seq<Seq<char>>)
    decreases k,
{
    if k <= 0 || k > names.len() {
        (fs, seq![], seq![])
    } else {
        let (f, taken, kept) = menu_button_take(fs, names, k - 1);
        let n = names[k - 1];
        let j = key_index(f, n);
        if gamesheet04_moved_spec(n) && j >= 0 {
            (swap_removed(f, n), taken.push((n, f[j].1)), kept)
        } else {
            (f, taken, kept.push(n))
        }
    }
}

/// Takes the 2.0 menu buttons that moved to `GJ_GameSheet04` out of a
/// sheet: each sprite name (in the order given) that is such a button and
/// has a frame loses that frame to the taken list (a dictionary's `remove`)
/// and leaves the sprites. Where the sheet has no `frames` dictionary,
/// nothing is taken. Gives the sheet, the taken names with their frames,
/// and the sprite names that stay.
pub fn take_gamesheet04_menu_buttons(root: PlistNode, sprite_names: &Vec<String>) -> (r: (
    PlistNode,
    Vec<(String, PlistNode)>,
    Vec<String>,
))
    ensures
        match frames_dict(shape_of(root)) {
            None => shape_of(r.0) == shape_of(root) && r.1@.len() == 0 && r.2@.map_values(|s: String| s@)
                == sprite_names@.map_values(|s: String| s@),
            Some(fs) => {
                let (left, taken, kept) = menu_button_take(fs, sprite_names@.map_values(|s: String| s@), sprite_names@.len() as int);
                &&& shape_of(r.0) == with_frames(shape_of(root), left)
                &&& entry_shapes(r.1@, r.1@.len() as int) == taken
                &&& r.2@.map_values(|s: String| s@) == kept
            },
        },
{
    let ghost nm = sprite_names@.map_values(|s: String| s@);
    let ghost root_shape = shape_of(root);
    let mut es = match root {
        PlistNode::Dict(es) => es,
        other => {
            let mut all: Vec<String> = Vec::new();
            copy_names(sprite_names, &mut all);
            return (other, Vec::new(), all);
        },
    };
    let ghost es0 = es@;
    let ghost ess = entry_shapes(es0, es0.len() as int);
    proof {
        lemma_entry_shapes_all(es0);
        lemma_key_index(ess, "frames"@);
        assert(root_shape == PlistShape::Dict(ess));
    }
    let fi = match find_entry(&es, "frames") {
        Some(j) => j,
        None => {
            let mut all: Vec<String> = Vec::new();
            copy_names(sprite_names, &mut all);
            return (PlistNode::Dict(es), Vec::new(), all);
        },
    };
    proof {
        assert(ess[fi as int] == (es0[fi as int].0@, shape_of(es0[fi as int].1)));
    }
    let is_dict = match &es[fi].1 {
        PlistNode::Dict(_) => true,
        _ => false,
    };
    if !is_dict {
        let mut all: Vec<String> = Vec::new();
        copy_names(sprite_names, &mut all);
        return (PlistNode::Dict(es), Vec::new(), all);
    }
    let (fk, fv) = es.remove(fi);
    let mut fes = match fv {
        PlistNode::Dict(fes) => fes,
        other => other_dict(other),
    };
    let ghost fs = entry_shapes(fes@, fes@.len() as int);
    proof {
        lemma_entry_shapes_all(fes@);
    }
    let mut taken: Vec<(String, PlistNode)> = Vec::new();
    let mut kept: Vec<String> = Vec::new();
    let mut i: usize = 0;
    while i < sprite_names.len()
        invariant
            i <= sprite_names@.len(),
            nm == sprite_names@.map_values(|s: String| s@),
            ({
                let st = menu_button_take(fs, nm, i as int);
                &&& entry_shapes(fes@, fes@.len() as int) == st.0
                &&& entry_shapes(taken@, taken@.len() as int) == st.1
                &&& kept@.map_values(|s: String| s@) == st.2
            }),
        decreases sprite_names@.len() - i,
    {
        let name = sprite_names[i].as_str();
        let ghost cur = entry_shapes(fes@, fes@.len() as int);
        proof {
            assert(nm[i as int] == name@);
            lemma_entry_shapes_all(fes@);
            lemma_key_index(cur, name@);
        }
        let moved = is_gamesheet04_moved_frame(name);
        let found = if moved { find_entry(&fes, name) } else { None };
        match found {
            Some(j) => {
                let ghost before = fes@;
                let ghost tb = taken@;
                let (k, v) = fes.swap_remove(j);
                taken.push((k, v));
                proof {
                    lemma_entry_shapes_all(fes@);
                    lemma_entry_shapes_all(taken@);
                    lemma_entry_shapes_all(tb);
                    assert forall|t2: int| 0 <= t2 < fes@.len() implies #[trigger] fes@[t2] == before.update(j as int, before.last())[t2] by {}
                    assert(entry_shapes(fes@, fes@.len() as int) =~= cur.update(j as int, cur.last()).drop_last());
                    assert forall|t2: int| 0 <= t2 < tb.len() implies #[trigger] taken@[t2] == tb[t2] by {}
                    assert(entry_shapes(taken@, taken@.len() as int) =~= entry_shapes(tb, tb.len() as int).push((name@, cur[j as int].1)));
                }
            },
            None => {
                let ghost kb = kept@;
                kept.push(sprite_names[i].clone());
                proof {
                    assert(kept@.map_values(|s: String| s@) =~= kb.map_values(|s: String| s@).push(name@));
                }
            },
        }
        i = i + 1;
    }
    es.insert(fi, (fk, PlistNode::Dict(fes)));
    proof {
        lemma_entry_shapes_all(es@);
        assert(es@ =~= es0.update(fi as int, es@[fi as int]));
        assert forall|t: int| 0 <= t < es@.len() implies #[trigger] entry_shapes(es@, es@.len() as int)[t] == ess.update(
            fi as int,
            (ess[fi as int].0, PlistShape::Dict(menu_button_take(fs, nm, nm.len() as int).0)),
        )[t] by {
            if t != fi {
                assert(es@[t] == es0[t]);
            }
        }
        assert(entry_shapes(es@, es@.len() as int) =~= ess.update(
            fi as int,
            (ess[fi as int].0, PlistShape::Dict(menu_button_take(fs, nm, nm.len() as int).0)),
        ));
    }
    (PlistNode::Dict(es), taken, kept)
}

/// The root with its `frames` dictionary's entries replaced.
pub open spec fn with_frames(root: PlistShape, fs: Seq<(Seq<char>, PlistShape)>) -> PlistShape {
    match root {
        PlistShape::Dict(es) => {
            let f = key_index(es, "frames"@);
            if f >= 0 {
                PlistShape::Dict(es.update(f, (es[f].0, PlistShape::Dict(fs))))
            } else {
                root
            }
        },
        _ => root,
    }
}

fn other_dict(n: PlistNode) -> (r: Vec<(String, PlistNode)>)
    requires
        n is Dict,
    ensures
        n matches PlistNode::Dict(v) && r@ == v@,
{
    match n {
        PlistNode::Dict(v) => v,
        _ => Vec::new(),
    }
}

fn copy_names(from: &Vec<String>, to: &mut Vec<String>)
    requires
        old(to)@.len() == 0,
    ensures
        final(to)@.map_values(|s: String| s@) == from@.map_values(|s: String| s@),
{
    let mut i: usize = 0;
    while i < from.len()
        invariant
            i <= from@.len(),
            to@.len() == i,
            forall|t: int| 0 <= t < i ==> #[trigger] to@[t]@ == from@[t]@,
        decreases from@.len() - i,
    {
        to.push(from[i].clone());
        i = i + 1;
    }
    assert(to@.map_values(|s: String| s@) =~= from@.map_values(|s: String| s@));
}

} // verus!
