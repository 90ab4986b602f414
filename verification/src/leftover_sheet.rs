//! The property list of a legacy sheet rewritten without the frames that
//! moved out of it (the icons extracted from `GJ_GameSheet02` or its glow
//! sheet): the kept frames in name order, and fresh metadata.

use vstd::prelude::*;
use crate::errors::AppError;
use crate::legacy_icons::{
    belongs_to_extracted_spec, listed, listed_exec, remove_from_gs02_spec,
    should_remove_from_legacy_gamesheet02, should_remove_from_legacy_glow_sheet,
};
use crate::merge_sheet::frames_dict;
use crate::order::{lex_lt, lex_lt_str};
use crate::plist_tree::{
    copy_node, entry_shapes, find_entry, key_index, lemma_entry_shapes_all, lemma_key_index, put_entry,
    put_entry_exec, shape_of, PlistNode, PlistShape,
};
use crate::text::{chars_of, concat_str, string_from_chars};

verus! {

/// Where a new key goes among sorted entries: after every smaller key.
pub open spec fn insert_pos(s: Seq<(Seq<char>, PlistShape)>, k: Seq<char>) -> int
    decreases s.len(),
{
    if s.len() == 0 {
        0
    } else if lex_lt(s[0].0, k) {
        1 + insert_pos(s.drop_first(), k)
    } else {
        0
    }
}

/// `BTreeMap::insert` on entries kept in key order: the value replaces the
/// one under the key, or goes in at its place.
pub open spec fn sorted_put(s: Seq<(Seq<char>, PlistShape)>, k: Seq<char>, v: PlistShape) -> Seq<(Seq<char>, PlistShape)> {
    let j = key_index(s, k);
    if j >= 0 {
        s.update(j, (k, v))
    } else {
        s.insert(insert_pos(s, k), (k, v))
    }
}

/// Whether a frame leaves the rewritten sheet: for the glow sheet, the
/// frames of extracted icons; for `GJ_GameSheet02`, see
/// [`remove_from_gs02_spec`].
pub open spec fn leaves_sheet(glow: bool, name: Seq<char>, extracted: Seq<String>, exported: Seq<String>) -> bool {
    if glow {
        belongs_to_extracted_spec(name, extracted)
    } else {
        remove_from_gs02_spec(name, extracted, exported)
    }
}

/// The frames kept from the first `k` entries (those that stay and have a
/// sprite), in name order, and how many left.
pub open spec fn kept_frames(
    fs: Seq<(Seq<char>, PlistShape)>,
    glow: bool,
    extracted: Seq<String>,
    exported: Seq<String>,
    sprites: Seq<String>,
    k: int,
) -> (Seq<(Seq<char>, PlistShape)>, int)
    decreases k,
{
    if k <= 0 || k > fs.len() {
        (seq![], 0)
    } else {
        let (p, r) = kept_frames(fs, glow, extracted, exported, sprites, k - 1);
        let e = fs[k - 1];
        if leaves_sheet(glow, e.0, extracted, exported) {
            (p, r + 1)
        } else if listed(sprites, e.0) {
            (sorted_put(p, e.0, e.1), r)
        } else {
            (p, r)
        }
    }
}

/// The source's metadata dictionary, where it has one.
pub open spec fn source_metadata(root: PlistShape) -> Seq<(Seq<char>, PlistShape)> {
    match root {
        PlistShape::Dict(es) => {
            let j = key_index(es, "metadata"@);
            if j >= 0 {
                match es[j].1 {
                    PlistShape::Dict(md) => md,
                    _ => seq![],
                }
            } else {
                seq![]
            }
        },
        _ => seq![],
    }
}

/// `acc` with the source's value under `key`, where it has one.
pub open spec fn carry(acc: Seq<(Seq<char>, PlistShape)>, md: Seq<(Seq<char>, PlistShape)>, key: Seq<char>) -> Seq<
    (Seq<char>, PlistShape),
> {
    let j = key_index(md, key);
    if j >= 0 {
        put_entry(acc, key, md[j].1)
    } else {
        acc
    }
}

/// The new metadata: the source's `format`, `pixelFormat` and
/// `premultiplyAlpha` where present, and the texture file `{stem}.png`.
pub open spec fn leftover_metadata(md: Seq<(Seq<char>, PlistShape)>, stem: Seq<char>) -> Seq<(Seq<char>, PlistShape)> {
    let a = carry(carry(carry(seq![], md, "format"@), md, "pixelFormat"@), md, "premultiplyAlpha"@);
    let t = PlistShape::Text(stem + ".png"@);
    put_entry(put_entry(a, "textureFileName"@, t), "realTextureFileName"@, t)
}

/// `BTreeMap::insert` on key-ordered entries (see [`sorted_put`]).
fn sorted_put_exec(out: &mut Vec<(String, PlistNode)>, key: String, value: PlistNode)
    ensures
        entry_shapes(final(out)@, final(out)@.len() as int) == sorted_put(
            entry_shapes(old(out)@, old(out)@.len() as int),
            key@,
            shape_of(value),
        ),
{
    let ghost s = entry_shapes(out@, out@.len() as int);
    proof {
        lemma_entry_shapes_all(out@);
        lemma_key_index(s, key@);
    }
    match find_entry(out, key.as_str()) {
        Some(j) => {
            let ghost before = out@;
            out.set(j, (key, value));
            proof {
                lemma_entry_shapes_all(out@);
                assert forall|t: int| 0 <= t < out@.len() && t != j implies #[trigger] out@[t] == before[t] by {}
                assert(entry_shapes(out@, out@.len() as int) =~= s.update(j as int, (key@, shape_of(value))));
            }
        },
        None => {
            let mut pos: usize = 0;
            proof {
                assert(s.subrange(0, s.len() as int) =~= s);
            }
            while pos < out.len() && lex_lt_str(out[pos].0.as_str(), key.as_str())
                invariant
                    pos <= out@.len(),
                    s == entry_shapes(out@, out@.len() as int),
                    s.len() == out@.len(),
                    forall|t: int| 0 <= t < out@.len() ==> #[trigger] s[t] == (out@[t].0@, shape_of(out@[t].1)),
                    insert_pos(s, key@) == pos + insert_pos(s.subrange(pos as int, s.len() as int), key@),
                decreases out@.len() - pos,
            {
                proof {
                    let rest = s.subrange(pos as int, s.len() as int);
                    assert(rest[0] == s[pos as int]);
                    assert(rest.drop_first() =~= s.subrange(pos + 1, s.len() as int));
                }
                pos = pos + 1;
            }
            proof {
                let rest = s.subrange(pos as int, s.len() as int);
                if pos < out@.len() {
                    assert(rest[0] == s[pos as int]);
                }
                assert(insert_pos(s, key@) == pos);
            }
            let ghost before = out@;
            let ghost kv = (key@, shape_of(value));
            out.insert(pos, (key, value));
            proof {
                lemma_entry_shapes_all(out@);
                assert(out@ =~= before.insert(pos as int, out@[pos as int]));
                assert forall|t: int| 0 <= t < out@.len() implies #[trigger] entry_shapes(out@, out@.len() as int)[t] == s.insert(pos as int, kv)[t] by {
                    if t < pos {
                        assert(out@[t] == before[t]);
                    } else if t > pos {
                        assert(out@[t] == before[t - 1]);
                    }
                }
                assert(entry_shapes(out@, out@.len() as int) =~= s.insert(pos as int, kv));
            }
        },
    }
}

/// Copies the source's value under `key` into `acc` (see [`carry`]).
fn carry_exec(acc: &mut Vec<(String, PlistNode)>, md: &Vec<(String, PlistNode)>, key: &str)
    ensures
        entry_shapes(final(acc)@, final(acc)@.len() as int) == carry(
            entry_shapes(old(acc)@, old(acc)@.len() as int),
            entry_shapes(md@, md@.len() as int),
            key@,
        ),
{
    proof {
        lemma_entry_shapes_all(md@);
        lemma_key_index(entry_shapes(md@, md@.len() as int), key@);
    }
    match find_entry(md, key) {
        Some(j) => {
            let v = copy_node(&md[j].1);
            put_entry_exec(acc, key.to_string(), v);
        },
        None => {},
    }
}

/// The property list of a legacy sheet rewritten without the frames that
/// left it (see [`leaves_sheet`]): the frames that stay and have a sprite
/// (`sprite_names`), in name order, and metadata naming `{output_stem}.png`
/// (see [`leftover_metadata`]); `None` when no frame stays. Also gives how
/// many frames left. Fails where the source has no `frames` dictionary.
pub fn leftover_sheet_plist(
    source: &PlistNode,
    glow: bool,
    extracted_icon_ids: &Vec<String>,
    exported_standalones: &Vec<String>,
    sprite_names: &Vec<String>,
    output_stem: &str,
) -> (r: Result<(Option<PlistNode>, usize), AppError>)
    ensures
        match frames_dict(shape_of(*source)) {
            None => r matches Err(AppError::ParseError(m)) && m@ == "plist missing top-level `frames` dictionary"@,
            Some(fs) => r matches Ok((o, n)) && {
                let (kept, gone) = kept_frames(fs, glow, extracted_icon_ids@, exported_standalones@, sprite_names@, fs.len() as int);
                &&& n == gone
                &&& kept.len() == 0 ==> o is None
                &&& kept.len() > 0 ==> (o matches Some(x) && shape_of(x) == PlistShape::Dict(seq![
                    ("frames"@, PlistShape::Dict(kept)),
                    ("metadata"@, PlistShape::Dict(leftover_metadata(source_metadata(shape_of(*source)), output_stem@))),
                ]))
            },
        },
{
    let es = match source {
        PlistNode::Dict(es) => es,
        _ => return Err(AppError::ParseError("plist missing top-level `frames` dictionary".to_string())),
    };
    let ghost ess = entry_shapes(es@, es@.len() as int);
    proof {
        lemma_entry_shapes_all(es@);
        lemma_key_index(ess, "frames"@);
        lemma_key_index(ess, "metadata"@);
    }
    let fi = match find_entry(es, "frames") {
        Some(j) => j,
        None => return Err(AppError::ParseError("plist missing top-level `frames` dictionary".to_string())),
    };
    proof {
        assert(ess[fi as int] == (es@[fi as int].0@, shape_of(es@[fi as int].1)));
    }
    let frames = match &es[fi].1 {
        PlistNode::Dict(f) => f,
        _ => return Err(AppError::ParseError("plist missing top-level `frames` dictionary".to_string())),
    };
    let ghost fs = entry_shapes(frames@, frames@.len() as int);
    proof {
        lemma_entry_shapes_all(frames@);
    }
    let mut kept: Vec<(String, PlistNode)> = Vec::new();
    let mut gone: usize = 0;
    let mut i: usize = 0;
    while i < frames.len()
        invariant
            i <= frames@.len(),
            fs == entry_shapes(frames@, frames@.len() as int),
            fs.len() == frames@.len(),
            forall|t: int| 0 <= t < frames@.len() ==> #[trigger] fs[t] == (frames@[t].0@, shape_of(frames@[t].1)),
            gone <= i,
            (entry_shapes(kept@, kept@.len() as int), gone as int) == kept_frames(
                fs,
                glow,
                extracted_icon_ids@,
                exported_standalones@,
                sprite_names@,
                i as int,
            ),
        decreases frames@.len() - i,
    {
        let name = frames[i].0.as_str();
        proof {
            assert(fs[i as int] == (frames@[i as int].0@, shape_of(frames@[i as int].1)));
        }
        let leaves = if glow {
            should_remove_from_legacy_glow_sheet(name, extracted_icon_ids)
        } else {
            should_remove_from_legacy_gamesheet02(name, extracted_icon_ids, exported_standalones)
        };
        if leaves {
            gone = gone + 1;
        } else if listed_exec(sprite_names, name) {
            let v = copy_node(&frames[i].1);
            sorted_put_exec(&mut kept, frames[i].0.clone(), v);
        }
        i = i + 1;
    }
    if kept.len() == 0 {
        proof {
            lemma_entry_shapes_all(kept@);
        }
        return Ok((None, gone));
    }
    let mut meta: Vec<(String, PlistNode)> = Vec::new();
    let ghost md = source_metadata(shape_of(*source));
    let mi = find_entry(es, "metadata");
    let mut source_md_found = false;
    match mi {
        Some(m) => {
            proof {
                assert(ess[m as int] == (es@[m as int].0@, shape_of(es@[m as int].1)));
            }
            match &es[m].1 {
                PlistNode::Dict(src_md) => {
                    proof {
                        lemma_entry_shapes_all(src_md@);
                        assert(entry_shapes(src_md@, src_md@.len() as int) == md);
                    }
                    carry_exec(&mut meta, src_md, "format");
                    carry_exec(&mut meta, src_md, "pixelFormat");
                    carry_exec(&mut meta, src_md, "premultiplyAlpha");
                    source_md_found = true;
                },
                _ => {},
            }
        },
        None => {},
    }
    if !source_md_found {
        let empty: Vec<(String, PlistNode)> = Vec::new();
        proof {
            assert(entry_shapes(empty@, 0) == md);
        }
        carry_exec(&mut meta, &empty, "format");
        carry_exec(&mut meta, &empty, "pixelFormat");
        carry_exec(&mut meta, &empty, "premultiplyAlpha");
    }
    let sc = chars_of(output_stem);
    let t1 = concat_str(sc.as_slice(), ".png");
    put_entry_exec(&mut meta, "textureFileName".to_string(), PlistNode::Text(string_from_chars(t1.as_slice())));
    put_entry_exec(&mut meta, "realTextureFileName".to_string(), PlistNode::Text(string_from_chars(t1.as_slice())));
    let ghost kept_shape = entry_shapes(kept@, kept@.len() as int);
    let ghost meta_shape = entry_shapes(meta@, meta@.len() as int);
    let mut root: Vec<(String, PlistNode)> = Vec::new();
    root.push(("frames".to_string(), PlistNode::Dict(kept)));
    root.push(("metadata".to_string(), PlistNode::Dict(meta)));
    proof {
        lemma_entry_shapes_all(root@);
        assert(entry_shapes(root@, 2) =~= seq![("frames"@, PlistShape::Dict(kept_shape)), ("metadata"@, PlistShape::Dict(meta_shape))]);
    }
    Ok((Some(PlistNode::Dict(root)), gone))
}

/// The entries stored one after the other (a later one under a key already
/// there replaces its value in place).
pub open spec fn stored(es: Seq<(Seq<char>, PlistShape)>, k: int) -> Seq<(Seq<char>, PlistShape)>
    decreases k,
{
    if k <= 0 || k > es.len() {
        seq![]
    } else {
        put_entry(stored(es, k - 1), es[k - 1].0, es[k - 1].1)
    }
}

/// The metadata of a new icon sheet: the source's `pixelFormat` and
/// `premultiplyAlpha` where present, format 3, and the texture file
/// `icons/{stem}.png`.
pub open spec fn icon_metadata(md: Seq<(Seq<char>, PlistShape)>, stem: Seq<char>) -> Seq<(Seq<char>, PlistShape)> {
    let a = carry(carry(seq![], md, "pixelFormat"@), md, "premultiplyAlpha"@);
    let t = PlistShape::Text("icons/"@ + stem + ".png"@);
    put_entry(put_entry(put_entry(a, "format"@, PlistShape::Int(3)), "textureFileName"@, t), "realTextureFileName"@, t)
}

/// The property list of a new icon sheet: the given frames (in the order
/// given) and metadata naming `icons/{output_stem}.png` (see
/// [`icon_metadata`], with the metadata of `metadata_source`).
pub fn build_icon_plist_from_frames(
    frame_entries: &Vec<(String, PlistNode)>,
    metadata_source: &PlistNode,
    output_stem: &str,
) -> (r: Result<PlistNode, AppError>)
    ensures
        r matches Ok(x) && shape_of(x) == PlistShape::Dict(seq![
            ("frames"@, PlistShape::Dict(stored(entry_shapes(frame_entries@, frame_entries@.len() as int), frame_entries@.len() as int))),
            ("metadata"@, PlistShape::Dict(icon_metadata(source_metadata(shape_of(*metadata_source)), output_stem@))),
        ]),
{
    let ghost fes = entry_shapes(frame_entries@, frame_entries@.len() as int);
    proof {
        lemma_entry_shapes_all(frame_entries@);
    }
    let mut frames: Vec<(String, PlistNode)> = Vec::new();
    let mut i: usize = 0;
    while i < frame_entries.len()
        invariant
            i <= frame_entries@.len(),
            fes == entry_shapes(frame_entries@, frame_entries@.len() as int),
            fes.len() == frame_entries@.len(),
            forall|t: int| 0 <= t < frame_entries@.len() ==> #[trigger] fes[t] == (frame_entries@[t].0@, shape_of(frame_entries@[t].1)),
            entry_shapes(frames@, frames@.len() as int) == stored(fes, i as int),
        decreases frame_entries@.len() - i,
    {
        proof {
            assert(fes[i as int] == (frame_entries@[i as int].0@, shape_of(frame_entries@[i as int].1)));
        }
        let v = copy_node(&frame_entries[i].1);
        put_entry_exec(&mut frames, frame_entries[i].0.clone(), v);
        i = i + 1;
    }
    let ghost md = source_metadata(shape_of(*metadata_source));
    let mut meta: Vec<(String, PlistNode)> = Vec::new();
    let mut found = false;
    match metadata_source {
        PlistNode::Dict(es) => {
            let ghost ess = entry_shapes(es@, es@.len() as int);
            proof {
                lemma_entry_shapes_all(es@);
                lemma_key_index(ess, "metadata"@);
            }
            match find_entry(es, "metadata") {
                Some(m) => {
                    proof {
                        assert(ess[m as int] == (es@[m as int].0@, shape_of(es@[m as int].1)));
                    }
                    match &es[m].1 {
                        PlistNode::Dict(src_md) => {
                            proof {
                                lemma_entry_shapes_all(src_md@);
                            }
                            carry_exec(&mut meta, src_md, "pixelFormat");
                            carry_exec(&mut meta, src_md, "premultiplyAlpha");
                            found = true;
                        },
                        _ => {},
                    }
                },
                None => {},
            }
        },
        _ => {},
    }
    if !found {
        let empty: Vec<(String, PlistNode)> = Vec::new();
        proof {
            assert(entry_shapes(empty@, 0) == md);
        }
        carry_exec(&mut meta, &empty, "pixelFormat");
        carry_exec(&mut meta, &empty, "premultiplyAlpha");
    }
    put_entry_exec(&mut meta, "format".to_string(), PlistNode::Int(3));
    let a = chars_of("icons/");
    let b = concat_str(a.as_slice(), output_stem);
    let c = concat_str(b.as_slice(), ".png");
    put_entry_exec(&mut meta, "textureFileName".to_string(), PlistNode::Text(string_from_chars(c.as_slice())));
    put_entry_exec(&mut meta, "realTextureFileName".to_string(), PlistNode::Text(string_from_chars(c.as_slice())));
    let ghost frames_shape = entry_shapes(frames@, frames@.len() as int);
    let ghost meta_shape = entry_shapes(meta@, meta@.len() as int);
    let mut root: Vec<(String, PlistNode)> = Vec::new();
    root.push(("frames".to_string(), PlistNode::Dict(frames)));
    root.push(("metadata".to_string(), PlistNode::Dict(meta)));
    proof {
        lemma_entry_shapes_all(root@);
        assert(entry_shapes(root@, 2) =~= seq![("frames"@, PlistShape::Dict(frames_shape)), ("metadata"@, PlistShape::Dict(meta_shape))]);
    }
    Ok(PlistNode::Dict(root))
}

} // verus!
