//! The atlas work of converting a pack to the newest game: preparing the
//! sprites of frames the pack lacks, adding them in a band below the atlas,
//! painting replacements into their existing slots, and the image steps
//! those use (drawing over, copying over, turning a quarter, clearing).

use vstd::prelude::*;
use crate::errors::AppError;
use crate::report::{issue_view, issues_view, ReportIssue, ReportLevel};
use crate::text::{chars_of, concat_chars, concat_str, decimal_chars, decimal_chars_exec, string_from_chars};
use crate::ink_finish::copy_bytes;
use crate::frame_crop::{lemma_index_bound, lemma_row_before, px, trim_transparent_rgba, trimmed_spec};
use crate::icon_editor::{format_texture_rect, texture_rect_text, IconEditorRect, TrimInsets};
use crate::image_alpha::{clear_orthogonally_isolated_pixels, cleared_spec, RgbaBuffer};
use crate::merge_sheet::{at_least_one, format_size, frames_dict, size_text, with_atlas_size};
use crate::plist_tree::{
    copy_node, entry_shapes, find_entry, key_index, lemma_entry_shapes_all, lemma_key_index, put_entry, put_entry_exec,
    shape_of, PlistNode, PlistShape,
};

verus! {

/// The four bytes of pixel `(x, y)` of a `w`-wide image.
pub open spec fn pixel4(d: Seq<u8>, w: int, x: int, y: int) -> Seq<u8> {
    d.subrange((y * w + x) * 4, (y * w + x) * 4 + 4)
}

/// What `image`'s `Rgba::blend` makes of a bottom pixel under a top pixel
/// whose alpha is neither 0 nor 255 (a floating-point mix).
pub uninterp spec fn rgba_blend(bottom: Seq<u8>, top: Seq<u8>) -> Seq<u8>;

/// Byte `c` of a bottom pixel after a top pixel is drawn over it: unchanged
/// under a clear top pixel, the top pixel where it is opaque, else the blend.
pub open spec fn blended_byte(bottom: Seq<u8>, top: Seq<u8>, c: int) -> u8 {
    if top[3] == 0 {
        bottom[c]
    } else if top[3] == 255 {
        top[c]
    } else {
        rgba_blend(bottom, top)[c]
    }
}

/// Pixel `(i, j)` of a `bw × bh` bottom image is covered by a `tw × th` top
/// image drawn at `(x, y)`.
pub open spec fn covered(bw: int, bh: int, tw: int, th: int, x: int, y: int, i: int, j: int) -> bool {
    x <= i < x + tw && i < bw && y <= j < y + th && j < bh
}

/// The bottom image's bytes after `top` is drawn over it at `(x, y)`
/// (`imageops::overlay`): covered pixels blended, the others unchanged.
pub open spec fn overlay_spec(b: Seq<u8>, bw: int, bh: int, t: Seq<u8>, tw: int, th: int, x: int, y: int) -> Seq<u8> {
    Seq::new(
        b.len(),
        |k: int|
            {
                let p = k / 4;
                let i = p % bw;
                let j = p / bw;
                if covered(bw, bh, tw, th, x, y, i, j) {
                    blended_byte(pixel4(b, bw, i, j), pixel4(t, tw, i - x, j - y), k % 4)
                } else {
                    b[k]
                }
            },
    )
}

/// `image::imageops::overlay` of `top` over `bottom` at `(x, y)`: each
/// covered pixel is the top pixel drawn over the bottom one with
/// `Rgba::blend` (the bottom pixel under a clear top pixel, the top pixel
/// where it is opaque, a floating-point mix otherwise, named
/// [`rgba_blend`]); the rest of `bottom` and its size stay.
#[verifier::external_body]
fn overlay_rgba(bottom: &mut RgbaBuffer, top: &RgbaBuffer, x: u32, y: u32)
    requires
        old(bottom).wf(),
        top.wf(),
    ensures
        final(bottom).width == old(bottom).width,
        final(bottom).height == old(bottom).height,
        final(bottom).data@ == overlay_spec(
            old(bottom).data@,
            old(bottom).width as int,
            old(bottom).height as int,
            top.data@,
            top.width as int,
            top.height as int,
            x as int,
            y as int,
        ),
        forall|i: int, j: int, c: int|
            0 <= c < 4 && covered(old(bottom).width as int, old(bottom).height as int, top.width as int, top.height as int, x as int, y as int, i, j)
                && pixel4(top.data@, top.width as int, i - x, j - y)[3] != 0 && pixel4(top.data@, top.width as int, i - x, j - y)[3] != 255
                ==> #[trigger] px(final(bottom).data@, old(bottom).width as int, i, j, c) == rgba_blend(
                pixel4(old(bottom).data@, old(bottom).width as int, i, j),
                pixel4(top.data@, top.width as int, i - x, j - y),
            )[c],
{
    let b = image::RgbaImage::from_raw(bottom.width, bottom.height, bottom.data.clone());
    let t = image::RgbaImage::from_raw(top.width, top.height, top.data.clone());
    if let (Some(mut b), Some(t)) = (b, t) {
        image::imageops::overlay(&mut b, &t, i64::from(x), i64::from(y));
        bottom.data = b.into_raw();
    }
}

/// A clear `w × h` image.
pub fn clear_image(w: u32, h: u32) -> (r: RgbaBuffer)
    requires
        (w as int) * (h as int) * 4 <= usize::MAX,
    ensures
        r.width == w,
        r.height == h,
        r.wf(),
        forall|k: int| 0 <= k < r.data@.len() ==> #[trigger] r.data@[k] == 0,
{
    let n = (w as usize) * (h as usize) * 4;
    let mut data: Vec<u8> = Vec::new();
    let mut k: usize = 0;
    while k < n
        invariant
            k <= n,
            data@.len() == k,
            forall|q: int| 0 <= q < k ==> #[trigger] data@[q] == 0,
        decreases n - k,
    {
        data.push(0);
        k = k + 1;
    }
    RgbaBuffer { width: w, height: h, data }
}

/// The sprite of a frame the pack lacks, ready to be added: its isolated
/// pixels cleared, then its transparent margins cut off (see
/// [`trimmed_spec`]); with the margins cut.
pub fn trim_append_sprite(sprite: &RgbaBuffer) -> (r: (RgbaBuffer, TrimInsets))
    requires
        sprite.wf(),
    ensures
        exists|c: RgbaBuffer|
            #![trigger trimmed_spec(c, r.1, r.0)]
            c.width == sprite.width && c.height == sprite.height && c.wf() && c.data@ == cleared_spec(
                sprite.data@,
                sprite.width as int,
                sprite.pixels(),
            ) && trimmed_spec(c, r.1, r.0),
{
    let c = clear_orthogonally_isolated_pixels(sprite);
    let r = trim_transparent_rgba(&c);
    r
}

/// A frame's entries once its sprite is prepared: the offset moved by the
/// trim, not rotated, and sprite and source size the trimmed size (each
/// side at least 1).
pub open spec fn prepared_frame(fd: Seq<(Seq<char>, PlistShape)>, offset: Seq<char>, w: u32, h: u32) -> Seq<(Seq<char>, PlistShape)> {
    let size = PlistShape::Text(size_text(at_least_one(w), at_least_one(h)));
    let a = put_entry(fd, "spriteOffset"@, PlistShape::Text(offset));
    let b = put_entry(a, "textureRotated"@, PlistShape::Bool(false));
    put_entry(put_entry(b, "spriteSize"@, size), "spriteSourceSize"@, size)
}

/// Prepares the sprite of a frame the pack lacks: `None` where the frame is
/// not a dictionary; else the sprite as [`trim_append_sprite`] makes it, and
/// the frame with `sprite_offset` (the frame's offset moved by the trim,
/// which the caller works out in floating point from the margins) and the
/// entries of [`prepared_frame`].
pub fn prepare_append_sprite(frame: PlistNode, sprite: &RgbaBuffer, sprite_offset: String) -> (r: Option<
    (PlistNode, RgbaBuffer),
>)
    requires
        sprite.wf(),
    ensures
        !(frame is Dict) <==> r is None,
        r matches Some((f, img)) ==> {
            &&& (exists|c: RgbaBuffer, ins: TrimInsets|
                #![trigger trimmed_spec(c, ins, img)]
                c.width == sprite.width && c.height == sprite.height && c.wf() && c.data@ == cleared_spec(
                    sprite.data@,
                    sprite.width as int,
                    sprite.pixels(),
                ) && trimmed_spec(c, ins, img))
            &&& frame matches PlistNode::Dict(fd) && shape_of(f) == PlistShape::Dict(
                prepared_frame(entry_shapes(fd@, fd@.len() as int), sprite_offset@, img.width, img.height),
            )
        },
{
    let mut fd = match frame {
        PlistNode::Dict(fd) => fd,
        _ => return None,
    };
    let (img, ins) = trim_append_sprite(sprite);
    let w = if img.width > 1 { img.width } else { 1 };
    let h = if img.height > 1 { img.height } else { 1 };
    put_entry_exec(&mut fd, "spriteOffset".to_string(), PlistNode::Text(sprite_offset));
    put_entry_exec(&mut fd, "textureRotated".to_string(), PlistNode::Bool(false));
    put_entry_exec(&mut fd, "spriteSize".to_string(), PlistNode::Text(format_size(w, h)));
    put_entry_exec(&mut fd, "spriteSourceSize".to_string(), PlistNode::Text(format_size(w, h)));
    Some((PlistNode::Dict(fd), img))
}

/// The slot sizes of the sprites to add: each side of the image, at least 1.
pub open spec fn sprite_dims(sprites: Seq<(String, PlistNode, RgbaBuffer)>) -> Seq<(int, int)> {
    sprites.map_values(|t: (String, PlistNode, RgbaBuffer)| (at_least_one(t.2.width) as int, at_least_one(t.2.height) as int))
}

/// The widest slot (sprite plus a one-pixel gap), 0 for none.
pub open spec fn widest_gap_slot(d: Seq<(int, int)>) -> int
    decreases d.len(),
{
    if d.len() == 0 {
        0
    } else {
        let m = widest_gap_slot(d.drop_last());
        if d.last().0 + 1 > m {
            d.last().0 + 1
        } else {
            m
        }
    }
}

/// The width of the atlas after sprites are added: the old width, at least
/// the widest slot plus 2, and at least 2.
pub open spec fn append_width(aw: int, d: Seq<(int, int)>) -> int {
    let a = if aw > widest_gap_slot(d) + 2 { aw } else { widest_gap_slot(d) + 2 };
    if a > 2 {
        a
    } else {
        2
    }
}

/// The row packing of the first `k` slots into a band `pw` wide: the cursor,
/// the top of the current row, the current row's height, and each slot's
/// corner (rows start at x = 1; a slot that does not fit before the right
/// margin opens a new row, unless it would be the row's first).
pub open spec fn rows(d: Seq<(int, int)>, pw: int, k: int) -> (int, int, int, Seq<(int, int)>)
    decreases k,
{
    if k <= 0 || k > d.len() {
        (1, 0, 0, seq![])
    } else {
        let (cx, by, rh, pos) = rows(d, pw, k - 1);
        let sw = d[k - 1].0 + 1;
        let sh = d[k - 1].1 + 1;
        if cx > 1 && cx + sw + 1 > pw {
            (1 + sw, by + rh, sh, pos.push((1, by + rh)))
        } else {
            (cx + sw, by, if rh > sh { rh } else { sh }, pos.push((cx, by)))
        }
    }
}

/// The height of the band the sprites are added in.
pub open spec fn band_height(d: Seq<(int, int)>, pw: int) -> int {
    let (cx, by, rh, pos) = rows(d, pw, d.len() as int);
    by + rh + 1
}

/// Records the atlas size `{w,h}` in the sheet's `metadata` dictionary
/// (added empty where there is none; see [`with_atlas_size`]). Fails where
/// the root or its `metadata` entry is not a dictionary.
pub fn update_plist_metadata_size(root: PlistNode, w: u32, h: u32) -> (r: Result<PlistNode, AppError>)
    ensures
        match shape_of(root) {
            PlistShape::Dict(es) => match with_atlas_size(es, w, h) {
                Some(x) => r matches Ok(n) && shape_of(n) == PlistShape::Dict(x),
                None => r matches Err(AppError::ParseError(m)) && m@ == "metadata section must be dictionary"@,
            },
            _ => r matches Err(AppError::ParseError(m)) && m@ == "plist root must be a dictionary"@,
        },
{
    let mut es = match root {
        PlistNode::Dict(es) => es,
        _ => return Err(AppError::ParseError("plist root must be a dictionary".to_string())),
    };
    let ghost es1 = entry_shapes(es@, es@.len() as int);
    proof {
        lemma_entry_shapes_all(es@);
        reveal_strlit("metadata");
    }
    let mi = match find_entry(&es, "metadata") {
        Some(m) => m,
        None => {
            let ghost before = es@;
            es.push(("metadata".to_string(), PlistNode::Dict(Vec::new())));
            proof {
                lemma_entry_shapes_all(es@);
                lemma_entry_shapes_all(before);
                assert forall|t: int| 0 <= t < before.len() implies #[trigger] es@[t] == before[t] by {}
                assert(entry_shapes(es@, es@.len() as int) =~= es1.push(("metadata"@, PlistShape::Dict(seq![]))));
            }
            es.len() - 1
        },
    };
    let ghost es2 = entry_shapes(es@, es@.len() as int);
    proof {
        lemma_entry_shapes_all(es@);
        lemma_key_index(es1, "metadata"@);
        lemma_key_index(es2, "metadata"@);
        assert(key_index(es2, "metadata"@) == mi);
    }
    let ghost es_before_m = es@;
    let (mk, mv) = es.remove(mi);
    let mut md = match mv {
        PlistNode::Dict(md) => md,
        _ => return Err(AppError::ParseError("metadata section must be dictionary".to_string())),
    };
    put_entry_exec(&mut md, "size".to_string(), PlistNode::Text(format_size(w, h)));
    es.insert(mi, ("metadata".to_string(), PlistNode::Dict(md)));
    proof {
        lemma_entry_shapes_all(es@);
        assert(es@ =~= es_before_m.update(mi as int, es@[mi as int]));
        assert forall|t: int| 0 <= t < es@.len() && t != mi implies #[trigger] es@[t] == es_before_m[t] by {}
        assert(entry_shapes(es@, es@.len() as int) =~= es2.update(mi as int, (es2[mi as int].0, shape_of(es@[mi as int].1))));
    }
    Ok(PlistNode::Dict(es))
}

/// Where the sprites go: the new width, each sprite's corner in the band
/// (see [`rows`]), and the band's height.
#[verifier::rlimit(40)]
fn append_slots(aw: u32, sprites: &Vec<(String, PlistNode, RgbaBuffer)>) -> (r: (u32, Vec<(u32, u32)>, u32))
    requires
        forall|i: int| 0 <= i < sprites@.len() ==> (#[trigger] sprites@[i]).2.width + 3 <= u32::MAX,
        band_height(sprite_dims(sprites@), append_width(aw as int, sprite_dims(sprites@))) <= u32::MAX,
    ensures
        r.0 == append_width(aw as int, sprite_dims(sprites@)),
        r.1@.len() == sprites@.len(),
        forall|i: int| 0 <= i < sprites@.len() ==> {
            let c = rows(sprite_dims(sprites@), r.0 as int, sprites@.len() as int).3[i];
            #[trigger] r.1@[i].0 == c.0 && r.1@[i].1 == c.1
        },
        r.2 == band_height(sprite_dims(sprites@), r.0 as int),
{
    let ghost d = sprite_dims(sprites@);
    let n = sprites.len();
    let mut widest: u32 = 0;
    let mut i: usize = 0;
    while i < n
        invariant
            n == sprites@.len(),
            d == sprite_dims(sprites@),
            i <= n,
            widest == widest_gap_slot(d.subrange(0, i as int)),
            forall|q: int| 0 <= q < sprites@.len() ==> (#[trigger] sprites@[q]).2.width + 3 <= u32::MAX,
        decreases n - i,
    {
        let w = if sprites[i].2.width > 1 { sprites[i].2.width } else { 1 };
        proof {
            assert(d.subrange(0, i + 1).drop_last() =~= d.subrange(0, i as int));
            assert(d[i as int].0 == w);
            lemma_widest_nonneg(d.subrange(0, i as int));
            assert(sprite_dims(sprites@.subrange(0, i as int)) =~= d.subrange(0, i as int));
            lemma_widest_bounded(sprites@.subrange(0, i as int));
        }
        if w + 1 > widest {
            widest = w + 1;
        }
        i = i + 1;
    }
    proof {
        assert(d.subrange(0, n as int) =~= d);
        lemma_widest_bounded(sprites@);
    }
    let need = widest + 2;
    let a = if aw > need { aw } else { need };
    let pw = if a > 2 { a } else { 2 };
    proof {
        lemma_dims_in(sprites@, pw as int);
    }
    let mut cx: u64 = 1;
    let mut by: u64 = 0;
    let mut rh: u64 = 0;
    let mut pos: Vec<(u32, u32)> = Vec::new();
    let mut k: usize = 0;
    while k < n
        invariant
            n == sprites@.len(),
            d == sprite_dims(sprites@),
            k <= n,
            pw == append_width(aw as int, d),
            pw >= 3 || n == 0,
            forall|q: int| 0 <= q < d.len() ==> (#[trigger] d[q]).0 >= 1 && d[q].1 >= 1,
            forall|q: int| 0 <= q < d.len() ==> (#[trigger] d[q]).0 + 3 <= pw,
            band_height(d, pw as int) <= u32::MAX,
            (cx as int, by as int, rh as int) == (rows(d, pw as int, k as int).0, rows(d, pw as int, k as int).1, rows(d, pw as int, k as int).2),
            pos@.len() == k,
            forall|q: int| 0 <= q < k ==> {
                let c = rows(d, pw as int, k as int).3[q];
                #[trigger] pos@[q].0 == c.0 && pos@[q].1 == c.1
            },
        decreases n - k,
    {
        proof {
            lemma_rows_cursor(d, pw as int, k as int);
            lemma_rows_grow(d, pw as int, k as int, n as int);
            lemma_rows_grow(d, pw as int, (k + 1) as int, n as int);
            lemma_rows_len(d, pw as int, k as int);
            lemma_rows_len(d, pw as int, (k + 1) as int);
        }
        let ghost rk = rows(d, pw as int, k as int);
        let ghost old_pos = pos@;
        let w = if sprites[k].2.width > 1 { sprites[k].2.width } else { 1 };
        let h = if sprites[k].2.height > 1 { sprites[k].2.height } else { 1 };
        let sw = (w as u64) + 1;
        let sh = (h as u64) + 1;
        proof {
            assert(d[k as int] == (w as int, h as int));
        }
        if cx > 1 && cx + sw + 1 > pw as u64 {
            by = by + rh;
            cx = 1 + sw;
            rh = sh;
            pos.push((1, by as u32));
        } else {
            pos.push((cx as u32, by as u32));
            cx = cx + sw;
            if sh > rh {
                rh = sh;
            }
        }
        proof {
            assert forall|q: int| 0 <= q < k + 1 implies {
                let c = rows(d, pw as int, k + 1).3[q];
                #[trigger] pos@[q].0 == c.0 && pos@[q].1 == c.1
            } by {
                assert(rows(d, pw as int, k + 1).3 == rk.3.push(rows(d, pw as int, k + 1).3[k as int]));
                if q < k {
                    assert(rows(d, pw as int, k + 1).3[q] == rk.3[q]);
                    assert(pos@[q] == old_pos[q]);
                }
            }
        }
        k = k + 1;
    }
    proof {
        lemma_rows_grow(d, pw as int, n as int, n as int);
    }
    let band = (by + rh + 1) as u32;
    (pw, pos, band)
}

/// Byte `ch` of pixel `(i, j)` of a sprite turned a quarter clockwise
/// (`imageops::rotate90`): pixel `(y, h - 1 - x)` of the sprite.
pub open spec fn turned_px(img: RgbaBuffer, i: int, j: int, ch: int) -> u8 {
    px(img.data@, img.width as int, j, img.height - 1 - i, ch)
}

/// The sprite turned a quarter clockwise: `h × w`, pixel `(i, j)` taken
/// from `(j, h - 1 - i)`.
pub fn rotate90_rgba(img: &RgbaBuffer) -> (r: RgbaBuffer)
    requires
        img.wf(),
    ensures
        r.width == img.height,
        r.height == img.width,
        r.wf(),
        forall|i: int, j: int, ch: int|
            0 <= i < r.width && 0 <= j < r.height && 0 <= ch < 4 ==> #[trigger] px(r.data@, r.width as int, i, j, ch) == turned_px(*img, i, j, ch),
{
    let aw = img.width;
    let ah = img.height;
    let tw = ah;
    let th = aw;
    let dlen = img.data.len();
    let mut data: Vec<u8> = Vec::new();
    let mut j: u32 = 0;
    while j < th
        invariant
            img.wf(),
            aw == img.width,
            ah == img.height,
            tw == ah,
            th == aw,
            dlen == img.data@.len(),
            j <= th,
            data@.len() == (j as int * tw as int) * 4,
            forall|i2: int, j2: int, ch: int|
                0 <= i2 < tw && 0 <= j2 < j && 0 <= ch < 4 ==> #[trigger] px(data@, tw as int, i2, j2, ch) == turned_px(*img, i2, j2, ch),
        decreases th - j,
    {
        let mut i: u32 = 0;
        while i < tw
            invariant
                img.wf(),
                aw == img.width,
                ah == img.height,
                tw == ah,
                th == aw,
                dlen == img.data@.len(),
                j < th,
                i <= tw,
                data@.len() == (j as int * tw as int + i as int) * 4,
                forall|i2: int, j2: int, ch: int|
                    0 <= i2 < tw && 0 <= j2 && 0 <= ch < 4 && (j2 < j || (j2 == j && i2 < i)) ==> #[trigger] px(data@, tw as int, i2, j2, ch) == turned_px(*img, i2, j2, ch),
            decreases tw - i,
        {
            let ghost before = data@;
            let ax = j as usize;
            let ay = (ah - 1 - i) as usize;
            proof {
                lemma_index_bound(ax as int, ay as int, aw as int, ah as int, 3);
                assert(0 <= ay * aw) by (nonlinear_arith)
                    requires
                        0 <= ay,
                        0 <= aw,
                ;
            }
            let base = (ay * (aw as usize) + ax) * 4;
            data.push(img.data[base]);
            data.push(img.data[base + 1]);
            data.push(img.data[base + 2]);
            data.push(img.data[base + 3]);
            proof {
                assert forall|i2: int, j2: int, ch: int|
                    0 <= i2 < tw && 0 <= j2 && 0 <= ch < 4 && (j2 < j || (j2 == j && i2 < i + 1)) implies #[trigger] px(data@, tw as int, i2, j2, ch) == turned_px(*img, i2, j2, ch) by {
                    if j2 < j || i2 < i {
                        lemma_row_before(i2, j2, i as int, j as int, tw as int);
                        assert((j2 * tw + i2) * 4 + ch < (j * tw + i) * 4) by (nonlinear_arith)
                            requires
                                j2 * tw + i2 < j * tw + i,
                                0 <= ch < 4,
                        ;
                        assert(px(data@, tw as int, i2, j2, ch) == px(before, tw as int, i2, j2, ch));
                    } else {
                        assert(i2 == i && j2 == j);
                    }
                }
            }
            i = i + 1;
        }
        proof {
            assert((j as int * tw as int + tw as int) * 4 == ((j as int + 1) * tw as int) * 4) by (nonlinear_arith);
        }
        j = j + 1;
    }
    proof {
        assert((th as int * tw as int) * 4 == (tw as int) * (th as int) * 4) by (nonlinear_arith);
    }
    RgbaBuffer { width: tw, height: th, data }
}

/// Byte `ch` of pixel `(i, j)` of an image `w × h` with bytes `d` once a
/// slot is repainted: where `top` (`tw × th`, bytes `t`) lies when put at
/// `(x, y)` its pixel (`imageops::replace`), else 0 inside the old
/// `ow × oh` rectangle at `(x, y)` (cleared), else as it was.
pub open spec fn slot_px(
    d: Seq<u8>,
    w: int,
    h: int,
    t: Seq<u8>,
    tw: int,
    th: int,
    x: int,
    y: int,
    ow: int,
    oh: int,
    i: int,
    j: int,
    ch: int,
) -> u8 {
    if covered(w, h, tw, th, x, y, i, j) {
        px(t, tw, i - x, j - y, ch)
    } else if x <= i < x + ow && y <= j < y + oh {
        0
    } else {
        px(d, w, i, j, ch)
    }
}

/// `img` with the old `ow × oh` rectangle at `(x, y)` cleared and `top`
/// copied in at `(x, y)`, clipped to the image.
fn paint_slot(img: &RgbaBuffer, top: &RgbaBuffer, x: u32, y: u32, ow: u32, oh: u32) -> (r: RgbaBuffer)
    requires
        img.wf(),
        top.wf(),
    ensures
        r.width == img.width,
        r.height == img.height,
        r.wf(),
        forall|i: int, j: int, ch: int|
            0 <= i < r.width && 0 <= j < r.height && 0 <= ch < 4 ==> #[trigger] px(r.data@, r.width as int, i, j, ch) == slot_px(
                img.data@,
                img.width as int,
                img.height as int,
                top.data@,
                top.width as int,
                top.height as int,
                x as int,
                y as int,
                ow as int,
                oh as int,
                i,
                j,
                ch,
            ),
{
    let aw = img.width;
    let ah = img.height;
    let tw = top.width;
    let th = top.height;
    let dlen = img.data.len();
    let tlen = top.data.len();
    let mut data: Vec<u8> = Vec::new();
    let mut j: u32 = 0;
    while j < ah
        invariant
            img.wf(),
            top.wf(),
            aw == img.width,
            ah == img.height,
            tw == top.width,
            th == top.height,
            dlen == img.data@.len(),
            tlen == top.data@.len(),
            j <= ah,
            data@.len() == (j as int * aw as int) * 4,
            forall|i2: int, j2: int, ch: int|
                0 <= i2 < aw && 0 <= j2 < j && 0 <= ch < 4 ==> #[trigger] px(data@, aw as int, i2, j2, ch) == slot_px(
                    img.data@, aw as int, ah as int, top.data@, tw as int, th as int, x as int, y as int, ow as int, oh as int, i2, j2, ch),
        decreases ah - j,
    {
        let mut i: u32 = 0;
        while i < aw
            invariant
                img.wf(),
                top.wf(),
                aw == img.width,
                ah == img.height,
                tw == top.width,
                th == top.height,
                dlen == img.data@.len(),
                tlen == top.data@.len(),
                j < ah,
                i <= aw,
                data@.len() == (j as int * aw as int + i as int) * 4,
                forall|i2: int, j2: int, ch: int|
                    0 <= i2 < aw && 0 <= j2 && 0 <= ch < 4 && (j2 < j || (j2 == j && i2 < i)) ==> #[trigger] px(data@, aw as int, i2, j2, ch) == slot_px(
                        img.data@, aw as int, ah as int, top.data@, tw as int, th as int, x as int, y as int, ow as int, oh as int, i2, j2, ch),
            decreases aw - i,
        {
            let ghost before = data@;
            let in_top = i >= x && i - x < tw && j >= y && j - y < th;
            let in_old = i >= x && i - x < ow && j >= y && j - y < oh;
            if in_top {
                let ax = (i - x) as usize;
                let ay = (j - y) as usize;
                proof {
                    lemma_index_bound(ax as int, ay as int, tw as int, th as int, 3);
                    assert(0 <= ay * tw) by (nonlinear_arith)
                        requires
                            0 <= ay,
                            0 <= tw,
                    ;
                }
                let base = (ay * (tw as usize) + ax) * 4;
                data.push(top.data[base]);
                data.push(top.data[base + 1]);
                data.push(top.data[base + 2]);
                data.push(top.data[base + 3]);
            } else if in_old {
                data.push(0);
                data.push(0);
                data.push(0);
                data.push(0);
            } else {
                let ax = i as usize;
                let ay = j as usize;
                proof {
                    lemma_index_bound(ax as int, ay as int, aw as int, ah as int, 3);
                    assert(0 <= ay * aw) by (nonlinear_arith)
                        requires
                            0 <= ay,
                            0 <= aw,
                    ;
                }
                let base = (ay * (aw as usize) + ax) * 4;
                data.push(img.data[base]);
                data.push(img.data[base + 1]);
                data.push(img.data[base + 2]);
                data.push(img.data[base + 3]);
            }
            proof {
                assert forall|i2: int, j2: int, ch: int|
                    0 <= i2 < aw && 0 <= j2 && 0 <= ch < 4 && (j2 < j || (j2 == j && i2 < i + 1)) implies #[trigger] px(data@, aw as int, i2, j2, ch) == slot_px(
                        img.data@, aw as int, ah as int, top.data@, tw as int, th as int, x as int, y as int, ow as int, oh as int, i2, j2, ch) by {
                    if j2 < j || i2 < i {
                        lemma_row_before(i2, j2, i as int, j as int, aw as int);
                        assert((j2 * aw + i2) * 4 + ch < (j * aw + i) * 4) by (nonlinear_arith)
                            requires
                                j2 * aw + i2 < j * aw + i,
                                0 <= ch < 4,
                        ;
                        assert(px(data@, aw as int, i2, j2, ch) == px(before, aw as int, i2, j2, ch));
                    } else {
                        assert(i2 == i && j2 == j);
                    }
                }
            }
            i = i + 1;
        }
        proof {
            assert((j as int * aw as int + aw as int) * 4 == ((j as int + 1) * aw as int) * 4) by (nonlinear_arith);
        }
        j = j + 1;
    }
    proof {
        assert((ah as int * aw as int) * 4 == (aw as int) * (ah as int) * 4) by (nonlinear_arith);
    }
    RgbaBuffer { width: aw, height: ah, data }
}

/// A replacement slot read from a frame's old texture rectangle: its corner
/// `(x, y)`, its old size `ow × oh`, and whether it is rotated.
pub type ReplaceSlot = (u32, u32, u32, u32, bool);

/// The width of a sprite as packed into its slot (turned when rotated).
pub open spec fn packed_w(img: RgbaBuffer, rot: bool) -> int {
    if rot {
        img.height as int
    } else {
        img.width as int
    }
}

/// The height of a sprite as packed into its slot.
pub open spec fn packed_h(img: RgbaBuffer, rot: bool) -> int {
    if rot {
        img.width as int
    } else {
        img.height as int
    }
}

/// Byte `ch` of pixel `(i, j)` of a sprite as packed into its slot.
pub open spec fn packed_px(img: RgbaBuffer, rot: bool, i: int, j: int, ch: int) -> u8 {
    if rot {
        turned_px(img, i, j, ch)
    } else {
        px(img.data@, img.width as int, i, j, ch)
    }
}

/// The atlas size needed once the first `k` sprites with a slot are put
/// at their corners: the old size, grown to hold each packed sprite.
pub open spec fn needed_size(
    w: int,
    h: int,
    sprites: Seq<(String, PlistNode, RgbaBuffer)>,
    slots: Seq<Option<ReplaceSlot>>,
    k: int,
) -> (int, int)
    decreases k,
{
    if k <= 0 || k > sprites.len() {
        (w, h)
    } else {
        let (a, b) = needed_size(w, h, sprites, slots, k - 1);
        match slots[k - 1] {
            None => (a, b),
            Some((x, y, ow, oh, rot)) => {
                let img = sprites[k - 1].2;
                let nx = x + packed_w(img, rot);
                let ny = y + packed_h(img, rot);
                (if nx > a { nx } else { a }, if ny > b { ny } else { b })
            },
        }
    }
}

/// Byte `ch` of pixel `(i, j)` of the `w × h` atlas with bytes `base` once
/// the first `k` sprites with a slot are painted in (see [`slot_px`]).
pub open spec fn repainted(
    base: Seq<u8>,
    w: int,
    h: int,
    sprites: Seq<(String, PlistNode, RgbaBuffer)>,
    slots: Seq<Option<ReplaceSlot>>,
    k: int,
    i: int,
    j: int,
    ch: int,
) -> u8
    decreases k,
{
    if k <= 0 || k > sprites.len() {
        px(base, w, i, j, ch)
    } else {
        match slots[k - 1] {
            None => repainted(base, w, h, sprites, slots, k - 1, i, j, ch),
            Some((x, y, ow, oh, rot)) => {
                let img = sprites[k - 1].2;
                if covered(w, h, packed_w(img, rot), packed_h(img, rot), x as int, y as int, i, j) {
                    packed_px(img, rot, i - x, j - y, ch)
                } else if x <= i < x + ow && y <= j < y + oh {
                    0
                } else {
                    repainted(base, w, h, sprites, slots, k - 1, i, j, ch)
                }
            },
        }
    }
}

/// The atlas the slots are painted into: grown to the needed size on a
/// clear canvas (the old atlas drawn at the top left) where it is too
/// small, else the atlas as it is.
pub open spec fn replace_base(atlas: RgbaBuffer, sprites: Seq<(String, PlistNode, RgbaBuffer)>, slots: Seq<Option<ReplaceSlot>>) -> Seq<u8> {
    let (nw, nh) = needed_size(atlas.width as int, atlas.height as int, sprites, slots, sprites.len() as int);
    if nw > atlas.width || nh > atlas.height {
        overlay_spec(Seq::new((nw * nh * 4) as nat, |k: int| 0u8), nw, nh, atlas.data@, atlas.width as int, atlas.height as int, 0, 0)
    } else {
        atlas.data@
    }
}

/// A frame once its sprite is painted into its slot at `(x, y)`, packed
/// `w × h`: a dictionary gets the texture rectangle (each side at least 1)
/// and the rotation flag, anything else stays.
pub open spec fn replaced_frame(f: PlistShape, x: u32, y: u32, w: int, h: int, rot: bool) -> PlistShape {
    match f {
        PlistShape::Dict(fd) => PlistShape::Dict(
            put_entry(
                put_entry(
                    fd,
                    "textureRect"@,
                    PlistShape::Text(texture_rect_text(IconEditorRect { x, y, width: at_least_one(w as u32), height: at_least_one(h as u32) })),
                ),
                "textureRotated"@,
                PlistShape::Bool(rot),
            ),
        ),
        _ => f,
    }
}

/// The frames once the first `k` sprites with a slot are stored under
/// their names (see [`replaced_frame`]).
pub open spec fn frames_with_replaced(
    fs: Seq<(Seq<char>, PlistShape)>,
    sprites: Seq<(String, PlistNode, RgbaBuffer)>,
    slots: Seq<Option<ReplaceSlot>>,
    k: int,
) -> Seq<(Seq<char>, PlistShape)>
    decreases k,
{
    if k <= 0 || k > sprites.len() {
        fs
    } else {
        let prev = frames_with_replaced(fs, sprites, slots, k - 1);
        match slots[k - 1] {
            None => prev,
            Some((x, y, ow, oh, rot)) => {
                let img = sprites[k - 1].2;
                put_entry(prev, sprites[k - 1].0@, replaced_frame(shape_of(sprites[k - 1].1), x, y, packed_w(img, rot), packed_h(img, rot), rot))
            },
        }
    }
}

proof fn lemma_needed_size(w: int, h: int, sprites: Seq<(String, PlistNode, RgbaBuffer)>, slots: Seq<Option<ReplaceSlot>>, k: int, n: int)
    requires
        0 <= k <= n <= sprites.len(),
        0 <= w,
        0 <= h,
    ensures
        needed_size(w, h, sprites, slots, k).0 <= needed_size(w, h, sprites, slots, n).0,
        needed_size(w, h, sprites, slots, k).1 <= needed_size(w, h, sprites, slots, n).1,
        w <= needed_size(w, h, sprites, slots, k).0,
        h <= needed_size(w, h, sprites, slots, k).1,
    decreases n - k, k,
{
    if k < n {
        lemma_needed_size(w, h, sprites, slots, k, n - 1);
        lemma_needed_size(w, h, sprites, slots, n - 1, n - 1);
    } else if k > 0 {
        lemma_needed_size(w, h, sprites, slots, k - 1, k - 1);
    }
}

/// Paints replacement sprites into their frames' existing slots instead of
/// adding a band. `slots[i]` is the slot read from the old texture
/// rectangle of sprite `i`'s frame; sprites without one are skipped. With no
/// sprites the atlas and the list come back as they are. Otherwise the atlas
/// grows (on a clear canvas) only as far as [`needed_size`] asks; then, in
/// order, each sprite's old rectangle is cleared and the sprite (turned a
/// quarter clockwise where its slot is rotated) is copied in at the slot's
/// corner (see [`repainted`]); its frame is stored under its name with the
/// new texture rectangle and rotation flag, and `metadata.size` records the
/// atlas size. Fails where the list has no `frames` dictionary, or where
/// its `metadata` entry is not a dictionary.
pub fn replace_sprites_in_atlas(
    atlas: &RgbaBuffer,
    root: PlistNode,
    sprites: &Vec<(String, PlistNode, RgbaBuffer)>,
    slots: &Vec<Option<ReplaceSlot>>,
) -> (r: Result<(RgbaBuffer, PlistNode), AppError>)
    requires
        atlas.wf(),
        slots@.len() == sprites@.len(),
        forall|i: int| 0 <= i < sprites@.len() ==> (#[trigger] sprites@[i]).2.wf(),
        forall|i: int|
            0 <= i < sprites@.len() ==> (#[trigger] slots@[i] matches Some((x, y, ow, oh, rot)) ==> x + packed_w(sprites@[i].2, rot) <= u32::MAX
                && y + packed_h(sprites@[i].2, rot) <= u32::MAX),
        sprites@.len() > 0 ==> ({
            let (nw, nh) = needed_size(atlas.width as int, atlas.height as int, sprites@, slots@, sprites@.len() as int);
            nw * nh * 4 <= usize::MAX
        }),
    ensures
        sprites@.len() == 0 ==> (r matches Ok((img, n)) && img.width == atlas.width && img.height == atlas.height
            && img.data@ == atlas.data@ && n == root),
        sprites@.len() > 0 ==> match frames_dict(shape_of(root)) {
            None => r matches Err(AppError::ParseError(m)) && m@ == "plist missing top-level `frames` dictionary"@,
            Some(fs) => shape_of(root) matches PlistShape::Dict(es) && ({
                let (nw, nh) = needed_size(atlas.width as int, atlas.height as int, sprites@, slots@, sprites@.len() as int);
                match with_atlas_size(root_with_frames(es, frames_with_replaced(fs, sprites@, slots@, sprites@.len() as int)), nw as u32, nh as u32) {
                    Some(x) => r matches Ok((img, n)) && shape_of(n) == PlistShape::Dict(x) && img.wf() && img.width == nw && img.height == nh
                        && forall|i: int, j: int, ch: int|
                            0 <= i < nw && 0 <= j < nh && 0 <= ch < 4 ==> #[trigger] px(img.data@, nw, i, j, ch) == repainted(
                                replace_base(*atlas, sprites@, slots@),
                                nw,
                                nh,
                                sprites@,
                                slots@,
                                sprites@.len() as int,
                                i,
                                j,
                                ch,
                            ),
                    None => r matches Err(AppError::ParseError(m)) && m@ == "metadata section must be dictionary"@,
                }
            }),
        },
{
    if sprites.len() == 0 {
        return Ok((RgbaBuffer { width: atlas.width, height: atlas.height, data: copy_bytes(&atlas.data) }, root));
    }
    let ghost root_shape = shape_of(root);
    let mut es = match root {
        PlistNode::Dict(es) => es,
        _ => return Err(AppError::ParseError("plist missing top-level `frames` dictionary".to_string())),
    };
    let ghost es0 = es@;
    let ghost ess = entry_shapes(es0, es0.len() as int);
    proof {
        lemma_entry_shapes_all(es0);
        lemma_key_index(ess, "frames"@);
        assert(root_shape == PlistShape::Dict(ess));
    }
    let fi = match find_entry(&es, "frames") {
        Some(j) => j,
        None => return Err(AppError::ParseError("plist missing top-level `frames` dictionary".to_string())),
    };
    proof {
        assert(ess[fi as int] == (es0[fi as int].0@, shape_of(es0[fi as int].1)));
    }
    let (fk, fv) = es.remove(fi);
    let mut fes = match fv {
        PlistNode::Dict(fes) => fes,
        _ => return Err(AppError::ParseError("plist missing top-level `frames` dictionary".to_string())),
    };
    let ghost fs0 = entry_shapes(fes@, fes@.len() as int);
    let n = sprites.len();
    let aw = atlas.width;
    let ah = atlas.height;
    let mut nw: u32 = aw;
    let mut nh: u32 = ah;
    let mut k: usize = 0;
    while k < n
        invariant
            n == sprites@.len(),
            slots@.len() == n,
            k <= n,
            aw == atlas.width,
            ah == atlas.height,
            forall|i: int|
                0 <= i < sprites@.len() ==> (#[trigger] slots@[i] matches Some((x, y, ow, oh, rot)) ==> x + packed_w(sprites@[i].2, rot) <= u32::MAX
                    && y + packed_h(sprites@[i].2, rot) <= u32::MAX),
            (nw as int, nh as int) == needed_size(aw as int, ah as int, sprites@, slots@, k as int),
        decreases n - k,
    {
        match slots[k] {
            None => {},
            Some((x, y, _ow, _oh, rot)) => {
                let pw = if rot { sprites[k].2.height } else { sprites[k].2.width };
                let ph = if rot { sprites[k].2.width } else { sprites[k].2.height };
                proof {
                    assert(slots@[k as int] matches Some((x, y, ow, oh, rot)) ==> x + packed_w(sprites@[k as int].2, rot) <= u32::MAX);
                }
                if x + pw > nw {
                    nw = x + pw;
                }
                if y + ph > nh {
                    nh = y + ph;
                }
            },
        }
        k = k + 1;
    }
    let ghost base = replace_base(*atlas, sprites@, slots@);
    let mut cur = if nw > aw || nh > ah {
        let mut c = clear_image(nw, nh);
        proof {
            assert(c.data@ =~= Seq::new((nw * nh * 4) as nat, |k: int| 0u8));
        }
        overlay_rgba(&mut c, atlas, 0, 0);
        c
    } else {
        proof {
            lemma_needed_size(aw as int, ah as int, sprites@, slots@, n as int, n as int);
        }
        RgbaBuffer { width: atlas.width, height: atlas.height, data: copy_bytes(&atlas.data) }
    };
    assert(cur.data@ == base);
    let mut k: usize = 0;
    while k < n
        invariant
            n == sprites@.len(),
            slots@.len() == n,
            k <= n,
            forall|i: int| 0 <= i < sprites@.len() ==> (#[trigger] sprites@[i]).2.wf(),
            cur.width == nw,
            cur.height == nh,
            cur.wf(),
            forall|i: int, j: int, ch: int|
                0 <= i < nw && 0 <= j < nh && 0 <= ch < 4 ==> #[trigger] px(cur.data@, nw as int, i, j, ch) == repainted(
                    base, nw as int, nh as int, sprites@, slots@, k as int, i, j, ch),
            entry_shapes(fes@, fes@.len() as int) == frames_with_replaced(fs0, sprites@, slots@, k as int),
        decreases n - k,
    {
        match slots[k] {
            None => {},
            Some((x, y, ow, oh, rot)) => {
                let img = &sprites[k].2;
                let top = if rot {
                    rotate90_rgba(img)
                } else {
                    RgbaBuffer { width: img.width, height: img.height, data: copy_bytes(&img.data) }
                };
                let ghost prev = cur.data@;
                cur = paint_slot(&cur, &top, x, y, ow, oh);
                proof {
                    assert forall|i: int, j: int, ch: int|
                        0 <= i < nw && 0 <= j < nh && 0 <= ch < 4 implies #[trigger] px(cur.data@, nw as int, i, j, ch) == repainted(
                            base, nw as int, nh as int, sprites@, slots@, k + 1, i, j, ch) by {
                        if covered(nw as int, nh as int, top.width as int, top.height as int, x as int, y as int, i, j) {
                        } else {
                            assert(px(prev, nw as int, i, j, ch) == repainted(base, nw as int, nh as int, sprites@, slots@, k as int, i, j, ch));
                        }
                    }
                }
                let f = copy_node(&sprites[k].1);
                let tw = if top.width > 1 { top.width } else { 1 };
                let th = if top.height > 1 { top.height } else { 1 };
                let nf = match f {
                    PlistNode::Dict(mut fd) => {
                        let rect = IconEditorRect { x, y, width: tw, height: th };
                        put_entry_exec(&mut fd, "textureRect".to_string(), PlistNode::Text(format_texture_rect(&rect)));
                        put_entry_exec(&mut fd, "textureRotated".to_string(), PlistNode::Bool(rot));
                        PlistNode::Dict(fd)
                    },
                    other => other,
                };
                proof {
                    assert(shape_of(nf) == replaced_frame(shape_of(sprites@[k as int].1), x, y, top.width as int, top.height as int, rot));
                }
                put_entry_exec(&mut fes, sprites[k].0.clone(), nf);
            },
        }
        k = k + 1;
    }
    let ghost nfs = entry_shapes(fes@, fes@.len() as int);
    proof {
        lemma_entry_shapes_all(es0);
    }
    es.insert(fi, ("frames".to_string(), PlistNode::Dict(fes)));
    proof {
        reveal_strlit("frames");
        lemma_entry_shapes_all(es@);
        assert(es@ =~= es0.update(fi as int, es@[fi as int]));
        assert forall|t: int| 0 <= t < es@.len() implies #[trigger] entry_shapes(es@, es@.len() as int)[t] == root_with_frames(ess, nfs)[t] by {
            if t != fi {
                assert(es@[t] == es0[t]);
            }
        }
        assert(entry_shapes(es@, es@.len() as int) =~= root_with_frames(ess, nfs));
    }
    match update_plist_metadata_size(PlistNode::Dict(es), nw, nh) {
        Ok(node) => Ok((cur, node)),
        Err(e) => Err(e),
    }
}

/// The text of a frame's texture rectangle and its rotation flag (false
/// where it has none or it is not a boolean), for the frame named `name`
/// in the sheet's `frames` dictionary; `None` where there is no such frame,
/// it is not a dictionary, or its `textureRect` is not a string.
pub open spec fn texture_slot_spec(root: PlistShape, name: Seq<char>) -> Option<(Seq<char>, bool)> {
    match frames_dict(root) {
        None => None,
        Some(fs) => {
            let j = key_index(fs, name);
            if j < 0 {
                None
            } else {
                match fs[j].1 {
                    PlistShape::Dict(fd) => {
                        let t = key_index(fd, "textureRect"@);
                        let q = key_index(fd, "textureRotated"@);
                        if t >= 0 && fd[t].1 is Text {
                            Some((fd[t].1->Text_0, q >= 0 && fd[q].1 == PlistShape::Bool(true)))
                        } else {
                            None
                        }
                    },
                    _ => None,
                }
            }
        },
    }
}

/// Reads the existing slot of the frame `name` (see [`texture_slot_spec`]):
/// the texture rectangle's text, which the caller reads as numbers, and
/// whether the frame is rotated.
pub fn existing_texture_slot(root: &PlistNode, name: &str) -> (r: Option<(String, bool)>)
    ensures
        match r {
            Some((t, rot)) => texture_slot_spec(shape_of(*root), name@) == Some((t@, rot)),
            None => texture_slot_spec(shape_of(*root), name@) is None,
        },
{
    let es = match root {
        PlistNode::Dict(es) => es,
        _ => return None,
    };
    let ghost ess = entry_shapes(es@, es@.len() as int);
    proof {
        lemma_entry_shapes_all(es@);
        lemma_key_index(ess, "frames"@);
    }
    let fi = match find_entry(es, "frames") {
        Some(j) => j,
        None => return None,
    };
    let fes = match &es[fi].1 {
        PlistNode::Dict(fes) => fes,
        _ => return None,
    };
    proof {
        assert(ess[fi as int] == (es@[fi as int].0@, shape_of(es@[fi as int].1)));
    }
    let ghost fs = entry_shapes(fes@, fes@.len() as int);
    proof {
        lemma_entry_shapes_all(fes@);
        lemma_key_index(fs, name@);
    }
    let ni = match find_entry(fes, name) {
        Some(j) => j,
        None => return None,
    };
    let fd = match &fes[ni].1 {
        PlistNode::Dict(fd) => fd,
        _ => return None,
    };
    proof {
        assert(fs[ni as int] == (fes@[ni as int].0@, shape_of(fes@[ni as int].1)));
    }
    let ghost fds = entry_shapes(fd@, fd@.len() as int);
    proof {
        lemma_entry_shapes_all(fd@);
        lemma_key_index(fds, "textureRect"@);
        lemma_key_index(fds, "textureRotated"@);
    }
    let ti = match find_entry(fd, "textureRect") {
        Some(j) => j,
        None => return None,
    };
    proof {
        assert(fds[ti as int] == (fd@[ti as int].0@, shape_of(fd@[ti as int].1)));
    }
    let text = match &fd[ti].1 {
        PlistNode::Text(t) => t.clone(),
        _ => return None,
    };
    let rot = match find_entry(fd, "textureRotated") {
        Some(q) => {
            proof {
                assert(fds[q as int] == (fd@[q as int].0@, shape_of(fd@[q as int].1)));
            }
            match &fd[q].1 {
                PlistNode::Bool(b) => *b,
                _ => false,
            }
        },
        None => false,
    };
    Some((text, rot))
}

/// A frame the sheet lacks, as found in the latest game's sheet: its name,
/// the sprite cut from the latest atlas, and its entry in the latest list
/// (each absent where it could not be had).
pub type MissingCandidate = (String, Option<RgbaBuffer>, Option<PlistNode>);

/// The candidates that are copied: those with both a sprite and an entry,
/// as name and entry.
pub open spec fn copied_frames(cs: Seq<MissingCandidate>) -> Seq<(Seq<char>, PlistShape)>
    decreases cs.len(),
{
    if cs.len() == 0 {
        seq![]
    } else {
        let prev = copied_frames(cs.drop_last());
        let c = cs.last();
        match (c.1, c.2) {
            (Some(_), Some(f)) => prev.push((c.0@, shape_of(f))),
            _ => prev,
        }
    }
}

/// The sprites handed back for the copied candidates: name, size and bytes.
pub open spec fn copied_sprites(cs: Seq<MissingCandidate>) -> Seq<(Seq<char>, u32, u32, Seq<u8>)>
    decreases cs.len(),
{
    if cs.len() == 0 {
        seq![]
    } else {
        let prev = copied_sprites(cs.drop_last());
        let c = cs.last();
        match (c.1, c.2) {
            (Some(img), Some(_)) => prev.push((c.0@, img.width, img.height, img.data@)),
            _ => prev,
        }
    }
}

/// The warnings about the candidates that are not copied: a missing sprite
/// first, else a missing entry.
pub open spec fn missing_warnings(cs: Seq<MissingCandidate>) -> Seq<(ReportLevel, Seq<char>, Option<Seq<char>>)>
    decreases cs.len(),
{
    if cs.len() == 0 {
        seq![]
    } else {
        let prev = missing_warnings(cs.drop_last());
        let c = cs.last();
        match (c.1, c.2) {
            (None, _) => prev.push((ReportLevel::Warning, "missing sprite payload in latest placeholder image"@, Some(c.0@))),
            (Some(_), None) => prev.push((ReportLevel::Warning, "missing sprite payload in latest placeholder plist"@, Some(c.0@))),
            _ => prev,
        }
    }
}

/// The frames with each copied entry stored under its name, in order.
pub open spec fn put_all(fs: Seq<(Seq<char>, PlistShape)>, add: Seq<(Seq<char>, PlistShape)>) -> Seq<(Seq<char>, PlistShape)>
    decreases add.len(),
{
    if add.len() == 0 {
        fs
    } else {
        put_entry(put_all(fs, add.drop_last()), add.last().0, add.last().1)
    }
}

/// The note about the copied frames, where there are any.
pub open spec fn copied_note(stem: Seq<char>, n: nat) -> Seq<(ReportLevel, Seq<char>, Option<Seq<char>>)> {
    if n > 0 {
        seq![(
            ReportLevel::Info,
            "copied "@ + decimal_chars(n) + " missing frame(s) from latest Geometry Dash Resources"@,
            Some(stem + ".plist"@),
        )]
    } else {
        seq![]
    }
}

/// Copies the frames a sheet lacks from the latest game's sheet, in order:
/// a candidate with both a sprite and an entry has its entry stored under
/// its name and its sprite handed back; the others are reported (see
/// [`missing_warnings`]), and a note counts the copied frames. Where the
/// latest sheet was not found (`None`), only a warning. Fails where the
/// sheet has no `frames` dictionary.
pub fn insert_missing_latest_frames(output_stem: &str, root: PlistNode, candidates: Option<&Vec<MissingCandidate>>) -> (r: Result<
    (PlistNode, Vec<(String, RgbaBuffer)>, Vec<ReportIssue>),
    AppError,
>)
    ensures
        match frames_dict(shape_of(root)) {
            None => r matches Err(AppError::ParseError(m)) && m@ == "plist missing top-level `frames` dictionary"@,
            Some(fs) => match candidates {
                None => r matches Ok((n, added, issues)) && shape_of(n) == shape_of(root) && added@.len() == 0
                    && issues_view(issues@) == seq![(ReportLevel::Warning, "no latest placeholder plist found for sheet"@, Some(output_stem@ + ".plist"@))],
                Some(cs) => shape_of(root) matches PlistShape::Dict(es) && r matches Ok((n, added, issues)) && ({
                    let copied = copied_frames(cs@);
                    &&& shape_of(n) == PlistShape::Dict(root_with_frames(es, put_all(fs, copied)))
                    &&& added@.len() == copied.len()
                    &&& forall|i: int| 0 <= i < added@.len() ==> (#[trigger] added@[i]).0@ == copied[i].0
                    &&& forall|i: int| 0 <= i < added@.len() ==> ((#[trigger] added@[i]).0@, added@[i].1.width, added@[i].1.height, added@[i].1.data@) == copied_sprites(cs@)[i]
                    &&& issues_view(issues@) == missing_warnings(cs@) + copied_note(output_stem@, copied.len())
                }),
            },
        },
{
    let ghost root_shape = shape_of(root);
    let mut es = match root {
        PlistNode::Dict(es) => es,
        _ => return Err(AppError::ParseError("plist missing top-level `frames` dictionary".to_string())),
    };
    let ghost es0 = es@;
    let ghost ess = entry_shapes(es0, es0.len() as int);
    proof {
        lemma_entry_shapes_all(es0);
        lemma_key_index(ess, "frames"@);
        assert(root_shape == PlistShape::Dict(ess));
    }
    let fi = match find_entry(&es, "frames") {
        Some(j) => j,
        None => return Err(AppError::ParseError("plist missing top-level `frames` dictionary".to_string())),
    };
    proof {
        assert(ess[fi as int] == (es0[fi as int].0@, shape_of(es0[fi as int].1)));
    }
    let frames_ok = match &es[fi].1 {
        PlistNode::Dict(_) => true,
        _ => false,
    };
    if !frames_ok {
        return Err(AppError::ParseError("plist missing top-level `frames` dictionary".to_string()));
    }
    let plist_name = string_from_chars(concat_str(chars_of(output_stem).as_slice(), ".plist").as_slice());
    let cs = match candidates {
        None => {
            let mut issues: Vec<ReportIssue> = Vec::new();
            issues.push(
                ReportIssue {
                    level: ReportLevel::Warning,
                    message: "no latest placeholder plist found for sheet".to_string(),
                    file: Some(plist_name),
                },
            );
            proof {
                reveal_strlit("no latest placeholder plist found for sheet");
                assert(issues_view(issues@) =~= seq![(ReportLevel::Warning, "no latest placeholder plist found for sheet"@, Some(output_stem@ + ".plist"@))]);
                assert(shape_of(PlistNode::Dict(es)) == root_shape);
            }
            let none: Vec<(String, RgbaBuffer)> = Vec::new();
            return Ok((PlistNode::Dict(es), none, issues));
        },
        Some(cs) => cs,
    };
    let (fk, fv) = es.remove(fi);
    let mut fes = match fv {
        PlistNode::Dict(fes) => fes,
        _ => return Err(AppError::ParseError("plist missing top-level `frames` dictionary".to_string())),
    };
    let ghost fs0 = entry_shapes(fes@, fes@.len() as int);
    let mut added: Vec<(String, RgbaBuffer)> = Vec::new();
    let mut issues: Vec<ReportIssue> = Vec::new();
    let mut i: usize = 0;
    while i < cs.len()
        invariant
            i <= cs@.len(),
            entry_shapes(fes@, fes@.len() as int) == put_all(fs0, copied_frames(cs@.subrange(0, i as int))),
            added@.len() == copied_frames(cs@.subrange(0, i as int)).len(),
            forall|q: int| 0 <= q < added@.len() ==> (#[trigger] added@[q]).0@ == copied_frames(cs@.subrange(0, i as int))[q].0,
            copied_sprites(cs@.subrange(0, i as int)).len() == added@.len(),
            forall|q: int| 0 <= q < added@.len() ==> ((#[trigger] added@[q]).0@, added@[q].1.width, added@[q].1.height, added@[q].1.data@) == copied_sprites(cs@.subrange(0, i as int))[q],
            issues_view(issues@) == missing_warnings(cs@.subrange(0, i as int)),
        decreases cs@.len() - i,
    {
        let ghost pre = cs@.subrange(0, i as int);
        let ghost nxt = cs@.subrange(0, i + 1);
        proof {
            assert(nxt.drop_last() =~= pre);
            assert(nxt.last() == cs@[i as int]);
        }
        let ghost old_added = added@;
        let ghost old_issues = issues@;
        match (&cs[i].1, &cs[i].2) {
            (None, _) => {
                issues.push(
                    ReportIssue {
                        level: ReportLevel::Warning,
                        message: "missing sprite payload in latest placeholder image".to_string(),
                        file: Some(cs[i].0.clone()),
                    },
                );
                proof {
                    reveal_strlit("missing sprite payload in latest placeholder image");
                    assert(issues_view(issues@) =~= issues_view(old_issues).push(issues_view(issues@).last()));
                }
            },
            (Some(_), None) => {
                issues.push(
                    ReportIssue {
                        level: ReportLevel::Warning,
                        message: "missing sprite payload in latest placeholder plist".to_string(),
                        file: Some(cs[i].0.clone()),
                    },
                );
                proof {
                    reveal_strlit("missing sprite payload in latest placeholder plist");
                    assert(issues_view(issues@) =~= issues_view(old_issues).push(issues_view(issues@).last()));
                }
            },
            (Some(img), Some(f)) => {
                let nf = copy_node(f);
                put_entry_exec(&mut fes, cs[i].0.clone(), nf);
                let copy = RgbaBuffer { width: img.width, height: img.height, data: copy_bytes(&img.data) };
                added.push((cs[i].0.clone(), copy));
                proof {
                    assert(copied_frames(nxt) == copied_frames(pre).push((cs@[i as int].0@, shape_of(*f))));
                    assert(copied_frames(nxt).drop_last() =~= copied_frames(pre));
                    assert(copied_sprites(nxt) == copied_sprites(pre).push((cs@[i as int].0@, img.width, img.height, img.data@)));
                    assert forall|q: int| 0 <= q < added@.len() implies (#[trigger] added@[q]).0@ == copied_frames(nxt)[q].0
                        && (added@[q].0@, added@[q].1.width, added@[q].1.height, added@[q].1.data@) == copied_sprites(nxt)[q] by {
                        if q < old_added.len() {
                            assert(added@[q] == old_added[q]);
                        }
                    }
                }
            },
        }
        i = i + 1;
    }
    proof {
        assert(cs@.subrange(0, cs@.len() as int) =~= cs@);
    }
    let ghost copied = copied_frames(cs@);
    let n = added.len();
    if n > 0 {
        let a = chars_of("copied ");
        let b = concat_chars(a.as_slice(), decimal_chars_exec(n as u64).as_slice());
        let c = concat_str(b.as_slice(), " missing frame(s) from latest Geometry Dash Resources");
        let ghost before = issues@;
        issues.push(ReportIssue { level: ReportLevel::Info, message: string_from_chars(c.as_slice()), file: Some(plist_name) });
        proof {
            assert(issues_view(issues@) =~= issues_view(before) + copied_note(output_stem@, copied.len()));
        }
    } else {
        proof {
            assert(issues_view(issues@) =~= issues_view(issues@) + copied_note(output_stem@, copied.len()));
        }
    }
    let ghost nfs = entry_shapes(fes@, fes@.len() as int);
    proof {
        lemma_entry_shapes_all(es0);
    }
    es.insert(fi, ("frames".to_string(), PlistNode::Dict(fes)));
    proof {
        reveal_strlit("frames");
        lemma_entry_shapes_all(es@);
        assert(es@ =~= es0.update(fi as int, es@[fi as int]));
        assert forall|t: int| 0 <= t < es@.len() implies #[trigger] entry_shapes(es@, es@.len() as int)[t] == root_with_frames(ess, nfs)[t] by {
            if t != fi {
                assert(es@[t] == es0[t]);
            }
        }
        assert(entry_shapes(es@, es@.len() as int) =~= root_with_frames(ess, nfs));
    }
    Ok((PlistNode::Dict(es), added, issues))
}

/// A sprite to add or paint, by value: name, entry, size and bytes.
pub open spec fn sprite_entry_view(t: (String, PlistNode, RgbaBuffer)) -> (Seq<char>, PlistShape, u32, u32, Seq<u8>) {
    (t.0@, shape_of(t.1), t.2.width, t.2.height, t.2.data@)
}

/// The first `k` relocated menu buttons split between the sheet's existing
/// frames (painted into their slots) and new ones (added below), each with
/// the sheet's own entry where it has one, else the button's.
pub open spec fn relocated_split(fs: Seq<(Seq<char>, PlistShape)>, rel: Seq<(String, PlistNode, RgbaBuffer)>, k: int) -> (
    Seq<(Seq<char>, PlistShape, u32, u32, Seq<u8>)>,
    Seq<(Seq<char>, PlistShape, u32, u32, Seq<u8>)>,
)
    decreases k,
{
    if k <= 0 || k > rel.len() {
        (seq![], seq![])
    } else {
        let (rep, app) = relocated_split(fs, rel, k - 1);
        let t = rel[k - 1];
        let j = key_index(fs, t.0@);
        if j >= 0 {
            (rep.push((t.0@, fs[j].1, t.2.width, t.2.height, t.2.data@)), app)
        } else {
            (rep, app.push(sprite_entry_view(t)))
        }
    }
}

/// Splits the 2.0 menu buttons taken from a legacy sheet for the modern
/// `GJ_GameSheet04` (see [`relocated_split`]): those whose frame the modern
/// sheet has are painted into its slot, the others added below its atlas.
/// Fails where the modern sheet has no `frames` dictionary.
pub fn split_relocated_buttons(root: &PlistNode, relocated: &Vec<(String, PlistNode, RgbaBuffer)>) -> (r: Result<
    (Vec<(String, PlistNode, RgbaBuffer)>, Vec<(String, PlistNode, RgbaBuffer)>),
    AppError,
>)
    ensures
        match frames_dict(shape_of(*root)) {
            None => r matches Err(AppError::ParseError(m)) && m@ == "plist missing top-level `frames` dictionary"@,
            Some(fs) => r matches Ok((rep, app)) && rep@.map_values(|t: (String, PlistNode, RgbaBuffer)| sprite_entry_view(t))
                == relocated_split(fs, relocated@, relocated@.len() as int).0 && app@.map_values(
                |t: (String, PlistNode, RgbaBuffer)| sprite_entry_view(t),
            ) == relocated_split(fs, relocated@, relocated@.len() as int).1,
        },
{
    let es = match root {
        PlistNode::Dict(es) => es,
        _ => return Err(AppError::ParseError("plist missing top-level `frames` dictionary".to_string())),
    };
    let ghost ess = entry_shapes(es@, es@.len() as int);
    proof {
        lemma_entry_shapes_all(es@);
        lemma_key_index(ess, "frames"@);
    }
    let fi = match find_entry(es, "frames") {
        Some(j) => j,
        None => return Err(AppError::ParseError("plist missing top-level `frames` dictionary".to_string())),
    };
    let fes = match &es[fi].1 {
        PlistNode::Dict(fes) => fes,
        _ => return Err(AppError::ParseError("plist missing top-level `frames` dictionary".to_string())),
    };
    proof {
        assert(ess[fi as int] == (es@[fi as int].0@, shape_of(es@[fi as int].1)));
    }
    let ghost fs = entry_shapes(fes@, fes@.len() as int);
    proof {
        lemma_entry_shapes_all(fes@);
    }
    let mut rep: Vec<(String, PlistNode, RgbaBuffer)> = Vec::new();
    let mut app: Vec<(String, PlistNode, RgbaBuffer)> = Vec::new();
    let mut i: usize = 0;
    while i < relocated.len()
        invariant
            i <= relocated@.len(),
            fs == entry_shapes(fes@, fes@.len() as int),
            fes@.len() == fs.len(),
            forall|t: int| 0 <= t < fes@.len() ==> #[trigger] fs[t] == (fes@[t].0@, shape_of(fes@[t].1)),
            rep@.map_values(|t: (String, PlistNode, RgbaBuffer)| sprite_entry_view(t)) == relocated_split(fs, relocated@, i as int).0,
            app@.map_values(|t: (String, PlistNode, RgbaBuffer)| sprite_entry_view(t)) == relocated_split(fs, relocated@, i as int).1,
        decreases relocated@.len() - i,
    {
        proof {
            lemma_key_index(fs, relocated@[i as int].0@);
        }
        let img = &relocated[i].2;
        let copy = RgbaBuffer { width: img.width, height: img.height, data: copy_bytes(&img.data) };
        let ghost old_rep = rep@;
        let ghost old_app = app@;
        match find_entry(fes, relocated[i].0.as_str()) {
            Some(j) => {
                let f = copy_node(&fes[j].1);
                rep.push((relocated[i].0.clone(), f, copy));
                proof {
                    assert(rep@.map_values(|t: (String, PlistNode, RgbaBuffer)| sprite_entry_view(t)) =~= old_rep.map_values(
                        |t: (String, PlistNode, RgbaBuffer)| sprite_entry_view(t),
                    ).push(sprite_entry_view(rep@.last())));
                }
            },
            None => {
                let f = copy_node(&relocated[i].1);
                app.push((relocated[i].0.clone(), f, copy));
                proof {
                    assert(app@.map_values(|t: (String, PlistNode, RgbaBuffer)| sprite_entry_view(t)) =~= old_app.map_values(
                        |t: (String, PlistNode, RgbaBuffer)| sprite_entry_view(t),
                    ).push(sprite_entry_view(app@.last())));
                }
            },
        }
        i = i + 1;
    }
    Ok((rep, app))
}

/// Drawing the added sprites, all at or below row `ah`, leaves the bytes of
/// the rows above unchanged.
proof fn lemma_drawn_keeps_top(
    base: Seq<u8>,
    w: int,
    h: int,
    sprites: Seq<(String, PlistNode, RgbaBuffer)>,
    pos: Seq<(int, int)>,
    ah: int,
    k: int,
    q: int,
)
    requires
        w > 0,
        0 <= ah,
        0 <= q < ah * w * 4,
        q < base.len(),
        forall|i: int| 0 <= i < pos.len() ==> #[trigger] pos[i].1 >= 0,
        pos.len() == sprites.len(),
    ensures
        drawn(base, w, h, sprites, pos, ah, k).len() == base.len(),
        drawn(base, w, h, sprites, pos, ah, k)[q] == base[q],
    decreases k,
{
    if k > 0 && k <= sprites.len() {
        lemma_drawn_keeps_top(base, w, h, sprites, pos, ah, k - 1, q);
        let p = q / 4;
        assert(p < ah * w) by (nonlinear_arith)
            requires
                0 <= q < ah * w * 4,
                p == q / 4,
        ;
        assert(p / w < ah) by (nonlinear_arith)
            requires
                0 <= p < ah * w,
                w > 0,
        ;
        assert(pos[k - 1].1 >= 0);
    }
}

/// The sprites added below an atlas never touch its rows: every byte of
/// the top `atlas.height` rows of the new atlas is what drawing the old
/// atlas on the clear canvas gave (the old pixel wherever it is opaque or
/// clear).
pub proof fn law_added_sprites_leave_the_old_rows(atlas: RgbaBuffer, sprites: Seq<(String, PlistNode, RgbaBuffer)>, q: int)
    requires
        atlas.wf(),
        sprites.len() > 0,
        0 <= q < atlas.height * append_geometry(atlas.width as int, atlas.height as int, sprites).0 * 4,
    ensures
        ({
            let (pw, pos, nh) = append_geometry(atlas.width as int, atlas.height as int, sprites);
            let canvas = Seq::new((pw * nh * 4) as nat, |k: int| 0u8);
            appended_pixels(atlas, sprites)[q] == overlay_spec(
                canvas,
                pw,
                nh,
                atlas.data@,
                atlas.width as int,
                atlas.height as int,
                0,
                0,
            )[q]
        }),
{
    let d = sprite_dims(sprites);
    let (pw, pos, nh) = append_geometry(atlas.width as int, atlas.height as int, sprites);
    let canvas = Seq::new((pw * nh * 4) as nat, |k: int| 0u8);
    let base = overlay_spec(canvas, pw, nh, atlas.data@, atlas.width as int, atlas.height as int, 0, 0);
    lemma_widest_nonneg(d);
    lemma_dims_in(sprites, pw);
    lemma_rows_len(d, pw, d.len() as int);
    assert forall|i: int| 0 <= i < pos.len() implies #[trigger] pos[i].1 >= 0 by {
        lemma_corner_in_band(d, pw, i);
    }
    lemma_rows_grow(d, pw, d.len() as int, d.len() as int);
    assert(band_height(d, pw) >= 1);
    assert(q < base.len()) by (nonlinear_arith)
        requires
            0 <= q < atlas.height * pw * 4,
            base.len() == pw * nh * 4,
            nh >= atlas.height,
            pw >= 0,
    ;
    lemma_drawn_keeps_top(base, pw, nh, sprites, pos, atlas.height as int, sprites.len() as int, q);
}

/// What writing the modern `GJ_GameSheet04` comes to: nothing; a warning
/// that the modern sheet was not found; the modern sheet written as it is;
/// or the relocated menu buttons put into it. The flag says whether the
/// base is the sheet already written to the output (else the latest game's).
pub enum Gamesheet04Step {
    Skip,
    NotFound(ReportIssue),
    CopyBase(bool, ReportIssue),
    Relocate(bool, ReportIssue),
}

/// `GJ_GameSheet04` with the pack's quality suffix.
pub open spec fn modern_stem_spec(suffix: Seq<char>) -> Seq<char> {
    "GJ_GameSheet04"@ + suffix
}

/// The step for `relocated` menu buttons (see [`Gamesheet04Step`]), with
/// the report line it leads to.
pub open spec fn gamesheet04_step_spec(
    suffix: Seq<char>,
    relocated: nat,
    always_write: bool,
    existing_output: bool,
    latest_found: bool,
) -> (int, Option<(ReportLevel, Seq<char>, Option<Seq<char>>)>, bool) {
    let stem = modern_stem_spec(suffix);
    if relocated == 0 && !always_write {
        (0, None, false)
    } else if !existing_output && !latest_found {
        (1, Some((ReportLevel::Warning, "modern `"@ + stem + "` not found in Geometry Dash Resources; skipped GameSheet04"@, None)), false)
    } else if relocated == 0 {
        (2, Some((ReportLevel::Info, "wrote `"@ + stem + "` from latest Geometry Dash Resources"@, Some(stem + ".plist"@))), existing_output)
    } else {
        (
            3,
            Some((ReportLevel::Info, "wrote `"@ + stem + "` with "@ + decimal_chars(relocated) + " relocated 2.0 menu button(s)"@, Some(stem + ".plist"@))),
            existing_output,
        )
    }
}

/// Decides how the modern `GJ_GameSheet04` is written (see
/// [`gamesheet04_step_spec`]): skipped when no button was relocated and
/// writing is not forced; a warning when neither an earlier output nor the
/// latest game's sheet is there; else written from that base, as it is or
/// with the buttons, with the line its report gets.
pub fn gamesheet04_step(quality_suffix: &str, relocated: usize, always_write: bool, existing_output: bool, latest_found: bool) -> (r:
    Gamesheet04Step)
    ensures
        ({
            let (k, line, from_output) = gamesheet04_step_spec(quality_suffix@, relocated as nat, always_write, existing_output, latest_found);
            match r {
                Gamesheet04Step::Skip => k == 0,
                Gamesheet04Step::NotFound(i) => k == 1 && line == Some(issue_view(i)),
                Gamesheet04Step::CopyBase(b, i) => k == 2 && line == Some(issue_view(i)) && b == from_output,
                Gamesheet04Step::Relocate(b, i) => k == 3 && line == Some(issue_view(i)) && b == from_output,
            }
        }),
{
    if relocated == 0 && !always_write {
        return Gamesheet04Step::Skip;
    }
    let stem = concat_str(chars_of("GJ_GameSheet04").as_slice(), quality_suffix);
    let quoted = concat_chars(chars_of("`").as_slice(), stem.as_slice());
    let head = concat_chars(chars_of("modern ").as_slice(), quoted.as_slice());
    if !existing_output && !latest_found {
        let m = concat_str(head.as_slice(), "` not found in Geometry Dash Resources; skipped GameSheet04");
        proof {
            assert(m@ =~= "modern `"@ + modern_stem_spec(quality_suffix@) + "` not found in Geometry Dash Resources; skipped GameSheet04"@) by {
                reveal_strlit("modern ");
                reveal_strlit("`");
                reveal_strlit("modern `");
            }
        }
        return Gamesheet04Step::NotFound(ReportIssue { level: ReportLevel::Warning, message: string_from_chars(m.as_slice()), file: None });
    }
    let file = string_from_chars(concat_str(stem.as_slice(), ".plist").as_slice());
    let wrote = concat_chars(chars_of("wrote ").as_slice(), quoted.as_slice());
    proof {
        assert(wrote@ =~= "wrote `"@ + modern_stem_spec(quality_suffix@)) by {
            reveal_strlit("wrote ");
            reveal_strlit("`");
            reveal_strlit("wrote `");
        }
    }
    if relocated == 0 {
        let m = concat_str(wrote.as_slice(), "` from latest Geometry Dash Resources");
        return Gamesheet04Step::CopyBase(existing_output, ReportIssue { level: ReportLevel::Info, message: string_from_chars(m.as_slice()), file: Some(file) });
    }
    let a = concat_str(wrote.as_slice(), "` with ");
    let b = concat_chars(a.as_slice(), decimal_chars_exec(relocated as u64).as_slice());
    let m = concat_str(b.as_slice(), " relocated 2.0 menu button(s)");
    Gamesheet04Step::Relocate(existing_output, ReportIssue { level: ReportLevel::Info, message: string_from_chars(m.as_slice()), file: Some(file) })
}

/// Pixel `(i, j)` lies in the slot of sprite `t`: under its packed sprite
/// or inside its old rectangle.
pub open spec fn in_slot(w: int, h: int, sprites: Seq<(String, PlistNode, RgbaBuffer)>, slots: Seq<Option<ReplaceSlot>>, t: int, i: int, j: int) -> bool {
    match slots[t] {
        None => false,
        Some((x, y, ow, oh, rot)) => covered(w, h, packed_w(sprites[t].2, rot), packed_h(sprites[t].2, rot), x as int, y as int, i, j)
            || (x <= i < x + ow && y <= j < y + oh),
    }
}

/// Painting replacements changes only their slots: a pixel in none of the
/// first `k` slots keeps its value in the atlas they were painted into.
pub proof fn law_replacing_leaves_other_pixels(
    base: Seq<u8>,
    w: int,
    h: int,
    sprites: Seq<(String, PlistNode, RgbaBuffer)>,
    slots: Seq<Option<ReplaceSlot>>,
    k: int,
    i: int,
    j: int,
    ch: int,
)
    requires
        0 <= k <= sprites.len(),
        slots.len() == sprites.len(),
        forall|t: int| 0 <= t < k ==> !#[trigger] in_slot(w, h, sprites, slots, t, i, j),
    ensures
        repainted(base, w, h, sprites, slots, k, i, j, ch) == px(base, w, i, j, ch),
    decreases k,
{
    if k > 0 {
        assert(!in_slot(w, h, sprites, slots, k - 1, i, j));
        law_replacing_leaves_other_pixels(base, w, h, sprites, slots, k - 1, i, j, ch);
    }
}

/// The atlas bytes after the first `k` sprites are drawn at their corners
/// below the old atlas's `ah` rows.
pub open spec fn drawn(
    base: Seq<u8>,
    w: int,
    h: int,
    sprites: Seq<(String, PlistNode, RgbaBuffer)>,
    pos: Seq<(int, int)>,
    ah: int,
    k: int,
) -> Seq<u8>
    decreases k,
{
    if k <= 0 || k > sprites.len() {
        base
    } else {
        let prev = drawn(base, w, h, sprites, pos, ah, k - 1);
        let img = sprites[k - 1].2;
        overlay_spec(prev, w, h, img.data@, img.width as int, img.height as int, pos[k - 1].0, ah + pos[k - 1].1)
    }
}

/// Draws each sprite over `out` at its corner, `ah` rows down.
fn draw_sprites(
    out: &mut RgbaBuffer,
    sprites: &Vec<(String, PlistNode, RgbaBuffer)>,
    pos: &Vec<(u32, u32)>,
    ah: u32,
    Ghost(ps): Ghost<Seq<(int, int)>>,
)
    requires
        old(out).wf(),
        pos@.len() == sprites@.len(),
        ps.len() == sprites@.len(),
        forall|i: int| 0 <= i < sprites@.len() ==> (#[trigger] sprites@[i]).2.wf(),
        forall|i: int| 0 <= i < sprites@.len() ==> (#[trigger] pos@[i]).0 == ps[i].0 && pos@[i].1 == ps[i].1 && ah + pos@[i].1 <= u32::MAX,
    ensures
        final(out).width == old(out).width,
        final(out).height == old(out).height,
        final(out).wf(),
        final(out).data@ == drawn(
            old(out).data@,
            old(out).width as int,
            old(out).height as int,
            sprites@,
            ps,
            ah as int,
            sprites@.len() as int,
        ),
{
    let ghost base = out.data@;
    let ghost w0 = out.width as int;
    let ghost h0 = out.height as int;
    let mut i: usize = 0;
    while i < sprites.len()
        invariant
            i <= sprites@.len(),
            pos@.len() == sprites@.len(),
            ps.len() == sprites@.len(),
            forall|q: int| 0 <= q < sprites@.len() ==> (#[trigger] sprites@[q]).2.wf(),
            forall|q: int| 0 <= q < sprites@.len() ==> (#[trigger] pos@[q]).0 == ps[q].0 && pos@[q].1 == ps[q].1 && ah + pos@[q].1 <= u32::MAX,
            out.width == w0,
            out.height == h0,
            out.wf(),
            out.data@ == drawn(base, w0, h0, sprites@, ps, ah as int, i as int),
        decreases sprites@.len() - i,
    {
        let (x, y) = pos[i];
        proof {
            assert(pos@[i as int].0 == ps[i as int].0);
        }
        overlay_rgba(out, &sprites[i].2, x, ah + y);
        i = i + 1;
    }
}

/// Stores each added sprite's frame under its name, with its texture
/// rectangle at its corner, `ah` rows down.
fn add_placed_frames(
    fes: &mut Vec<(String, PlistNode)>,
    sprites: &Vec<(String, PlistNode, RgbaBuffer)>,
    pos: &Vec<(u32, u32)>,
    ah: u32,
    Ghost(ps): Ghost<Seq<(int, int)>>,
)
    requires
        pos@.len() == sprites@.len(),
        ps.len() == sprites@.len(),
        forall|i: int| 0 <= i < sprites@.len() ==> (#[trigger] pos@[i]).0 == ps[i].0 && pos@[i].1 == ps[i].1 && ah + pos@[i].1 <= u32::MAX,
    ensures
        entry_shapes(final(fes)@, final(fes)@.len() as int) == frames_with_added(
            entry_shapes(old(fes)@, old(fes)@.len() as int),
            sprites@,
            sprite_dims(sprites@),
            ps,
            ah as int,
            sprites@.len() as int,
        ),
{
    let ghost base = entry_shapes(fes@, fes@.len() as int);
    let ghost d = sprite_dims(sprites@);
    let mut i: usize = 0;
    while i < sprites.len()
        invariant
            i <= sprites@.len(),
            d == sprite_dims(sprites@),
            pos@.len() == sprites@.len(),
            ps.len() == sprites@.len(),
            forall|q: int| 0 <= q < sprites@.len() ==> (#[trigger] pos@[q]).0 == ps[q].0 && pos@[q].1 == ps[q].1 && ah + pos@[q].1 <= u32::MAX,
            entry_shapes(fes@, fes@.len() as int) == frames_with_added(base, sprites@, d, ps, ah as int, i as int),
        decreases sprites@.len() - i,
    {
        let (x, y) = pos[i];
        let w = if sprites[i].2.width > 1 { sprites[i].2.width } else { 1 };
        let h = if sprites[i].2.height > 1 { sprites[i].2.height } else { 1 };
        proof {
            assert(pos@[i as int].0 == ps[i as int].0);
            assert(d[i as int] == (w as int, h as int));
        }
        let f = copy_node(&sprites[i].1);
        let nf = match f {
            PlistNode::Dict(mut fd) => {
                let rect = IconEditorRect { x, y: ah + y, width: w, height: h };
                put_entry_exec(&mut fd, "textureRect".to_string(), PlistNode::Text(format_texture_rect(&rect)));
                PlistNode::Dict(fd)
            },
            other => other,
        };
        proof {
            assert(shape_of(nf) == placed_frame(shape_of(sprites@[i as int].1), ps[i as int].0, ah + ps[i as int].1, d[i as int].0, d[i as int].1));
        }
        put_entry_exec(fes, sprites[i].0.clone(), nf);
        i = i + 1;
    }
}

/// The new width, the corners and the new height of an atlas `aw × ah`
/// once the sprites are added below it.
pub open spec fn append_geometry(aw: int, ah: int, sprites: Seq<(String, PlistNode, RgbaBuffer)>) -> (int, Seq<(int, int)>, int) {
    let d = sprite_dims(sprites);
    let pw = append_width(aw, d);
    (pw, rows(d, pw, d.len() as int).3, ah + band_height(d, pw))
}

/// The bytes of the atlas with the sprites added: a clear canvas of the new
/// size, the old atlas drawn at the top left, each sprite drawn at its
/// corner below it.
pub open spec fn appended_pixels(atlas: RgbaBuffer, sprites: Seq<(String, PlistNode, RgbaBuffer)>) -> Seq<u8> {
    let (pw, pos, nh) = append_geometry(atlas.width as int, atlas.height as int, sprites);
    let canvas = Seq::new((pw * nh * 4) as nat, |k: int| 0u8);
    drawn(
        overlay_spec(canvas, pw, nh, atlas.data@, atlas.width as int, atlas.height as int, 0, 0),
        pw,
        nh,
        sprites,
        pos,
        atlas.height as int,
        sprites.len() as int,
    )
}

/// The sheet's list with the sprites' frames added (see [`frames_with_added`])
/// and the new size recorded; `None` where its `metadata` is not a dictionary.
pub open spec fn appended_sheet(es: Seq<(Seq<char>, PlistShape)>, fs: Seq<(Seq<char>, PlistShape)>, atlas: RgbaBuffer, sprites: Seq<(String, PlistNode, RgbaBuffer)>) -> Option<Seq<(Seq<char>, PlistShape)>> {
    let (pw, pos, nh) = append_geometry(atlas.width as int, atlas.height as int, sprites);
    with_atlas_size(
        root_with_frames(es, frames_with_added(fs, sprites, sprite_dims(sprites), pos, atlas.height as int, sprites.len() as int)),
        pw as u32,
        nh as u32,
    )
}

/// Adds the sprites of frames a sheet lacks in a band below its atlas.
/// With no sprites the atlas and the list come back as they are. Otherwise
/// the atlas grows to [`append_geometry`]: as wide as before, and at least
/// the widest sprite plus a one-pixel gap and two pixels of margin; as high
/// as before plus the band, in which the sprites are packed in rows left to
/// right from x = 1, each followed by a one-pixel gap. The new atlas holds
/// the old one at its top left and each sprite at its corner (see
/// [`appended_pixels`]); each frame is stored under its name with the
/// texture rectangle of its sprite, and `metadata.size` records the new size.
/// Fails where the list has no `frames` dictionary, or where its `metadata`
/// entry is not a dictionary.
pub fn append_sprites_below_atlas(atlas: &RgbaBuffer, root: PlistNode, sprites: &Vec<(String, PlistNode, RgbaBuffer)>) -> (r: Result<
    (RgbaBuffer, PlistNode),
    AppError,
>)
    requires
        atlas.wf(),
        forall|i: int| 0 <= i < sprites@.len() ==> (#[trigger] sprites@[i]).2.wf() && sprites@[i].2.width + 3 <= u32::MAX,
        sprites@.len() > 0 ==> ({
            let (pw, pos, nh) = append_geometry(atlas.width as int, atlas.height as int, sprites@);
            nh <= u32::MAX && pw * nh * 4 <= usize::MAX
        }),
    ensures
        sprites@.len() == 0 ==> (r matches Ok((img, n)) && img.width == atlas.width && img.height == atlas.height
            && img.data@ == atlas.data@ && n == root),
        sprites@.len() > 0 ==> match frames_dict(shape_of(root)) {
            None => r matches Err(AppError::ParseError(m)) && m@ == "plist missing top-level `frames` dictionary"@,
            Some(fs) => shape_of(root) matches PlistShape::Dict(es) && match appended_sheet(es, fs, *atlas, sprites@) {
                Some(x) => r matches Ok((img, n)) && shape_of(n) == PlistShape::Dict(x) && img.wf()
                    && img.width == append_geometry(atlas.width as int, atlas.height as int, sprites@).0
                    && img.height == append_geometry(atlas.width as int, atlas.height as int, sprites@).2
                    && img.data@ == appended_pixels(*atlas, sprites@),
                None => r matches Err(AppError::ParseError(m)) && m@ == "metadata section must be dictionary"@,
            },
        },
{
    if sprites.len() == 0 {
        return Ok((RgbaBuffer { width: atlas.width, height: atlas.height, data: copy_bytes(&atlas.data) }, root));
    }
    let ghost root_shape = shape_of(root);
    let mut es = match root {
        PlistNode::Dict(es) => es,
        _ => return Err(AppError::ParseError("plist missing top-level `frames` dictionary".to_string())),
    };
    let ghost es0 = es@;
    let ghost ess = entry_shapes(es0, es0.len() as int);
    proof {
        lemma_entry_shapes_all(es0);
        lemma_key_index(ess, "frames"@);
        assert(root_shape == PlistShape::Dict(ess));
    }
    let fi = match find_entry(&es, "frames") {
        Some(j) => j,
        None => return Err(AppError::ParseError("plist missing top-level `frames` dictionary".to_string())),
    };
    proof {
        assert(ess[fi as int] == (es0[fi as int].0@, shape_of(es0[fi as int].1)));
    }
    let (fk, fv) = es.remove(fi);
    let mut fes = match fv {
        PlistNode::Dict(fes) => fes,
        _ => return Err(AppError::ParseError("plist missing top-level `frames` dictionary".to_string())),
    };
    let ghost fs = entry_shapes(fes@, fes@.len() as int);
    let ghost geo = append_geometry(atlas.width as int, atlas.height as int, sprites@);
    let ghost d = sprite_dims(sprites@);
    let (pw, pos, band) = append_slots(atlas.width, sprites);
    let ghost ps = rows(d, pw as int, d.len() as int).3;
    let nh = atlas.height + band;
    proof {
        lemma_dims_in(sprites@, pw as int);
        lemma_rows_len(d, pw as int, d.len() as int);
        assert forall|i: int| 0 <= i < sprites@.len() implies (#[trigger] pos@[i]).0 == ps[i].0 && pos@[i].1 == ps[i].1
            && atlas.height + pos@[i].1 <= u32::MAX by {
            lemma_corner_in_band(d, pw as int, i);
        }
    }
    let mut out = clear_image(pw, nh);
    proof {
        assert(out.data@ =~= Seq::new((geo.0 * geo.2 * 4) as nat, |k: int| 0u8));
    }
    overlay_rgba(&mut out, atlas, 0, 0);
    draw_sprites(&mut out, sprites, &pos, atlas.height, Ghost(ps));
    add_placed_frames(&mut fes, sprites, &pos, atlas.height, Ghost(ps));
    let ghost nfs = entry_shapes(fes@, fes@.len() as int);
    proof {
        lemma_entry_shapes_all(es0);
    }
    es.insert(fi, ("frames".to_string(), PlistNode::Dict(fes)));
    proof {
        reveal_strlit("frames");
        lemma_entry_shapes_all(es@);
        assert(es@ =~= es0.update(fi as int, es@[fi as int]));
        assert forall|t: int| 0 <= t < es@.len() implies #[trigger] entry_shapes(es@, es@.len() as int)[t] == root_with_frames(ess, nfs)[t] by {
            if t != fi {
                assert(es@[t] == es0[t]);
            }
        }
        assert(entry_shapes(es@, es@.len() as int) =~= root_with_frames(ess, nfs));
    }
    match update_plist_metadata_size(PlistNode::Dict(es), pw, nh) {
        Ok(n) => Ok((out, n)),
        Err(e) => Err(e),
    }
}

/// A frame as recorded once its sprite is added at `(x, y)` with size
/// `w × h`: a dictionary gets the texture rectangle, anything else stays.
pub open spec fn placed_frame(f: PlistShape, x: int, y: int, w: int, h: int) -> PlistShape {
    match f {
        PlistShape::Dict(fd) => PlistShape::Dict(
            put_entry(fd, "textureRect"@, PlistShape::Text(texture_rect_text(IconEditorRect { x: x as u32, y: y as u32, width: w as u32, height: h as u32 }))),
        ),
        _ => f,
    }
}

/// The frames after the first `k` added sprites are stored under their
/// names (a dictionary's `insert`).
pub open spec fn frames_with_added(
    fs: Seq<(Seq<char>, PlistShape)>,
    sprites: Seq<(String, PlistNode, RgbaBuffer)>,
    d: Seq<(int, int)>,
    pos: Seq<(int, int)>,
    ah: int,
    k: int,
) -> Seq<(Seq<char>, PlistShape)>
    decreases k,
{
    if k <= 0 || k > sprites.len() {
        fs
    } else {
        put_entry(
            frames_with_added(fs, sprites, d, pos, ah, k - 1),
            sprites[k - 1].0@,
            placed_frame(shape_of(sprites[k - 1].1), pos[k - 1].0, ah + pos[k - 1].1, d[k - 1].0, d[k - 1].1),
        )
    }
}

/// The root's entries with its `frames` dictionary replaced.
pub open spec fn root_with_frames(es: Seq<(Seq<char>, PlistShape)>, fs: Seq<(Seq<char>, PlistShape)>) -> Seq<(Seq<char>, PlistShape)> {
    es.update(key_index(es, "frames"@), ("frames"@, PlistShape::Dict(fs)))
}

/// The widest slot leaves room for the margins in `u32`.
proof fn lemma_widest_bounded(sprites: Seq<(String, PlistNode, RgbaBuffer)>)
    requires
        forall|q: int| 0 <= q < sprites.len() ==> (#[trigger] sprites[q]).2.width + 3 <= u32::MAX,
    ensures
        widest_gap_slot(sprite_dims(sprites)) <= u32::MAX - 2,
    decreases sprites.len(),
{
    let d = sprite_dims(sprites);
    if sprites.len() > 0 {
        let s2 = sprites.drop_last();
        assert(sprite_dims(s2) =~= d.drop_last());
        lemma_widest_bounded(s2);
        let t = sprites[sprites.len() - 1];
        assert(t.2.width + 3 <= u32::MAX);
        assert(d.last() == d[d.len() - 1]);
    }
}

/// Each slot has sides at least 1 and fits the band's width with its margins.
proof fn lemma_dims_in(sprites: Seq<(String, PlistNode, RgbaBuffer)>, pw: int)
    requires
        pw >= widest_gap_slot(sprite_dims(sprites)) + 2,
        pw >= 2,
    ensures
        forall|q: int| 0 <= q < sprite_dims(sprites).len() ==> (#[trigger] sprite_dims(sprites)[q]).0 >= 1 && sprite_dims(sprites)[q].1 >= 1,
        forall|q: int| 0 <= q < sprite_dims(sprites).len() ==> (#[trigger] sprite_dims(sprites)[q]).0 + 3 <= pw,
        sprites.len() > 0 ==> pw >= 3,
{
    let d = sprite_dims(sprites);
    assert forall|q: int| 0 <= q < d.len() implies (#[trigger] d[q]).0 + 3 <= pw by {
        lemma_widest(d, q);
    }
    if sprites.len() > 0 {
        lemma_widest(d, 0);
    }
}

proof fn lemma_widest(d: Seq<(int, int)>, i: int)
    requires
        0 <= i < d.len(),
    ensures
        d[i].0 + 1 <= widest_gap_slot(d),
        widest_gap_slot(d) >= 0,
    decreases d.len(),
{
    lemma_widest_nonneg(d);
    if i < d.len() - 1 {
        lemma_widest(d.drop_last(), i);
    }
}

proof fn lemma_widest_nonneg(d: Seq<(int, int)>)
    ensures
        widest_gap_slot(d) >= 0,
    decreases d.len(),
{
    if d.len() > 0 {
        lemma_widest_nonneg(d.drop_last());
    }
}

proof fn lemma_rows_step(d: Seq<(int, int)>, pw: int, k: int)
    requires
        0 <= k < d.len(),
        forall|i: int| 0 <= i < d.len() ==> (#[trigger] d[i]).0 >= 1 && d[i].1 >= 1,
        rows(d, pw, k).1 >= 0,
        rows(d, pw, k).2 >= 0,
    ensures
        rows(d, pw, k).1 <= rows(d, pw, k + 1).1,
        rows(d, pw, k).1 + rows(d, pw, k).2 <= rows(d, pw, k + 1).1 + rows(d, pw, k + 1).2,
        rows(d, pw, k + 1).1 >= 0,
        rows(d, pw, k + 1).2 >= 0,
{
    assert(d[k].0 >= 1 && d[k].1 >= 1);
}

proof fn lemma_rows_nonneg(d: Seq<(int, int)>, pw: int, k: int)
    requires
        0 <= k <= d.len(),
        forall|i: int| 0 <= i < d.len() ==> (#[trigger] d[i]).0 >= 1 && d[i].1 >= 1,
    ensures
        rows(d, pw, k).1 >= 0,
        rows(d, pw, k).2 >= 0,
    decreases k,
{
    if k > 0 {
        lemma_rows_nonneg(d, pw, k - 1);
        lemma_rows_step(d, pw, k - 1);
    }
}

/// The rows only grow: the row tops and bottoms of a prefix lie above the
/// final ones.
proof fn lemma_rows_grow(d: Seq<(int, int)>, pw: int, k: int, n: int)
    requires
        0 <= k <= n <= d.len(),
        forall|i: int| 0 <= i < d.len() ==> (#[trigger] d[i]).0 >= 1 && d[i].1 >= 1,
    ensures
        rows(d, pw, k).1 <= rows(d, pw, n).1,
        rows(d, pw, k).1 + rows(d, pw, k).2 <= rows(d, pw, n).1 + rows(d, pw, n).2,
        rows(d, pw, k).1 >= 0,
        rows(d, pw, k).2 >= 0,
    decreases n - k,
{
    lemma_rows_nonneg(d, pw, k);
    if k < n {
        lemma_rows_step(d, pw, k);
        lemma_rows_grow(d, pw, k + 1, n);
    }
}

/// The corner of slot `i` and its height lie inside the band.
proof fn lemma_corner_in_band(d: Seq<(int, int)>, pw: int, i: int)
    requires
        0 <= i < d.len(),
        forall|q: int| 0 <= q < d.len() ==> (#[trigger] d[q]).0 >= 1 && d[q].1 >= 1,
        forall|q: int| 0 <= q < d.len() ==> (#[trigger] d[q]).0 + 3 <= pw,
        pw >= 3,
    ensures
        rows(d, pw, d.len() as int).3.len() == d.len(),
        rows(d, pw, i + 1).3[i] == rows(d, pw, d.len() as int).3[i],
        0 <= rows(d, pw, d.len() as int).3[i].1,
        rows(d, pw, d.len() as int).3[i].1 + d[i].1 < band_height(d, pw),
        1 <= rows(d, pw, d.len() as int).3[i].0 <= pw,
{
    lemma_rows_prefix(d, pw, i + 1, d.len() as int);
    lemma_rows_grow(d, pw, i + 1, d.len() as int);
    lemma_rows_grow(d, pw, i, i);
    lemma_rows_cursor(d, pw, i);
    lemma_rows_len(d, pw, d.len() as int);
}

proof fn lemma_rows_len(d: Seq<(int, int)>, pw: int, k: int)
    requires
        0 <= k <= d.len(),
    ensures
        rows(d, pw, k).3.len() == k,
    decreases k,
{
    if k > 0 {
        lemma_rows_len(d, pw, k - 1);
    }
}

/// The corners of a prefix stay as they are.
proof fn lemma_rows_prefix(d: Seq<(int, int)>, pw: int, k: int, n: int)
    requires
        0 <= k <= n <= d.len(),
    ensures
        forall|i: int| 0 <= i < k ==> #[trigger] rows(d, pw, n).3[i] == rows(d, pw, k).3[i],
    decreases n - k,
{
    if k < n {
        lemma_rows_prefix(d, pw, k, n - 1);
        lemma_rows_len(d, pw, n - 1);
        assert forall|i: int| 0 <= i < k implies #[trigger] rows(d, pw, n).3[i] == rows(d, pw, k).3[i] by {
            assert(rows(d, pw, n).3[i] == rows(d, pw, n - 1).3[i]);
        }
    }
}

/// The cursor stays within the band's width.
proof fn lemma_rows_cursor(d: Seq<(int, int)>, pw: int, k: int)
    requires
        0 <= k <= d.len(),
        forall|q: int| 0 <= q < d.len() ==> (#[trigger] d[q]).0 >= 1 && d[q].1 >= 1,
        forall|q: int| 0 <= q < d.len() ==> (#[trigger] d[q]).0 + 3 <= pw,
        pw >= 3,
    ensures
        1 <= rows(d, pw, k).0 <= pw,
        k < d.len() ==> 1 <= rows(d, pw, k + 1).3[k].0 <= pw,
        k < d.len() ==> rows(d, pw, k + 1).3[k].1 == rows(d, pw, k + 1).1,
        k < d.len() ==> d[k].1 + 1 <= rows(d, pw, k + 1).2,
    decreases k,
{
    if k > 0 {
        lemma_rows_cursor(d, pw, k - 1);
    }
    if k < d.len() {
        lemma_rows_len(d, pw, k);
    }
}

} // verus!
