//! Cutting a frame's sprite out of its atlas: the frame's rectangle (its
//! sides exchanged when the frame is stored rotated), clipped to the atlas,
//! turned back upright, and laid on a transparent canvas of the frame's
//! sprite size.

use vstd::prelude::*;
use crate::icon_editor::{atlas_crop_rect_for_frame, insets_spec, occupied_at, trim_transparent_insets, IconEditorRect, IconEditorSize, TrimInsets};
use crate::image_alpha::RgbaBuffer;

verus! {

/// Byte `ch` of pixel `(x, y)` of a `w`-wide image.
pub open spec fn px(d: Seq<u8>, w: int, x: int, y: int, ch: int) -> u8 {
    d[(y * w + x) * 4 + ch]
}

/// At least 1.
pub open spec fn one_or_more(v: u32) -> int {
    if v > 1 {
        v as int
    } else {
        1
    }
}

/// The atlas rectangle of a frame (see [`atlas_crop_rect_for_frame`]).
pub open spec fn crop_rect_spec(rect: IconEditorRect, size: IconEditorSize, rotated: bool) -> (int, int, int, int) {
    let cw = one_or_more(size.width);
    let ch = one_or_more(size.height);
    if rotated {
        (rect.x as int, rect.y as int, ch, cw)
    } else {
        (rect.x as int, rect.y as int, cw, ch)
    }
}

/// The width of the cut: the rectangle's width clipped to the atlas.
pub open spec fn cut_width(atlas: RgbaBuffer, c: (int, int, int, int)) -> int {
    if c.2 < atlas.width - c.0 {
        c.2
    } else {
        atlas.width - c.0
    }
}

/// The height of the cut: the rectangle's height clipped to the atlas.
pub open spec fn cut_height(atlas: RgbaBuffer, c: (int, int, int, int)) -> int {
    if c.3 < atlas.height - c.1 {
        c.3
    } else {
        atlas.height - c.1
    }
}

/// Byte `ch` of pixel `(x, y)` of the upright sprite: the cut itself, or,
/// for a rotated frame, the cut turned a quarter counter-clockwise.
pub open spec fn upright_byte(atlas: RgbaBuffer, c: (int, int, int, int), rotated: bool, x: int, y: int, ch: int) -> u8 {
    let (sx, sy) = if rotated {
        (cut_width(atlas, c) - 1 - y, x)
    } else {
        (x, y)
    };
    px(atlas.data@, atlas.width as int, c.0 + sx, c.1 + sy, ch)
}

/// What a frame's sprite is: a transparent pixel where the rectangle starts
/// outside the atlas; else a canvas of the sprite size (each side at least
/// 1) holding the upright sprite in its top-left corner, transparent
/// elsewhere.
pub open spec fn extracted_spec(
    atlas: RgbaBuffer,
    rect: IconEditorRect,
    size: IconEditorSize,
    rotated: bool,
    out: RgbaBuffer,
) -> bool {
    let c = crop_rect_spec(rect, size, rotated);
    if c.0 >= atlas.width || c.1 >= atlas.height {
        out.width == 1 && out.height == 1 && out.data@ == seq![0u8, 0u8, 0u8, 0u8]
    } else {
        let (pw, ph) = if rotated {
            (cut_height(atlas, c), cut_width(atlas, c))
        } else {
            (cut_width(atlas, c), cut_height(atlas, c))
        };
        &&& out.width == one_or_more(size.width)
        &&& out.height == one_or_more(size.height)
        &&& out.wf()
        &&& forall|x: int, y: int, ch: int|
            0 <= x < out.width && 0 <= y < out.height && 0 <= ch < 4 ==> #[trigger] px(out.data@, out.width as int, x, y, ch)
                == if x < pw && y < ph {
                upright_byte(atlas, c, rotated, x, y, ch)
            } else {
                0u8
            }
    }
}

pub(crate) proof fn lemma_index_bound(x: int, y: int, w: int, h: int, ch: int)
    requires
        0 <= x < w,
        0 <= y < h,
        0 <= ch < 4,
    ensures
        0 <= (y * w + x) * 4 + ch < w * h * 4,
{
    assert(0 <= y * w) by (nonlinear_arith)
        requires
            0 <= y,
            0 <= w,
    ;
    assert(y * w + x < w * h) by (nonlinear_arith)
        requires
            0 <= x < w,
            0 <= y < h,
    ;
    assert((y * w + x) * 4 + ch < w * h * 4) by (nonlinear_arith)
        requires
            y * w + x < w * h,
            0 <= ch < 4,
    ;
}

pub(crate) proof fn lemma_row_before(x: int, y: int, x2: int, y2: int, w: int)
    requires
        0 <= x < w,
        0 <= x2 <= w,
        0 <= y,
        (y < y2) || (y == y2 && x < x2),
    ensures
        y * w + x < y2 * w + x2,
{
    if y < y2 {
        assert(y * w + w <= y2 * w) by (nonlinear_arith)
            requires
                y < y2,
                0 <= w,
        ;
    }
}

/// A frame's sprite cut from its atlas (see [`extracted_spec`]).
pub fn extract_frame_sprite_from_atlas(
    atlas: &RgbaBuffer,
    texture_rect: &IconEditorRect,
    sprite_size: IconEditorSize,
    texture_rotated: bool,
) -> (r: RgbaBuffer)
    requires
        atlas.wf(),
        one_or_more(sprite_size.width) * one_or_more(sprite_size.height) * 4 <= usize::MAX,
    ensures
        extracted_spec(*atlas, *texture_rect, sprite_size, texture_rotated, r),
{
    let c = atlas_crop_rect_for_frame(texture_rect, sprite_size, texture_rotated);
    let ghost cs = crop_rect_spec(*texture_rect, sprite_size, texture_rotated);
    proof {
        assert(cs == (c.x as int, c.y as int, c.width as int, c.height as int));
    }
    let aw = atlas.width;
    let ah = atlas.height;
    if c.x >= aw || c.y >= ah {
        let mut d: Vec<u8> = Vec::new();
        d.push(0);
        d.push(0);
        d.push(0);
        d.push(0);
        proof {
            assert(d@ =~= seq![0u8, 0u8, 0u8, 0u8]);
        }
        return RgbaBuffer { width: 1, height: 1, data: d };
    }
    let sw: u32 = if c.width < aw - c.x { c.width } else { aw - c.x };
    let sh: u32 = if c.height < ah - c.y { c.height } else { ah - c.y };
    let (pw, ph) = if texture_rotated { (sh, sw) } else { (sw, sh) };
    let tw: u32 = if sprite_size.width > 1 { sprite_size.width } else { 1 };
    let th: u32 = if sprite_size.height > 1 { sprite_size.height } else { 1 };
    let ghost a = *atlas;
    let mut data: Vec<u8> = Vec::new();
    let mut y: u32 = 0;
    while y < th
        invariant
            a == *atlas,
            a.wf(),
            y <= th,
            tw as int == one_or_more(sprite_size.width),
            th as int == one_or_more(sprite_size.height),
            (tw as int) * (th as int) * 4 <= usize::MAX,
            cs == (c.x as int, c.y as int, c.width as int, c.height as int),
            c.x < aw,
            c.y < ah,
            aw == atlas.width,
            ah == atlas.height,
            sw as int == cut_width(a, cs),
            sh as int == cut_height(a, cs),
            (pw, ph) == if texture_rotated { (sh, sw) } else { (sw, sh) },
            data@.len() == (y as int * tw as int) * 4,
            forall|x2: int, y2: int, ch: int|
                0 <= x2 < tw && 0 <= y2 < y && 0 <= ch < 4 ==> #[trigger] px(data@, tw as int, x2, y2, ch) == if x2 < pw && y2 < ph {
                    upright_byte(a, cs, texture_rotated, x2, y2, ch)
                } else {
                    0u8
                },
        decreases th - y,
    {
        let mut x: u32 = 0;
        while x < tw
            invariant
                a == *atlas,
                a.wf(),
                y < th,
                x <= tw,
                tw as int == one_or_more(sprite_size.width),
                th as int == one_or_more(sprite_size.height),
                (tw as int) * (th as int) * 4 <= usize::MAX,
                cs == (c.x as int, c.y as int, c.width as int, c.height as int),
                c.x < aw,
                c.y < ah,
                aw == atlas.width,
                ah == atlas.height,
                sw as int == cut_width(a, cs),
                sh as int == cut_height(a, cs),
                (pw, ph) == if texture_rotated { (sh, sw) } else { (sw, sh) },
                data@.len() == (y as int * tw as int + x as int) * 4,
                forall|x2: int, y2: int, ch: int|
                    0 <= x2 < tw && 0 <= y2 && 0 <= ch < 4 && (y2 < y || (y2 == y && x2 < x)) ==> #[trigger] px(data@, tw as int, x2, y2, ch) == if x2 < pw && y2 < ph {
                        upright_byte(a, cs, texture_rotated, x2, y2, ch)
                    } else {
                        0u8
                    },
            decreases tw - x,
        {
            let ghost before = data@;
            proof {
                lemma_index_bound(x as int, y as int, tw as int, th as int, 3);
            }
            if x < pw && y < ph {
                let (sx, sy) = if texture_rotated { (sw - 1 - y, x) } else { (x, y) };
                let ax = (c.x + sx) as usize;
                let ay = (c.y + sy) as usize;
                let dlen = atlas.data.len();
                proof {
                    assert(ax < aw && ay < ah);
                    lemma_index_bound(ax as int, ay as int, aw as int, ah as int, 3);
                    assert(atlas.data@.len() == dlen);
                    assert(0 <= ay * aw) by (nonlinear_arith)
                        requires
                            0 <= ay,
                            0 <= aw,
                    ;
                }
                let base = (ay * (aw as usize) + ax) * 4;
                data.push(atlas.data[base]);
                data.push(atlas.data[base + 1]);
                data.push(atlas.data[base + 2]);
                data.push(atlas.data[base + 3]);
            } else {
                data.push(0);
                data.push(0);
                data.push(0);
                data.push(0);
            }
            proof {
                assert forall|x2: int, y2: int, ch: int|
                    0 <= x2 < tw && 0 <= y2 && 0 <= ch < 4 && (y2 < y || (y2 == y && x2 < x + 1)) implies #[trigger] px(data@, tw as int, x2, y2, ch) == if x2 < pw && y2 < ph {
                        upright_byte(a, cs, texture_rotated, x2, y2, ch)
                    } else {
                        0u8
                    } by {
                    if y2 < y || x2 < x {
                        lemma_row_before(x2, y2, x as int, y as int, tw as int);
                        assert((y2 * tw + x2) * 4 + ch < (y * tw + x) * 4) by (nonlinear_arith)
                            requires
                                y2 * tw + x2 < y * tw + x,
                                0 <= ch < 4,
                        ;
                        assert(px(data@, tw as int, x2, y2, ch) == px(before, tw as int, x2, y2, ch));
                    } else {
                        assert(x2 == x && y2 == y);
                    }
                }
            }
            x = x + 1;
        }
        proof {
            assert((y as int * tw as int + tw as int) * 4 == ((y as int + 1) * tw as int) * 4) by (nonlinear_arith);
        }
        y = y + 1;
    }
    proof {
        assert((th as int * tw as int) * 4 == (tw as int) * (th as int) * 4) by (nonlinear_arith);
    }
    RgbaBuffer { width: tw, height: th, data }
}

/// `out` is the `w × h` block of `img` whose top-left corner is `(x, y)`.
pub open spec fn cropped(img: RgbaBuffer, x: int, y: int, w: int, h: int, out: RgbaBuffer) -> bool {
    &&& out.width == w
    &&& out.height == h
    &&& out.wf()
    &&& forall|i: int, j: int, ch: int|
        0 <= i < w && 0 <= j < h && 0 <= ch < 4 ==> #[trigger] px(out.data@, w, i, j, ch) == px(img.data@, img.width as int, x + i, y + j, ch)
}

/// The `w × h` block of `img` at `(x, y)` (`imageops::crop_imm` inside the
/// image).
pub fn crop_rgba(img: &RgbaBuffer, x: u32, y: u32, w: u32, h: u32) -> (r: RgbaBuffer)
    requires
        img.wf(),
        x + w <= img.width,
        y + h <= img.height,
    ensures
        cropped(*img, x as int, y as int, w as int, h as int, r),
{
    let aw = img.width;
    let ah = img.height;
    let dlen = img.data.len();
    proof {
        assert((w as int) * (h as int) <= (aw as int) * (ah as int)) by (nonlinear_arith)
            requires
                w <= aw,
                h <= ah,
        ;
    }
    let mut data: Vec<u8> = Vec::new();
    let mut j: u32 = 0;
    while j < h
        invariant
            img.wf(),
            aw == img.width,
            ah == img.height,
            dlen == img.data@.len(),
            x + w <= aw,
            y + h <= ah,
            j <= h,
            data@.len() == (j as int * w as int) * 4,
            forall|i2: int, j2: int, ch: int|
                0 <= i2 < w && 0 <= j2 < j && 0 <= ch < 4 ==> #[trigger] px(data@, w as int, i2, j2, ch) == px(img.data@, aw as int, x + i2, y + j2, ch),
        decreases h - j,
    {
        let mut i: u32 = 0;
        while i < w
            invariant
                img.wf(),
                aw == img.width,
                ah == img.height,
                dlen == img.data@.len(),
                x + w <= aw,
                y + h <= ah,
                j < h,
                i <= w,
                data@.len() == (j as int * w as int + i as int) * 4,
                forall|i2: int, j2: int, ch: int|
                    0 <= i2 < w && 0 <= j2 && 0 <= ch < 4 && (j2 < j || (j2 == j && i2 < i)) ==> #[trigger] px(data@, w as int, i2, j2, ch) == px(img.data@, aw as int, x + i2, y + j2, ch),
            decreases w - i,
        {
            let ghost before = data@;
            let ax = (x + i) as usize;
            let ay = (y + j) as usize;
            proof {
                lemma_index_bound(ax as int, ay as int, aw as int, ah as int, 3);
                assert(0 <= ay * aw) by (nonlinear_arith)
                    requires
                        0 <= ay,
                        0 <= aw,
                ;
            }
            let base = (ay * (aw as usize) + ax) * 4;
            data.push(img.data[base]);
            data.push(img.data[base + 1]);
            data.push(img.data[base + 2]);
            data.push(img.data[base + 3]);
            proof {
                assert forall|i2: int, j2: int, ch: int|
                    0 <= i2 < w && 0 <= j2 && 0 <= ch < 4 && (j2 < j || (j2 == j && i2 < i + 1)) implies #[trigger] px(data@, w as int, i2, j2, ch) == px(img.data@, aw as int, x + i2, y + j2, ch) by {
                    if j2 < j || i2 < i {
                        lemma_row_before(i2, j2, i as int, j as int, w as int);
                        assert((j2 * w + i2) * 4 + ch < (j * w + i) * 4) by (nonlinear_arith)
                            requires
                                j2 * w + i2 < j * w + i,
                                0 <= ch < 4,
                        ;
                        assert(px(data@, w as int, i2, j2, ch) == px(before, w as int, i2, j2, ch));
                    } else {
                        assert(i2 == i && j2 == j);
                    }
                }
            }
            i = i + 1;
        }
        proof {
            assert((j as int * w as int + w as int) * 4 == ((j as int + 1) * w as int) * 4) by (nonlinear_arith);
        }
        j = j + 1;
    }
    proof {
        assert((h as int * w as int) * 4 == (w as int) * (h as int) * 4) by (nonlinear_arith);
    }
    RgbaBuffer { width: w, height: h, data }
}

/// Some pixel of `img` is occupied (alpha above 0).
pub open spec fn any_occupied(img: RgbaBuffer) -> bool {
    exists|x: int, y: int| 0 <= x < img.width && 0 <= y < img.height && #[trigger] occupied_at(img.data@, img.width as int, x, y)
}

/// Whether some pixel of `img` is occupied.
fn has_occupied(img: &RgbaBuffer) -> (r: bool)
    requires
        img.wf(),
    ensures
        r == any_occupied(*img),
{
    let w = img.width;
    let h = img.height;
    let mut y: u32 = 0;
    while y < h
        invariant
            img.wf(),
            w == img.width,
            h == img.height,
            y <= h,
            forall|x2: int, y2: int| 0 <= x2 < w && 0 <= y2 < y ==> !#[trigger] occupied_at(img.data@, w as int, x2, y2),
        decreases h - y,
    {
        let mut x: u32 = 0;
        while x < w
            invariant
                img.wf(),
                w == img.width,
                h == img.height,
                y < h,
                x <= w,
                forall|x2: int, y2: int| 0 <= x2 < w && 0 <= y2 && (y2 < y || (y2 == y && x2 < x)) ==> !#[trigger] occupied_at(img.data@, w as int, x2, y2),
            decreases w - x,
        {
            let dlen = img.data.len();
            proof {
                lemma_index_bound(x as int, y as int, w as int, h as int, 3);
                assert(img.data@.len() == dlen);
                assert(0 <= (y as int) * (w as int)) by (nonlinear_arith)
                    requires
                        0 <= y,
                        0 <= w,
                ;
                assert(4 * ((y as int) * (w as int) + (x as int)) + 3 == ((y as int) * (w as int) + (x as int)) * 4 + 3);
            }
            let p = ((y as usize) * (w as usize) + (x as usize)) * 4 + 3;
            if img.data[p] > 0 {
                assert(occupied_at(img.data@, w as int, x as int, y as int));
                return true;
            }
            x = x + 1;
        }
        y = y + 1;
    }
    false
}

/// A sprite with its transparent margins cut off: one clear pixel where the
/// canvas is empty or nothing is occupied; else the occupied bounding box.
pub open spec fn trimmed_spec(img: RgbaBuffer, ins: TrimInsets, out: RgbaBuffer) -> bool {
    &&& insets_spec(img, ins)
    &&& if img.width == 0 || img.height == 0 || !any_occupied(img) {
        out.width == 1 && out.height == 1 && out.data@ == seq![0u8, 0u8, 0u8, 0u8]
    } else {
        cropped(
            img,
            ins.left as int,
            ins.top as int,
            img.width - ins.left - ins.right,
            img.height - ins.top - ins.bottom,
            out,
        )
    }
}

/// Cuts the transparent margins off a sprite (see [`trimmed_spec`]), and
/// gives the margins cut.
pub fn trim_transparent_rgba(img: &RgbaBuffer) -> (r: (RgbaBuffer, TrimInsets))
    requires
        img.wf(),
    ensures
        trimmed_spec(*img, r.1, r.0),
{
    let ins = trim_transparent_insets(img);
    if img.width == 0 || img.height == 0 || !has_occupied(img) {
        let mut d: Vec<u8> = Vec::new();
        d.push(0);
        d.push(0);
        d.push(0);
        d.push(0);
        proof {
            assert(d@ =~= seq![0u8, 0u8, 0u8, 0u8]);
        }
        return (RgbaBuffer { width: 1, height: 1, data: d }, ins);
    }
    proof {
        let w = img.width as int;
        let h = img.height as int;
        let d = img.data@;
        let (xa, ya) = choose|x: int, y: int| 0 <= x < w && 0 <= y < h && #[trigger] occupied_at(d, w, x, y) && x == ins.left;
        let (xb, yb) = choose|x: int, y: int| 0 <= x < w && 0 <= y < h && #[trigger] occupied_at(d, w, x, y) && x == w - 1 - ins.right;
        let (xc, yc) = choose|x: int, y: int| 0 <= x < w && 0 <= y < h && #[trigger] occupied_at(d, w, x, y) && y == ins.top;
        let (xd, yd) = choose|x: int, y: int| 0 <= x < w && 0 <= y < h && #[trigger] occupied_at(d, w, x, y) && y == h - 1 - ins.bottom;
        assert(ins.left <= xb <= w - 1 - ins.right);
        assert(ins.top <= yd <= h - 1 - ins.bottom);
    }
    let cw = img.width - ins.left - ins.right;
    let ch = img.height - ins.top - ins.bottom;
    let out = crop_rgba(img, ins.left, ins.top, cw, ch);
    (out, ins)
}

} // verus!
