//! Integer passes of the sprite finish on black ink: which ink pixels face
//! the outside, filling the holes of opaque ink, clearing faint haze at the
//! silhouette, and the distance of each cell to the solid core.

use vstd::prelude::*;
use crate::image_alpha::RgbaBuffer;
use crate::pixel_rules::{
    ink_black_spec, is_ink_black, is_opaque_ink_core, is_white_rgb, mask_ok, opaque_ink_core_spec,
    white_rgb_spec,
};

verus! {

/// Pixel `p` (row-major) of the bytes of an RGBA image.
pub open spec fn px(d: Seq<u8>, p: int) -> [u8; 4] {
    [d[4 * p], d[4 * p + 1], d[4 * p + 2], d[4 * p + 3]]
}

/// The neighbour of `(x, y)` at `(dx, dy)` in the `w × h` image with bytes
/// `d` is outside the image or nearly transparent (alpha below 8).
pub open spec fn open_neighbor(d: Seq<u8>, w: int, h: int, x: int, y: int, dx: int, dy: int) -> bool {
    let nx = x + dx;
    let ny = y + dy;
    !(0 <= nx < w && 0 <= ny < h) || px(d, ny * w + nx)[3] < 8
}

/// An ink pixel faces the outside: one of its 8 neighbours is outside the
/// image or background.
pub open spec fn faces_outside_spec(d: Seq<u8>, w: int, h: int, x: int, y: int) -> bool {
    exists|dx: int, dy: int| -1 <= dx <= 1 && -1 <= dy <= 1 && !(dx == 0 && dy == 0) && #[trigger] open_neighbor(d, w, h, x, y, dx, dy)
}

proof fn lemma_pixel(x: int, y: int, w: int, h: int)
    requires
        0 <= x < w,
        0 <= y < h,
    ensures
        0 <= y * w + x < w * h,
        4 * (y * w + x) + 3 < 4 * (w * h),
{
    assert(0 <= y * w + x < w * h) by (nonlinear_arith)
        requires
            0 <= x < w,
            0 <= y < h,
    ;
}

/// Whether an ink pixel borders transparency or the image edge.
pub fn ink_pixel_faces_outside(image: &RgbaBuffer, x: u32, y: u32) -> (r: bool)
    requires
        image.wf(),
        x < image.width,
        y < image.height,
        image.width <= i32::MAX,
        image.height <= i32::MAX,
    ensures
        r == faces_outside_spec(image.data@, image.width as int, image.height as int, x as int, y as int),
{
    let w = image.width as i64;
    let h = image.height as i64;
    let len = image.data.len();
    let mut dy: i64 = -1;
    while dy <= 1
        invariant
            -1 <= dy <= 2,
            w == image.width,
            h == image.height,
            x < image.width,
            y < image.height,
            image.wf(),
            len == image.data@.len(),
            forall|a: int, b: int| -1 <= a <= 1 && -1 <= b < dy && !(a == 0 && b == 0) ==> !#[trigger] open_neighbor(image.data@, image.width as int, image.height as int, x as int, y as int, a, b),
        decreases 2 - dy,
    {
        let mut dx: i64 = -1;
        while dx <= 1
            invariant
                -1 <= dx <= 2,
                -1 <= dy <= 1,
                w == image.width,
                h == image.height,
                x < image.width,
                y < image.height,
                image.wf(),
                len == image.data@.len(),
                forall|a: int, b: int| -1 <= a <= 1 && -1 <= b < dy && !(a == 0 && b == 0) ==> !#[trigger] open_neighbor(image.data@, image.width as int, image.height as int, x as int, y as int, a, b),
                forall|a: int| -1 <= a < dx && !(a == 0 && dy == 0) ==> !#[trigger] open_neighbor(image.data@, image.width as int, image.height as int, x as int, y as int, a, dy as int),
            decreases 2 - dx,
        {
            if !(dx == 0 && dy == 0) {
                let nx = x as i64 + dx;
                let ny = y as i64 + dy;
                if nx < 0 || ny < 0 || nx >= w || ny >= h {
                    proof {
                        assert(open_neighbor(image.data@, image.width as int, image.height as int, x as int, y as int, dx as int, dy as int));
                    }
                    return true;
                }
                proof {
                    lemma_pixel(nx as int, ny as int, w as int, h as int);
                }
                let i = ((ny as usize) * (image.width as usize) + (nx as usize)) * 4;
                if image.data[i + 3] < 8 {
                    proof {
                        assert(open_neighbor(image.data@, image.width as int, image.height as int, x as int, y as int, dx as int, dy as int));
                    }
                    return true;
                }
            }
            dx = dx + 1;
        }
        dy = dy + 1;
    }
    proof {
        assert forall|a: int, b: int| -1 <= a <= 1 && -1 <= b <= 1 && !(a == 0 && b == 0) implies !#[trigger] open_neighbor(image.data@, image.width as int, image.height as int, x as int, y as int, a, b) by {}
    }
    false
}

/// The bytes after opaque ink cores that are not pure black become pure
/// opaque black.
pub open spec fn closed_cores_spec(d: Seq<u8>) -> Seq<u8> {
    Seq::new(d.len(), |k: int| {
        let p = px(d, k / 4);
        if opaque_ink_core_spec(p) && p != [0u8, 0u8, 0u8, 255u8] {
            if k % 4 == 3 { 255u8 } else { 0u8 }
        } else {
            d[k]
        }
    })
}

pub(crate) fn copy_bytes(d: &Vec<u8>) -> (out: Vec<u8>)
    ensures
        out@ == d@,
{
    let mut out: Vec<u8> = Vec::new();
    let mut k: usize = 0;
    while k < d.len()
        invariant
            k <= d@.len(),
            out@ == d@.subrange(0, k as int),
        decreases d@.len() - k,
    {
        out.push(d[k]);
        proof {
            assert(d@.subrange(0, k + 1) =~= d@.subrange(0, k as int).push(d@[k as int]));
        }
        k = k + 1;
    }
    proof {
        assert(d@.subrange(0, d@.len() as int) =~= d@);
    }
    out
}

/// Fills the leftover holes of solid black ink: opaque ink cores become
/// pure opaque black; nothing else changes.
pub fn close_nearly_opaque_ink_cores(image: &RgbaBuffer) -> (r: RgbaBuffer)
    requires
        image.wf(),
    ensures
        r.width == image.width,
        r.height == image.height,
        r.data@ == closed_cores_spec(image.data@),
{
    let ghost d = image.data@;
    let mut out = copy_bytes(&image.data);
    let npix = image.data.len() / 4;
    let mut p: usize = 0;
    while p < npix
        invariant
            d == image.data@,
            d.len() % 4 == 0,
            npix == d.len() / 4,
            p <= npix,
            out@.len() == d.len(),
            forall|q: int| 0 <= q < 4 * p ==> #[trigger] out@[q] == closed_cores_spec(d)[q],
            forall|q: int| 4 * p <= q < d.len() ==> #[trigger] out@[q] == d[q],
        decreases npix - p,
    {
        let len = image.data.len();
        assert(4 * p + 3 < len);
        let i = 4 * p;
        let src = [image.data[i], image.data[i + 1], image.data[i + 2], image.data[i + 3]];
        let fill = is_opaque_ink_core(src) && !(src[0] == 0 && src[1] == 0 && src[2] == 0 && src[3] == 255);
        proof {
            assert(src =~= px(d, p as int));
            assert forall|q: int| i <= q < i + 4 implies #[trigger] (q / 4) == p by {}
        }
        if fill {
            out.set(i, 0);
            out.set(i + 1, 0);
            out.set(i + 2, 0);
            out.set(i + 3, 255);
        }
        proof {
            assert forall|q: int| 0 <= q < 4 * (p + 1) implies #[trigger] out@[q] == closed_cores_spec(d)[q] by {
                if q >= i {
                    assert(q / 4 == p);
                    assert(px(d, q / 4) == src);
                }
            }
        }
        p = p + 1;
    }
    proof {
        assert(out@ =~= closed_cores_spec(d));
    }
    RgbaBuffer { width: image.width, height: image.height, data: out }
}

/// A faint ink pixel at the silhouette: not white, black ink with alpha
/// below `hard_alpha`, and facing the outside.
pub open spec fn haze_spec(img: RgbaBuffer, hard_alpha: u8, p: int) -> bool {
    let s = px(img.data@, p);
    !white_rgb_spec(s) && ink_black_spec(s, 1) && s@[3] < hard_alpha && faces_outside_spec(
        img.data@,
        img.width as int,
        img.height as int,
        p % (img.width as int),
        p / (img.width as int),
    )
}

/// The bytes after faint ink at the silhouette is cleared to transparent.
pub open spec fn cleared_haze_spec(img: RgbaBuffer, hard_alpha: u8) -> Seq<u8> {
    Seq::new(img.data@.len(), |k: int| if haze_spec(img, hard_alpha, k / 4) { 0u8 } else { img.data@[k] })
}

/// Clears faint black ink that touches the outside of the silhouette.
pub fn clear_soft_ink_haze(image: &RgbaBuffer, hard_alpha: u8) -> (r: RgbaBuffer)
    requires
        image.wf(),
        image.width <= i32::MAX,
        image.height <= i32::MAX,
    ensures
        r.width == image.width,
        r.height == image.height,
        r.data@ == cleared_haze_spec(*image, hard_alpha),
{
    let ghost d = image.data@;
    let mut out = copy_bytes(&image.data);
    let w = image.width;
    let h = image.height;
    let mut y: u32 = 0;
    while y < h
        invariant
            w == image.width,
            h == image.height,
            image.wf(),
            image.width <= i32::MAX,
            image.height <= i32::MAX,
            d == image.data@,
            y <= h,
            out@.len() == d.len(),
            forall|q: int| 0 <= q < 4 * (y * w) ==> #[trigger] out@[q] == cleared_haze_spec(*image, hard_alpha)[q],
            forall|q: int| 4 * (y * w) <= q < d.len() ==> #[trigger] out@[q] == d[q],
        decreases h - y,
    {
        let mut x: u32 = 0;
        while x < w
            invariant
                w == image.width,
                h == image.height,
                image.wf(),
                image.width <= i32::MAX,
                image.height <= i32::MAX,
                d == image.data@,
                y < h,
                x <= w,
                out@.len() == d.len(),
                forall|q: int| 0 <= q < 4 * (y * w + x) ==> #[trigger] out@[q] == cleared_haze_spec(*image, hard_alpha)[q],
                forall|q: int| 4 * (y * w + x) <= q < d.len() ==> #[trigger] out@[q] == d[q],
            decreases w - x,
        {
            proof {
                lemma_pixel(x as int, y as int, w as int, h as int);
            }
            let ghost p = y * w + x;
            let len = image.data.len();
            assert(w * h * 4 == 4 * (w * h)) by (nonlinear_arith);
            assert(((y as int) * (w as int) + (x as int)) * 4 + 3 < len);
            let i = ((y as usize) * (w as usize) + (x as usize)) * 4;
            let src = [image.data[i], image.data[i + 1], image.data[i + 2], image.data[i + 3]];
            let clear = !is_white_rgb(src) && is_ink_black(src, 1) && src[3] < hard_alpha
                && ink_pixel_faces_outside(image, x, y);
            proof {
                assert(src =~= px(d, p));
                vstd::arithmetic::div_mod::lemma_fundamental_div_mod_converse(p, w as int, y as int, x as int);
                assert(clear == haze_spec(*image, hard_alpha, p));
                assert forall|q: int| i <= q < i + 4 implies #[trigger] (q / 4) == p by {}
            }
            if clear {
                out.set(i, 0);
                out.set(i + 1, 0);
                out.set(i + 2, 0);
                out.set(i + 3, 0);
            }
            proof {
                assert forall|q: int| 0 <= q < 4 * (y * w + x + 1) implies #[trigger] out@[q] == cleared_haze_spec(*image, hard_alpha)[q] by {
                    if q >= i {
                        assert(q / 4 == p);
                    }
                }
            }
            x = x + 1;
        }
        proof {
            assert((y + 1) * w == y * w + w) by (nonlinear_arith);
        }
        y = y + 1;
    }
    proof {
        assert(h * w == w * h) by (nonlinear_arith);
        assert(out@ =~= cleared_haze_spec(*image, hard_alpha));
    }
    RgbaBuffer { width: image.width, height: image.height, data: out }
}

/// The "far" distance: no solid core within reach.
pub const FAR_FROM_CORE: u32 = 1073741823;

/// Offset `k` of the 9 × 9 window, row by row: `(k % 9 - 4, k / 9 - 4)`.
pub open spec fn window_offset(k: int) -> (int, int) {
    (k % 9 - 4, k / 9 - 4)
}

/// The smallest squared distance to a set cell among the first `k` window
/// offsets around `(x, y)`, or [`FAR_FROM_CORE`].
pub open spec fn nearest_in_window(mask: Seq<bool>, w: int, h: int, x: int, y: int, k: int) -> u32
    decreases k,
{
    if k <= 0 {
        FAR_FROM_CORE
    } else {
        let prev = nearest_in_window(mask, w, h, x, y, k - 1);
        let (dx, dy) = window_offset(k - 1);
        let nx = x + dx;
        let ny = y + dy;
        if 0 <= nx < w && 0 <= ny < h && mask[ny * w + nx] && dx * dx + dy * dy < prev {
            (dx * dx + dy * dy) as u32
        } else {
            prev
        }
    }
}

/// The window search gives a squared distance of at most 32 (the farthest
/// offset of the window), or [`FAR_FROM_CORE`].
pub proof fn lemma_window_distance_range(mask: Seq<bool>, w: int, h: int, x: int, y: int, k: int)
    requires
        0 <= k <= 81,
    ensures
        nearest_in_window(mask, w, h, x, y, k) == FAR_FROM_CORE || nearest_in_window(mask, w, h, x, y, k) <= 32,
    decreases k,
{
    if k > 0 {
        lemma_window_distance_range(mask, w, h, x, y, k - 1);
        let (dx, dy) = window_offset(k - 1);
        assert(-4 <= dx <= 4 && -4 <= dy <= 4);
        assert(0 <= dx * dx + dy * dy <= 32) by (nonlinear_arith)
            requires
                -4 <= dx <= 4,
                -4 <= dy <= 4,
        ;
        assert(((dx * dx + dy * dy) as u32) as int == dx * dx + dy * dy);
    }
}

/// The squared distance of each cell of a `w × h` mask to the nearest set
/// cell within 4 cells each way: 0 on set cells, [`FAR_FROM_CORE`] when
/// none is near, and for cells past the grid.
pub open spec fn core_distance_spec(mask: Seq<bool>, w: int, h: int) -> Seq<u32> {
    Seq::new(mask.len(), |i: int| if i < w * h {
        if mask[i] { 0u32 } else { nearest_in_window(mask, w, h, i % w, i / w, 81) }
    } else {
        FAR_FROM_CORE
    })
}

fn nearest_core(mask: &Vec<bool>, width: u32, height: u32, x: u32, y: u32) -> (r: u32)
    requires
        x < width,
        y < height,
        width <= i32::MAX,
        height <= i32::MAX,
        width * height <= mask@.len(),
    ensures
        r == nearest_in_window(mask@, width as int, height as int, x as int, y as int, 81),
{
    let mut best: u32 = FAR_FROM_CORE;
    let mut k: i64 = 0;
    let len = mask.len();
    while k < 81
        invariant
            0 <= k <= 81,
            x < width,
            y < height,
            width <= i32::MAX,
            height <= i32::MAX,
            width * height <= mask@.len(),
            len == mask@.len(),
            best == nearest_in_window(mask@, width as int, height as int, x as int, y as int, k as int),
        decreases 81 - k,
    {
        let dx: i64 = k % 9 - 4;
        let dy: i64 = k / 9 - 4;
        assert(-4 <= dx <= 4 && -4 <= dy <= 4);
        assert(window_offset(k as int) == (dx as int, dy as int));
        assert(0 <= dx * dx <= 16 && 0 <= dy * dy <= 16) by (nonlinear_arith)
            requires
                -4 <= dx <= 4,
                -4 <= dy <= 4,
        ;
        let d: u32 = (dx * dx + dy * dy) as u32;
        let nx = x as i64 + dx;
        let ny = y as i64 + dy;
        let ghost prev = best;
        if nx >= 0 && ny >= 0 && nx < width as i64 && ny < height as i64 {
            proof {
                lemma_pixel(nx as int, ny as int, width as int, height as int);
            }
            assert((ny as int) * (width as int) + (nx as int) < len);
            let j = (ny as usize) * (width as usize) + (nx as usize);
            if mask[j] && d < best {
                best = d;
            }
        }
        assert(best == nearest_in_window(mask@, width as int, height as int, x as int, y as int, k + 1));
        k = k + 1;
    }
    best
}

/// The squared distance of each cell to the nearest solid-core cell within
/// reach (see [`core_distance_spec`]).
pub fn dist_sq_to_solid_core(mask: &Vec<bool>, width: u32, height: u32) -> (out: Vec<u32>)
    requires
        width * height <= mask@.len(),
        width <= i32::MAX,
        height <= i32::MAX,
    ensures
        out@ == core_distance_spec(mask@, width as int, height as int),
{
    let ghost w = width as int;
    let ghost h = height as int;
    let ghost target = core_distance_spec(mask@, w, h);
    let mut out: Vec<u32> = Vec::new();
    let mut y: u32 = 0;
    while y < height
        invariant
            y <= height,
            w == width as int,
            h == height as int,
            width <= i32::MAX,
            height <= i32::MAX,
            width * height <= mask@.len(),
            target == core_distance_spec(mask@, w, h),
            out@.len() == y * w,
            forall|i: int| 0 <= i < out@.len() ==> out@[i] == target[i],
        decreases height - y,
    {
        let mut x: u32 = 0;
        while x < width
            invariant
                x <= width,
                y < height,
                w == width as int,
                h == height as int,
                width <= i32::MAX,
                height <= i32::MAX,
                width * height <= mask@.len(),
                target == core_distance_spec(mask@, w, h),
                out@.len() == y * w + x,
                forall|i: int| 0 <= i < out@.len() ==> out@[i] == target[i],
            decreases width - x,
        {
            proof {
                lemma_pixel(x as int, y as int, w, h);
                vstd::arithmetic::div_mod::lemma_fundamental_div_mod_converse(y * w + x, w, y as int, x as int);
            }
            let len = mask.len();
            assert((y as int) * (width as int) + (x as int) < len);
            let i = (y as usize) * (width as usize) + (x as usize);
            let v = if mask[i] { 0 } else { nearest_core(mask, width, height, x, y) };
            out.push(v);
            x = x + 1;
        }
        proof {
            assert((y + 1) * w == y * w + w) by (nonlinear_arith);
        }
        y = y + 1;
    }
    proof {
        assert(h * w == w * h) by (nonlinear_arith);
    }
    let n = out.len();
    let mut i: usize = n;
    while i < mask.len()
        invariant
            n <= i <= mask@.len(),
            n == w * h,
            out@.len() == i,
            target == core_distance_spec(mask@, w, h),
            forall|j: int| 0 <= j < out@.len() ==> out@[j] == target[j],
        decreases mask@.len() - i,
    {
        out.push(1073741823);
        i = i + 1;
    }
    proof {
        assert(out@ =~= target);
    }
    out
}

} // verus!
