//! The outline anti-aliasing passes of the sprite finish: lifting the
//! existing fringe of a silhouette toward opaque, and making fringe opacity
//! fall off with the distance from the solid outline.

use vstd::prelude::*;
use crate::image_alpha::RgbaBuffer;
use crate::ink_finish::{
    copy_bytes, core_distance_spec, dist_sq_to_solid_core, faces_outside_spec, ink_pixel_faces_outside,
    lemma_window_distance_range, px, FAR_FROM_CORE,
};
use crate::pixel_rules::{
    ink_black_spec, is_ink_black, is_outline_aa_fringe, is_true_solid_core, is_white_rgb, mask_neighbor_count,
    neighbor_count_spec, outline_fringe_spec, true_solid_core_spec, white_rgb_spec,
};

verus! {

/// The highest alpha the fringe passes give a pixel.
pub const MAX_AA_ALPHA: u8 = 230;

/// The solid-core flags of the `w × h` pixels of the bytes `d`.
pub open spec fn core_mask_spec(d: Seq<u8>, w: int, h: int, occupancy: bool) -> Seq<bool> {
    Seq::new((w * h) as nat, |p: int| true_solid_core_spec(px(d, p), occupancy))
}

/// The cap an inner fringe pixel of alpha `a` puts on its outer neighbours:
/// 68 % of `a`, to the nearest integer (no alpha gives a fraction of one half).
pub open spec fn falloff_cap_spec(a: u8) -> u8 {
    ((68 * a + 50) / 100) as u8
}

/// The pixel a fringe pass writes: the source colour in occupancy mode,
/// black ink otherwise, with alpha `a`.
pub open spec fn fringe_pixel(src: [u8; 4], occupancy: bool, a: u8) -> [u8; 4] {
    if occupancy {
        [src[0], src[1], src[2], a]
    } else {
        [0u8, 0u8, 0u8, a]
    }
}

/// The bytes `d` with pixel `p` replaced by `v`.
pub open spec fn with_pixel(d: Seq<u8>, p: int, v: [u8; 4]) -> Seq<u8> {
    d.update(4 * p, v[0]).update(4 * p + 1, v[1]).update(4 * p + 2, v[2]).update(4 * p + 3, v[3])
}

/// What the falloff passes know of an image before they start: its size,
/// the mode, the solid-core mask, each pixel's squared distance to the core
/// and which pixels are fringe to be adjusted.
pub struct FalloffFrame {
    pub w: int,
    pub h: int,
    pub occupancy: bool,
    pub mask: Seq<bool>,
    pub dist: Seq<u32>,
    pub fringe: Seq<bool>,
}

/// The fringe pixels: outline fringe that faces the outside and lies near a
/// solid core but not on it.
pub open spec fn fringe_spec(d: Seq<u8>, w: int, h: int, occupancy: bool, dist: Seq<u32>) -> Seq<bool> {
    Seq::new(
        (w * h) as nat,
        |p: int|
            outline_fringe_spec(px(d, p), occupancy) && faces_outside_spec(d, w, h, p % w, p / w) && dist[p] != 0
                && dist[p] < FAR_FROM_CORE,
    )
}

/// The frame of the `w × h` image with bytes `d`.
pub open spec fn falloff_frame(d: Seq<u8>, w: int, h: int, occupancy: bool) -> FalloffFrame {
    let mask = core_mask_spec(d, w, h, occupancy);
    let dist = core_distance_spec(mask, w, h);
    FalloffFrame { w, h, occupancy, mask, dist, fringe: fringe_spec(d, w, h, occupancy, dist) }
}

/// Neighbour `k` (0..9, row by row) of the 3 × 3 window around pixel `p`
/// lies in the image.
pub open spec fn nb_in(f: FalloffFrame, p: int, k: int) -> bool {
    0 <= p % f.w + k % 3 - 1 < f.w && 0 <= p / f.w + k / 3 - 1 < f.h
}

/// The index of neighbour `k` of pixel `p`.
pub open spec fn nb(f: FalloffFrame, p: int, k: int) -> int {
    (p / f.w + k / 3 - 1) * f.w + (p % f.w + k % 3 - 1)
}

/// The highest alpha among pixel `p` and those of its first `k` neighbours
/// that are fringe and lie farther from the core.
pub open spec fn outer_alpha(d: Seq<u8>, f: FalloffFrame, p: int, k: int) -> u8
    decreases k,
{
    if k <= 0 {
        px(d, p)[3]
    } else {
        let prev = outer_alpha(d, f, p, k - 1);
        let n = nb(f, p, k - 1);
        if nb_in(f, p, k - 1) && f.dist[n] > f.dist[p] && outline_fringe_spec(px(d, n), f.occupancy) && px(d, n)[3]
            > prev {
            px(d, n)[3]
        } else {
            prev
        }
    }
}

/// Pixel `p` made at least as opaque as its farther fringe neighbours, up to
/// [`MAX_AA_ALPHA`].
pub open spec fn lift_step(d: Seq<u8>, f: FalloffFrame, p: int) -> Seq<u8> {
    let src = px(d, p);
    let a0 = outer_alpha(d, f, p, 9);
    let a = if a0 > MAX_AA_ALPHA {
        MAX_AA_ALPHA
    } else {
        a0
    };
    if a != src[3] {
        with_pixel(d, p, fringe_pixel(src, f.occupancy, a))
    } else {
        d
    }
}

/// [`lift_step`] on the fringe pixels at squared distance `level` among the
/// first `q` pixels, in index order.
pub open spec fn lift_sweep(d: Seq<u8>, f: FalloffFrame, level: u32, q: int) -> Seq<u8>
    decreases q,
{
    if q <= 0 {
        d
    } else {
        let prev = lift_sweep(d, f, level, q - 1);
        if f.fringe[q - 1] && f.dist[q - 1] == level {
            lift_step(prev, f, q - 1)
        } else {
            prev
        }
    }
}

/// The outside-in pass over the `n` farthest levels: 32, 31, …, 33 - n.
pub open spec fn lift_pass(d: Seq<u8>, f: FalloffFrame, n: int) -> Seq<u8>
    decreases n,
{
    if n <= 0 {
        d
    } else {
        lift_sweep(lift_pass(d, f, n - 1), f, (33 - n) as u32, f.w * f.h)
    }
}

/// Whether some of the first `k` neighbours of `p` is fringe nearer the core
/// (not core itself), and the least cap those neighbours put on `p`.
pub open spec fn inner_cap(d: Seq<u8>, f: FalloffFrame, p: int, k: int) -> (bool, u8)
    decreases k,
{
    if k <= 0 {
        (false, 255u8)
    } else {
        let prev = inner_cap(d, f, p, k - 1);
        let n = nb(f, p, k - 1);
        if nb_in(f, p, k - 1) && f.dist[n] < f.dist[p] && !f.mask[n] && outline_fringe_spec(px(d, n), f.occupancy) {
            let c = falloff_cap_spec(px(d, n)[3]);
            (true, if c < prev.1 { c } else { prev.1 })
        } else {
            prev
        }
    }
}

/// Pixel `p` made no more opaque than the cap of its nearer fringe
/// neighbours, keeping alpha at least 1; unchanged without such neighbours.
pub open spec fn fade_step(d: Seq<u8>, f: FalloffFrame, p: int) -> Seq<u8> {
    let src = px(d, p);
    let found = inner_cap(d, f, p, 9).0;
    let cap = inner_cap(d, f, p, 9).1;
    let a0 = if src[3] < cap {
        src[3]
    } else {
        cap
    };
    let a = if a0 < 1 {
        1u8
    } else {
        a0
    };
    if found && a != src[3] {
        with_pixel(d, p, fringe_pixel(src, f.occupancy, a))
    } else {
        d
    }
}

/// [`fade_step`] on the fringe pixels at squared distance `level` among the
/// first `q` pixels, in index order.
pub open spec fn fade_sweep(d: Seq<u8>, f: FalloffFrame, level: u32, q: int) -> Seq<u8>
    decreases q,
{
    if q <= 0 {
        d
    } else {
        let prev = fade_sweep(d, f, level, q - 1);
        if f.fringe[q - 1] && f.dist[q - 1] == level {
            fade_step(prev, f, q - 1)
        } else {
            prev
        }
    }
}

/// The inside-out pass over the `n` nearest levels: 1, 2, …, n.
pub open spec fn fade_pass(d: Seq<u8>, f: FalloffFrame, n: int) -> Seq<u8>
    decreases n,
{
    if n <= 0 {
        d
    } else {
        fade_sweep(fade_pass(d, f, n - 1), f, n as u32, f.w * f.h)
    }
}

/// The bytes after the falloff passes: images narrower or lower than 3
/// pixels are left as they are; otherwise the fringe is lifted outside-in,
/// then faded inside-out.
pub open spec fn falloff_spec(d: Seq<u8>, w: int, h: int, occupancy: bool) -> Seq<u8> {
    if w < 3 || h < 3 {
        d
    } else {
        let f = falloff_frame(d, w, h, occupancy);
        fade_pass(lift_pass(d, f, 32), f, 32)
    }
}

/// Each fringe pixel lies at a squared distance from 1 to 32, so the passes
/// over the levels 1 to 32 visit every one of them.
pub proof fn lemma_fringe_levels(d: Seq<u8>, w: int, h: int, occupancy: bool, p: int)
    requires
        0 <= p < w * h,
        falloff_frame(d, w, h, occupancy).fringe[p],
    ensures
        1 <= falloff_frame(d, w, h, occupancy).dist[p] <= 32,
{
    let f = falloff_frame(d, w, h, occupancy);
    lemma_window_distance_range(f.mask, w, h, p % w, p / w, 81);
}

/// The same pixels of `a` and `b`, among the first `n`, are transparent.
pub open spec fn same_occupancy(a: Seq<u8>, b: Seq<u8>, n: int) -> bool {
    forall|q: int| 0 <= q < n ==> (#[trigger] px(a, q)[3] == 0) == (px(b, q)[3] == 0)
}

proof fn lemma_outer_alpha_at_least(d: Seq<u8>, f: FalloffFrame, p: int, k: int)
    ensures
        outer_alpha(d, f, p, k) >= px(d, p)[3],
    decreases k,
{
    if k > 0 {
        lemma_outer_alpha_at_least(d, f, p, k - 1);
    }
}

proof fn lemma_with_pixel_elsewhere(d: Seq<u8>, p: int, v: [u8; 4], q: int)
    requires
        0 <= p,
        0 <= q,
        q != p,
        4 * p + 3 < d.len(),
        4 * q + 3 < d.len(),
    ensures
        px(with_pixel(d, p, v), q) == px(d, q),
{
    let e = with_pixel(d, p, v);
    assert(e[4 * q] == d[4 * q]);
    assert(e[4 * q + 1] == d[4 * q + 1]);
    assert(e[4 * q + 2] == d[4 * q + 2]);
    assert(e[4 * q + 3] == d[4 * q + 3]);
}

/// Writing a fringe pixel with alpha `a` keeps which pixels are
/// transparent when `a` is zero exactly where the pixel was.
proof fn lemma_write_keeps_occupancy(d0: Seq<u8>, cur: Seq<u8>, p: int, v: [u8; 4], n: int)
    requires
        cur.len() == 4 * n,
        0 <= p < n,
        same_occupancy(cur, d0, n),
        (v[3] == 0) == (px(d0, p)[3] == 0),
    ensures
        same_occupancy(with_pixel(cur, p, v), d0, n),
        with_pixel(cur, p, v).len() == cur.len(),
{
    let e = with_pixel(cur, p, v);
    assert forall|q: int| 0 <= q < n implies (#[trigger] px(e, q)[3] == 0) == (px(d0, q)[3] == 0) by {
        if q != p {
            lemma_with_pixel_elsewhere(cur, p, v, q);
            assert(px(cur, q)[3] == 0 <==> px(d0, q)[3] == 0);
        }
    }
}

proof fn lemma_lift_sweep_keeps(d0: Seq<u8>, base: Seq<u8>, f: FalloffFrame, level: u32, q: int)
    requires
        f == falloff_frame(d0, f.w, f.h, f.occupancy),
        0 <= f.w,
        0 <= f.h,
        base.len() == 4 * (f.w * f.h),
        same_occupancy(base, d0, f.w * f.h),
        0 <= q <= f.w * f.h,
    ensures
        lift_sweep(base, f, level, q).len() == base.len(),
        same_occupancy(lift_sweep(base, f, level, q), d0, f.w * f.h),
    decreases q,
{
    if q > 0 {
        lemma_lift_sweep_keeps(d0, base, f, level, q - 1);
        let prev = lift_sweep(base, f, level, q - 1);
        let p = q - 1;
        if f.fringe[p] && f.dist[p] == level {
            assert(px(d0, p)[3] != 0);
            assert(px(prev, p)[3] != 0);
            lemma_outer_alpha_at_least(prev, f, p, 9);
            let src = px(prev, p);
            let a0 = outer_alpha(prev, f, p, 9);
            let a = if a0 > MAX_AA_ALPHA { MAX_AA_ALPHA } else { a0 };
            if a != src[3] {
                lemma_write_keeps_occupancy(d0, prev, p, fringe_pixel(src, f.occupancy, a), f.w * f.h);
            }
        }
    }
}

proof fn lemma_fade_sweep_keeps(d0: Seq<u8>, lifted: Seq<u8>, base: Seq<u8>, f: FalloffFrame, level: u32, q: int)
    requires
        f == falloff_frame(d0, f.w, f.h, f.occupancy),
        0 <= f.w,
        0 <= f.h,
        base.len() == 4 * (f.w * f.h),
        same_occupancy(base, d0, f.w * f.h),
        0 <= q <= f.w * f.h,
    ensures
        fade_sweep(base, f, level, q).len() == base.len(),
        same_occupancy(fade_sweep(base, f, level, q), d0, f.w * f.h),
    decreases q,
{
    if q > 0 {
        lemma_fade_sweep_keeps(d0, lifted, base, f, level, q - 1);
        let prev = fade_sweep(base, f, level, q - 1);
        let p = q - 1;
        if f.fringe[p] && f.dist[p] == level {
            assert(px(d0, p)[3] != 0);
            let src = px(prev, p);
            let found = inner_cap(prev, f, p, 9).0;
            let cap = inner_cap(prev, f, p, 9).1;
            let a0 = if src[3] < cap { src[3] } else { cap };
            let a = if a0 < 1 { 1u8 } else { a0 };
            if found && a != src[3] {
                lemma_write_keeps_occupancy(d0, prev, p, fringe_pixel(src, f.occupancy, a), f.w * f.h);
            }
        }
    }
}

proof fn lemma_lift_pass_keeps(d0: Seq<u8>, f: FalloffFrame, k: int)
    requires
        f == falloff_frame(d0, f.w, f.h, f.occupancy),
        0 <= f.w,
        0 <= f.h,
        d0.len() == 4 * (f.w * f.h),
        0 <= k,
    ensures
        lift_pass(d0, f, k).len() == d0.len(),
        same_occupancy(lift_pass(d0, f, k), d0, f.w * f.h),
    decreases k,
{
    if k > 0 {
        lemma_lift_pass_keeps(d0, f, k - 1);
        lemma_lift_sweep_keeps(d0, lift_pass(d0, f, k - 1), f, (33 - k) as u32, f.w * f.h);
    }
}

proof fn lemma_fade_pass_keeps(d0: Seq<u8>, start: Seq<u8>, f: FalloffFrame, k: int)
    requires
        f == falloff_frame(d0, f.w, f.h, f.occupancy),
        0 <= f.w,
        0 <= f.h,
        start.len() == 4 * (f.w * f.h),
        same_occupancy(start, d0, f.w * f.h),
        0 <= k,
    ensures
        fade_pass(start, f, k).len() == start.len(),
        same_occupancy(fade_pass(start, f, k), d0, f.w * f.h),
    decreases k,
{
    if k > 0 {
        lemma_fade_pass_keeps(d0, start, f, k - 1);
        lemma_fade_sweep_keeps(d0, start, fade_pass(start, f, k - 1), f, k as u32, f.w * f.h);
    }
}

/// The falloff passes leave every transparent pixel transparent and every
/// other pixel occupied.
pub proof fn lemma_falloff_keeps_occupancy(d: Seq<u8>, w: int, h: int, occupancy: bool)
    requires
        0 <= w,
        0 <= h,
        d.len() == 4 * (w * h),
    ensures
        falloff_spec(d, w, h, occupancy).len() == d.len(),
        same_occupancy(falloff_spec(d, w, h, occupancy), d, w * h),
{
    if !(w < 3 || h < 3) {
        let f = falloff_frame(d, w, h, occupancy);
        lemma_lift_pass_keeps(d, f, 32);
        lemma_fade_pass_keeps(d, lift_pass(d, f, 32), f, 32);
    }
}

/// The cap an inner fringe pixel of alpha `alpha` puts on its outer
/// neighbours (see [`falloff_cap_spec`]).
pub fn falloff_cap(alpha: u8) -> (r: u8)
    ensures
        r == falloff_cap_spec(alpha),
{
    ((68 * (alpha as u32) + 50) / 100) as u8
}

proof fn lemma_split(p: int, w: int, h: int)
    requires
        0 <= p < w * h,
        0 < w,
    ensures
        0 <= p % w < w,
        0 <= p / w < h,
        p == (p / w) * w + p % w,
{
    vstd::arithmetic::div_mod::lemma_fundamental_div_mod(p, w);
    let q = p / w;
    let r = p % w;
    assert(0 <= q < h) by (nonlinear_arith)
        requires
            p == w * q + r,
            0 <= r < w,
            0 <= p < w * h,
            0 < w,
    ;
    assert(q * w == w * q) by (nonlinear_arith);
}

proof fn lemma_cell(x: int, y: int, w: int, h: int)
    requires
        0 <= x < w,
        0 <= y < h,
    ensures
        0 <= y * w + x < w * h,
        4 * (y * w + x) + 3 < 4 * (w * h),
{
    assert(0 <= y * w + x < w * h) by (nonlinear_arith)
        requires
            0 <= x < w,
            0 <= y < h,
    ;
}

/// The solid-core flags of an image (see [`core_mask_spec`]).
pub fn solid_core_mask(image: &RgbaBuffer, occupancy: bool) -> (mask: Vec<bool>)
    requires
        image.wf(),
    ensures
        mask@ == core_mask_spec(image.data@, image.width as int, image.height as int, occupancy),
{
    let ghost d = image.data@;
    let ghost target = core_mask_spec(d, image.width as int, image.height as int, occupancy);
    proof {
        assert(d.len() / 4 == image.width * image.height);
    }
    let n = image.data.len() / 4;
    let mut mask: Vec<bool> = Vec::new();
    let mut p: usize = 0;
    while p < n
        invariant
            d == image.data@,
            d.len() == image.width * image.height * 4,
            n == image.width * image.height,
            target == core_mask_spec(d, image.width as int, image.height as int, occupancy),
            p <= n,
            mask@.len() == p,
            forall|q: int| 0 <= q < p ==> mask@[q] == target[q],
        decreases n - p,
    {
        assert(4 * p + 3 < d.len()) by (nonlinear_arith)
            requires
                p < n,
                n == image.width * image.height,
                d.len() == image.width * image.height * 4,
        ;
        let len = image.data.len();
        assert(4 * p + 3 < len);
        let i = 4 * p;
        let src = [image.data[i], image.data[i + 1], image.data[i + 2], image.data[i + 3]];
        proof {
            assert(src =~= px(d, p as int));
        }
        mask.push(is_true_solid_core(src, occupancy));
        p = p + 1;
    }
    proof {
        assert(mask@ =~= target);
    }
    mask
}

/// A frame from its parts.
pub open spec fn frame_of(w: int, h: int, occupancy: bool, mask: Seq<bool>, dist: Seq<u32>, fringe: Seq<bool>) -> FalloffFrame {
    FalloffFrame { w, h, occupancy, mask, dist, fringe }
}

fn fringe_flags(image: &RgbaBuffer, occupancy: bool, dist: &Vec<u32>) -> (r: Vec<bool>)
    requires
        image.wf(),
        image.width <= i32::MAX,
        image.height <= i32::MAX,
        dist@.len() == image.width * image.height,
    ensures
        r@ == fringe_spec(image.data@, image.width as int, image.height as int, occupancy, dist@),
{
    let ghost d = image.data@;
    let ghost w = image.width as int;
    let ghost h = image.height as int;
    let ghost target = fringe_spec(d, w, h, occupancy, dist@);
    proof {
        assert(d.len() / 4 == image.width * image.height);
    }
    let n = image.data.len() / 4;
    let mut r: Vec<bool> = Vec::new();
    let mut p: usize = 0;
    while p < n
        invariant
            d == image.data@,
            w == image.width,
            h == image.height,
            image.width <= i32::MAX,
            image.height <= i32::MAX,
            d.len() == w * h * 4,
            n == w * h,
            dist@.len() == w * h,
            target == fringe_spec(d, w, h, occupancy, dist@),
            p <= n,
            r@.len() == p,
            forall|q: int| 0 <= q < p ==> r@[q] == target[q],
        decreases n - p,
    {
        assert(0 < w) by (nonlinear_arith)
            requires
                p < n,
                n == w * h,
                0 <= h,
                0 <= w,
        ;
        proof {
            lemma_split(p as int, w, h);
        }
        let x: u32 = (p % (image.width as usize)) as u32;
        let y: u32 = (p / (image.width as usize)) as u32;
        assert(4 * p + 3 < d.len()) by (nonlinear_arith)
            requires
                p < n,
                n == w * h,
                d.len() == w * h * 4,
        ;
        let len = image.data.len();
        assert(4 * p + 3 < len);
        let i = 4 * p;
        let src = [image.data[i], image.data[i + 1], image.data[i + 2], image.data[i + 3]];
        proof {
            assert(src =~= px(d, p as int));
        }
        let flag = is_outline_aa_fringe(src, occupancy) && ink_pixel_faces_outside(image, x, y) && dist[p] != 0
            && dist[p] < FAR_FROM_CORE;
        r.push(flag);
        p = p + 1;
    }
    proof {
        assert(r@ =~= target);
    }
    r
}

fn lift_at(
    out: &mut Vec<u8>,
    mask: &Vec<bool>,
    dist: &Vec<u32>,
    fringe: &Vec<bool>,
    w: u32,
    h: u32,
    occupancy: bool,
    p: usize,
)
    requires
        0 < w <= i32::MAX,
        0 < h <= i32::MAX,
        old(out)@.len() == 4 * (w * h),
        dist@.len() == w * h,
        p < w * h,
    ensures
        final(out)@ == lift_step(old(out)@, frame_of(w as int, h as int, occupancy, mask@, dist@, fringe@), p as int),
{
    let ghost f = frame_of(w as int, h as int, occupancy, mask@, dist@, fringe@);
    let ghost d0 = out@;
    proof {
        lemma_split(p as int, w as int, h as int);
    }
    let x: u32 = (p % (w as usize)) as u32;
    let y: u32 = (p / (w as usize)) as u32;
    proof {
        lemma_cell(x as int, y as int, w as int, h as int);
    }
    let len = out.len();
    assert(4 * p + 3 < len);
    let i = 4 * p;
    let src = [out[i], out[i + 1], out[i + 2], out[i + 3]];
    proof {
        assert(src =~= px(d0, p as int));
    }
    let dp = dist[p];
    let mut a: u8 = src[3];
    let mut k: u32 = 0;
    while k < 9
        invariant
            k <= 9,
            out@ == d0,
            f == frame_of(w as int, h as int, occupancy, mask@, dist@, fringe@),
            0 < w <= i32::MAX,
            0 < h <= i32::MAX,
            x == p as int % (w as int),
            y == p as int / (w as int),
            x < w,
            y < h,
            len == out@.len(),
            len == 4 * (w * h),
            dist@.len() == w * h,
            dp == dist@[p as int],
            p < w * h,
            a == outer_alpha(d0, f, p as int, k as int),
        decreases 9 - k,
    {
        let dx: i64 = (k % 3) as i64 - 1;
        let dy: i64 = (k / 3) as i64 - 1;
        let nx = x as i64 + dx;
        let ny = y as i64 + dy;
        if nx >= 0 && ny >= 0 && nx < w as i64 && ny < h as i64 {
            proof {
                lemma_cell(nx as int, ny as int, w as int, h as int);
            }
            let n = (ny as usize) * (w as usize) + (nx as usize);
            assert(n == nb(f, p as int, k as int));
            assert(4 * n + 3 < len);
            if dist[n] > dp {
                let q = [out[4 * n], out[4 * n + 1], out[4 * n + 2], out[4 * n + 3]];
                proof {
                    assert(q =~= px(d0, n as int));
                }
                if is_outline_aa_fringe(q, occupancy) && q[3] > a {
                    a = q[3];
                }
            }
        }
        k = k + 1;
    }
    if a > MAX_AA_ALPHA {
        a = MAX_AA_ALPHA;
    }
    if a != src[3] {
        let v0 = if occupancy { src[0] } else { 0 };
        let v1 = if occupancy { src[1] } else { 0 };
        let v2 = if occupancy { src[2] } else { 0 };
        out.set(i, v0);
        out.set(i + 1, v1);
        out.set(i + 2, v2);
        out.set(i + 3, a);
        proof {
            assert(out@ =~= with_pixel(d0, p as int, fringe_pixel(src, occupancy, a)));
        }
    }
}

fn fade_at(
    out: &mut Vec<u8>,
    mask: &Vec<bool>,
    dist: &Vec<u32>,
    fringe: &Vec<bool>,
    w: u32,
    h: u32,
    occupancy: bool,
    p: usize,
)
    requires
        0 < w <= i32::MAX,
        0 < h <= i32::MAX,
        old(out)@.len() == 4 * (w * h),
        dist@.len() == w * h,
        mask@.len() == w * h,
        p < w * h,
    ensures
        final(out)@ == fade_step(old(out)@, frame_of(w as int, h as int, occupancy, mask@, dist@, fringe@), p as int),
{
    let ghost f = frame_of(w as int, h as int, occupancy, mask@, dist@, fringe@);
    let ghost d0 = out@;
    proof {
        lemma_split(p as int, w as int, h as int);
    }
    let x: u32 = (p % (w as usize)) as u32;
    let y: u32 = (p / (w as usize)) as u32;
    proof {
        lemma_cell(x as int, y as int, w as int, h as int);
    }
    let len = out.len();
    assert(4 * p + 3 < len);
    let i = 4 * p;
    let src = [out[i], out[i + 1], out[i + 2], out[i + 3]];
    proof {
        assert(src =~= px(d0, p as int));
    }
    let dp = dist[p];
    let mut found = false;
    let mut cap: u8 = 255;
    let mut k: u32 = 0;
    while k < 9
        invariant
            k <= 9,
            out@ == d0,
            f == frame_of(w as int, h as int, occupancy, mask@, dist@, fringe@),
            0 < w <= i32::MAX,
            0 < h <= i32::MAX,
            x == p as int % (w as int),
            y == p as int / (w as int),
            x < w,
            y < h,
            len == out@.len(),
            len == 4 * (w * h),
            dist@.len() == w * h,
            mask@.len() == w * h,
            dp == dist@[p as int],
            p < w * h,
            (found, cap) == inner_cap(d0, f, p as int, k as int),
        decreases 9 - k,
    {
        let dx: i64 = (k % 3) as i64 - 1;
        let dy: i64 = (k / 3) as i64 - 1;
        let nx = x as i64 + dx;
        let ny = y as i64 + dy;
        if nx >= 0 && ny >= 0 && nx < w as i64 && ny < h as i64 {
            proof {
                lemma_cell(nx as int, ny as int, w as int, h as int);
            }
            let n = (ny as usize) * (w as usize) + (nx as usize);
            assert(n == nb(f, p as int, k as int));
            assert(4 * n + 3 < len);
            if dist[n] < dp && !mask[n] {
                let q = [out[4 * n], out[4 * n + 1], out[4 * n + 2], out[4 * n + 3]];
                proof {
                    assert(q =~= px(d0, n as int));
                }
                if is_outline_aa_fringe(q, occupancy) {
                    found = true;
                    let c = falloff_cap(q[3]);
                    if c < cap {
                        cap = c;
                    }
                }
            }
        }
        k = k + 1;
    }
    if found {
        let a0 = if src[3] < cap { src[3] } else { cap };
        let a = if a0 < 1 { 1 } else { a0 };
        if a != src[3] {
            let v0 = if occupancy { src[0] } else { 0 };
            let v1 = if occupancy { src[1] } else { 0 };
            let v2 = if occupancy { src[2] } else { 0 };
            out.set(i, v0);
            out.set(i + 1, v1);
            out.set(i + 2, v2);
            out.set(i + 3, a);
            proof {
                assert(out@ =~= with_pixel(d0, p as int, fringe_pixel(src, occupancy, a)));
            }
        }
    }
}

/// Makes fringe opacity fall off with the distance from the solid outline
/// (see [`falloff_spec`]): outside-in, no fringe pixel stays more
/// transparent than a farther fringe neighbour; then inside-out, none stays
/// more opaque than 68 % of a nearer one. Only existing pixels change.
pub fn enforce_outline_aa_falloff(image: &RgbaBuffer, occupancy: bool) -> (r: RgbaBuffer)
    requires
        image.wf(),
        image.width <= i32::MAX,
        image.height <= i32::MAX,
    ensures
        r.width == image.width,
        r.height == image.height,
        r.data@ == falloff_spec(image.data@, image.width as int, image.height as int, occupancy),
{
    let w = image.width;
    let h = image.height;
    let ghost d = image.data@;
    if w < 3 || h < 3 {
        return RgbaBuffer { width: w, height: h, data: copy_bytes(&image.data) };
    }
    let mask = solid_core_mask(image, occupancy);
    let dist = dist_sq_to_solid_core(&mask, w, h);
    let fringe = fringe_flags(image, occupancy, &dist);
    let ghost f = falloff_frame(d, w as int, h as int, occupancy);
    assert(f == frame_of(w as int, h as int, occupancy, mask@, dist@, fringe@));
    proof {
        assert(d.len() / 4 == w * h);
        assert(d.len() == 4 * (w * h));
    }
    let n = image.data.len() / 4;
    let mut out = copy_bytes(&image.data);
    let mut level: u32 = 32;
    while level > 0
        invariant
            level <= 32,
            3 <= w <= i32::MAX,
            3 <= h <= i32::MAX,
            n == w * h,
            f == frame_of(w as int, h as int, occupancy, mask@, dist@, fringe@),
            f.w == w,
            f.h == h,
            dist@.len() == w * h,
            mask@.len() == w * h,
            fringe@.len() == w * h,
            out@.len() == 4 * (w * h),
            out@ == lift_pass(d, f, 32 - level),
        decreases level,
    {
        let ghost base = out@;
        let mut p: usize = 0;
        while p < n
            invariant
                0 < level <= 32,
                3 <= w <= i32::MAX,
                3 <= h <= i32::MAX,
                n == w * h,
                f == frame_of(w as int, h as int, occupancy, mask@, dist@, fringe@),
                dist@.len() == w * h,
                mask@.len() == w * h,
                fringe@.len() == w * h,
                base == lift_pass(d, f, 32 - level),
                p <= n,
                out@.len() == 4 * (w * h),
                out@ == lift_sweep(base, f, level, p as int),
            decreases n - p,
        {
            if fringe[p] && dist[p] == level {
                lift_at(&mut out, &mask, &dist, &fringe, w, h, occupancy, p);
            }
            p = p + 1;
        }
        level = level - 1;
    }
    let ghost lifted = out@;
    let mut level: u32 = 1;
    while level <= 32
        invariant
            1 <= level <= 33,
            3 <= w <= i32::MAX,
            3 <= h <= i32::MAX,
            n == w * h,
            f == frame_of(w as int, h as int, occupancy, mask@, dist@, fringe@),
            f.w == w,
            f.h == h,
            dist@.len() == w * h,
            mask@.len() == w * h,
            fringe@.len() == w * h,
            lifted == lift_pass(d, f, 32),
            out@.len() == 4 * (w * h),
            out@ == fade_pass(lifted, f, level - 1),
        decreases 33 - level,
    {
        let ghost base = out@;
        let mut p: usize = 0;
        while p < n
            invariant
                1 <= level <= 32,
                3 <= w <= i32::MAX,
                3 <= h <= i32::MAX,
                n == w * h,
                f == frame_of(w as int, h as int, occupancy, mask@, dist@, fringe@),
                dist@.len() == w * h,
                mask@.len() == w * h,
                fringe@.len() == w * h,
                base == fade_pass(lifted, f, level - 1),
                p <= n,
                out@.len() == 4 * (w * h),
                out@ == fade_sweep(base, f, level, p as int),
            decreases n - p,
        {
            if fringe[p] && dist[p] == level {
                fade_at(&mut out, &mask, &dist, &fringe, w, h, occupancy, p);
            }
            p = p + 1;
        }
        level = level + 1;
    }
    RgbaBuffer { width: w, height: h, data: out }
}

/// The highest squared distance from the core at which the fringe is lifted.
pub const MAX_CORE_DIST_SQ: u32 = 8;

/// The fewest core neighbours that mark a deep concave corner, where the
/// fringe is left alone.
pub const DEEP_CONCAVE: u32 = 5;

/// Pixel `p` of the `w × h` bytes `d` is silhouette fringe that the lift
/// raises: partly transparent below [`MAX_AA_ALPHA`], not white, ink unless
/// in occupancy mode, facing the outside, near a solid core but not on it,
/// not in a deep concave corner, and its lifted alpha `boosted[alpha]`
/// differs from its alpha.
pub open spec fn lift_applies(
    d: Seq<u8>,
    w: int,
    h: int,
    occupancy: bool,
    mask: Seq<bool>,
    dist: Seq<u32>,
    boosted: Seq<u8>,
    p: int,
) -> bool {
    let src = px(d, p);
    &&& src[3] != 0
    &&& src[3] < MAX_AA_ALPHA
    &&& !white_rgb_spec(src)
    &&& (occupancy || ink_black_spec(src, 1))
    &&& faces_outside_spec(d, w, h, p % w, p / w)
    &&& dist[p] != 0
    &&& dist[p] <= MAX_CORE_DIST_SQ
    &&& neighbor_count_spec(mask, w, h, p % w, p / w) < DEEP_CONCAVE
    &&& boosted[src[3] as int] != src[3]
}

/// The bytes after the fringe lift: each pixel that [`lift_applies`] to gets
/// its lifted alpha (black in ink mode); every other byte stays.
pub open spec fn lifted_fringe_spec(d: Seq<u8>, w: int, h: int, occupancy: bool, boosted: Seq<u8>) -> Seq<u8> {
    let mask = core_mask_spec(d, w, h, occupancy);
    let dist = core_distance_spec(mask, w, h);
    Seq::new(
        d.len(),
        |k: int|
            if lift_applies(d, w, h, occupancy, mask, dist, boosted, k / 4) {
                fringe_pixel(px(d, k / 4), occupancy, boosted[px(d, k / 4)[3] as int])[k % 4]
            } else {
                d[k]
            },
    )
}

/// The bytes after the boundary pass: images narrower or lower than 3
/// pixels are left as they are; otherwise the fringe is lifted, then the
/// falloff passes run.
pub open spec fn refined_outline_spec(d: Seq<u8>, w: int, h: int, occupancy: bool, boosted: Seq<u8>) -> Seq<u8> {
    if w < 3 || h < 3 {
        d
    } else {
        falloff_spec(lifted_fringe_spec(d, w, h, occupancy, boosted), w, h, occupancy)
    }
}

/// Makes the existing silhouette fringe more opaque, then enforces the
/// falloff (see [`refined_outline_spec`]). `boosted_alpha[a]` is the lifted
/// alpha of a fringe pixel of alpha `a`. Empty pixels are never written, so
/// the outline cannot grow.
pub fn refine_outline_boundary_aa(image: &RgbaBuffer, occupancy: bool, boosted_alpha: &Vec<u8>) -> (r: RgbaBuffer)
    requires
        image.wf(),
        image.width <= i32::MAX,
        image.height <= i32::MAX,
        image.width * image.height <= u32::MAX,
        boosted_alpha@.len() == 256,
    ensures
        r.width == image.width,
        r.height == image.height,
        r.data@ == refined_outline_spec(
            image.data@,
            image.width as int,
            image.height as int,
            occupancy,
            boosted_alpha@,
        ),
{
    let w = image.width;
    let h = image.height;
    let ghost d = image.data@;
    if w < 3 || h < 3 {
        return RgbaBuffer { width: w, height: h, data: copy_bytes(&image.data) };
    }
    let mask = solid_core_mask(image, occupancy);
    let dist = dist_sq_to_solid_core(&mask, w, h);
    let ghost target = lifted_fringe_spec(d, w as int, h as int, occupancy, boosted_alpha@);
    proof {
        assert(d.len() / 4 == w * h);
        assert(d.len() == 4 * (w * h));
    }
    let n = image.data.len() / 4;
    let mut out = copy_bytes(&image.data);
    let mut p: usize = 0;
    while p < n
        invariant
            d == image.data@,
            d.len() == 4 * (w * h),
            w == image.width,
            h == image.height,
            3 <= w <= i32::MAX,
            3 <= h <= i32::MAX,
            w * h <= u32::MAX,
            n == w * h,
            mask@ == core_mask_spec(d, w as int, h as int, occupancy),
            dist@ == core_distance_spec(mask@, w as int, h as int),
            boosted_alpha@.len() == 256,
            target == lifted_fringe_spec(d, w as int, h as int, occupancy, boosted_alpha@),
            p <= n,
            out@.len() == d.len(),
            forall|q: int| 0 <= q < 4 * p ==> #[trigger] out@[q] == target[q],
            forall|q: int| 4 * p <= q < d.len() ==> #[trigger] out@[q] == d[q],
        decreases n - p,
    {
        proof {
            lemma_split(p as int, w as int, h as int);
        }
        let x: u32 = (p % (w as usize)) as u32;
        let y: u32 = (p / (w as usize)) as u32;
        let len = image.data.len();
        assert(4 * p + 3 < len);
        let i = 4 * p;
        let src = [image.data[i], image.data[i + 1], image.data[i + 2], image.data[i + 3]];
        proof {
            assert(src =~= px(d, p as int));
            assert forall|q: int| i <= q < i + 4 implies #[trigger] (q / 4) == p by {}
        }
        let applies = src[3] != 0 && src[3] < MAX_AA_ALPHA && !is_white_rgb(src) && (occupancy || is_ink_black(
            src,
            1,
        )) && ink_pixel_faces_outside(image, x, y) && dist[p] != 0 && dist[p] <= MAX_CORE_DIST_SQ
            && mask_neighbor_count(&mask, w, h, x, y) < DEEP_CONCAVE && boosted_alpha[src[3] as usize] != src[3];
        assert(applies == lift_applies(d, w as int, h as int, occupancy, mask@, dist@, boosted_alpha@, p as int));
        if applies {
            let a = boosted_alpha[src[3] as usize];
            let v0 = if occupancy { src[0] } else { 0 };
            let v1 = if occupancy { src[1] } else { 0 };
            let v2 = if occupancy { src[2] } else { 0 };
            out.set(i, v0);
            out.set(i + 1, v1);
            out.set(i + 2, v2);
            out.set(i + 3, a);
        }
        proof {
            assert forall|q: int| 0 <= q < 4 * (p + 1) implies #[trigger] out@[q] == target[q] by {
                if q >= i {
                    assert(q / 4 == p);
                    assert(q % 4 == q - i);
                }
            }
        }
        p = p + 1;
    }
    proof {
        assert(out@ =~= target);
    }
    let lifted = RgbaBuffer { width: w, height: h, data: out };
    enforce_outline_aa_falloff(&lifted, occupancy)
}

} // verus!
