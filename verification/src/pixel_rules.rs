//! How the sprite finish classifies a pixel (ink, white, core, fringe) and
//! reads a coverage mask around a pixel.

use vstd::prelude::*;

verus! {

/// The mean of the colour channels, rounded down.
pub open spec fn luma_spec(p: [u8; 4]) -> int {
    (p@[0] + p@[1] + p@[2]) / 3
}

/// The brightest colour channel.
pub open spec fn channel_max_spec(p: [u8; 4]) -> int {
    let a = if p@[0] > p@[1] { p@[0] } else { p@[1] };
    if a > p@[2] { a as int } else { p@[2] as int }
}

/// The darkest colour channel.
pub open spec fn channel_min_spec(p: [u8; 4]) -> int {
    let a = if p@[0] < p@[1] { p@[0] } else { p@[1] };
    if a < p@[2] { a as int } else { p@[2] as int }
}

/// The spread between the brightest and the darkest channel.
pub open spec fn chroma_spec(p: [u8; 4]) -> int {
    channel_max_spec(p) - channel_min_spec(p)
}

/// The mean of the colour channels, rounded down.
pub fn pixel_luma(pixel: [u8; 4]) -> (r: u8)
    ensures
        r == luma_spec(pixel),
{
    let s: u16 = (pixel[0] as u16) + (pixel[1] as u16) + (pixel[2] as u16);
    (s / 3) as u8
}

/// The brightest colour channel.
pub fn channel_max(pixel: [u8; 4]) -> (r: u8)
    ensures
        r == channel_max_spec(pixel),
{
    let a = if pixel[0] > pixel[1] { pixel[0] } else { pixel[1] };
    if a > pixel[2] { a } else { pixel[2] }
}

/// The spread between the brightest and the darkest channel.
pub fn pixel_chroma(pixel: [u8; 4]) -> (r: u8)
    ensures
        r == chroma_spec(pixel),
{
    let max_c = channel_max(pixel);
    let b = if pixel[0] < pixel[1] { pixel[0] } else { pixel[1] };
    let min_c = if b < pixel[2] { b } else { pixel[2] };
    max_c - min_c
}

/// Black ink at least `min_alpha` opaque: dark (luma at most 24) and
/// neutral (chroma at most 16).
pub open spec fn ink_black_spec(p: [u8; 4], min_alpha: u8) -> bool {
    p@[3] >= min_alpha && luma_spec(p) <= 24 && chroma_spec(p) <= 16
}

/// Whether a pixel is black ink.
pub fn is_ink_black(pixel: [u8; 4], min_alpha: u8) -> (r: bool)
    ensures
        r == ink_black_spec(pixel, min_alpha),
{
    if pixel[3] < min_alpha {
        return false;
    }
    pixel_luma(pixel) <= 24 && pixel_chroma(pixel) <= 16
}

/// Neutral white at any opacity: luma at least 200, chroma at most 24.
pub open spec fn white_rgb_spec(p: [u8; 4]) -> bool {
    luma_spec(p) >= 200 && chroma_spec(p) <= 24
}

/// Whether a pixel is neutral white.
pub fn is_white_rgb(pixel: [u8; 4]) -> (r: bool)
    ensures
        r == white_rgb_spec(pixel),
{
    pixel_luma(pixel) >= 200 && pixel_chroma(pixel) <= 24
}

/// Background outside a sprite: alpha below 8.
pub fn pixel_is_outside_background(p: [u8; 4]) -> (r: bool)
    ensures
        r == (p@[3] < 8),
{
    p[3] < 8
}

/// Dark neutral ink at least 200 opaque and not white: when fully opaque,
/// true black (brightest channel and chroma at most 12); else luma at most
/// 48 and chroma at most 24.
pub open spec fn opaque_ink_core_spec(p: [u8; 4]) -> bool {
    if p@[3] < 200 || white_rgb_spec(p) {
        false
    } else if p@[3] == 255 {
        channel_max_spec(p) <= 12 && chroma_spec(p) <= 12
    } else {
        luma_spec(p) <= 48 && chroma_spec(p) <= 24
    }
}

/// Whether a pixel is the opaque core of an ink stroke.
pub fn is_opaque_ink_core(pixel: [u8; 4]) -> (r: bool)
    ensures
        r == opaque_ink_core_spec(pixel),
{
    if pixel[3] < 200 || is_white_rgb(pixel) {
        return false;
    }
    if pixel[3] == 255 {
        return channel_max(pixel) <= 12 && pixel_chroma(pixel) <= 12;
    }
    pixel_luma(pixel) <= 48 && pixel_chroma(pixel) <= 24
}

/// A fully opaque, non-white pixel; in ink mode also true black.
pub open spec fn true_solid_core_spec(p: [u8; 4], occupancy: bool) -> bool {
    if p@[3] < 255 || white_rgb_spec(p) {
        false
    } else if occupancy {
        true
    } else {
        channel_max_spec(p) <= 12 && chroma_spec(p) <= 12
    }
}

/// Whether a pixel is solid core.
pub fn is_true_solid_core(pixel: [u8; 4], occupancy: bool) -> (r: bool)
    ensures
        r == true_solid_core_spec(pixel, occupancy),
{
    if pixel[3] < 255 || is_white_rgb(pixel) {
        return false;
    }
    if occupancy {
        true
    } else {
        channel_max(pixel) <= 12 && pixel_chroma(pixel) <= 12
    }
}

/// A partly transparent, non-white pixel; in ink mode also black ink.
pub open spec fn outline_fringe_spec(p: [u8; 4], occupancy: bool) -> bool {
    if p@[3] == 0 || p@[3] == 255 || white_rgb_spec(p) {
        false
    } else if occupancy {
        true
    } else {
        ink_black_spec(p, 1)
    }
}

/// Whether a pixel belongs to the anti-aliased fringe of an outline.
pub fn is_outline_aa_fringe(pixel: [u8; 4], occupancy: bool) -> (r: bool)
    ensures
        r == outline_fringe_spec(pixel, occupancy),
{
    if pixel[3] == 0 || pixel[3] == 255 || is_white_rgb(pixel) {
        return false;
    }
    if occupancy {
        true
    } else {
        is_ink_black(pixel, 1)
    }
}

/// A `w × h` mask, row by row.
pub open spec fn mask_ok(mask: Seq<bool>, w: int, h: int) -> bool {
    mask.len() == w * h && w * h <= u32::MAX
}

/// `(x + dx, y + dy)` lies in the grid.
pub open spec fn in_grid(w: int, h: int, x: int, y: int, dx: int, dy: int) -> bool {
    0 <= x + dx < w && 0 <= y + dy < h
}

/// The mask at `(x + dx, y + dy)`, false outside the grid.
pub open spec fn mask_at(mask: Seq<bool>, w: int, h: int, x: int, y: int, dx: int, dy: int) -> bool {
    in_grid(w, h, x, y, dx, dy) && mask[(y + dy) * w + (x + dx)]
}

/// 1 when the mask is set at the offset, else 0.
pub open spec fn mask_bit(mask: Seq<bool>, w: int, h: int, x: int, y: int, dx: int, dy: int) -> int {
    if mask_at(mask, w, h, x, y, dx, dy) { 1 } else { 0 }
}

/// The number of the 8 neighbours of `(x, y)` where the mask is set.
pub open spec fn neighbor_count_spec(mask: Seq<bool>, w: int, h: int, x: int, y: int) -> int {
    mask_bit(mask, w, h, x, y, -1, -1) + mask_bit(mask, w, h, x, y, 0, -1) + mask_bit(mask, w, h, x, y, 1, -1)
        + mask_bit(mask, w, h, x, y, -1, 0) + mask_bit(mask, w, h, x, y, 1, 0)
        + mask_bit(mask, w, h, x, y, -1, 1) + mask_bit(mask, w, h, x, y, 0, 1) + mask_bit(mask, w, h, x, y, 1, 1)
}

proof fn lemma_cell_index(w: int, h: int, x: int, y: int)
    requires
        0 <= x < w,
        0 <= y < h,
    ensures
        0 <= y * w + x < w * h,
{
    assert(0 <= y * w) by (nonlinear_arith)
        requires
            0 <= y,
            0 <= w,
    ;
    assert(y * w + x < w * h) by (nonlinear_arith)
        requires
            0 <= x < w,
            0 <= y < h,
    ;
}

/// The mask at an offset from `(x, y)`, false outside the grid.
pub fn mask_at_exec(mask: &[bool], w: u32, h: u32, x: u32, y: u32, dx: i32, dy: i32) -> (r: bool)
    requires
        mask_ok(mask@, w as int, h as int),
        x < w,
        y < h,
        -1 <= dx <= 1,
        -1 <= dy <= 1,
    ensures
        r == mask_at(mask@, w as int, h as int, x as int, y as int, dx as int, dy as int),
{
    let nx: i64 = x as i64 + dx as i64;
    let ny: i64 = y as i64 + dy as i64;
    if nx < 0 || ny < 0 || nx >= w as i64 || ny >= h as i64 {
        return false;
    }
    proof {
        lemma_cell_index(w as int, h as int, nx as int, ny as int);
    }
    let i: u32 = (ny as u32) * w + (nx as u32);
    mask[i as usize]
}

/// The number of the 8 neighbours of `(x, y)` where the mask is set.
pub fn mask_neighbor_count(mask: &[bool], w: u32, h: u32, x: u32, y: u32) -> (r: u32)
    requires
        mask_ok(mask@, w as int, h as int),
        x < w,
        y < h,
    ensures
        r == neighbor_count_spec(mask@, w as int, h as int, x as int, y as int),
{
    let mut n: u32 = 0;
    if mask_at_exec(mask, w, h, x, y, -1, -1) { n = n + 1; }
    if mask_at_exec(mask, w, h, x, y, 0, -1) { n = n + 1; }
    if mask_at_exec(mask, w, h, x, y, 1, -1) { n = n + 1; }
    if mask_at_exec(mask, w, h, x, y, -1, 0) { n = n + 1; }
    if mask_at_exec(mask, w, h, x, y, 1, 0) { n = n + 1; }
    if mask_at_exec(mask, w, h, x, y, -1, 1) { n = n + 1; }
    if mask_at_exec(mask, w, h, x, y, 0, 1) { n = n + 1; }
    if mask_at_exec(mask, w, h, x, y, 1, 1) { n = n + 1; }
    n
}

/// A neighbour offset is outside the grid or unset in the mask.
pub open spec fn open_at(mask: Seq<bool>, w: int, h: int, x: int, y: int, dx: int, dy: int) -> bool {
    !in_grid(w, h, x, y, dx, dy) || !mask[(y + dy) * w + (x + dx)]
}

/// A set mask pixel with a neighbour (of 8) outside the grid or unset.
pub open spec fn boundary_spec(mask: Seq<bool>, w: int, h: int, x: int, y: int) -> bool {
    mask[y * w + x] && (open_at(mask, w, h, x, y, -1, -1) || open_at(mask, w, h, x, y, 0, -1)
        || open_at(mask, w, h, x, y, 1, -1) || open_at(mask, w, h, x, y, -1, 0) || open_at(
        mask,
        w,
        h,
        x,
        y,
        1,
        0,
    ) || open_at(mask, w, h, x, y, -1, 1) || open_at(mask, w, h, x, y, 0, 1) || open_at(
        mask,
        w,
        h,
        x,
        y,
        1,
        1,
    ))
}

/// Whether a set mask pixel lies on the mask's boundary.
pub fn is_mask_boundary(mask: &[bool], w: u32, h: u32, x: u32, y: u32) -> (r: bool)
    requires
        mask_ok(mask@, w as int, h as int),
        x < w,
        y < h,
    ensures
        r == boundary_spec(mask@, w as int, h as int, x as int, y as int),
{
    proof {
        lemma_cell_index(w as int, h as int, x as int, y as int);
    }
    let idx: u32 = y * w + x;
    if !mask[idx as usize] {
        return false;
    }
    !mask_at_exec(mask, w, h, x, y, -1, -1) || !mask_at_exec(mask, w, h, x, y, 0, -1)
        || !mask_at_exec(mask, w, h, x, y, 1, -1) || !mask_at_exec(mask, w, h, x, y, -1, 0)
        || !mask_at_exec(mask, w, h, x, y, 1, 0) || !mask_at_exec(mask, w, h, x, y, -1, 1)
        || !mask_at_exec(mask, w, h, x, y, 0, 1) || !mask_at_exec(mask, w, h, x, y, 1, 1)
}

/// The mask is set at `(x, y)` or at one of its 8 neighbours.
pub open spec fn touches_spec(mask: Seq<bool>, w: int, h: int, x: int, y: int) -> bool {
    exists|dx: int, dy: int| -1 <= dx <= 1 && -1 <= dy <= 1 && #[trigger] mask_at(mask, w, h, x, y, dx, dy)
}

/// Whether the mask is set at `(x, y)` or next to it.
pub fn touches_true_8(mask: &[bool], w: u32, h: u32, x: u32, y: u32) -> (r: bool)
    requires
        mask_ok(mask@, w as int, h as int),
        x < w,
        y < h,
    ensures
        r == touches_spec(mask@, w as int, h as int, x as int, y as int),
{
    let mut dy: i32 = -1;
    while dy <= 1
        invariant
            -1 <= dy <= 2,
            mask_ok(mask@, w as int, h as int),
            x < w,
            y < h,
            forall|ddx: int, ddy: int| -1 <= ddx <= 1 && -1 <= ddy < dy ==> !#[trigger] mask_at(mask@, w as int, h as int, x as int, y as int, ddx, ddy),
        decreases 2 - dy,
    {
        let mut dx: i32 = -1;
        while dx <= 1
            invariant
                -1 <= dx <= 2,
                -1 <= dy <= 1,
                mask_ok(mask@, w as int, h as int),
                x < w,
                y < h,
                forall|ddx: int, ddy: int| -1 <= ddx <= 1 && -1 <= ddy < dy ==> !#[trigger] mask_at(mask@, w as int, h as int, x as int, y as int, ddx, ddy),
                forall|ddx: int| -1 <= ddx < dx ==> !#[trigger] mask_at(mask@, w as int, h as int, x as int, y as int, ddx, dy as int),
            decreases 2 - dx,
        {
            if mask_at_exec(mask, w, h, x, y, dx, dy) {
                return true;
            }
            dx = dx + 1;
        }
        dy = dy + 1;
    }
    false
}

/// The 8 directions, clockwise from east (x to the right, y down).
pub open spec fn dir_dx(d: int) -> int {
    if d == 0 || d == 1 || d == 7 { 1 } else if d == 3 || d == 4 || d == 5 { -1 } else { 0 }
}

/// The 8 directions, clockwise from east (x to the right, y down).
pub open spec fn dir_dy(d: int) -> int {
    if d == 1 || d == 2 || d == 3 { 1 } else if d == 5 || d == 6 || d == 7 { -1 } else { 0 }
}

/// The first direction from the hole (clockwise from east) onto an ink
/// pixel: that pixel and the direction back to the hole.
pub open spec fn hole_start_spec(ink: Seq<bool>, w: int, h: int, hx: int, hy: int, d: int) -> bool {
    &&& 0 <= d < 8
    &&& mask_at(ink, w, h, hx, hy, dir_dx(d), dir_dy(d))
    &&& forall|e: int| 0 <= e < d ==> !#[trigger] mask_at(ink, w, h, hx, hy, dir_dx(e), dir_dy(e))
}

pub(crate) fn dir_offsets(d: u32) -> (r: (i32, i32))
    requires
        d < 8,
    ensures
        r.0 == dir_dx(d as int),
        r.1 == dir_dy(d as int),
{
    if d == 0 {
        (1, 0)
    } else if d == 1 {
        (1, 1)
    } else if d == 2 {
        (0, 1)
    } else if d == 3 {
        (-1, 1)
    } else if d == 4 {
        (-1, 0)
    } else if d == 5 {
        (-1, -1)
    } else if d == 6 {
        (0, -1)
    } else {
        (1, -1)
    }
}

/// Where the tracing of a hole's ink border starts: the first ink pixel
/// around the hole pixel, and the direction back to the hole.
pub fn hole_ink_start(ink: &[bool], w: u32, h: u32, hole: (u32, u32)) -> (r: Option<((u32, u32), usize)>)
    requires
        mask_ok(ink@, w as int, h as int),
        hole.0 < w,
        hole.1 < h,
    ensures
        match r {
            Some(((nx, ny), back)) => exists|d: int| #[trigger] hole_start_spec(ink@, w as int, h as int, hole.0 as int, hole.1 as int, d) && nx == hole.0 + dir_dx(d) && ny == hole.1 + dir_dy(d) && back == (d + 4) % 8,
            None => forall|d: int| 0 <= d < 8 ==> !#[trigger] mask_at(ink@, w as int, h as int, hole.0 as int, hole.1 as int, dir_dx(d), dir_dy(d)),
        },
{
    let (hx, hy) = hole;
    let mut d: u32 = 0;
    while d < 8
        invariant
            d <= 8,
            mask_ok(ink@, w as int, h as int),
            hx == hole.0,
            hy == hole.1,
            hx < w,
            hy < h,
            forall|e: int| 0 <= e < d ==> !#[trigger] mask_at(ink@, w as int, h as int, hx as int, hy as int, dir_dx(e), dir_dy(e)),
        decreases 8 - d,
    {
        let (dx, dy) = dir_offsets(d);
        if mask_at_exec(ink, w, h, hx, hy, dx, dy) {
            proof {
                assert(0 <= hx + dx < w);
                assert(0 <= hy + dy < h);
            }
            let nx = ((hx as i64) + (dx as i64)) as u32;
            let ny = ((hy as i64) + (dy as i64)) as u32;
            let back: usize = ((d + 4) % 8) as usize;
            proof {
                assert(hole_start_spec(ink@, w as int, h as int, hx as int, hy as int, d as int));
                assert(nx == hx + dir_dx(d as int));
                assert(ny == hy + dir_dy(d as int));
                assert(back == (d + 4) % 8);
                assert(hole_start_spec(ink@, w as int, h as int, hole.0 as int, hole.1 as int, d as int) && nx == hole.0 + dir_dx(d as int) && ny == hole.1 + dir_dy(d as int) && back == (d as int + 4) % 8);
            }
            return Some(((nx, ny), back));
        }
        d = d + 1;
    }
    None
}

} // verus!
