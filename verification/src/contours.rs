//! Tracing the border of an ink mask: the Moore neighbour walk around a
//! region, the outer contours of the ink regions, and the rims of the
//! enclosed transparent windows.

use vstd::prelude::*;
use crate::pixel_rules::{boundary_spec, dir_dx, dir_dy, dir_offsets, is_mask_boundary, mask_at, mask_at_exec, mask_ok};
use crate::regions::{
    cells_of, closed, flood_region, lemma_reach_from_pass, lemma_reach_trans, lemma_region_contains, reach, region,
};

verus! {

/// The grid cells of a traced contour, as integers.
pub open spec fn points(c: Seq<(u32, u32)>) -> Seq<(int, int)> {
    c.map_values(|p: (u32, u32)| (p.0 as int, p.1 as int))
}

/// The first of the directions `back + 1 + j`, `back + 2 + j`, … (mod 8),
/// up to `back + 8`, that leads from `(cx, cy)` onto the mask.
pub open spec fn moore_next(mask: Seq<bool>, w: int, h: int, cx: int, cy: int, back: int, j: int) -> Option<int>
    decreases 8 - j,
{
    if j >= 8 {
        None
    } else {
        let d = (back + 1 + j) % 8;
        if mask_at(mask, w, h, cx, cy, dir_dx(d), dir_dy(d)) {
            Some(d)
        } else {
            moore_next(mask, w, h, cx, cy, back, j + 1)
        }
    }
}

/// The direction found leads onto the mask.
pub proof fn lemma_moore_next(mask: Seq<bool>, w: int, h: int, cx: int, cy: int, back: int, j: int)
    ensures
        moore_next(mask, w, h, cx, cy, back, j) matches Some(d) ==> 0 <= d < 8 && mask_at(
            mask,
            w,
            h,
            cx,
            cy,
            dir_dx(d),
            dir_dy(d),
        ),
    decreases 8 - j,
{
    if j < 8 {
        lemma_moore_next(mask, w, h, cx, cy, back, j + 1);
    }
}

/// The cells the walk visits from `(cx, cy)`, having come from direction
/// `back`, with room for `rem` more cells: it stops where no neighbour is
/// on the mask, on coming back to `(sx, sy)`, or when out of room.
#[verifier::opaque]
pub open spec fn moore_walk(
    mask: Seq<bool>,
    w: int,
    h: int,
    sx: int,
    sy: int,
    cx: int,
    cy: int,
    back: int,
    rem: int,
) -> Seq<(int, int)>
    decreases rem,
{
    let here = seq![(cx, cy)];
    match moore_next(mask, w, h, cx, cy, back, 0) {
        None => here,
        Some(d) => {
            let nx = cx + dir_dx(d);
            let ny = cy + dir_dy(d);
            if (nx == sx && ny == sy) || rem <= 1 {
                here
            } else {
                here + moore_walk(mask, w, h, sx, sy, nx, ny, (d + 4) % 8, rem - 1)
            }
        }
    }
}

/// The most cells a trace holds: twice the cells of the grid.
pub open spec fn trace_limit(w: int, h: int) -> int {
    if 2 * w * h > usize::MAX {
        usize::MAX as int
    } else {
        2 * w * h
    }
}

/// The Moore trace from `(sx, sy)`: none when the start is off the mask or
/// the walk has fewer than 3 cells.
pub open spec fn moore_trace_spec(mask: Seq<bool>, w: int, h: int, sx: int, sy: int, start_back: int) -> Option<
    Seq<(int, int)>,
> {
    if !mask[sy * w + sx] {
        None
    } else {
        let c = moore_walk(mask, w, h, sx, sy, sx, sy, start_back % 8, trace_limit(w, h));
        if c.len() < 3 {
            None
        } else {
            Some(c)
        }
    }
}

fn next_direction(mask: &Vec<bool>, w: u32, h: u32, cx: u32, cy: u32, back: usize) -> (r: Option<usize>)
    requires
        mask_ok(mask@, w as int, h as int),
        cx < w,
        cy < h,
        back < 8,
    ensures
        r == (match moore_next(mask@, w as int, h as int, cx as int, cy as int, back as int, 0) {
            Some(d) => Some(d as usize),
            None => None::<usize>,
        }),
        r matches Some(d) ==> d < 8 && mask_at(mask@, w as int, h as int, cx as int, cy as int, dir_dx(d as int), dir_dy(d as int)),
{
    let mut j: usize = 8;
    let mut found: Option<usize> = None;
    while j > 0
        invariant
            j <= 8,
            mask_ok(mask@, w as int, h as int),
            cx < w,
            cy < h,
            back < 8,
            found == (match moore_next(mask@, w as int, h as int, cx as int, cy as int, back as int, j as int) {
                Some(d) => Some(d as usize),
                None => None::<usize>,
            }),
            found matches Some(d) ==> d < 8 && mask_at(mask@, w as int, h as int, cx as int, cy as int, dir_dx(d as int), dir_dy(d as int)),
        decreases j,
    {
        j = j - 1;
        let d = (back + 1 + j) % 8;
        let (dx, dy) = dir_offsets(d as u32);
        if mask_at_exec(mask.as_slice(), w, h, cx, cy, dx, dy) {
            found = Some(d);
        }
    }
    found
}

/// Walks the border of the mask region around `start`, clockwise, each
/// step searching the neighbours from the one after the direction it came
/// from (see [`moore_trace_spec`]). The cells come back as grid cells.
pub fn moore_trace_contour(mask: &Vec<bool>, w: u32, h: u32, start: (u32, u32), start_back: usize) -> (r: Option<
    Vec<(u32, u32)>,
>)
    requires
        mask_ok(mask@, w as int, h as int),
        start.0 < w,
        start.1 < h,
    ensures
        match r {
            Some(c) => moore_trace_spec(mask@, w as int, h as int, start.0 as int, start.1 as int, start_back as int)
                == Some(points(c@)),
            None => moore_trace_spec(mask@, w as int, h as int, start.0 as int, start.1 as int, start_back as int)
                is None,
        },
        r matches Some(c) ==> forall|j: int| 0 <= j < c@.len() ==> (#[trigger] c@[j]).0 < w && c@[j].1 < h,
{
    let (sx, sy) = start;
    let ghost wi = w as int;
    let ghost hi = h as int;
    proof {
        assert(0 <= sy * wi + sx < wi * hi) by (nonlinear_arith)
            requires
                sx < wi,
                sy < hi,
        ;
    }
    let si = (sy as usize) * (w as usize) + (sx as usize);
    if !mask[si] {
        return None;
    }
    let wh: u64 = (w as u64) * (h as u64) * 2;
    assert(wh == 2 * wi * hi) by (nonlinear_arith)
        requires
            wh == (w as int) * (h as int) * 2,
            wi == w,
            hi == h,
    ;
    let limit: usize = if wh > usize::MAX as u64 {
        usize::MAX
    } else {
        wh as usize
    };
    let ghost full = moore_walk(mask@, wi, hi, sx as int, sy as int, sx as int, sy as int, start_back as int % 8, limit as int);
    assert(limit == trace_limit(wi, hi));
    let mut contour: Vec<(u32, u32)> = Vec::new();
    let mut cx = sx;
    let mut cy = sy;
    let mut back: usize = start_back % 8;
    let mut done = false;
    while !done
        invariant
            mask_ok(mask@, wi, hi),
            wi == w,
            hi == h,
            sx < w,
            sy < h,
            cx < w,
            cy < h,
            back < 8,
            full == moore_walk(mask@, wi, hi, sx as int, sy as int, sx as int, sy as int, start_back as int % 8, limit as int),
            !done ==> contour@.len() <= limit,
            !done ==> points(contour@) + moore_walk(
                mask@,
                wi,
                hi,
                sx as int,
                sy as int,
                cx as int,
                cy as int,
                back as int,
                limit - contour@.len(),
            ) == full,
            done ==> points(contour@) == full,
            forall|j: int| 0 <= j < contour@.len() ==> (#[trigger] contour@[j]).0 < w && contour@[j].1 < h,
        decreases (if done { 0 } else { limit + 1 - contour@.len() }),
    {
        let ghost rem = limit - contour@.len();
        let ghost prev = contour@;
        let ghost step = moore_walk(mask@, wi, hi, sx as int, sy as int, cx as int, cy as int, back as int, rem);
        contour.push((cx, cy));
        proof {
            assert(points(contour@) =~= points(prev) + seq![(cx as int, cy as int)]);
        }
        match next_direction(mask, w, h, cx, cy, back) {
            None => {
                proof {
                    reveal(moore_walk);
                    assert(step == seq![(cx as int, cy as int)]);
                    assert(points(contour@) =~= full);
                }
                done = true;
            },
            Some(d) => {
                let (dx, dy) = dir_offsets(d as u32);
                proof {
                    assert(0 <= cx + dx < wi && 0 <= cy + dy < hi);
                    lemma_moore_next(mask@, wi, hi, cx as int, cy as int, back as int, 0);
                    assert(moore_next(mask@, wi, hi, cx as int, cy as int, back as int, 0) == Some(d as int));
                }
                let nx = ((cx as i64) + (dx as i64)) as u32;
                let ny = ((cy as i64) + (dy as i64)) as u32;
                assert(nx == cx + dir_dx(d as int) && ny == cy + dir_dy(d as int));
                if (nx == sx && ny == sy) || contour.len() >= limit {
                    proof {
                        reveal(moore_walk);
                        assert(step == seq![(cx as int, cy as int)]);
                        assert(points(contour@) =~= full);
                    }
                    done = true;
                } else {
                    proof {
                        reveal(moore_walk);
                        assert(step == seq![(cx as int, cy as int)] + moore_walk(mask@, wi, hi, sx as int, sy as int, nx as int, ny as int, (d as int + 4) % 8, rem - 1));
                        assert(points(contour@) + moore_walk(mask@, wi, hi, sx as int, sy as int, nx as int, ny as int, (d as int + 4) % 8, limit - contour@.len()) =~= full);
                    }
                    cx = nx;
                    cy = ny;
                    back = (d + 4) % 8;
                }
            },
        }
    }
    if contour.len() < 3 {
        None
    } else {
        Some(contour)
    }
}

/// The traced contours, as sequences of grid cells.
pub open spec fn contour_list(s: Seq<Vec<(u32, u32)>>) -> Seq<Seq<(int, int)>> {
    s.map_values(|c: Vec<(u32, u32)>| points(c@))
}

/// Some cell before `i` (row-major) reaches `c`.
#[verifier::opaque]
pub open spec fn covered(pass: Seq<bool>, w: int, h: int, conn8: bool, i: int, c: int) -> bool {
    exists|s: int| 0 <= s < i && #[trigger] reach(pass, w, h, conn8, s, c)
}

/// No earlier cell reaches `i`: it is the first cell of its region.
#[verifier::opaque]
pub open spec fn first_of_region(pass: Seq<bool>, w: int, h: int, conn8: bool, i: int) -> bool {
    forall|s: int| 0 <= s < i ==> !#[trigger] reach(pass, w, h, conn8, s, i)
}

/// A cell of the region `r` on the border of the mask.
pub open spec fn border_cell(mask: Seq<bool>, w: int, h: int, r: Set<int>, c: int) -> bool {
    r.contains(c) && boundary_spec(mask, w, h, c % w, c / w)
}

/// The first (row-major) cell of the region `r` on the border of the mask,
/// or `fallback` when there is none.
pub open spec fn least_border_cell(mask: Seq<bool>, w: int, h: int, r: Set<int>, fallback: int) -> int {
    if exists|c: int| #[trigger] border_cell(mask, w, h, r, c) {
        choose|c: int|
            #[trigger] border_cell(mask, w, h, r, c) && forall|e: int| #[trigger] border_cell(mask, w, h, r, e) ==> c <= e
    } else {
        fallback
    }
}

/// The contour of the ink region whose first cell is `i`: none when the
/// region has fewer than `min_len` cells; else the Moore trace from its first
/// border cell (or from `i`), entering from the west, when it has at least
/// `min_len` cells.
pub open spec fn ink_contour_at(mask: Seq<bool>, w: int, h: int, min_len: int, i: int) -> Option<Seq<(int, int)>> {
    let r = region(mask, w, h, true, i);
    if r.len() < min_len {
        None
    } else {
        let s = least_border_cell(mask, w, h, r, i);
        match moore_trace_spec(mask, w, h, s % w, s / w, 4) {
            Some(c) => if c.len() >= min_len {
                Some(c)
            } else {
                None
            },
            None => None,
        }
    }
}

/// The contours of the 8-connected ink regions whose first cell lies among
/// the first `q` cells, in the order of those cells.
pub open spec fn ink_contours_spec(mask: Seq<bool>, w: int, h: int, min_len: int, q: int) -> Seq<Seq<(int, int)>>
    decreases q,
{
    if q <= 0 {
        seq![]
    } else {
        let prev = ink_contours_spec(mask, w, h, min_len, q - 1);
        let i = q - 1;
        if mask[i] && first_of_region(mask, w, h, true, i) {
            match ink_contour_at(mask, w, h, min_len, i) {
                Some(c) => prev.push(c),
                None => prev,
            }
        } else {
            prev
        }
    }
}

fn least_border(mask: &Vec<bool>, w: u32, h: u32, cells: &Vec<usize>, fallback: usize) -> (r: usize)
    requires
        0 < w,
        mask_ok(mask@, w as int, h as int),
        forall|j: int| 0 <= j < cells@.len() ==> #[trigger] cells@[j] < w * h,
    ensures
        r == least_border_cell(mask@, w as int, h as int, cells_of(cells@).to_set(), fallback as int),
        r == fallback || border_cell(mask@, w as int, h as int, cells_of(cells@).to_set(), r as int),
{
    let ghost rs = cells_of(cells@).to_set();
    let ghost wi = w as int;
    let ghost hi = h as int;
    let mut found = false;
    let mut best: usize = fallback;
    let mut j: usize = 0;
    while j < cells.len()
        invariant
            0 < w,
            wi == w,
            hi == h,
            mask_ok(mask@, wi, hi),
            rs == cells_of(cells@).to_set(),
            forall|k: int| 0 <= k < cells@.len() ==> #[trigger] cells@[k] < w * h,
            j <= cells@.len(),
            found ==> border_cell(mask@, wi, hi, rs, best as int),
            found ==> forall|k: int| 0 <= k < j && #[trigger] border_cell(mask@, wi, hi, rs, cells@[k] as int) ==> best <= cells@[k],
            !found ==> forall|k: int| 0 <= k < j ==> !#[trigger] border_cell(mask@, wi, hi, rs, cells@[k] as int),
            !found ==> best == fallback,
        decreases cells@.len() - j,
    {
        let c = cells[j];
        let cx = (c % (w as usize)) as u32;
        let cy = (c / (w as usize)) as u32;
        proof {
            vstd::arithmetic::div_mod::lemma_fundamental_div_mod(c as int, wi);
            assert((c as int / wi) < hi) by (nonlinear_arith)
                requires
                    c < wi * hi,
                    c as int == wi * (c as int / wi) + c as int % wi,
                    0 <= c as int % wi,
                    0 < wi,
            ;
            assert(cells_of(cells@)[j as int] == c as int);
            assert(rs.contains(c as int));
        }
        if is_mask_boundary(mask.as_slice(), w, h, cx, cy) {
            assert(border_cell(mask@, wi, hi, rs, c as int));
            if !found || c < best {
                best = c;
                found = true;
            }
        } else {
            assert(!border_cell(mask@, wi, hi, rs, c as int));
        }
        j = j + 1;
    }
    proof {
        if found {
            assert forall|e: int| #[trigger] border_cell(mask@, wi, hi, rs, e) implies best <= e by {
                let k = cells_of(cells@).index_of(e);
                assert(cells@[k] as int == e);
            }
            let m = choose|c: int|
                #[trigger] border_cell(mask@, wi, hi, rs, c) && forall|e: int| #[trigger] border_cell(mask@, wi, hi, rs, e) ==> c <= e;
            assert(border_cell(mask@, wi, hi, rs, m));
            assert(m <= best);
        } else {
            assert forall|e: int| !#[trigger] border_cell(mask@, wi, hi, rs, e) by {
                if border_cell(mask@, wi, hi, rs, e) {
                    let k = cells_of(cells@).index_of(e);
                    assert(cells@[k] as int == e);
                }
            }
        }
    }
    best
}

/// Flooding the region of `i` turns the cells covered before `i` into the
/// cells covered before `i + 1`.
pub proof fn lemma_cover_flood(
    pass: Seq<bool>,
    w: int,
    h: int,
    conn8: bool,
    i: int,
    n: int,
    before: Seq<bool>,
    after: Seq<bool>,
)
    requires
        0 <= i,
        forall|c: int| 0 <= c < n ==> (#[trigger] before[c] <==> covered(pass, w, h, conn8, i, c)),
        forall|c: int| 0 <= c < n ==> (#[trigger] after[c] <==> (before[c] || reach(pass, w, h, conn8, i, c))),
    ensures
        forall|c: int| 0 <= c < n ==> (#[trigger] after[c] <==> covered(pass, w, h, conn8, i + 1, c)),
{
    reveal(covered);
    assert forall|c: int| 0 <= c < n implies (#[trigger] after[c] <==> covered(pass, w, h, conn8, i + 1, c)) by {
        if after[c] {
            if before[c] {
                let s = choose|s: int| 0 <= s < i && #[trigger] reach(pass, w, h, conn8, s, c);
                assert(reach(pass, w, h, conn8, s, c));
            } else {
                assert(reach(pass, w, h, conn8, i, c));
            }
        }
        if covered(pass, w, h, conn8, i + 1, c) && !covered(pass, w, h, conn8, i, c) {
            let s = choose|s: int| 0 <= s < i + 1 && #[trigger] reach(pass, w, h, conn8, s, c);
            assert(s == i);
        }
    }
}

/// Where cell `i` is not passable, or already covered, nothing new is
/// covered before `i + 1`.
pub proof fn lemma_cover_skip(pass: Seq<bool>, w: int, h: int, conn8: bool, i: int, n: int, vis: Seq<bool>)
    requires
        0 <= i,
        forall|c: int| 0 <= c < n ==> (#[trigger] vis[c] <==> covered(pass, w, h, conn8, i, c)),
        !pass[i] || covered(pass, w, h, conn8, i, i),
    ensures
        forall|c: int| 0 <= c < n ==> (#[trigger] vis[c] <==> covered(pass, w, h, conn8, i + 1, c)),
{
    reveal(covered);
    assert forall|c: int| 0 <= c < n implies (#[trigger] vis[c] <==> covered(pass, w, h, conn8, i + 1, c)) by {
        if covered(pass, w, h, conn8, i + 1, c) && !covered(pass, w, h, conn8, i, c) {
            let s = choose|s: int| 0 <= s < i + 1 && #[trigger] reach(pass, w, h, conn8, s, c);
            assert(s == i);
            lemma_reach_from_pass(pass, w, h, conn8, s, c);
            let s0 = choose|s: int| 0 <= s < i && #[trigger] reach(pass, w, h, conn8, s, i);
            lemma_reach_trans(pass, w, h, conn8, s0, i, c);
        }
    }
}

/// A cell that nothing before it covers is the first of its region.
pub proof fn lemma_first_of_region(pass: Seq<bool>, w: int, h: int, conn8: bool, i: int)
    requires
        !covered(pass, w, h, conn8, i, i),
    ensures
        first_of_region(pass, w, h, conn8, i),
{
    reveal(covered);
    reveal(first_of_region);
    assert forall|s: int| 0 <= s < i implies !#[trigger] reach(pass, w, h, conn8, s, i) by {
        if reach(pass, w, h, conn8, s, i) {
            assert(covered(pass, w, h, conn8, i, i));
        }
    }
}

/// A covered cell is not the first of its region.
pub proof fn lemma_not_first_of_region(pass: Seq<bool>, w: int, h: int, conn8: bool, i: int)
    requires
        covered(pass, w, h, conn8, i, i),
    ensures
        !first_of_region(pass, w, h, conn8, i),
{
    reveal(covered);
    reveal(first_of_region);
    let s = choose|s: int| 0 <= s < i && #[trigger] reach(pass, w, h, conn8, s, i);
    assert(reach(pass, w, h, conn8, s, i));
}

/// Before the first cell nothing is covered.
pub proof fn lemma_nothing_covered(pass: Seq<bool>, w: int, h: int, conn8: bool, c: int)
    ensures
        !covered(pass, w, h, conn8, 0, c),
{
    reveal(covered);
}

proof fn lemma_coords(c: int, w: int, h: int)
    requires
        0 <= c < w * h,
        0 < w,
    ensures
        0 <= c % w < w,
        0 <= c / w < h,
{
    vstd::arithmetic::div_mod::lemma_fundamental_div_mod(c, w);
    assert((c / w) < h) by (nonlinear_arith)
        requires
            c < w * h,
            c == w * (c / w) + c % w,
            0 <= c % w,
            0 < w,
    ;
}

fn ink_contour_of(mask: &Vec<bool>, w: u32, h: u32, min_len: usize, i: usize, cells: &Vec<usize>) -> (r: Option<
    Vec<(u32, u32)>,
>)
    requires
        0 < w,
        0 < h,
        mask_ok(mask@, w as int, h as int),
        i < w * h,
        cells_of(cells@).to_set() == region(mask@, w as int, h as int, true, i as int),
        cells@.len() == region(mask@, w as int, h as int, true, i as int).len(),
        forall|j: int| 0 <= j < cells@.len() ==> #[trigger] cells@[j] < w * h,
    ensures
        match r {
            Some(c) => ink_contour_at(mask@, w as int, h as int, min_len as int, i as int) == Some(points(c@)),
            None => ink_contour_at(mask@, w as int, h as int, min_len as int, i as int) is None,
        },
{
    let ghost wi = w as int;
    let ghost hi = h as int;
    let ghost r = region(mask@, wi, hi, true, i as int);
    if cells.len() < min_len {
        return None;
    }
    let s = least_border(mask, w, h, cells, i);
    proof {
        if s != i {
            lemma_region_contains(mask@, wi, hi, true, i as int, s as int);
        }
        lemma_coords(s as int, wi, hi);
    }
    let sx = (s % (w as usize)) as u32;
    let sy = (s / (w as usize)) as u32;
    let traced = moore_trace_contour(mask, w, h, (sx, sy), 4);
    match traced {
        Some(c) => {
            if c.len() >= min_len {
                Some(c)
            } else {
                None
            }
        },
        None => None,
    }
}

/// The outer contours of the 8-connected ink regions of at least `min_len`
/// cells, in row order of their first cells (see [`ink_contours_spec`]).
pub fn extract_ink_contours(mask: &Vec<bool>, w: u32, h: u32, min_len: usize) -> (r: Vec<Vec<(u32, u32)>>)
    requires
        0 < w,
        0 < h,
        mask_ok(mask@, w as int, h as int),
    ensures
        contour_list(r@) == ink_contours_spec(mask@, w as int, h as int, min_len as int, w * h),
{
    let ghost wi = w as int;
    let ghost hi = h as int;
    let n = mask.len();
    let mut visited: Vec<bool> = Vec::new();
    while visited.len() < n
        invariant
            visited@.len() <= n,
            forall|c: int| 0 <= c < visited@.len() ==> !#[trigger] visited@[c],
        decreases n - visited@.len(),
    {
        visited.push(false);
    }
    let mut out: Vec<Vec<(u32, u32)>> = Vec::new();
    let mut i: usize = 0;
    proof {
        assert forall|c: int| 0 <= c < n implies (#[trigger] visited@[c] <==> covered(mask@, wi, hi, true, 0, c)) by {
            lemma_nothing_covered(mask@, wi, hi, true, c);
        }
    }
    while i < n
        invariant
            0 < w,
            0 < h,
            wi == w,
            hi == h,
            mask_ok(mask@, wi, hi),
            n == wi * hi,
            i <= n,
            visited@.len() == n,
            closed(mask@, wi, hi, true, visited@),
            forall|c: int| 0 <= c < n ==> (#[trigger] visited@[c] <==> covered(mask@, wi, hi, true, i as int, c)),
            contour_list(out@) == ink_contours_spec(mask@, wi, hi, min_len as int, i as int),
        decreases n - i,
    {
        let ghost before = visited@;
        let ghost prev = out@;
        if mask[i] && !visited[i] {
            proof {
                lemma_first_of_region(mask@, wi, hi, true, i as int);
            }
            let cells = flood_region(mask, &mut visited, w, h, true, i);
            proof {
                lemma_cover_flood(mask@, wi, hi, true, i as int, n as int, before, visited@);
            }
            match ink_contour_of(mask, w, h, min_len, i, &cells) {
                Some(c) => {
                    out.push(c);
                    proof {
                        assert(contour_list(out@) =~= contour_list(prev).push(points(c@)));
                    }
                },
                None => {},
            }
        } else {
            proof {
                if mask[i as int] {
                    lemma_not_first_of_region(mask@, wi, hi, true, i as int);
                }
                lemma_cover_skip(mask@, wi, hi, true, i as int, n as int, visited@);
            }
        }
        i = i + 1;
    }
    out
}

} // verus!
