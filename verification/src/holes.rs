//! The enclosed transparent windows of an ink mask (secondaries): the
//! transparent regions that do not reach the border of the image, hold no
//! fill, and whose ink rim can be traced.

use vstd::prelude::*;
use crate::contours::{
    contour_list, covered, first_of_region, lemma_first_of_region, lemma_not_first_of_region, moore_trace_contour,
    moore_trace_spec, points,
};
use crate::image_alpha::RgbaBuffer;
use crate::ink_finish::px;
use crate::pixel_rules::{
    dir_dx, dir_dy, hole_ink_start, hole_start_spec, ink_black_spec, is_ink_black, mask_at, mask_ok, touches_spec,
    touches_true_8,
};
use crate::regions::{
    cells_of, closed, flood_region, lemma_reach_from_pass, lemma_reach_symm, lemma_reach_trans, lemma_region_contains,
    reach, region,
};

verus! {

/// The transparent (non-ink) cells.
pub open spec fn open_cells(ink: Seq<bool>) -> Seq<bool> {
    Seq::new(ink.len(), |c: int| !ink[c])
}

/// Cell `c` lies on the outer border of the `w × h` grid.
pub open spec fn on_border(w: int, h: int, c: int) -> bool {
    c % w == 0 || c % w == w - 1 || c / w == 0 || c / w == h - 1
}

/// Some border cell before `i` reaches `c` by 4-neighbour steps over
/// passable cells.
#[verifier::opaque]
pub open spec fn border_reached(pass: Seq<bool>, w: int, h: int, i: int, c: int) -> bool {
    exists|s: int| 0 <= s < i && on_border(w, h, s) && #[trigger] reach(pass, w, h, false, s, c)
}

/// The transparent cells connected to the border of the image.
pub open spec fn exterior(ink: Seq<bool>, w: int, h: int, c: int) -> bool {
    border_reached(open_cells(ink), w, h, w * h, c)
}

/// Covering the first `i + 1` cells adds what cell `i` reaches.
pub proof fn lemma_covered_step(pass: Seq<bool>, w: int, h: int, conn8: bool, i: int, c: int)
    requires
        0 <= i,
    ensures
        covered(pass, w, h, conn8, i + 1, c) <==> (covered(pass, w, h, conn8, i, c) || reach(pass, w, h, conn8, i, c)),
{
    reveal(covered);
    if covered(pass, w, h, conn8, i + 1, c) && !covered(pass, w, h, conn8, i, c) {
        let s = choose|s: int| 0 <= s < i + 1 && #[trigger] reach(pass, w, h, conn8, s, c);
        assert(s == i);
    }
    if covered(pass, w, h, conn8, i, c) {
        let s = choose|s: int| 0 <= s < i && #[trigger] reach(pass, w, h, conn8, s, c);
        assert(0 <= s < i + 1 && reach(pass, w, h, conn8, s, c));
    }
    if reach(pass, w, h, conn8, i, c) {
        assert(0 <= i < i + 1 && reach(pass, w, h, conn8, i, c));
    }
}

/// Reaching the first `i + 1` cells from the border adds what cell `i`
/// reaches, when it is on the border.
pub proof fn lemma_border_step(pass: Seq<bool>, w: int, h: int, i: int, c: int)
    requires
        0 <= i,
    ensures
        border_reached(pass, w, h, i + 1, c) <==> (border_reached(pass, w, h, i, c) || (on_border(w, h, i) && reach(
            pass,
            w,
            h,
            false,
            i,
            c,
        ))),
{
    reveal(border_reached);
    if border_reached(pass, w, h, i + 1, c) && !border_reached(pass, w, h, i, c) {
        let s = choose|s: int| 0 <= s < i + 1 && on_border(w, h, s) && #[trigger] reach(pass, w, h, false, s, c);
        assert(s == i);
    }
    if border_reached(pass, w, h, i, c) {
        let s = choose|s: int| 0 <= s < i && on_border(w, h, s) && #[trigger] reach(pass, w, h, false, s, c);
        assert(0 <= s < i + 1 && on_border(w, h, s) && reach(pass, w, h, false, s, c));
    }
    if on_border(w, h, i) && reach(pass, w, h, false, i, c) {
        assert(0 <= i < i + 1 && on_border(w, h, i) && reach(pass, w, h, false, i, c));
    }
}

/// What a cell reached from the border reaches is reached from the border.
pub proof fn lemma_border_trans(pass: Seq<bool>, w: int, h: int, i: int, a: int, c: int)
    requires
        border_reached(pass, w, h, i, a),
        reach(pass, w, h, false, a, c),
    ensures
        border_reached(pass, w, h, i, c),
{
    reveal(border_reached);
    let s = choose|s: int| 0 <= s < i && on_border(w, h, s) && #[trigger] reach(pass, w, h, false, s, a);
    lemma_reach_trans(pass, w, h, false, s, a, c);
    assert(0 <= s < i && on_border(w, h, s) && reach(pass, w, h, false, s, c));
}

/// Nothing is reached from the border before the first cell.
pub proof fn lemma_border_none(pass: Seq<bool>, w: int, h: int, c: int)
    ensures
        !border_reached(pass, w, h, 0, c),
{
    reveal(border_reached);
}

/// What a covered cell reaches is covered.
pub proof fn lemma_covered_trans(pass: Seq<bool>, w: int, h: int, conn8: bool, i: int, a: int, c: int)
    requires
        covered(pass, w, h, conn8, i, a),
        reach(pass, w, h, conn8, a, c),
    ensures
        covered(pass, w, h, conn8, i, c),
{
    reveal(covered);
    let s = choose|s: int| 0 <= s < i && #[trigger] reach(pass, w, h, conn8, s, a);
    lemma_reach_trans(pass, w, h, conn8, s, a, c);
    assert(0 <= s < i && reach(pass, w, h, conn8, s, c));
}

/// Nothing is covered before the first cell.
pub proof fn lemma_covered_none(pass: Seq<bool>, w: int, h: int, conn8: bool, c: int)
    ensures
        !covered(pass, w, h, conn8, 0, c),
{
    reveal(covered);
}

/// The first cell of a region comes first in it.
pub proof fn lemma_first_cell_is_least(pass: Seq<bool>, w: int, h: int, conn8: bool, i: int, c: int)
    requires
        first_of_region(pass, w, h, conn8, i),
        region(pass, w, h, conn8, i).contains(c),
    ensures
        i <= c,
{
    lemma_region_contains(pass, w, h, conn8, i, c);
    if c < i {
        lemma_reach_symm(pass, w, h, conn8, i, c);
        reveal(first_of_region);
        assert(!reach(pass, w, h, conn8, c, i));
    }
}

proof fn lemma_coords(c: int, w: int, h: int)
    requires
        0 <= c < w * h,
        0 < w,
    ensures
        0 <= c % w < w,
        0 <= c / w < h,
{
    vstd::arithmetic::div_mod::lemma_fundamental_div_mod(c, w);
    assert((c / w) < h) by (nonlinear_arith)
        requires
            c < w * h,
            c == w * (c / w) + c % w,
            0 <= c % w,
            0 < w,
    ;
}

fn open_mask(ink: &Vec<bool>) -> (r: Vec<bool>)
    ensures
        r@ == open_cells(ink@),
{
    let mut r: Vec<bool> = Vec::new();
    let mut c: usize = 0;
    while c < ink.len()
        invariant
            c <= ink@.len(),
            r@.len() == c,
            forall|k: int| 0 <= k < c ==> r@[k] == !ink@[k],
        decreases ink@.len() - c,
    {
        r.push(!ink[c]);
        c = c + 1;
    }
    proof {
        assert(r@ =~= open_cells(ink@));
    }
    r
}

fn unmarked(n: usize) -> (r: Vec<bool>)
    ensures
        r@.len() == n,
        forall|c: int| 0 <= c < n ==> !#[trigger] r@[c],
{
    let mut r: Vec<bool> = Vec::new();
    while r.len() < n
        invariant
            r@.len() <= n,
            forall|c: int| 0 <= c < r@.len() ==> !#[trigger] r@[c],
        decreases n - r@.len(),
    {
        r.push(false);
    }
    r
}

fn exterior_cells(ink: &Vec<bool>, open: &Vec<bool>, w: u32, h: u32) -> (vis: Vec<bool>)
    requires
        0 < w,
        0 < h,
        mask_ok(ink@, w as int, h as int),
        open@ == open_cells(ink@),
    ensures
        vis@.len() == w * h,
        forall|c: int| 0 <= c < w * h ==> (#[trigger] vis@[c] <==> exterior(ink@, w as int, h as int, c)),
        closed(open@, w as int, h as int, false, vis@),
{
    let ghost wi = w as int;
    let ghost hi = h as int;
    let n = ink.len();
    let mut vis = unmarked(n);
    proof {
        assert forall|c: int| 0 <= c < n implies (#[trigger] vis@[c] <==> border_reached(open@, wi, hi, 0, c)) by {
            lemma_border_none(open@, wi, hi, c);
        }
    }
    let mut i: usize = 0;
    while i < n
        invariant
            0 < w,
            0 < h,
            wi == w,
            hi == h,
            mask_ok(ink@, wi, hi),
            open@ == open_cells(ink@),
            n == wi * hi,
            i <= n,
            vis@.len() == n,
            closed(open@, wi, hi, false, vis@),
            forall|c: int| 0 <= c < n ==> (#[trigger] vis@[c] <==> border_reached(open@, wi, hi, i as int, c)),
        decreases n - i,
    {
        proof {
            lemma_coords(i as int, wi, hi);
        }
        let x = i % (w as usize);
        let y = i / (w as usize);
        let border = x == 0 || x + 1 == w as usize || y == 0 || y + 1 == h as usize;
        let ghost before = vis@;
        if border && open[i] && !vis[i] {
            let _cells = flood_region(open, &mut vis, w, h, false, i);
            proof {
                assert forall|c: int| 0 <= c < n implies (#[trigger] vis@[c] <==> border_reached(open@, wi, hi, i + 1, c)) by {
                    lemma_border_step(open@, wi, hi, i as int, c);
                }
            }
        } else {
            proof {
                assert forall|c: int| 0 <= c < n implies (#[trigger] vis@[c] <==> border_reached(open@, wi, hi, i + 1, c)) by {
                    lemma_border_step(open@, wi, hi, i as int, c);
                    if border && reach(open@, wi, hi, false, i as int, c) {
                        lemma_reach_from_pass(open@, wi, hi, false, i as int, c);
                        assert(before[i as int]);
                        lemma_border_trans(open@, wi, hi, i as int, i as int, c);
                    }
                }
            }
        }
        i = i + 1;
    }
    vis
}

/// How many of the first `k` cells of a contour touch the mask (lie on it or
/// next to it).
pub open spec fn hugs_count(c: Seq<(int, int)>, mask: Seq<bool>, w: int, h: int, k: int) -> nat
    decreases k,
{
    if k <= 0 {
        0
    } else {
        hugs_count(c, mask, w, h, k - 1) + if touches_spec(mask, w, h, c[k - 1].0, c[k - 1].1) {
            1nat
        } else {
            0nat
        }
    }
}

/// A contour hugs the mask: it is not empty, and twice the number of its
/// cells that touch the mask (saturating at `u32::MAX`) is at least its
/// length taken as a `u32`.
pub open spec fn hugs_spec(c: Seq<(int, int)>, mask: Seq<bool>, w: int, h: int) -> bool {
    let k = hugs_count(c, mask, w, h, c.len() as int);
    c.len() > 0 && (if 2 * k > u32::MAX {
        u32::MAX as int
    } else {
        2 * k as int
    }) >= (c.len() as u32) as int
}

/// Whether at least half the cells of a traced contour touch the mask (see
/// [`hugs_spec`]).
pub fn contour_hugs_mask(contour: &Vec<(u32, u32)>, mask: &Vec<bool>, w: u32, h: u32) -> (r: bool)
    requires
        mask_ok(mask@, w as int, h as int),
        forall|j: int| 0 <= j < contour@.len() ==> (#[trigger] contour@[j]).0 < w && contour@[j].1 < h,
    ensures
        r == hugs_spec(points(contour@), mask@, w as int, h as int),
{
    let ghost c = points(contour@);
    if contour.len() == 0 {
        return false;
    }
    let mut hugs: u32 = 0;
    let mut j: usize = 0;
    while j < contour.len()
        invariant
            c == points(contour@),
            mask_ok(mask@, w as int, h as int),
            forall|k: int| 0 <= k < contour@.len() ==> (#[trigger] contour@[k]).0 < w && contour@[k].1 < h,
            j <= contour@.len(),
            hugs as int == (if hugs_count(c, mask@, w as int, h as int, j as int) > u32::MAX {
                u32::MAX as int
            } else {
                hugs_count(c, mask@, w as int, h as int, j as int) as int
            }),
        decreases contour@.len() - j,
    {
        let (x, y) = contour[j];
        assert(c[j as int] == (x as int, y as int));
        if touches_true_8(mask.as_slice(), w, h, x, y) {
            hugs = hugs.saturating_add(1);
        }
        j = j + 1;
    }
    let doubled: u32 = if hugs > u32::MAX / 2 {
        u32::MAX
    } else {
        hugs * 2
    };
    doubled >= contour.len() as u32
}

/// A hole pixel counts as fill: fairly opaque (alpha at least 128) and not
/// black ink.
pub open spec fn fill_cell(d: Seq<u8>, c: int) -> bool {
    px(d, c)[3] >= 128 && !ink_black_spec(px(d, c), 1)
}

/// The flags of the cells of the region `r`.
pub open spec fn hole_mask_of(r: Set<int>, n: int) -> Seq<bool> {
    Seq::new(n as nat, |c: int| r.contains(c))
}

/// The traced rim of the transparent region whose first cell is `i`: none
/// when the region holds fill or has fewer than 4 cells, or when no ink
/// borders cell `i`; else the Moore trace of the ink from the first ink
/// neighbour of `i` (clockwise from east), coming from `i`, when it has at
/// least `min_len` cells and hugs the region.
pub open spec fn hole_at(d: Seq<u8>, ink: Seq<bool>, w: int, h: int, min_len: int, i: int) -> Option<Seq<(int, int)>> {
    let r = region(open_cells(ink), w, h, false, i);
    if (exists|c: int| r.contains(c) && #[trigger] fill_cell(d, c)) || r.len() < 4 {
        None
    } else if !(exists|e: int| #[trigger] hole_start_spec(ink, w, h, i % w, i / w, e)) {
        None
    } else {
        let e = choose|e: int| #[trigger] hole_start_spec(ink, w, h, i % w, i / w, e);
        match moore_trace_spec(ink, w, h, i % w + dir_dx(e), i / w + dir_dy(e), (e + 4) % 8) {
            Some(c) => if c.len() >= min_len && hugs_spec(c, hole_mask_of(r, w * h), w, h) {
                Some(c)
            } else {
                None
            },
            None => None,
        }
    }
}

/// The rims of the secondaries whose first cell lies among the first `q`
/// cells, in the order of those cells: transparent regions not connected
/// to the border (4-neighbour steps).
pub open spec fn holes_spec(d: Seq<u8>, ink: Seq<bool>, w: int, h: int, min_len: int, q: int) -> Seq<Seq<(int, int)>>
    decreases q,
{
    if q <= 0 {
        seq![]
    } else {
        let prev = holes_spec(d, ink, w, h, min_len, q - 1);
        let i = q - 1;
        if !ink[i] && !exterior(ink, w, h, i) && first_of_region(open_cells(ink), w, h, false, i) {
            match hole_at(d, ink, w, h, min_len, i) {
                Some(c) => prev.push(c),
                None => prev,
            }
        } else {
            prev
        }
    }
}

/// The ink start of a hole is unique.
proof fn lemma_hole_start_unique(ink: Seq<bool>, w: int, h: int, x: int, y: int, d1: int, d2: int)
    requires
        hole_start_spec(ink, w, h, x, y, d1),
        hole_start_spec(ink, w, h, x, y, d2),
    ensures
        d1 == d2,
{
    if d1 < d2 {
        assert(mask_at(ink, w, h, x, y, dir_dx(d1), dir_dy(d1)));
    } else if d2 < d1 {
        assert(mask_at(ink, w, h, x, y, dir_dx(d2), dir_dy(d2)));
    }
}

fn has_fill_cell(image: &RgbaBuffer, cells: &Vec<usize>) -> (r: bool)
    requires
        image.wf(),
        forall|j: int| 0 <= j < cells@.len() ==> #[trigger] cells@[j] < image.width * image.height,
    ensures
        r == exists|c: int| cells_of(cells@).to_set().contains(c) && #[trigger] fill_cell(image.data@, c),
{
    let ghost d = image.data@;
    let mut found = false;
    let mut j: usize = 0;
    while j < cells.len()
        invariant
            d == image.data@,
            image.wf(),
            forall|k: int| 0 <= k < cells@.len() ==> #[trigger] cells@[k] < image.width * image.height,
            j <= cells@.len(),
            found <==> exists|k: int| 0 <= k < j && #[trigger] fill_cell(d, cells@[k] as int),
        decreases cells@.len() - j,
    {
        let c = cells[j];
        assert(4 * c + 3 < d.len()) by (nonlinear_arith)
            requires
                c < image.width * image.height,
                d.len() == image.width * image.height * 4,
        ;
        let len = image.data.len();
        assert(4 * c + 3 < len);
        let p = [image.data[4 * c], image.data[4 * c + 1], image.data[4 * c + 2], image.data[4 * c + 3]];
        proof {
            assert(p =~= px(d, c as int));
        }
        let is_fill = p[3] >= 128 && !is_ink_black(p, 1);
        assert(is_fill == fill_cell(d, c as int));
        if is_fill {
            found = true;
        }
        proof {
            if is_fill {
                assert(0 <= j < j + 1 && fill_cell(d, cells@[j as int] as int));
            }
            if !found {
                assert forall|k: int| 0 <= k < j + 1 implies !#[trigger] fill_cell(d, cells@[k] as int) by {}
            }
        }
        j = j + 1;
    }
    proof {
        let cs = cells_of(cells@);
        if found {
            let k = choose|k: int| 0 <= k < cells@.len() && #[trigger] fill_cell(d, cells@[k] as int);
            assert(cs[k] == cells@[k] as int);
            assert(cs.to_set().contains(cs[k]));
        } else {
            assert forall|c: int| cs.to_set().contains(c) implies !#[trigger] fill_cell(d, c) by {
                let k = cs.index_of(c);
                assert(cells@[k] as int == c);
            }
        }
    }
    found
}

fn region_flags(cells: &Vec<usize>, n: usize) -> (r: Vec<bool>)
    requires
        forall|j: int| 0 <= j < cells@.len() ==> #[trigger] cells@[j] < n,
    ensures
        r@ == hole_mask_of(cells_of(cells@).to_set(), n as int),
{
    let mut r = unmarked(n);
    let mut j: usize = 0;
    while j < cells.len()
        invariant
            forall|k: int| 0 <= k < cells@.len() ==> #[trigger] cells@[k] < n,
            j <= cells@.len(),
            r@.len() == n,
            forall|c: int| 0 <= c < n ==> (#[trigger] r@[c] <==> exists|k: int| 0 <= k < j && cells@[k] as int == c),
        decreases cells@.len() - j,
    {
        let c = cells[j];
        r.set(c, true);
        proof {
            assert forall|e: int| 0 <= e < n implies (#[trigger] r@[e] <==> exists|k: int| 0 <= k < j + 1 && cells@[k] as int == e) by {
                if e == c {
                    assert(cells@[j as int] as int == e);
                }
            }
        }
        j = j + 1;
    }
    proof {
        let cs = cells_of(cells@);
        assert forall|c: int| 0 <= c < n implies (r@[c] == cs.to_set().contains(c)) by {
            if r@[c] {
                let k = choose|k: int| 0 <= k < cells@.len() && cells@[k] as int == c;
                assert(cs[k] == c);
            }
            if cs.to_set().contains(c) {
                let k = cs.index_of(c);
                assert(cells@[k] as int == c);
            }
        }
        assert(r@ =~= hole_mask_of(cs.to_set(), n as int));
    }
    r
}

fn hole_of(image: &RgbaBuffer, ink: &Vec<bool>, w: u32, h: u32, min_len: usize, i: usize, cells: &Vec<usize>) -> (r:
    Option<Vec<(u32, u32)>>)
    requires
        image.wf(),
        image.width == w,
        image.height == h,
        0 < w,
        0 < h,
        mask_ok(ink@, w as int, h as int),
        i < w * h,
        cells_of(cells@).to_set() == region(open_cells(ink@), w as int, h as int, false, i as int),
        cells@.len() == region(open_cells(ink@), w as int, h as int, false, i as int).len(),
        forall|j: int| 0 <= j < cells@.len() ==> #[trigger] cells@[j] < w * h,
    ensures
        match r {
            Some(c) => hole_at(image.data@, ink@, w as int, h as int, min_len as int, i as int) == Some(points(c@)),
            None => hole_at(image.data@, ink@, w as int, h as int, min_len as int, i as int) is None,
        },
{
    let ghost wi = w as int;
    let ghost hi = h as int;
    let ghost rg = region(open_cells(ink@), wi, hi, false, i as int);
    let fill = has_fill_cell(image, cells);
    if fill || cells.len() < 4 {
        return None;
    }
    let n = ink.len();
    let hm = region_flags(cells, n);
    proof {
        lemma_coords(i as int, wi, hi);
    }
    let ix = (i % (w as usize)) as u32;
    let iy = (i / (w as usize)) as u32;
    match hole_ink_start(ink.as_slice(), w, h, (ix, iy)) {
        None => {
            proof {
                assert forall|e: int| !#[trigger] hole_start_spec(ink@, wi, hi, ix as int, iy as int, e) by {
                    if 0 <= e < 8 {
                        assert(!mask_at(ink@, wi, hi, ix as int, iy as int, dir_dx(e), dir_dy(e)));
                    }
                }
            }
            None
        },
        Some(((nx, ny), back)) => {
            proof {
                let d0 = choose|d: int|
                    #[trigger] hole_start_spec(ink@, wi, hi, ix as int, iy as int, d) && nx == ix + dir_dx(d) && ny == iy
                        + dir_dy(d) && back == (d + 4) % 8;
                let e = choose|e: int| #[trigger] hole_start_spec(ink@, wi, hi, ix as int, iy as int, e);
                lemma_hole_start_unique(ink@, wi, hi, ix as int, iy as int, d0, e);
            }
            match moore_trace_contour(ink, w, h, (nx, ny), back) {
                None => None,
                Some(c) => {
                    if c.len() >= min_len && contour_hugs_mask(&c, &hm, w, h) {
                        Some(c)
                    } else {
                        None
                    }
                },
            }
        },
    }
}

/// The traced ink rims of the enclosed transparent windows, in row order of
/// their first cells (see [`holes_spec`]). Regions are 4-connected, so a
/// diagonal pinch of ink still encloses a window.
pub fn extract_secondary_holes(image: &RgbaBuffer, ink: &Vec<bool>, w: u32, h: u32, min_len: usize) -> (r: Vec<
    Vec<(u32, u32)>,
>)
    requires
        image.wf(),
        image.width == w,
        image.height == h,
        0 < w,
        0 < h,
        mask_ok(ink@, w as int, h as int),
    ensures
        contour_list(r@) == holes_spec(image.data@, ink@, w as int, h as int, min_len as int, w * h),
{
    let ghost wi = w as int;
    let ghost hi = h as int;
    let open = open_mask(ink);
    let mut seen = exterior_cells(ink, &open, w, h);
    let n = ink.len();
    let mut out: Vec<Vec<(u32, u32)>> = Vec::new();
    proof {
        assert forall|c: int| 0 <= c < n implies (#[trigger] seen@[c] <==> (exterior(ink@, wi, hi, c) || covered(
            open@,
            wi,
            hi,
            false,
            0,
            c,
        ))) by {
            lemma_covered_none(open@, wi, hi, false, c);
        }
    }
    let mut i: usize = 0;
    while i < n
        invariant
            0 < w,
            0 < h,
            wi == w,
            hi == h,
            image.wf(),
            image.width == w,
            image.height == h,
            mask_ok(ink@, wi, hi),
            open@ == open_cells(ink@),
            n == wi * hi,
            i <= n,
            seen@.len() == n,
            closed(open@, wi, hi, false, seen@),
            forall|c: int|
                0 <= c < n ==> (#[trigger] seen@[c] <==> (exterior(ink@, wi, hi, c) || covered(open@, wi, hi, false, i as int, c))),
            contour_list(out@) == holes_spec(image.data@, ink@, wi, hi, min_len as int, i as int),
        decreases n - i,
    {
        let ghost before = seen@;
        let ghost prev = out@;
        if open[i] && !seen[i] {
            proof {
                lemma_first_of_region(open@, wi, hi, false, i as int);
            }
            let cells = flood_region(&open, &mut seen, w, h, false, i);
            proof {
                assert forall|c: int| 0 <= c < n implies (#[trigger] seen@[c] <==> (exterior(ink@, wi, hi, c) || covered(
                    open@,
                    wi,
                    hi,
                    false,
                    i + 1,
                    c,
                ))) by {
                    lemma_covered_step(open@, wi, hi, false, i as int, c);
                }
            }
            match hole_of(image, ink, w, h, min_len, i, &cells) {
                Some(c) => {
                    out.push(c);
                    proof {
                        assert(contour_list(out@) =~= contour_list(prev).push(points(c@)));
                    }
                },
                None => {},
            }
        } else {
            proof {
                if open[i as int] {
                    if exterior(ink@, wi, hi, i as int) {
                    } else {
                        lemma_not_first_of_region(open@, wi, hi, false, i as int);
                    }
                }
                assert forall|c: int| 0 <= c < n implies (#[trigger] seen@[c] <==> (exterior(ink@, wi, hi, c) || covered(
                    open@,
                    wi,
                    hi,
                    false,
                    i + 1,
                    c,
                ))) by {
                    lemma_covered_step(open@, wi, hi, false, i as int, c);
                    if reach(open@, wi, hi, false, i as int, c) {
                        lemma_reach_from_pass(open@, wi, hi, false, i as int, c);
                        if exterior(ink@, wi, hi, i as int) {
                            lemma_border_trans(open@, wi, hi, wi * hi, i as int, c);
                        } else {
                            lemma_covered_trans(open@, wi, hi, false, i as int, i as int, c);
                        }
                    }
                }
            }
        }
        i = i + 1;
    }
    out
}

} // verus!
