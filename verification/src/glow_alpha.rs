//! The integer alpha fields the Glow Maker works on: the alpha a primary
//! sprite lends its glow, the disk of offsets a glow spreads over, and the
//! grayscale dilation and box blurs of an alpha field.

use vstd::prelude::*;
use crate::image_alpha::RgbaBuffer;

verus! {

/// The alpha a primary pixel lends the glow: its own alpha when it has
/// some, else its brightest channel (so any visible pixel counts).
pub open spec fn whitening_alpha_spec(p: [u8; 4]) -> u8 {
    if p@[3] > 0 {
        p@[3]
    } else {
        let a = if p@[0] > p@[1] { p@[0] } else { p@[1] };
        if a > p@[2] { a } else { p@[2] }
    }
}

/// The alpha a primary pixel lends the glow.
pub fn primary_whitening_alpha(pixel: [u8; 4]) -> (r: u8)
    ensures
        r == whitening_alpha_spec(pixel),
{
    if pixel[3] > 0 {
        return pixel[3];
    }
    let a = if pixel[0] > pixel[1] { pixel[0] } else { pixel[1] };
    if a > pixel[2] { a } else { pixel[2] }
}

/// The offsets of row `dy` of the disk of radius `r`, left to right.
pub open spec fn disk_row(r: int, dy: int) -> Seq<(i32, i32)> {
    Seq::new((2 * r + 1) as nat, |k: int| ((k - r) as i32, dy as i32)).filter(
        |o: (i32, i32)| o.0 * o.0 + o.1 * o.1 <= r * r,
    )
}

/// The first `n` rows of the disk of radius `r`, top to bottom.
pub open spec fn disk_rows(r: int, n: int) -> Seq<(i32, i32)>
    decreases n,
{
    if n <= 0 {
        Seq::empty()
    } else {
        disk_rows(r, n - 1) + disk_row(r, n - 1 - r)
    }
}

/// The offsets `(dx, dy)` within distance `radius` of the centre, row by
/// row from the top and left to right; the centre alone for radius 0.
pub open spec fn disk_spec(radius: u32) -> Seq<(i32, i32)> {
    if radius == 0 {
        seq![(0i32, 0i32)]
    } else {
        disk_rows(radius as int, 2 * radius + 1)
    }
}

/// The offsets within `radius` of the centre, row by row.
pub fn disk_offsets(radius: u32) -> (out: Vec<(i32, i32)>)
    requires
        radius <= 46340,
    ensures
        out@ == disk_spec(radius),
{
    if radius == 0 {
        let mut v: Vec<(i32, i32)> = Vec::new();
        v.push((0, 0));
        proof {
            assert(v@ =~= seq![(0i32, 0i32)]);
        }
        return v;
    }
    let r = radius as i32;
    proof {
        assert(r * r <= 46340 * 46340) by (nonlinear_arith)
            requires
                1 <= r <= 46340,
        ;
    }
    let rr: i32 = r * r;
    let mut out: Vec<(i32, i32)> = Vec::new();
    let mut dy: i32 = -r;
    proof {
        assert(out@ =~= disk_rows(r as int, 0));
    }
    while dy <= r
        invariant
            r == radius as int,
            1 <= r <= 46340,
            rr == r * r,
            -r <= dy <= r + 1,
            out@ == disk_rows(r as int, dy + r),
        decreases r + 1 - dy,
    {
        let ghost before = out@;
        let ghost row_all = Seq::new((2 * r + 1) as nat, |k: int| ((k - r) as i32, dy as i32));
        let ghost pred = |o: (i32, i32)| o.0 * o.0 + o.1 * o.1 <= r * r;
        let mut dx: i32 = -r;
        proof {
            assert(out@ =~= before + row_all.subrange(0, 0).filter(pred));
        }
        while dx <= r
            invariant
                r == radius as int,
                1 <= r <= 46340,
                rr == r * r,
                -r <= dy <= r,
                -r <= dx <= r + 1,
                row_all == Seq::new((2 * r + 1) as nat, |k: int| ((k - r) as i32, dy as i32)),
                pred == (|o: (i32, i32)| o.0 * o.0 + o.1 * o.1 <= r * r),
                out@ == before + row_all.subrange(0, dx + r).filter(pred),
            decreases r + 1 - dx,
        {
            proof {
                assert(dx * dx <= 46340 * 46340) by (nonlinear_arith)
                    requires
                        -46340 <= dx <= 46340,
                ;
                assert(dy * dy <= 46340 * 46340) by (nonlinear_arith)
                    requires
                        -46340 <= dy <= 46340,
                ;
                assert(dx * dx >= 0 && dy * dy >= 0) by (nonlinear_arith);
                let k = dx + r;
                assert(row_all.subrange(0, k + 1) =~= row_all.subrange(0, k).push(row_all[k]));
                row_all.subrange(0, k).lemma_filter_push(row_all[k], pred);
                assert(row_all[k] == (dx, dy));
            }
            let d2: i64 = (dx as i64) * (dx as i64) + (dy as i64) * (dy as i64);
            if d2 <= rr as i64 {
                out.push((dx, dy));
            }
            dx = dx + 1;
        }
        proof {
            assert(row_all.subrange(0, 2 * r + 1) =~= row_all);
            assert(out@ =~= disk_rows(r as int, dy + r + 1));
        }
        dy = dy + 1;
    }
    out
}

/// The cell at offset `o` from `(x, y)` in a `w`-wide, `h`-tall grid, when
/// it lies in the grid.
pub open spec fn offset_cell(w: int, h: int, x: int, y: int, o: (i32, i32)) -> Option<int> {
    let nx = x + o.0;
    let ny = y + o.1;
    if 0 <= nx < w && 0 <= ny < h {
        Some(ny * w + nx)
    } else {
        None
    }
}

/// The largest alpha at `(x, y)` and at the offsets of `offs` that lie in
/// the grid.
pub open spec fn dilate_at(alpha: Seq<u8>, w: int, h: int, x: int, y: int, offs: Seq<(i32, i32)>) -> u8
    decreases offs.len(),
{
    if offs.len() == 0 {
        alpha[y * w + x]
    } else {
        let m = dilate_at(alpha, w, h, x, y, offs.drop_last());
        match offset_cell(w, h, x, y, offs.last()) {
            Some(j) => if alpha[j] > m { alpha[j] } else { m },
            None => m,
        }
    }
}

/// Grayscale dilation by the disk of `radius`: each cell of the `w × h`
/// grid takes the largest alpha within the disk around it; cells past the
/// grid are 0. Radius 0 leaves the field as it is.
pub open spec fn dilated_spec(alpha: Seq<u8>, w: int, h: int, radius: u32) -> Seq<u8> {
    if radius == 0 {
        alpha
    } else {
        Seq::new(
            alpha.len(),
            |i: int| if i < w * h { dilate_at(alpha, w, h, i % w, i / w, disk_spec(radius)) } else { 0u8 },
        )
    }
}

proof fn lemma_cell(x: int, y: int, w: int, h: int)
    requires
        0 <= x < w,
        0 <= y < h,
    ensures
        (y * w + x) % w == x,
        (y * w + x) / w == y,
        0 <= y * w + x < w * h,
        y * w + x + 1 <= w * h,
{
    vstd::arithmetic::div_mod::lemma_fundamental_div_mod_converse(y * w + x, w, y, x);
    assert(y * w + x < w * h) by (nonlinear_arith)
        requires
            0 <= x < w,
            0 <= y < h,
    ;
    assert(0 <= y * w) by (nonlinear_arith)
        requires
            0 <= y,
            0 <= w,
    ;
}

fn dilate_cell(alpha: &Vec<u8>, width: u32, height: u32, x: u32, y: u32, offs: &Vec<(i32, i32)>) -> (r: u8)
    requires
        x < width,
        y < height,
        width <= i32::MAX,
        height <= i32::MAX,
        width * height <= alpha@.len(),
        forall|k: int| 0 <= k < offs@.len() ==> -46340 <= (#[trigger] offs@[k]).0 <= 46340 && -46340 <= offs@[k].1 <= 46340,
    ensures
        r == dilate_at(alpha@, width as int, height as int, x as int, y as int, offs@),
{
    proof {
        lemma_cell(x as int, y as int, width as int, height as int);
    }
    let ghost w = width as int;
    let ghost h = height as int;
    let len = alpha.len();
    assert((y as int) * (width as int) + (x as int) < len);
    let i0 = (y as usize) * (width as usize) + (x as usize);
    let mut m = alpha[i0];
    let mut k: usize = 0;
    proof {
        assert(offs@.subrange(0, 0) =~= Seq::<(i32, i32)>::empty());
    }
    while k < offs.len()
        invariant
            k <= offs@.len(),
            x < width,
            y < height,
            width <= i32::MAX,
            height <= i32::MAX,
            w == width as int,
            h == height as int,
            width * height <= alpha@.len(),
            forall|j: int| 0 <= j < offs@.len() ==> -46340 <= (#[trigger] offs@[j]).0 <= 46340 && -46340 <= offs@[j].1 <= 46340,
            m == dilate_at(alpha@, w, h, x as int, y as int, offs@.subrange(0, k as int)),
        decreases offs@.len() - k,
    {
        let (dx, dy) = offs[k];
        proof {
            assert(offs@.subrange(0, k + 1).drop_last() =~= offs@.subrange(0, k as int));
            assert(offs@.subrange(0, k + 1).last() == offs@[k as int]);
        }
        let nx: i64 = x as i64 + dx as i64;
        let ny: i64 = y as i64 + dy as i64;
        if nx >= 0 && ny >= 0 && nx < width as i64 && ny < height as i64 {
            proof {
                lemma_cell(nx as int, ny as int, w, h);
            }
            assert((ny as int) * (width as int) + (nx as int) < alpha@.len());
            assert(alpha@.len() == alpha.len());
            let j = (ny as usize) * (width as usize) + (nx as usize);
            if alpha[j] > m {
                m = alpha[j];
            }
        }
        k = k + 1;
    }
    proof {
        assert(offs@.subrange(0, offs@.len() as int) =~= offs@);
    }
    m
}

/// Grayscale dilation of an alpha field by the disk of `radius`.
pub fn dilate_alpha_grayscale(alpha: &Vec<u8>, width: u32, height: u32, radius: u32) -> (out: Vec<u8>)
    requires
        width * height <= alpha@.len(),
        width <= i32::MAX,
        height <= i32::MAX,
        radius <= 46340,
    ensures
        out@ == dilated_spec(alpha@, width as int, height as int, radius),
{
    if radius == 0 {
        let mut copy: Vec<u8> = Vec::new();
        let mut i: usize = 0;
        while i < alpha.len()
            invariant
                i <= alpha@.len(),
                copy@ == alpha@.subrange(0, i as int),
            decreases alpha@.len() - i,
        {
            copy.push(alpha[i]);
            proof {
                assert(copy@ =~= alpha@.subrange(0, i + 1));
            }
            i = i + 1;
        }
        proof {
            assert(copy@ =~= alpha@);
        }
        return copy;
    }
    let offs = disk_offsets(radius);
    proof {
        lemma_disk_bounds(radius);
    }
    let ghost w = width as int;
    let ghost h = height as int;
    let ghost target = dilated_spec(alpha@, w, h, radius);
    let mut out: Vec<u8> = Vec::new();
    let mut y: u32 = 0;
    while y < height
        invariant
            y <= height,
            w == width as int,
            h == height as int,
            width <= i32::MAX,
            height <= i32::MAX,
            radius > 0,
            width * height <= alpha@.len(),
            offs@ == disk_spec(radius),
            forall|k: int| 0 <= k < offs@.len() ==> -46340 <= (#[trigger] offs@[k]).0 <= 46340 && -46340 <= offs@[k].1 <= 46340,
            target == dilated_spec(alpha@, w, h, radius),
            out@.len() == y * w,
            forall|i: int| 0 <= i < out@.len() ==> out@[i] == target[i],
        decreases height - y,
    {
        let mut x: u32 = 0;
        while x < width
            invariant
                x <= width,
                y < height,
                w == width as int,
                h == height as int,
                width <= i32::MAX,
                height <= i32::MAX,
                radius > 0,
                width * height <= alpha@.len(),
                offs@ == disk_spec(radius),
                forall|k: int| 0 <= k < offs@.len() ==> -46340 <= (#[trigger] offs@[k]).0 <= 46340 && -46340 <= offs@[k].1 <= 46340,
                target == dilated_spec(alpha@, w, h, radius),
                out@.len() == y * w + x,
                forall|i: int| 0 <= i < out@.len() ==> out@[i] == target[i],
            decreases width - x,
        {
            let v = dilate_cell(alpha, width, height, x, y, &offs);
            proof {
                lemma_cell(x as int, y as int, w, h);
                let i = y * w + x;
                assert(target[i] == dilate_at(alpha@, w, h, i % w, i / w, disk_spec(radius)));
            }
            out.push(v);
            x = x + 1;
        }
        proof {
            assert((y + 1) * w == y * w + w) by (nonlinear_arith);
        }
        y = y + 1;
    }
    proof {
        assert(h * w == w * h) by (nonlinear_arith);
    }
    let n = out.len();
    let mut i: usize = n;
    while i < alpha.len()
        invariant
            n <= i <= alpha@.len(),
            n == w * h,
            out@.len() == i,
            target == dilated_spec(alpha@, w, h, radius),
            radius > 0,
            forall|k: int| 0 <= k < out@.len() ==> out@[k] == target[k],
        decreases alpha@.len() - i,
    {
        out.push(0);
        i = i + 1;
    }
    proof {
        assert(out@ =~= target);
    }
    out
}

proof fn lemma_disk_bounds(radius: u32)
    requires
        1 <= radius <= 46340,
    ensures
        forall|k: int| 0 <= k < disk_spec(radius).len() ==> -46340 <= (#[trigger] disk_spec(radius)[k]).0 <= 46340 && -46340 <= disk_spec(radius)[k].1 <= 46340,
{
    let r = radius as int;
    lemma_rows_bounds(r, 2 * r + 1);
}

proof fn lemma_square_bound(a: int, b: int, r: int)
    requires
        0 <= r,
        a * a + b * b <= r * r,
    ensures
        -r <= a <= r,
        -r <= b <= r,
{
    assert(-r <= a <= r && -r <= b <= r) by (nonlinear_arith)
        requires
            0 <= r,
            a * a + b * b <= r * r,
    ;
}

proof fn lemma_rows_bounds(r: int, n: int)
    requires
        1 <= r <= 46340,
        0 <= n <= 2 * r + 1,
    ensures
        forall|k: int| 0 <= k < disk_rows(r, n).len() ==> -46340 <= (#[trigger] disk_rows(r, n)[k]).0 <= 46340 && -46340 <= disk_rows(r, n)[k].1 <= 46340,
    decreases n,
{
    if n > 0 {
        lemma_rows_bounds(r, n - 1);
        let dy = n - 1 - r;
        let all = Seq::new((2 * r + 1) as nat, |k: int| ((k - r) as i32, dy as i32));
        let pred = |o: (i32, i32)| o.0 * o.0 + o.1 * o.1 <= r * r;
        assert forall|k: int| 0 <= k < all.len() implies -46340 <= (#[trigger] all[k]).0 <= 46340 && -46340 <= all[k].1 <= 46340 by {}
        all.filter_lemma(pred);
        assert forall|k: int| 0 <= k < all.filter(pred).len() implies -46340 <= (#[trigger] all.filter(pred)[k]).0 <= 46340 && -46340 <= all.filter(pred)[k].1 <= 46340 by {
            let e = all.filter(pred)[k];
            assert(pred(e));
            lemma_square_bound(e.0 as int, e.1 as int, r);
        }
        let prev = disk_rows(r, n - 1);
        let row = disk_row(r, dy);
        assert forall|k: int| 0 <= k < disk_rows(r, n).len() implies -46340 <= (#[trigger] disk_rows(r, n)[k]).0 <= 46340 && -46340 <= disk_rows(r, n)[k].1 <= 46340 by {
            if k >= prev.len() {
                assert(disk_rows(r, n)[k] == row[k - prev.len()]);
            } else {
                assert(disk_rows(r, n)[k] == prev[k]);
            }
        }
    }
}

/// The alpha a `w × h` field at `(x, y)` takes from a primary sprite placed
/// at `(ox, oy)`: the sprite pixel's lent alpha, unless it is 0 or below a
/// non-zero `min_alpha`; 0 where no sprite pixel lands.
pub open spec fn field_at(img: RgbaBuffer, ox: int, oy: int, min_alpha: u8, x: int, y: int) -> u8 {
    let sx = x - ox;
    let sy = y - oy;
    if 0 <= sx < img.width && 0 <= sy < img.height {
        let p = (sy * img.width + sx) * 4;
        let a = whitening_alpha_spec([img.data@[p], img.data@[p + 1], img.data@[p + 2], img.data@[p + 3]]);
        if a == 0 || (min_alpha > 0 && a < min_alpha) {
            0
        } else {
            a
        }
    } else {
        0
    }
}

/// The alpha field of a primary sprite placed at an offset in an
/// `out_w × out_h` field, row by row.
pub open spec fn field_spec(img: RgbaBuffer, out_w: int, out_h: int, ox: int, oy: int, min_alpha: u8) -> Seq<u8> {
    Seq::new((out_w * out_h) as nat, |i: int| field_at(img, ox, oy, min_alpha, i % out_w, i / out_w))
}

/// The alpha field a primary sprite lends its glow, placed at
/// `(offset_x, offset_y)` in an `out_w × out_h` field. Each field cell
/// takes the alpha of the one sprite pixel that lands on it, so the field
/// is built cell by cell.
pub fn build_alpha_field(
    primary: &RgbaBuffer,
    out_w: u32,
    out_h: u32,
    offset_x: u32,
    offset_y: u32,
    min_alpha: u8,
) -> (out: Vec<u8>)
    requires
        primary.wf(),
        out_w * out_h <= usize::MAX,
    ensures
        out@ == field_spec(*primary, out_w as int, out_h as int, offset_x as int, offset_y as int, min_alpha),
{
    let ghost target = field_spec(*primary, out_w as int, out_h as int, offset_x as int, offset_y as int, min_alpha);
    let ghost w = out_w as int;
    let ghost h = out_h as int;
    let mut out: Vec<u8> = Vec::new();
    let mut y: u32 = 0;
    while y < out_h
        invariant
            y <= out_h,
            w == out_w as int,
            h == out_h as int,
            primary.wf(),
            target == field_spec(*primary, w, h, offset_x as int, offset_y as int, min_alpha),
            out@.len() == y * w,
            forall|i: int| 0 <= i < out@.len() ==> out@[i] == target[i],
        decreases out_h - y,
    {
        let mut x: u32 = 0;
        while x < out_w
            invariant
                x <= out_w,
                y < out_h,
                w == out_w as int,
                h == out_h as int,
                primary.wf(),
                target == field_spec(*primary, w, h, offset_x as int, offset_y as int, min_alpha),
                out@.len() == y * w + x,
                forall|i: int| 0 <= i < out@.len() ==> out@[i] == target[i],
            decreases out_w - x,
        {
            proof {
                lemma_cell(x as int, y as int, w, h);
            }
            let mut a: u8 = 0;
            if x >= offset_x && y >= offset_y {
                let sx = x - offset_x;
                let sy = y - offset_y;
                if sx < primary.width && sy < primary.height {
                    proof {
                        lemma_cell(sx as int, sy as int, primary.width as int, primary.height as int);
                        assert(primary.width * primary.height * 4 == primary.data@.len());
                        assert((sy * primary.width + sx) * 4 + 3 < primary.data@.len()) by (nonlinear_arith)
                            requires
                                sy * primary.width + sx < primary.width * primary.height,
                                primary.width * primary.height * 4 == primary.data@.len(),
                        ;
                    }
                    let dlen = primary.data.len();
                    assert(((sy as int) * (primary.width as int) + (sx as int)) * 4 + 3 < dlen);
                    let p = ((sy as usize) * (primary.width as usize) + (sx as usize)) * 4;
                    let px = [primary.data[p], primary.data[p + 1], primary.data[p + 2], primary.data[p + 3]];
                    let v = primary_whitening_alpha(px);
                    if !(v == 0 || (min_alpha > 0 && v < min_alpha)) {
                        a = v;
                    }
                }
            }
            proof {
                let i = y * w + x;
                assert(target[i] == field_at(*primary, offset_x as int, offset_y as int, min_alpha, x as int, y as int));
            }
            out.push(a);
            x = x + 1;
        }
        proof {
            assert((y + 1) * w == y * w + w) by (nonlinear_arith);
        }
        y = y + 1;
    }
    proof {
        assert(h * w == w * h) by (nonlinear_arith);
        assert(out@ =~= target);
    }
    out
}

/// The sum of row `y` of a `w`-wide field over columns `x0 ..= x1`.
pub open spec fn row_sum(alpha: Seq<u8>, w: int, y: int, x0: int, x1: int) -> int
    decreases x1 - x0 + 1,
{
    if x1 < x0 {
        0
    } else {
        row_sum(alpha, w, y, x0, x1 - 1) + alpha[y * w + x1]
    }
}

/// The sum of a `w`-wide field over the rectangle `x0 ..= x1`, `y0 ..= y1`.
pub open spec fn rect_sum(alpha: Seq<u8>, w: int, x0: int, x1: int, y0: int, y1: int) -> int
    decreases y1 - y0 + 1,
{
    if y1 < y0 {
        0
    } else {
        rect_sum(alpha, w, x0, x1, y0, y1 - 1) + row_sum(alpha, w, y1, x0, x1)
    }
}

/// The mean over the window of reach `k` around `(x, y)`, clipped to the
/// field, rounded down.
pub open spec fn box_mean(alpha: Seq<u8>, w: int, h: int, k: int, x: int, y: int) -> int {
    let x0 = if x - k < 0 { 0 } else { x - k };
    let y0 = if y - k < 0 { 0 } else { y - k };
    let x1 = if x + k > w - 1 { w - 1 } else { x + k };
    let y1 = if y + k > h - 1 { h - 1 } else { y + k };
    rect_sum(alpha, w, x0, x1, y0, y1) / ((x1 - x0 + 1) * (y1 - y0 + 1))
}

/// The box blur of reach `k` of a `w × h` field; cells past it are 0.
pub open spec fn blurred_spec(alpha: Seq<u8>, w: int, h: int, k: int) -> Seq<u8> {
    Seq::new(alpha.len(), |i: int| if i < w * h { box_mean(alpha, w, h, k, i % w, i / w) as u8 } else { 0u8 })
}

proof fn lemma_row_sum_bound(alpha: Seq<u8>, w: int, y: int, x0: int, x1: int)
    requires
        x0 <= x1 + 1,
        forall|x: int| x0 <= x <= x1 ==> 0 <= #[trigger] (y * w + x) < alpha.len(),
    ensures
        0 <= row_sum(alpha, w, y, x0, x1) <= 255 * (x1 - x0 + 1),
    decreases x1 - x0 + 1,
{
    if x1 >= x0 {
        assert(0 <= y * w + x1 < alpha.len());
        lemma_row_sum_bound(alpha, w, y, x0, x1 - 1);
    }
}

proof fn lemma_rect_sum_bound(alpha: Seq<u8>, w: int, x0: int, x1: int, y0: int, y1: int)
    requires
        x0 <= x1 + 1,
        y0 <= y1 + 1,
        forall|x: int, y: int| x0 <= x <= x1 && y0 <= y <= y1 ==> 0 <= #[trigger] (y * w + x) < alpha.len(),
    ensures
        0 <= rect_sum(alpha, w, x0, x1, y0, y1) <= 255 * (x1 - x0 + 1) * (y1 - y0 + 1),
    decreases y1 - y0 + 1,
{
    if y1 >= y0 {
        lemma_rect_sum_bound(alpha, w, x0, x1, y0, y1 - 1);
        assert forall|x: int| x0 <= x <= x1 implies 0 <= #[trigger] (y1 * w + x) < alpha.len() by {}
        lemma_row_sum_bound(alpha, w, y1, x0, x1);
        assert(255 * (x1 - x0 + 1) * (y1 - 1 - y0 + 1) + 255 * (x1 - x0 + 1) == 255 * (x1 - x0 + 1) * (y1 - y0 + 1)) by (nonlinear_arith);
    }
}

fn box_mean_exec(alpha: &Vec<u8>, width: u32, height: u32, k: u32, x: u32, y: u32) -> (r: u8)
    requires
        1 <= k <= 2,
        x < width,
        y < height,
        width * height <= alpha@.len(),
    ensures
        r as int == box_mean(alpha@, width as int, height as int, k as int, x as int, y as int),
{
    let ghost w = width as int;
    let ghost h = height as int;
    let x0: u32 = x.saturating_sub(k);
    let y0: u32 = y.saturating_sub(k);
    let x1: u32 = if x.saturating_add(k) > width - 1 { width - 1 } else { x + k };
    let y1: u32 = if y.saturating_add(k) > height - 1 { height - 1 } else { y + k };
    proof {
        assert forall|xx: int, yy: int| x0 <= xx <= x1 && y0 <= yy <= y1 implies 0 <= #[trigger] (yy * w + xx) < alpha@.len() by {
            lemma_cell(xx, yy, w, h);
        }
        lemma_rect_sum_bound(alpha@, w, x0 as int, x1 as int, y0 as int, y1 as int);
        assert(255 * (x1 - x0 + 1) * (y1 - y0 + 1) <= 255 * 25 && 1 <= (x1 - x0 + 1) * (y1 - y0 + 1) <= 25) by (nonlinear_arith)
            requires
                1 <= x1 - x0 + 1 <= 5,
                1 <= y1 - y0 + 1 <= 5,
        ;
    }
    let ghost total = rect_sum(alpha@, w, x0 as int, x1 as int, y0 as int, y1 as int);
    let mut sum: u32 = 0;
    let mut yy: u32 = y0;
    while yy <= y1
        invariant
            y0 <= yy <= y1 + 1,
            x0 <= x1 < width,
            y1 < height,
            w == width as int,
            h == height as int,
            width * height <= alpha@.len(),
            sum == rect_sum(alpha@, w, x0 as int, x1 as int, y0 as int, yy - 1),
            0 <= rect_sum(alpha@, w, x0 as int, x1 as int, y0 as int, y1 as int) <= 255 * 25,
            forall|xx: int, yyy: int| x0 <= xx <= x1 && y0 <= yyy <= y1 ==> 0 <= #[trigger] (yyy * w + xx) < alpha@.len(),
        decreases y1 + 1 - yy,
    {
        let mut xx: u32 = x0;
        let ghost before = sum;
        while xx <= x1
            invariant
                x0 <= xx <= x1 + 1,
                x1 < width,
                y0 <= yy <= y1,
                y1 < height,
                w == width as int,
                h == height as int,
                width * height <= alpha@.len(),
                before == rect_sum(alpha@, w, x0 as int, x1 as int, y0 as int, yy - 1),
                sum == before + row_sum(alpha@, w, yy as int, x0 as int, xx - 1),
                0 <= rect_sum(alpha@, w, x0 as int, x1 as int, y0 as int, y1 as int) <= 255 * 25,
                forall|xx2: int, yyy: int| x0 <= xx2 <= x1 && y0 <= yyy <= y1 ==> 0 <= #[trigger] (yyy * w + xx2) < alpha@.len(),
            decreases x1 + 1 - xx,
        {
            proof {
                assert(0 <= yy * w + xx < alpha@.len());
                lemma_rect_prefix(alpha@, w, x0 as int, x1 as int, xx as int, y0 as int, yy as int, y1 as int);
            }
            let alen = alpha.len();
            assert((yy as int) * (width as int) + (xx as int) < alen);
            let i = (yy as usize) * (width as usize) + (xx as usize);
            sum = sum + alpha[i] as u32;
            xx = xx + 1;
        }
        yy = yy + 1;
    }
    let n: u32 = (x1 - x0 + 1) * (y1 - y0 + 1);
    proof {
        assert(sum == total);
        assert(total <= 255 * (x1 - x0 + 1) * (y1 - y0 + 1));
        assert(255 * (x1 - x0 + 1) * (y1 - y0 + 1) == 255 * ((x1 - x0 + 1) * (y1 - y0 + 1))) by (nonlinear_arith);
        assert(n == (x1 - x0 + 1) * (y1 - y0 + 1));
        assert(sum / n <= 255) by (nonlinear_arith)
            requires
                sum <= 255 * n,
                n >= 1,
        ;
    }
    (sum / n) as u8
}

proof fn lemma_row_nonneg_mono(alpha: Seq<u8>, w: int, y: int, x0: int, a: int, b: int)
    requires
        a <= b,
    ensures
        0 <= row_sum(alpha, w, y, x0, a) <= row_sum(alpha, w, y, x0, b),
    decreases b - a,
{
    if a < b {
        lemma_row_nonneg_mono(alpha, w, y, x0, a, b - 1);
    } else {
        lemma_row_nonneg(alpha, w, y, x0, a);
    }
}

proof fn lemma_row_nonneg(alpha: Seq<u8>, w: int, y: int, x0: int, x1: int)
    ensures
        0 <= row_sum(alpha, w, y, x0, x1),
    decreases x1 - x0 + 1,
{
    if x1 >= x0 {
        lemma_row_nonneg(alpha, w, y, x0, x1 - 1);
    }
}

proof fn lemma_rect_mono(alpha: Seq<u8>, w: int, x0: int, x1: int, y0: int, a: int, b: int)
    requires
        a <= b,
    ensures
        rect_sum(alpha, w, x0, x1, y0, a) <= rect_sum(alpha, w, x0, x1, y0, b),
    decreases b - a,
{
    if a < b {
        lemma_rect_mono(alpha, w, x0, x1, y0, a, b - 1);
        lemma_row_nonneg(alpha, w, b, x0, x1);
    }
}

proof fn lemma_rect_prefix(alpha: Seq<u8>, w: int, x0: int, x1: int, xx: int, y0: int, yy: int, y1: int)
    requires
        x0 <= xx <= x1,
        y0 <= yy <= y1,
    ensures
        rect_sum(alpha, w, x0, x1, y0, yy - 1) + row_sum(alpha, w, yy, x0, xx) <= rect_sum(alpha, w, x0, x1, y0, y1),
{
    lemma_row_nonneg_mono(alpha, w, yy, x0, xx, x1);
    lemma_rect_mono(alpha, w, x0, x1, y0, yy, y1);
}

fn box_blur(alpha: &Vec<u8>, width: u32, height: u32, k: u32) -> (out: Vec<u8>)
    requires
        1 <= k <= 2,
        width * height <= alpha@.len(),
    ensures
        out@ == blurred_spec(alpha@, width as int, height as int, k as int),
{
    let ghost w = width as int;
    let ghost h = height as int;
    let ghost target = blurred_spec(alpha@, w, h, k as int);
    let mut out: Vec<u8> = Vec::new();
    let mut y: u32 = 0;
    while y < height
        invariant
            y <= height,
            1 <= k <= 2,
            w == width as int,
            h == height as int,
            width * height <= alpha@.len(),
            target == blurred_spec(alpha@, w, h, k as int),
            out@.len() == y * w,
            forall|i: int| 0 <= i < out@.len() ==> out@[i] == target[i],
        decreases height - y,
    {
        let mut x: u32 = 0;
        while x < width
            invariant
                x <= width,
                y < height,
                1 <= k <= 2,
                w == width as int,
                h == height as int,
                width * height <= alpha@.len(),
                target == blurred_spec(alpha@, w, h, k as int),
                out@.len() == y * w + x,
                forall|i: int| 0 <= i < out@.len() ==> out@[i] == target[i],
            decreases width - x,
        {
            proof {
                lemma_cell(x as int, y as int, w, h);
            }
            let v = box_mean_exec(alpha, width, height, k, x, y);
            proof {
                let i = y * w + x;
                assert(target[i] == box_mean(alpha@, w, h, k as int, x as int, y as int) as u8);
            }
            out.push(v);
            x = x + 1;
        }
        proof {
            assert((y + 1) * w == y * w + w) by (nonlinear_arith);
        }
        y = y + 1;
    }
    proof {
        assert(h * w == w * h) by (nonlinear_arith);
    }
    let n = out.len();
    let mut i: usize = n;
    while i < alpha.len()
        invariant
            n <= i <= alpha@.len(),
            n == w * h,
            out@.len() == i,
            target == blurred_spec(alpha@, w, h, k as int),
            forall|j: int| 0 <= j < out@.len() ==> out@[j] == target[j],
        decreases alpha@.len() - i,
    {
        out.push(0);
        i = i + 1;
    }
    proof {
        assert(out@ =~= target);
    }
    out
}

/// The 3×3 box blur of an alpha field (the window clipped at the edges).
pub fn blur_alpha_box3(alpha: &Vec<u8>, width: u32, height: u32) -> (out: Vec<u8>)
    requires
        width * height <= alpha@.len(),
    ensures
        out@ == blurred_spec(alpha@, width as int, height as int, 1),
{
    box_blur(alpha, width, height, 1)
}

/// The 5×5 box blur of an alpha field (the window clipped at the edges).
pub fn blur_alpha_box5(alpha: &Vec<u8>, width: u32, height: u32) -> (out: Vec<u8>)
    requires
        width * height <= alpha@.len(),
    ensures
        out@ == blurred_spec(alpha@, width as int, height as int, 2),
{
    box_blur(alpha, width, height, 2)
}

/// The larger of two alphas.
pub open spec fn max_alpha(a: u8, b: u8) -> u8 {
    if a > b {
        a
    } else {
        b
    }
}

/// Byte `c` of pixel `i` of the glow: white with alpha the larger of the
/// interior's and the stroke's, where that is not zero; else clear.
pub open spec fn glow_byte(interior: Seq<u8>, stroke: Seq<u8>, i: int, c: int) -> u8 {
    let a = max_alpha(interior[i], stroke[i]);
    if a == 0 {
        0
    } else if c == 3 {
        a
    } else {
        255
    }
}

/// The finished glow sprite: each pixel white with alpha the larger of the
/// interior alpha and the softened stroke alpha, clear where both are zero.
pub fn white_glow_from_alphas(interior: &Vec<u8>, stroke: &Vec<u8>, width: u32, height: u32) -> (r: RgbaBuffer)
    requires
        interior@.len() == width * height,
        stroke@.len() == width * height,
        width * height * 4 <= usize::MAX,
    ensures
        r.width == width,
        r.height == height,
        r.wf(),
        forall|i: int, c: int| 0 <= i < width * height && 0 <= c < 4 ==> #[trigger] r.data@[4 * i + c] == glow_byte(interior@, stroke@, i, c),
{
    let n = interior.len();
    let mut data: Vec<u8> = Vec::new();
    let mut i: usize = 0;
    while i < n
        invariant
            n == interior@.len(),
            stroke@.len() == n,
            n * 4 <= usize::MAX,
            i <= n,
            data@.len() == 4 * i,
            forall|q: int, c: int| 0 <= q < i && 0 <= c < 4 ==> #[trigger] data@[4 * q + c] == glow_byte(interior@, stroke@, q, c),
        decreases n - i,
    {
        let a = if interior[i] > stroke[i] { interior[i] } else { stroke[i] };
        let ghost before = data@;
        if a > 0 {
            data.push(255);
            data.push(255);
            data.push(255);
            data.push(a);
        } else {
            data.push(0);
            data.push(0);
            data.push(0);
            data.push(0);
        }
        proof {
            assert forall|q: int, c: int| 0 <= q < i + 1 && 0 <= c < 4 implies #[trigger] data@[4 * q + c] == glow_byte(interior@, stroke@, q, c) by {
                if q < i {
                    assert(data@[4 * q + c] == before[4 * q + c]);
                }
            }
        }
        i = i + 1;
    }
    RgbaBuffer { width, height, data }
}

/// Every pixel of a finished glow is clear, or white with some alpha.
pub proof fn law_glow_is_white_or_clear(interior: Seq<u8>, stroke: Seq<u8>, i: int)
    requires
        0 <= i < interior.len(),
        i < stroke.len(),
    ensures
        (glow_byte(interior, stroke, i, 0) == 0 && glow_byte(interior, stroke, i, 1) == 0 && glow_byte(interior, stroke, i, 2) == 0
            && glow_byte(interior, stroke, i, 3) == 0) || (glow_byte(interior, stroke, i, 0) == 255 && glow_byte(interior, stroke, i, 1) == 255
            && glow_byte(interior, stroke, i, 2) == 255 && glow_byte(interior, stroke, i, 3) > 0),
{
}


/// The largest alpha over a list of offsets is at least the alpha of each
/// offset's cell in the grid.
proof fn lemma_dilate_covers(alpha: Seq<u8>, w: int, h: int, x: int, y: int, offs: Seq<(i32, i32)>, k: int, c: int)
    requires
        0 <= k < offs.len(),
        offset_cell(w, h, x, y, offs[k]) == Some(c),
    ensures
        dilate_at(alpha, w, h, x, y, offs) >= alpha[c],
    decreases offs.len(),
{
    if k < offs.len() - 1 {
        assert(offs.drop_last()[k] == offs[k]);
        lemma_dilate_covers(alpha, w, h, x, y, offs.drop_last(), k, c);
    }
}

/// Every offset within distance `r` is in the first `n` rows of the disk
/// when its row is among them.
proof fn lemma_disk_has(r: int, dx: int, dy: int, n: int)
    requires
        1 <= r <= 46340,
        0 <= n <= 2 * r + 1,
        -r <= dy < n - r,
        dx * dx + dy * dy <= r * r,
    ensures
        exists|k: int| 0 <= k < disk_rows(r, n).len() && disk_rows(r, n)[k] == (dx as i32, dy as i32),
    decreases n,
{
    lemma_square_bound(dx, dy, r);
    let prev = disk_rows(r, n - 1);
    let row = disk_row(r, n - 1 - r);
    assert(disk_rows(r, n) == prev + row);
    if dy == n - 1 - r {
        let all = Seq::new((2 * r + 1) as nat, |k: int| ((k - r) as i32, (n - 1 - r) as i32));
        let pred = |o: (i32, i32)| o.0 * o.0 + o.1 * o.1 <= r * r;
        let e = all[dx + r];
        assert(e == (dx as i32, dy as i32));
        assert(pred(e));
        all.lemma_filter_contains(pred, dx + r);
        assert(row.contains(e));
        let q = choose|q: int| 0 <= q < row.len() && row[q] == e;
        assert((prev + row)[prev.len() + q] == e);
    } else {
        lemma_disk_has(r, dx, dy, n - 1);
        let q = choose|q: int| 0 <= q < prev.len() && prev[q] == (dx as i32, dy as i32);
        assert((prev + row)[q] == prev[q]);
    }
}

/// The glow reaches the whole disk of its thickness: a cell of the dilated
/// field is at least the alpha of every cell of the grid within distance
/// `radius` of it.
pub proof fn law_dilation_reaches_the_whole_disk(
    alpha: Seq<u8>,
    w: int,
    h: int,
    radius: u32,
    x: int,
    y: int,
    dx: int,
    dy: int,
)
    requires
        w * h <= alpha.len(),
        radius <= 46340,
        0 <= x < w,
        0 <= y < h,
        0 <= x + dx < w,
        0 <= y + dy < h,
        dx * dx + dy * dy <= radius * radius,
    ensures
        dilated_spec(alpha, w, h, radius)[y * w + x] >= alpha[(y + dy) * w + (x + dx)],
{
    let r = radius as int;
    lemma_square_bound(dx, dy, r);
    if radius == 0 {
        assert(dx == 0 && dy == 0);
    } else {
        lemma_cell(x, y, w, h);
        lemma_cell(x + dx, y + dy, w, h);
        lemma_disk_has(r, dx, dy, 2 * r + 1);
        let offs = disk_spec(radius);
        let k = choose|k: int| 0 <= k < offs.len() && offs[k] == (dx as i32, dy as i32);
        assert(offset_cell(w, h, x, y, offs[k]) == Some((y + dy) * w + (x + dx)));
        lemma_dilate_covers(alpha, w, h, x, y, offs, k, (y + dy) * w + (x + dx));
    }
}


/// The cell at offset `o` lies in the grid and holds `v`.
pub open spec fn cell_holds(alpha: Seq<u8>, w: int, h: int, x: int, y: int, o: (i32, i32), v: u8) -> bool {
    match offset_cell(w, h, x, y, o) {
        Some(c) => v == alpha[c],
        None => false,
    }
}

/// `(dx, dy)` lies within distance `r` of the centre.
pub open spec fn within_disk(dx: int, dy: int, r: int) -> bool {
    dx * dx + dy * dy <= r * r
}

/// The largest alpha over a list of offsets is the centre's alpha or that
/// of one offset's cell in the grid.
proof fn lemma_dilate_witness(alpha: Seq<u8>, w: int, h: int, x: int, y: int, offs: Seq<(i32, i32)>)
    ensures
        dilate_at(alpha, w, h, x, y, offs) == alpha[y * w + x] || exists|k: int|
            0 <= k < offs.len() && #[trigger] cell_holds(alpha, w, h, x, y, offs[k], dilate_at(alpha, w, h, x, y, offs)),
    decreases offs.len(),
{
    if offs.len() > 0 {
        let d = offs.drop_last();
        lemma_dilate_witness(alpha, w, h, x, y, d);
        let m = dilate_at(alpha, w, h, x, y, d);
        let v = dilate_at(alpha, w, h, x, y, offs);
        assert(offs.last() == offs[offs.len() - 1]);
        if v != alpha[y * w + x] {
            if v == m {
                let k = choose|k: int| 0 <= k < d.len() && #[trigger] cell_holds(alpha, w, h, x, y, d[k], m);
                assert(offs[k] == d[k]);
                assert(cell_holds(alpha, w, h, x, y, offs[k], v));
            } else {
                assert(cell_holds(alpha, w, h, x, y, offs[offs.len() - 1], v));
            }
        }
    }
}

/// Every offset of the first `n` rows of the disk lies within distance `r`.
proof fn lemma_disk_within(r: int, n: int)
    requires
        1 <= r <= 46340,
    ensures
        forall|k: int| 0 <= k < disk_rows(r, n).len() ==> within_disk(#[trigger] disk_rows(r, n)[k].0 as int, disk_rows(r, n)[k].1 as int, r),
    decreases n,
{
    if n > 0 {
        lemma_disk_within(r, n - 1);
        let dy = n - 1 - r;
        let all = Seq::new((2 * r + 1) as nat, |k: int| ((k - r) as i32, dy as i32));
        let pred = |o: (i32, i32)| o.0 * o.0 + o.1 * o.1 <= r * r;
        all.filter_lemma(pred);
        let prev = disk_rows(r, n - 1);
        let row = disk_row(r, dy);
        assert forall|k: int| 0 <= k < disk_rows(r, n).len() implies within_disk(#[trigger] disk_rows(r, n)[k].0 as int, disk_rows(r, n)[k].1 as int, r) by {
            if k >= prev.len() {
                assert(disk_rows(r, n)[k] == row[k - prev.len()]);
                assert(pred(row[k - prev.len()]));
            } else {
                assert(disk_rows(r, n)[k] == prev[k]);
            }
        }
    }
}

/// The glow reaches no further than its thickness: each cell of the
/// dilated field is the alpha of some cell of the grid within distance
/// `radius` of it.
pub proof fn law_dilation_reaches_no_further(alpha: Seq<u8>, w: int, h: int, radius: u32, x: int, y: int)
    requires
        w * h <= alpha.len(),
        radius <= 46340,
        0 <= x < w,
        0 <= y < h,
    ensures
        exists|dx: int, dy: int|
            #[trigger] within_disk(dx, dy, radius as int) && 0 <= x + dx < w && 0 <= y + dy < h
                && dilated_spec(alpha, w, h, radius)[y * w + x] == alpha[(y + dy) * w + (x + dx)],
{
    let r = radius as int;
    lemma_cell(x, y, w, h);
    let v = dilated_spec(alpha, w, h, radius)[y * w + x];
    if radius == 0 {
        assert(within_disk(0, 0, r));
        assert(v == alpha[(y + 0) * w + (x + 0)]);
    } else {
        let offs = disk_spec(radius);
        lemma_dilate_witness(alpha, w, h, x, y, offs);
        lemma_disk_within(r, 2 * r + 1);
        if v == alpha[y * w + x] {
            assert(within_disk(0, 0, r));
            assert(v == alpha[(y + 0) * w + (x + 0)]);
        } else {
            let k = choose|k: int| 0 <= k < offs.len() && #[trigger] cell_holds(alpha, w, h, x, y, offs[k], v);
            let o = offs[k];
            let dx = o.0 as int;
            let dy = o.1 as int;
            assert(within_disk(dx, dy, r));
            assert(v == alpha[(y + dy) * w + (x + dx)]);
        }
    }
}

} // verus!
