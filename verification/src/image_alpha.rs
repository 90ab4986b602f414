//! RGBA pixel buffers and alpha occupancy: which pixels are occupied, the
//! removal of isolated specks, and the bounds of the occupied area.

use vstd::prelude::*;

verus! {

/// An RGBA image: `width × height` pixels, row by row, four bytes each.
pub struct RgbaBuffer {
    pub width: u32,
    pub height: u32,
    pub data: Vec<u8>,
}

impl RgbaBuffer {
    /// The buffer holds exactly four bytes per pixel.
    pub open spec fn wf(&self) -> bool {
        self.data@.len() == self.width * self.height * 4
    }

    /// The number of pixels.
    pub open spec fn pixels(&self) -> int {
        self.width * self.height
    }
}

/// Whether a pixel is occupied: its alpha is not zero.
pub fn is_occupied(pixel: [u8; 4]) -> (r: bool)
    ensures
        r == (pixel@[3] > 0),
{
    pixel[3] > 0
}

/// The alpha of pixel `p` (row-major index).
pub open spec fn alpha_at(d: Seq<u8>, p: int) -> u8 {
    d[4 * p + 3]
}

/// Pixel `p` of a `w`-wide grid of `n` pixels has an occupied neighbour to
/// its left, right, top or bottom.
pub open spec fn has_orthogonal_neighbor(d: Seq<u8>, w: int, n: int, p: int) -> bool {
    ||| (p % w > 0 && alpha_at(d, p - 1) > 0)
    ||| (p % w + 1 < w && alpha_at(d, p + 1) > 0)
    ||| (p >= w && alpha_at(d, p - w) > 0)
    ||| (p + w < n && alpha_at(d, p + w) > 0)
}

/// An occupied pixel without an occupied orthogonal neighbour.
pub open spec fn isolated(d: Seq<u8>, w: int, n: int, p: int) -> bool {
    alpha_at(d, p) > 0 && !has_orthogonal_neighbor(d, w, n, p)
}

proof fn lemma_right_in_bounds(p: int, w: int, h: int)
    requires
        0 <= p < w * h,
        w >= 1,
        p % w + 1 < w,
    ensures
        p + 1 < w * h,
{
    vstd::arithmetic::div_mod::lemma_fundamental_div_mod(p, w);
    let q = p / w;
    let r = p % w;
    assert(0 <= r);
    assert(q < h) by (nonlinear_arith)
        requires
            p == w * q + r,
            0 <= r,
            p < w * h,
            w >= 1,
    ;
    assert(q >= 0) by (nonlinear_arith)
        requires
            p == w * q + r,
            r < w,
            p >= 0,
            w >= 1,
    ;
    assert(p + 1 < w * h) by (nonlinear_arith)
        requires
            p == w * q + r,
            r + 1 < w,
            q < h,
            q >= 0,
            w >= 1,
    ;
}

/// The bytes after isolated pixels are cleared (all four channels to zero).
pub open spec fn cleared_spec(d: Seq<u8>, w: int, n: int) -> Seq<u8> {
    Seq::new(d.len(), |k: int| if isolated(d, w, n, k / 4) { 0u8 } else { d[k] })
}

/// Clears the pixels that have no orthogonal (4-connected) occupied
/// neighbour, colour and alpha; pairs that share an edge stay. The canvas
/// keeps its size.
pub fn clear_orthogonally_isolated_pixels(image: &RgbaBuffer) -> (r: RgbaBuffer)
    requires
        image.wf(),
    ensures
        r.wf(),
        r.width == image.width,
        r.height == image.height,
        r.data@ == cleared_spec(image.data@, image.width as int, image.pixels()),
{
    let w = image.width as usize;
    let h = image.height as usize;
    let ghost d = image.data@;
    let ghost n = image.pixels();
    proof {
        assert(d.len() == n * 4);
    }
    let mut out: Vec<u8> = Vec::new();
    let mut k: usize = 0;
    while k < image.data.len()
        invariant
            k <= image.data.len(),
            out@ == image.data@.subrange(0, k as int),
        decreases image.data.len() - k,
    {
        out.push(image.data[k]);
        proof {
            assert(image.data@.subrange(0, k + 1) =~= image.data@.subrange(0, k as int).push(image.data@[k as int]));
        }
        k = k + 1;
    }
    proof {
        assert(image.data@.subrange(0, image.data@.len() as int) =~= image.data@);
    }
    if w == 0 || h == 0 {
        proof {
            assert(n == 0) by (nonlinear_arith)
                requires
                    n == w * h,
                    w == 0 || h == 0,
            ;
            assert(cleared_spec(d, w as int, n) =~= d);
        }
        return RgbaBuffer { width: image.width, height: image.height, data: out };
    }
    let npix: usize = image.data.len() / 4;
    proof {
        assert(npix == n);
        assert(w <= n) by (nonlinear_arith)
            requires
                n == w * h,
                h >= 1,
                w >= 0,
        ;
    }
    let len = image.data.len();
    let mut p: usize = 0;
    while p < npix
        invariant
            len == image.data@.len(),
            npix == n,
            w == image.width,
            w >= 1,
            w <= n,
            n == w * image.height,
            d == image.data@,
            d.len() == 4 * n,
            p <= npix,
            out@.len() == d.len(),
            forall|q: int| 0 <= q < 4 * p ==> #[trigger] out@[q] == cleared_spec(d, w as int, n)[q],
            forall|q: int| 4 * p <= q < d.len() ==> #[trigger] out@[q] == d[q],
        decreases npix - p,
    {
        proof {
            assert(4 * p < len);
            if p % w + 1 < w {
                lemma_right_in_bounds(p as int, w as int, image.height as int);
            }
            if p == 0 {
                vstd::arithmetic::div_mod::lemma_small_mod(0, w as nat);
            }
        }
        let i = 4 * p;
        let x = p % w;
        let left = x > 0 && image.data[i - 1] > 0;
        let right = x + 1 < w && image.data[i + 7] > 0;
        let up = p >= w && image.data[i - 4 * w + 3] > 0;
        let down = p + w < npix && image.data[i + 4 * w + 3] > 0;
        let occupied = image.data[i + 3] > 0;
        let clear = occupied && !(left || right || up || down);
        proof {
            assert(4 * (p as int - 1) + 3 == i - 1);
            assert(4 * (p as int + 1) + 3 == i + 7);
            assert(4 * (p as int - w) + 3 == i - 4 * w + 3);
            assert(4 * (p as int + w) + 3 == i + 4 * w + 3);
            assert(clear == isolated(d, w as int, n, p as int));
            assert forall|q: int| i <= q < i + 4 implies #[trigger] (q / 4) == p by {}
        }
        if clear {
            out.set(i, 0);
            out.set(i + 1, 0);
            out.set(i + 2, 0);
            out.set(i + 3, 0);
        }
        proof {
            assert forall|q: int| 0 <= q < 4 * (p + 1) implies #[trigger] out@[q] == cleared_spec(d, w as int, n)[q] by {
                if q >= i {
                    assert(q / 4 == p);
                }
            }
        }
        p = p + 1;
    }
    proof {
        assert(out@ =~= cleared_spec(d, w as int, n));
    }
    RgbaBuffer { width: image.width, height: image.height, data: out }
}

} // verus!
