//! Packing sprites into an atlas: MaxRects bin packing with Best Area Fit,
//! free-node splitting and pruning.

use vstd::prelude::*;

verus! {

/// A rectangle of the atlas (free space or a used slot).
#[derive(Debug, Clone, Copy, PartialEq, Eq, Structural)]
pub struct FreeRect {
    pub x: u32,
    pub y: u32,
    pub w: u32,
    pub h: u32,
}

/// The two rectangles overlap (edges computed with saturating addition).
pub open spec fn intersects_spec(a: FreeRect, b: FreeRect) -> bool {
    !(a.x >= b.x.saturating_add(b.w) || b.x >= a.x.saturating_add(a.w) || a.y >= b.y.saturating_add(
        b.h,
    ) || b.y >= a.y.saturating_add(a.h))
}

/// Whether two rectangles overlap.
pub fn free_rect_intersects(a: FreeRect, b: FreeRect) -> (r: bool)
    ensures
        r == intersects_spec(a, b),
{
    !(a.x >= b.x.saturating_add(b.w) || b.x >= a.x.saturating_add(a.w) || a.y >= b.y.saturating_add(
        b.h,
    ) || b.y >= a.y.saturating_add(a.h))
}

/// `inner` lies within `outer` (edges computed with saturating addition).
pub open spec fn contained_spec(inner: FreeRect, outer: FreeRect) -> bool {
    inner.x >= outer.x && inner.y >= outer.y && inner.x.saturating_add(inner.w)
        <= outer.x.saturating_add(outer.w) && inner.y.saturating_add(inner.h)
        <= outer.y.saturating_add(outer.h)
}

/// Whether `inner` lies within `outer`.
pub fn rect_contained_in(inner: FreeRect, outer: FreeRect) -> (r: bool)
    ensures
        r == contained_spec(inner, outer),
{
    inner.x >= outer.x && inner.y >= outer.y && inner.x.saturating_add(inner.w)
        <= outer.x.saturating_add(outer.w) && inner.y.saturating_add(inner.h)
        <= outer.y.saturating_add(outer.h)
}

/// A `w × h` slot fits in the free rectangle.
pub open spec fn fits(f: FreeRect, w: u32, h: u32) -> bool {
    f.w >= w && f.h >= h
}

/// The free area left around a `w × h` slot placed in `f`.
pub open spec fn area_fit(f: FreeRect, w: u32, h: u32) -> int {
    if f.w * f.h >= w * h {
        f.w * f.h - w * h
    } else {
        0
    }
}

/// The shorter leftover side when a `w × h` slot is placed in `f`.
pub open spec fn short_side(f: FreeRect, w: u32, h: u32) -> int {
    if f.w - w <= f.h - h {
        f.w - w
    } else {
        f.h - h
    }
}

/// `a` is a strictly better fit than `b`: less leftover area, or as much and
/// a shorter leftover side.
pub open spec fn better_fit(a: FreeRect, b: FreeRect, w: u32, h: u32) -> bool {
    area_fit(a, w, h) < area_fit(b, w, h) || (area_fit(a, w, h) == area_fit(b, w, h)
        && short_side(a, w, h) < short_side(b, w, h))
}

/// Free rectangle `i` is the first best fit: it fits, it beats every earlier
/// fitting one, and no later fitting one beats it.
pub open spec fn is_best_fit(free: Seq<FreeRect>, w: u32, h: u32, i: int) -> bool {
    &&& 0 <= i < free.len()
    &&& fits(free[i], w, h)
    &&& forall|k: int| 0 <= k < i && fits(free[k], w, h) ==> better_fit(free[i], #[trigger] free[k], w, h)
    &&& forall|k: int| i < k < free.len() && fits(free[k], w, h) ==> !better_fit(#[trigger] free[k], free[i], w, h)
}

proof fn lemma_better_transitive(a: FreeRect, b: FreeRect, c: FreeRect, w: u32, h: u32)
    ensures
        better_fit(a, b, w, h) && better_fit(b, c, w, h) ==> better_fit(a, c, w, h),
        !better_fit(a, b, w, h) && !better_fit(b, c, w, h) ==> !better_fit(a, c, w, h),
        better_fit(a, b, w, h) ==> !better_fit(b, a, w, h),
{
}

proof fn lemma_u32_product_fits(a: u32, b: u32)
    ensures
        (a as int) * (b as int) <= u64::MAX,
{
    assert((a as int) * (b as int) <= (u32::MAX as int) * (u32::MAX as int)) by (nonlinear_arith)
        requires
            0 <= a <= u32::MAX,
            0 <= b <= u32::MAX,
    ;
}

/// The index of the first best fit for a `width × height` slot, when some
/// free rectangle fits.
pub fn best_area_fit_index(free_rects: &[FreeRect], width: u32, height: u32) -> (r: Option<usize>)
    ensures
        match r {
            Some(i) => is_best_fit(free_rects@, width, height, i as int),
            None => forall|k: int| 0 <= k < free_rects@.len() ==> !fits(#[trigger] free_rects@[k], width, height),
        },
{
    let mut best: Option<usize> = None;
    let mut best_area: u64 = u64::MAX;
    let mut best_short: u32 = u32::MAX;
    let mut i: usize = 0;
    while i < free_rects.len()
        invariant
            i <= free_rects.len(),
            match best {
                Some(b) => {
                    &&& b < i
                    &&& fits(free_rects@[b as int], width, height)
                    &&& best_area == area_fit(free_rects@[b as int], width, height)
                    &&& best_short == short_side(free_rects@[b as int], width, height)
                    &&& forall|k: int| 0 <= k < b && fits(free_rects@[k], width, height) ==> better_fit(free_rects@[b as int], #[trigger] free_rects@[k], width, height)
                    &&& forall|k: int| b < k < i && fits(free_rects@[k], width, height) ==> !better_fit(#[trigger] free_rects@[k], free_rects@[b as int], width, height)
                },
                None => forall|k: int| 0 <= k < i ==> !fits(#[trigger] free_rects@[k], width, height),
            },
        decreases free_rects.len() - i,
    {
        let f = free_rects[i];
        if f.w >= width && f.h >= height {
            proof {
                lemma_u32_product_fits(f.w, f.h);
                lemma_u32_product_fits(width, height);
            }
            let free_area: u64 = (f.w as u64) * (f.h as u64);
            let rect_area: u64 = (width as u64) * (height as u64);
            let fit: u64 = free_area.saturating_sub(rect_area);
            let short: u32 = if f.w - width <= f.h - height { f.w - width } else { f.h - height };
            proof {
                assert(fit == area_fit(f, width, height));
                assert(short == short_side(f, width, height));
            }
            let improves = match best {
                Some(_) => fit < best_area || (fit == best_area && short < best_short),
                None => true,
            };
            if improves {
                proof {
                    match best {
                        Some(b) => {
                            assert forall|k: int| 0 <= k < i && fits(free_rects@[k], width, height) implies better_fit(free_rects@[i as int], #[trigger] free_rects@[k], width, height) by {
                                if k < b {
                                    lemma_better_transitive(free_rects@[i as int], free_rects@[b as int], free_rects@[k], width, height);
                                } else if k > b {
                                    lemma_better_transitive(free_rects@[k], free_rects@[b as int], free_rects@[i as int], width, height);
                                    if !better_fit(free_rects@[i as int], free_rects@[k], width, height) {
                                        // leftover area and side are totally ordered
                                    }
                                }
                            }
                        },
                        None => {},
                    }
                }
                best = Some(i);
                best_area = fit;
                best_short = short;
            } else {
                proof {
                    match best {
                        Some(b) => {
                            assert(!better_fit(free_rects@[i as int], free_rects@[b as int], width, height));
                        },
                        None => {},
                    }
                }
            }
        }
        i = i + 1;
    }
    best
}

/// The top-left corner of the first best fit for a `width × height` slot.
pub fn find_position_best_area_fit(free_rects: &[FreeRect], width: u32, height: u32) -> (r: Option<
    (u32, u32),
>)
    ensures
        match r {
            Some((x, y)) => exists|i: int| #[trigger] is_best_fit(free_rects@, width, height, i) && free_rects@[i].x == x && free_rects@[i].y == y,
            None => forall|k: int| 0 <= k < free_rects@.len() ==> !fits(#[trigger] free_rects@[k], width, height),
        },
{
    match best_area_fit_index(free_rects, width, height) {
        Some(i) => Some((free_rects[i].x, free_rects[i].y)),
        None => None,
    }
}

/// The free rectangles left of `free` around `used`: the bands above and
/// below `used` when it spans `free` horizontally, and the bands left and
/// right of it when it spans `free` vertically; empty bands are dropped.
pub open spec fn split_pieces(free: FreeRect, used: FreeRect) -> Seq<FreeRect> {
    let fx2 = free.x.saturating_add(free.w);
    let fy2 = free.y.saturating_add(free.h);
    let ux2 = used.x.saturating_add(used.w);
    let uy2 = used.y.saturating_add(used.h);
    let top = FreeRect { h: used.y.saturating_sub(free.y), ..free };
    let bottom = FreeRect { y: uy2, h: fy2.saturating_sub(uy2), ..free };
    let left = FreeRect { w: used.x.saturating_sub(free.x), ..free };
    let right = FreeRect { x: ux2, w: fx2.saturating_sub(ux2), ..free };
    let horizontal = used.x < fx2 && ux2 > free.x;
    let vertical = used.y < fy2 && uy2 > free.y;
    let s1 = if horizontal && used.y > free.y && used.y < fy2 && top.h > 0 {
        seq![top]
    } else {
        Seq::empty()
    };
    let s2 = if horizontal && uy2 < fy2 && bottom.h > 0 {
        seq![bottom]
    } else {
        Seq::empty()
    };
    let s3 = if vertical && used.x > free.x && used.x < fx2 && left.w > 0 {
        seq![left]
    } else {
        Seq::empty()
    };
    let s4 = if vertical && ux2 < fx2 && right.w > 0 {
        seq![right]
    } else {
        Seq::empty()
    };
    s1 + s2 + s3 + s4
}

/// Appends the free rectangles left of `free` around `used` to `out`.
pub fn maxrects_split_free_node(free: FreeRect, used: FreeRect, out: &mut Vec<FreeRect>)
    ensures
        final(out)@ == old(out)@ + split_pieces(free, used),
{
    let ghost start = out@;
    let fx2 = free.x.saturating_add(free.w);
    let fy2 = free.y.saturating_add(free.h);
    let ux2 = used.x.saturating_add(used.w);
    let uy2 = used.y.saturating_add(used.h);
    let ghost s1: Seq<FreeRect> = Seq::empty();
    let ghost s2: Seq<FreeRect> = Seq::empty();
    let ghost s3: Seq<FreeRect> = Seq::empty();
    let ghost s4: Seq<FreeRect> = Seq::empty();
    if used.x < fx2 && ux2 > free.x {
        if used.y > free.y && used.y < fy2 {
            let top = FreeRect { x: free.x, y: free.y, w: free.w, h: used.y.saturating_sub(free.y) };
            if top.h > 0 {
                out.push(top);
                proof {
                    s1 = seq![top];
                }
            }
        }
        if uy2 < fy2 {
            let bottom = FreeRect { x: free.x, y: uy2, w: free.w, h: fy2.saturating_sub(uy2) };
            if bottom.h > 0 {
                out.push(bottom);
                proof {
                    s2 = seq![bottom];
                }
            }
        }
    }
    if used.y < fy2 && uy2 > free.y {
        if used.x > free.x && used.x < fx2 {
            let left = FreeRect { x: free.x, y: free.y, w: used.x.saturating_sub(free.x), h: free.h };
            if left.w > 0 {
                out.push(left);
                proof {
                    s3 = seq![left];
                }
            }
        }
        if ux2 < fx2 {
            let right = FreeRect { x: ux2, y: free.y, w: fx2.saturating_sub(ux2), h: free.h };
            if right.w > 0 {
                out.push(right);
                proof {
                    s4 = seq![right];
                }
            }
        }
    }
    proof {
        assert(out@ =~= start + (s1 + s2 + s3 + s4));
        assert(s1 + s2 + s3 + s4 =~= split_pieces(free, used));
    }
}

/// A rectangle that lies within another, different rectangle of the list.
pub open spec fn redundant(s: Seq<FreeRect>, r: FreeRect) -> bool {
    exists|k: int| 0 <= k < s.len() && #[trigger] s[k] != r && contained_spec(r, s[k])
}

/// The list without its redundant rectangles.
pub open spec fn prune_spec(s: Seq<FreeRect>) -> Seq<FreeRect> {
    s.filter(|r: FreeRect| !redundant(s, r))
}

/// Whether `r` lies within another, different rectangle of `s`.
pub fn is_redundant(s: &Vec<FreeRect>, r: FreeRect) -> (b: bool)
    ensures
        b == redundant(s@, r),
{
    let mut k: usize = 0;
    while k < s.len()
        invariant
            k <= s.len(),
            forall|q: int| 0 <= q < k ==> !(#[trigger] s@[q] != r && contained_spec(r, s@[q])),
        decreases s.len() - k,
    {
        if s[k] != r && rect_contained_in(r, s[k]) {
            return true;
        }
        k = k + 1;
    }
    false
}

/// Drops the rectangles that lie within another, different one.
pub fn prune_free_list(free_rects: &mut Vec<FreeRect>)
    ensures
        final(free_rects)@ == prune_spec(old(free_rects)@),
{
    let ghost s = free_rects@;
    let ghost pred = |r: FreeRect| !redundant(s, r);
    let mut kept: Vec<FreeRect> = Vec::new();
    let mut i: usize = 0;
    proof {
        reveal(Seq::filter);
        assert(s.subrange(0, 0) =~= Seq::<FreeRect>::empty());
    }
    while i < free_rects.len()
        invariant
            i <= free_rects.len(),
            free_rects@ == s,
            pred == (|r: FreeRect| !redundant(s, r)),
            kept@ == s.subrange(0, i as int).filter(pred),
        decreases free_rects.len() - i,
    {
        let r = free_rects[i];
        let drop = is_redundant(free_rects, r);
        proof {
            s.subrange(0, i as int).lemma_filter_push(r, pred);
            assert(s.subrange(0, i as int + 1) =~= s.subrange(0, i as int).push(r));
        }
        if !drop {
            kept.push(r);
        }
        i = i + 1;
    }
    proof {
        assert(s.subrange(0, s.len() as int) =~= s);
    }
    *free_rects = kept;
}

/// Each free rectangle that overlaps `used` replaced by the pieces left
/// around it, the others kept, in order.
pub open spec fn after_split(frees: Seq<FreeRect>, used: FreeRect) -> Seq<FreeRect>
    decreases frees.len(),
{
    if frees.len() == 0 {
        frees
    } else {
        let prev = after_split(frees.drop_last(), used);
        let f = frees.last();
        if !intersects_spec(f, used) {
            prev.push(f)
        } else {
            prev + split_pieces(f, used)
        }
    }
}

/// Takes `used` out of the free space: splits what it overlaps, then prunes.
pub fn maxrects_place_rect(free_rects: &mut Vec<FreeRect>, used: FreeRect)
    ensures
        final(free_rects)@ == prune_spec(after_split(old(free_rects)@, used)),
{
    let ghost s = free_rects@;
    let mut next: Vec<FreeRect> = Vec::new();
    let mut i: usize = 0;
    proof {
        assert(s.subrange(0, 0) =~= Seq::<FreeRect>::empty());
    }
    while i < free_rects.len()
        invariant
            i <= free_rects.len(),
            free_rects@ == s,
            next@ == after_split(s.subrange(0, i as int), used),
        decreases free_rects.len() - i,
    {
        let free = free_rects[i];
        proof {
            assert(s.subrange(0, i as int + 1).drop_last() =~= s.subrange(0, i as int));
            assert(s.subrange(0, i as int + 1).last() == free);
        }
        if !free_rect_intersects(free, used) {
            next.push(free);
        } else {
            maxrects_split_free_node(free, used, &mut next);
        }
        i = i + 1;
    }
    proof {
        assert(s.subrange(0, s.len() as int) =~= s);
    }
    prune_free_list(&mut next);
    *free_rects = next;
}


/// A sprite to pack: its size, and the top-left corner of its slot.
#[derive(Debug, Clone, PartialEq, Eq)]
pub struct PackPlacement {
    pub name: String,
    pub width: u32,
    pub height: u32,
    pub x: u32,
    pub y: u32,
}

/// `a` is packed before `b`: larger area, then taller, then wider.
pub open spec fn goes_before(a: PackPlacement, b: PackPlacement) -> bool {
    let aa = a.width * a.height;
    let ba = b.width * b.height;
    aa > ba || (aa == ba && a.height > b.height) || (aa == ba && a.height == b.height && a.width
        > b.width)
}

/// `x` inserted into `s` before the first element it goes before.
pub open spec fn insert_spec(s: Seq<PackPlacement>, x: PackPlacement) -> Seq<PackPlacement>
    decreases s.len(),
{
    if s.len() == 0 {
        seq![x]
    } else if goes_before(x, s[0]) {
        seq![x] + s
    } else {
        seq![s[0]] + insert_spec(s.drop_first(), x)
    }
}

/// The packing order: a stable sort by [`goes_before`] (equal sprites keep
/// their order).
pub open spec fn pack_order(s: Seq<PackPlacement>) -> Seq<PackPlacement>
    decreases s.len(),
{
    if s.len() == 0 {
        s
    } else {
        insert_spec(pack_order(s.drop_last()), s.last())
    }
}

fn goes_before_exec(a: &PackPlacement, b: &PackPlacement) -> (r: bool)
    ensures
        r == goes_before(*a, *b),
{
    proof {
        lemma_u32_product_fits(a.width, a.height);
        lemma_u32_product_fits(b.width, b.height);
    }
    let aa: u64 = (a.width as u64) * (a.height as u64);
    let ba: u64 = (b.width as u64) * (b.height as u64);
    aa > ba || (aa == ba && a.height > b.height) || (aa == ba && a.height == b.height && a.width
        > b.width)
}

proof fn lemma_insert_at(s: Seq<PackPlacement>, x: PackPlacement, p: int)
    requires
        0 <= p <= s.len(),
        forall|k: int| 0 <= k < p ==> !goes_before(x, #[trigger] s[k]),
        p < s.len() ==> goes_before(x, s[p]),
    ensures
        insert_spec(s, x) == s.insert(p, x),
    decreases s.len(),
{
    if s.len() == 0 {
        assert(s.insert(p, x) =~= seq![x]);
    } else if p == 0 {
        assert(s.insert(0, x) =~= seq![x] + s);
    } else {
        let t = s.drop_first();
        assert forall|k: int| 0 <= k < p - 1 implies !goes_before(x, #[trigger] t[k]) by {
            assert(t[k] == s[k + 1]);
        }
        if p - 1 < t.len() {
            assert(t[p - 1] == s[p]);
        }
        lemma_insert_at(t, x, p - 1);
        assert(seq![s[0]] + t.insert(p - 1, x) =~= s.insert(p, x));
    }
}

/// The sprites in packing order.
pub fn sort_for_packing(v: Vec<PackPlacement>) -> (out: Vec<PackPlacement>)
    ensures
        out@ == pack_order(v@),
{
    let ghost orig = v@;
    let mut rest = v;
    let n = rest.len();
    let mut out: Vec<PackPlacement> = Vec::new();
    let mut i: usize = 0;
    proof {
        assert(orig.subrange(0, 0) =~= Seq::<PackPlacement>::empty());
        assert(rest@ =~= orig.subrange(0, orig.len() as int));
    }
    while rest.len() > 0
        invariant
            n == orig.len(),
            i <= orig.len(),
            rest@ == orig.subrange(i as int, orig.len() as int),
            out@ == pack_order(orig.subrange(0, i as int)),
        decreases rest.len(),
    {
        let x = rest.remove(0);
        proof {
            assert(x == orig[i as int]);
            assert(rest@ =~= orig.subrange(i + 1, orig.len() as int));
            assert(orig.subrange(0, i + 1).drop_last() =~= orig.subrange(0, i as int));
            assert(orig.subrange(0, i + 1).last() == x);
        }
        let mut pos: usize = 0;
        while pos < out.len() && !goes_before_exec(&x, &out[pos])
            invariant
                pos <= out.len(),
                forall|k: int| 0 <= k < pos ==> !goes_before(x, #[trigger] out@[k]),
            decreases out.len() - pos,
        {
            pos = pos + 1;
        }
        proof {
            lemma_insert_at(out@, x, pos as int);
        }
        out.insert(pos, x);
        i = i + 1;
    }
    proof {
        assert(orig.subrange(0, orig.len() as int) =~= orig);
    }
    out
}

/// The transparent seam kept between packed slots.
pub const PACK_SPRITE_INTER_GAP_PX: u32 = 1;

/// The height of a fresh free band.
pub const INITIAL_FREE_HEIGHT: u32 = 16777216;

/// The slot of a packed sprite: its corner and its size plus the seam.
pub open spec fn slot(p: PackPlacement) -> FreeRect {
    FreeRect { x: p.x, y: p.y, w: (p.width + 1) as u32, h: (p.height + 1) as u32 }
}

/// The two rectangles share some area (without overflow).
pub open spec fn overlap(a: FreeRect, b: FreeRect) -> bool {
    a.x < b.x + b.w && b.x < a.x + a.w && a.y < b.y + b.h && b.y < a.y + a.h
}

/// `inner` lies within `outer` (without overflow).
pub open spec fn inside(inner: FreeRect, outer: FreeRect) -> bool {
    inner.x >= outer.x && inner.y >= outer.y && inner.x + inner.w <= outer.x + outer.w && inner.y
        + inner.h <= outer.y + outer.h
}

/// The total height of the slots of all sprites.
pub open spec fn total_slot_height(s: Seq<PackPlacement>) -> int
    decreases s.len(),
{
    if s.len() == 0 {
        0
    } else {
        s[0].height + 1 + total_slot_height(s.drop_first())
    }
}

/// The widest slot, or 1 when there is no sprite.
pub open spec fn widest_slot(s: Seq<PackPlacement>) -> int
    decreases s.len(),
{
    if s.len() == 0 {
        1
    } else {
        let rest = widest_slot(s.drop_last());
        if s.last().width + 1 > rest {
            s.last().width + 1
        } else {
            rest
        }
    }
}

/// Sprites the packer can place: each slot at most the band height tall and
/// narrow enough for the margins, and all slots stacked still addressable
/// below the last band.
pub open spec fn packable(s: Seq<PackPlacement>) -> bool {
    &&& forall|k: int| 0 <= k < s.len() ==> (#[trigger] s[k]).height < INITIAL_FREE_HEIGHT && s[k].width + 3 <= u32::MAX
    &&& total_slot_height(s) + INITIAL_FREE_HEIGHT + 2 <= u32::MAX
}

proof fn lemma_total_push(s: Seq<PackPlacement>, x: PackPlacement)
    ensures
        total_slot_height(s.push(x)) == total_slot_height(s) + x.height + 1,
    decreases s.len(),
{
    if s.len() > 0 {
        assert(s.push(x)[0] == s[0]);
        assert(s.push(x).drop_first() =~= s.drop_first().push(x));
        lemma_total_push(s.drop_first(), x);
        assert(total_slot_height(s.push(x)) == s[0].height + 1 + total_slot_height(s.push(x).drop_first()));
        assert(total_slot_height(s.push(x).drop_first()) == total_slot_height(s.drop_first()) + x.height + 1);
        assert(total_slot_height(s) == s[0].height + 1 + total_slot_height(s.drop_first()));
    } else {
        assert(s.push(x)[0] == x);
        assert(s.push(x).drop_first() =~= Seq::<PackPlacement>::empty());
        assert(total_slot_height(s.push(x).drop_first()) == 0);
        assert(total_slot_height(s) == 0);
        assert(total_slot_height(s.push(x)) == x.height + 1 + total_slot_height(s.push(x).drop_first()));
    }
}

proof fn lemma_total_insert(t: Seq<PackPlacement>, x: PackPlacement)
    ensures
        total_slot_height(insert_spec(t, x)) == total_slot_height(t) + x.height + 1,
        insert_spec(t, x).len() == t.len() + 1,
        forall|k: int| 0 <= k < insert_spec(t, x).len() ==> #[trigger] insert_spec(t, x)[k] == x || t.contains(insert_spec(t, x)[k]),
    decreases t.len(),
{
    if t.len() == 0 {
        assert(seq![x][0] == x);
        assert(seq![x].drop_first() =~= Seq::<PackPlacement>::empty());
        assert(total_slot_height(seq![x].drop_first()) == 0);
        assert(total_slot_height(t) == 0);
        assert(total_slot_height(seq![x]) == x.height + 1 + total_slot_height(seq![x].drop_first()));
    } else if goes_before(x, t[0]) {
        assert((seq![x] + t)[0] == x);
        assert((seq![x] + t).drop_first() =~= t);
        assert forall|k: int| 0 <= k < insert_spec(t, x).len() implies #[trigger] insert_spec(t, x)[k] == x || t.contains(insert_spec(t, x)[k]) by {
            if k > 0 {
                assert(insert_spec(t, x)[k] == t[k - 1]);
            }
        }
    } else {
        let r = insert_spec(t.drop_first(), x);
        lemma_total_insert(t.drop_first(), x);
        assert((seq![t[0]] + r)[0] == t[0]);
        assert((seq![t[0]] + r).drop_first() =~= r);
        assert forall|k: int| 0 <= k < insert_spec(t, x).len() implies #[trigger] insert_spec(t, x)[k] == x || t.contains(insert_spec(t, x)[k]) by {
            if k == 0 {
                assert(t.contains(t[0]));
            } else {
                assert(insert_spec(t, x)[k] == r[k - 1]);
                if r[k - 1] != x {
                    let m = choose|m: int| 0 <= m < t.drop_first().len() && t.drop_first()[m] == r[k - 1];
                    assert(t[m + 1] == r[k - 1]);
                }
            }
        }
    }
}

proof fn lemma_order_facts(s: Seq<PackPlacement>)
    ensures
        pack_order(s).len() == s.len(),
        total_slot_height(pack_order(s)) == total_slot_height(s),
        forall|k: int| 0 <= k < s.len() ==> s.contains(#[trigger] pack_order(s)[k]),
    decreases s.len(),
{
    if s.len() > 0 {
        let t = pack_order(s.drop_last());
        lemma_order_facts(s.drop_last());
        lemma_total_insert(t, s.last());
        lemma_total_push(s.drop_last(), s.last());
        assert(s.drop_last().push(s.last()) =~= s);
        assert forall|k: int| 0 <= k < s.len() implies s.contains(#[trigger] pack_order(s)[k]) by {
            let e = pack_order(s)[k];
            if e == s.last() {
                assert(s[s.len() - 1] == e);
            } else {
                assert(t.contains(e));
                let m = choose|m: int| 0 <= m < t.len() && t[m] == e;
                assert(s.drop_last().contains(t[m]));
                let q = choose|q: int| 0 <= q < s.drop_last().len() && s.drop_last()[q] == e;
                assert(s[q] == e);
            }
        }
    }
}

proof fn lemma_prefix_total(s: Seq<PackPlacement>, k: int)
    requires
        0 <= k < s.len(),
    ensures
        total_slot_height(s.subrange(0, k + 1)) == total_slot_height(s.subrange(0, k)) + s[k].height + 1,
        total_slot_height(s.subrange(0, k + 1)) <= total_slot_height(s),
    decreases s.len() - k,
{
    assert(s.subrange(0, k + 1) =~= s.subrange(0, k).push(s[k]));
    lemma_total_push(s.subrange(0, k), s[k]);
    if k + 1 < s.len() {
        lemma_prefix_total(s, k + 1);
    } else {
        assert(s.subrange(0, k + 1) =~= s);
    }
}

/// The right edge of the rightmost slot, at least 1.
pub open spec fn max_right_spec(s: Seq<PackPlacement>) -> int
    decreases s.len(),
{
    if s.len() == 0 {
        1
    } else {
        let rest = max_right_spec(s.drop_last());
        let e = s.last().x + s.last().width + 1;
        if e > rest {
            e
        } else {
            rest
        }
    }
}

/// The bottom edge of the lowest slot, at least 1.
pub open spec fn max_bottom_spec(s: Seq<PackPlacement>) -> int
    decreases s.len(),
{
    if s.len() == 0 {
        1
    } else {
        let rest = max_bottom_spec(s.drop_last());
        let e = s.last().y + s.last().height + 1;
        if e > rest {
            e
        } else {
            rest
        }
    }
}

/// The slot fits between the margins.
pub open spec fn in_margins(r: FreeRect, inner_w: int) -> bool {
    r.x >= 1 && r.y >= 1 && r.x + r.w <= inner_w + 1
}

/// What holds of each free rectangle while packing.
pub open spec fn free_ok(f: FreeRect, inner_w: int, max_bottom: int, limit: int, placed: Seq<PackPlacement>) -> bool {
    &&& in_margins(f, inner_w)
    &&& f.y <= max_bottom
    &&& f.y + f.h <= limit
    &&& forall|j: int| 0 <= j < placed.len() ==> !overlap(f, slot(#[trigger] placed[j]))
}

proof fn lemma_pieces(free: FreeRect, used: FreeRect)
    requires
        free.x + free.w <= u32::MAX,
        free.y + free.h <= u32::MAX,
        used.x + used.w <= u32::MAX,
        used.y + used.h <= u32::MAX,
        overlap(free, used),
    ensures
        forall|k: int| 0 <= k < split_pieces(free, used).len() ==> inside(#[trigger] split_pieces(free, used)[k], free) && !overlap(split_pieces(free, used)[k], used) && split_pieces(free, used)[k].y <= if free.y > used.y + used.h { free.y as int } else { used.y + used.h },
{
    let fx2 = free.x.saturating_add(free.w);
    let fy2 = free.y.saturating_add(free.h);
    let ux2 = used.x.saturating_add(used.w);
    let uy2 = used.y.saturating_add(used.h);
    assert(fx2 == free.x + free.w && fy2 == free.y + free.h && ux2 == used.x + used.w && uy2 == used.y + used.h);
}

proof fn lemma_after_split(frees: Seq<FreeRect>, used: FreeRect)
    requires
        forall|k: int| 0 <= k < frees.len() ==> (#[trigger] frees[k]).x + frees[k].w <= u32::MAX && frees[k].y + frees[k].h <= u32::MAX,
        used.x + used.w <= u32::MAX,
        used.y + used.h <= u32::MAX,
    ensures
        forall|k: int| 0 <= k < after_split(frees, used).len() ==> exists|m: int| 0 <= m < frees.len() && inside(#[trigger] after_split(frees, used)[k], frees[m]) && !overlap(after_split(frees, used)[k], used) && after_split(frees, used)[k].y <= if frees[m].y > used.y + used.h { frees[m].y as int } else { used.y + used.h },
    decreases frees.len(),
{
    if frees.len() > 0 {
        let prev = after_split(frees.drop_last(), used);
        let f = frees.last();
        assert forall|k: int| 0 <= k < frees.drop_last().len() implies (#[trigger] frees.drop_last()[k]).x + frees.drop_last()[k].w <= u32::MAX && frees.drop_last()[k].y + frees.drop_last()[k].h <= u32::MAX by {
            assert(frees.drop_last()[k] == frees[k]);
        }
        lemma_after_split(frees.drop_last(), used);
        assert(f == frees[frees.len() - 1]);
        let out = after_split(frees, used);
        if !intersects_spec(f, used) {
            assert forall|k: int| 0 <= k < out.len() implies exists|m: int| 0 <= m < frees.len() && inside(#[trigger] out[k], frees[m]) && !overlap(out[k], used) && out[k].y <= if frees[m].y > used.y + used.h { frees[m].y as int } else { used.y + used.h } by {
                if k < prev.len() {
                    assert(out[k] == prev[k]);
                    let m = choose|m: int| 0 <= m < frees.drop_last().len() && inside(#[trigger] prev[k], frees.drop_last()[m]) && !overlap(prev[k], used) && prev[k].y <= if frees.drop_last()[m].y > used.y + used.h { frees.drop_last()[m].y as int } else { used.y + used.h };
                    assert(frees[m] == frees.drop_last()[m]);
                } else {
                    assert(out[k] == f);
                    assert(inside(f, frees[frees.len() - 1]));
                }
            }
        } else {
            lemma_pieces(f, used);
            let pcs = split_pieces(f, used);
            assert forall|k: int| 0 <= k < out.len() implies exists|m: int| 0 <= m < frees.len() && inside(#[trigger] out[k], frees[m]) && !overlap(out[k], used) && out[k].y <= if frees[m].y > used.y + used.h { frees[m].y as int } else { used.y + used.h } by {
                if k < prev.len() {
                    assert(out[k] == prev[k]);
                    let m = choose|m: int| 0 <= m < frees.drop_last().len() && inside(#[trigger] prev[k], frees.drop_last()[m]) && !overlap(prev[k], used) && prev[k].y <= if frees.drop_last()[m].y > used.y + used.h { frees.drop_last()[m].y as int } else { used.y + used.h };
                    assert(frees[m] == frees.drop_last()[m]);
                } else {
                    assert(out[k] == pcs[k - prev.len()]);
                    assert(inside(pcs[k - prev.len()], frees[frees.len() - 1]));
                }
            }
        }
    }
}

/// The first best fit among `free` for a `w × h` slot (see [`is_best_fit`]).
pub open spec fn best_fit_spec(free: Seq<FreeRect>, w: u32, h: u32) -> int {
    choose|i: int| is_best_fit(free, w, h, i)
}

/// There is one first best fit.
pub proof fn lemma_best_fit_unique(free: Seq<FreeRect>, w: u32, h: u32, i: int, j: int)
    requires
        is_best_fit(free, w, h, i),
        is_best_fit(free, w, h, j),
    ensures
        i == j,
{
    if i < j {
        assert(better_fit(free[j], free[i], w, h));
    } else if j < i {
        assert(better_fit(free[i], free[j], w, h));
    }
}

/// Where the packing stands after some sprites: the free rectangles and the
/// right and bottom edges reached.
pub struct PackState {
    pub free: Seq<FreeRect>,
    pub max_right: int,
    pub max_bottom: int,
}

/// The free list a `w × h` slot is placed from: as it is when some free
/// rectangle fits, else with a fresh band `inner_w` wide below everything.
pub open spec fn with_band(free: Seq<FreeRect>, w: u32, h: u32, inner_w: int, max_bottom: int) -> Seq<FreeRect> {
    if exists|i: int| 0 <= i < free.len() && #[trigger] fits(free[i], w, h) {
        free
    } else {
        free.push(FreeRect { x: 1, y: max_bottom as u32, w: inner_w as u32, h: INITIAL_FREE_HEIGHT })
    }
}

/// The slot of sprite `p` (its size plus the seam) placed at the corner of
/// the first best fit.
pub open spec fn placed_slot(st: PackState, p: PackPlacement, inner_w: int) -> FreeRect {
    let pw = (p.width + 1) as u32;
    let ph = (p.height + 1) as u32;
    let f1 = with_band(st.free, pw, ph, inner_w, st.max_bottom);
    let i = best_fit_spec(f1, pw, ph);
    FreeRect { x: f1[i].x, y: f1[i].y, w: pw, h: ph }
}

/// The state after placing sprite `p`.
pub open spec fn next_pack_state(st: PackState, p: PackPlacement, inner_w: int) -> PackState {
    let used = placed_slot(st, p, inner_w);
    let f1 = with_band(st.free, used.w, used.h, inner_w, st.max_bottom);
    PackState {
        free: prune_spec(after_split(f1, used)),
        max_right: if used.x + used.w > st.max_right { used.x + used.w } else { st.max_right },
        max_bottom: if used.y + used.h > st.max_bottom { used.y + used.h } else { st.max_bottom },
    }
}

/// The state after placing the first `k` sprites of `order` in a bin
/// `inner_w` wide.
pub open spec fn pack_run(order: Seq<PackPlacement>, inner_w: int, k: int) -> PackState
    decreases k,
{
    if k <= 0 {
        PackState {
            free: seq![FreeRect { x: 1, y: 1, w: inner_w as u32, h: INITIAL_FREE_HEIGHT }],
            max_right: 1,
            max_bottom: 1,
        }
    } else {
        next_pack_state(pack_run(order, inner_w, k - 1), order[k - 1], inner_w)
    }
}

/// The bin width packing uses: the target width less the margins, or the
/// widest slot when that is wider.
pub open spec fn bin_width(order: Seq<PackPlacement>, target_width: u32) -> int {
    if target_width > widest_slot(order) + 2 {
        target_width - 2
    } else {
        widest_slot(order)
    }
}

/// What packing `orig` into an atlas `target_width` wide gives: `fin` holds
/// the sprites in packing order, each slot placed best-fit inside the
/// margins, no two slots overlapping, and `r` is the atlas size.
pub open spec fn packed_as(orig: Seq<PackPlacement>, fin: Seq<PackPlacement>, target_width: u32, r: (u32, u32)) -> bool {
    &&& fin.len() == orig.len()
    &&& forall|i: int| 0 <= i < fin.len() ==> {
        &&& (#[trigger] fin[i]).name == pack_order(orig)[i].name
        &&& fin[i].width == pack_order(orig)[i].width
        &&& fin[i].height == pack_order(orig)[i].height
        &&& in_margins(slot(fin[i]), if target_width > widest_slot(pack_order(orig)) + 2 { target_width - 2 } else { widest_slot(pack_order(orig)) })
        &&& slot(fin[i]) == placed_slot(
            pack_run(pack_order(orig), bin_width(pack_order(orig), target_width), i),
            pack_order(orig)[i],
            bin_width(pack_order(orig), target_width),
        )
    }
    &&& forall|i: int, k: int| 0 <= i < k < fin.len() ==> !overlap(slot(#[trigger] fin[i]), slot(#[trigger] fin[k]))
    &&& forall|i: int| 0 <= i < fin.len() ==> (#[trigger] fin[i]).x + fin[i].width + 1 <= max_right_spec(fin)
        && fin[i].y + fin[i].height + 1 <= max_bottom_spec(fin)
    &&& max_right_spec(fin) + 1 <= u32::MAX
    &&& max_bottom_spec(fin) + 1 <= u32::MAX
    &&& r == if fin.len() == 0 {
        (2u32, 2u32)
    } else {
        ((max_right_spec(fin) + 1) as u32, (max_bottom_spec(fin) + 1) as u32)
    }
}

/// Packs the sprites into an atlas `target_width` wide (at least the widest
/// slot plus the margins): in packing order, each slot (the sprite plus a
/// one-pixel seam) takes the top-left corner of the free rectangle it fits
/// best, and a fresh band below everything is opened when none fits.
/// Returns the atlas size: the slots' right and bottom edges plus the margin.
pub fn pack_sprites_maxrects(placements: &mut Vec<PackPlacement>, target_width: u32) -> (r: (u32, u32))
    requires
        packable(old(placements)@),
    ensures
        final(placements)@.len() == old(placements)@.len(),
        forall|i: int| 0 <= i < final(placements)@.len() ==> {
            &&& (#[trigger] final(placements)@[i]).name == pack_order(old(placements)@)[i].name
            &&& final(placements)@[i].width == pack_order(old(placements)@)[i].width
            &&& final(placements)@[i].height == pack_order(old(placements)@)[i].height
            &&& in_margins(slot(final(placements)@[i]), if target_width > widest_slot(pack_order(old(placements)@)) + 2 { target_width - 2 } else { widest_slot(pack_order(old(placements)@)) })
            &&& slot(final(placements)@[i]) == placed_slot(
                pack_run(pack_order(old(placements)@), bin_width(pack_order(old(placements)@), target_width), i),
                pack_order(old(placements)@)[i],
                bin_width(pack_order(old(placements)@), target_width),
            )
        },
        forall|i: int, k: int| 0 <= i < k < final(placements)@.len() ==> !overlap(slot(#[trigger] final(placements)@[i]), slot(#[trigger] final(placements)@[k])),
        r == if final(placements)@.len() == 0 {
            (2u32, 2u32)
        } else {
            ((max_right_spec(final(placements)@) + 1) as u32, (max_bottom_spec(final(placements)@) + 1) as u32)
        },
        packed_as(old(placements)@, final(placements)@, target_width, r),
{
    let ghost orig = old(placements)@;
    let mut items: Vec<PackPlacement> = Vec::new();
    std::mem::swap(&mut items, placements);
    let sorted = sort_for_packing(items);
    let ghost order = pack_order(orig);
    proof {
        lemma_order_facts(orig);
        assert forall|k: int| 0 <= k < order.len() implies (#[trigger] order[k]).height < INITIAL_FREE_HEIGHT && order[k].width + 3 <= u32::MAX by {
            assert(orig.contains(order[k]));
            let m = choose|m: int| 0 <= m < orig.len() && orig[m] == order[k];
        }
    }
    let mut widest: u32 = 1;
    let mut q: usize = 0;
    while q < sorted.len()
        invariant
            q <= sorted.len(),
            sorted@ == order,
            forall|k: int| 0 <= k < order.len() ==> (#[trigger] order[k]).height < INITIAL_FREE_HEIGHT && order[k].width + 3 <= u32::MAX,
            widest as int == widest_slot(order.subrange(0, q as int)),
            1 <= widest <= u32::MAX - 2,
            forall|k: int| 0 <= k < q ==> (#[trigger] order[k]).width + 1 <= widest,
        decreases sorted.len() - q,
    {
        proof {
            assert(order.subrange(0, q + 1).drop_last() =~= order.subrange(0, q as int));
            assert(order.subrange(0, q + 1).last() == order[q as int]);
        }
        let sw = sorted[q].width + 1;
        if sw > widest {
            widest = sw;
        }
        q = q + 1;
    }
    proof {
        assert(order.subrange(0, order.len() as int) =~= order);
    }
    let min_width = widest + 2;
    let packing_width = if target_width > min_width { target_width } else { min_width };
    if sorted.len() == 0 {
        *placements = sorted;
        return (2, 2);
    }
    let inner_w: u32 = packing_width - 2;
    let ghost total = total_slot_height(order);
    let mut free_rects: Vec<FreeRect> = Vec::new();
    free_rects.push(FreeRect { x: 1, y: 1, w: inner_w, h: INITIAL_FREE_HEIGHT });
    let mut max_right: u32 = 1;
    let mut max_bottom: u32 = 1;
    let mut rest = sorted;
    let n = rest.len();
    let mut placed: Vec<PackPlacement> = Vec::new();
    let mut k: usize = 0;
    proof {
        assert(rest@ =~= order.subrange(0, order.len() as int));
        assert(order.subrange(0, 0) =~= Seq::<PackPlacement>::empty());
    }
    while rest.len() > 0
        invariant
            n == order.len(),
            k <= n,
            rest@ == order.subrange(k as int, n as int),
            placed@.len() == k,
            inner_w as int == if target_width > widest + 2 { target_width - 2 } else { widest as int },
            widest as int == widest_slot(order),
            1 <= widest <= u32::MAX - 2,
            forall|m: int| 0 <= m < order.len() ==> (#[trigger] order[m]).height < INITIAL_FREE_HEIGHT && order[m].width + 1 <= widest,
            total == total_slot_height(order),
            total + INITIAL_FREE_HEIGHT + 2 <= u32::MAX,
            forall|j: int| 0 <= j < k ==> {
                &&& (#[trigger] placed@[j]).name == order[j].name
                &&& placed@[j].width == order[j].width
                &&& placed@[j].height == order[j].height
                &&& in_margins(slot(placed@[j]), inner_w as int)
                &&& placed@[j].x + placed@[j].width + 1 <= max_right
                &&& placed@[j].y + placed@[j].height + 1 <= max_bottom
            },
            forall|a: int, b: int| 0 <= a < b < k ==> !overlap(slot(#[trigger] placed@[a]), slot(#[trigger] placed@[b])),
            1 <= max_bottom as int <= 1 + total_slot_height(order.subrange(0, k as int)),
            1 <= max_right as int <= inner_w + 1,
            max_right as int == max_right_spec(placed@),
            max_bottom as int == max_bottom_spec(placed@),
            forall|i: int| 0 <= i < free_rects@.len() ==> free_ok(#[trigger] free_rects@[i], inner_w as int, max_bottom as int, 1 + total_slot_height(order.subrange(0, k as int)) + INITIAL_FREE_HEIGHT, placed@),
            inner_w as int == bin_width(order, target_width),
            free_rects@ == pack_run(order, inner_w as int, k as int).free,
            max_right as int == pack_run(order, inner_w as int, k as int).max_right,
            max_bottom as int == pack_run(order, inner_w as int, k as int).max_bottom,
            forall|j: int| 0 <= j < k ==> slot(#[trigger] placed@[j]) == placed_slot(pack_run(order, inner_w as int, j), order[j], inner_w as int),
        decreases rest.len(),
    {
        let mut item = rest.remove(0);
        proof {
            assert(item == order[k as int]);
            assert(rest@ =~= order.subrange(k + 1, n as int));
            lemma_prefix_total(order, k as int);
        }
        let pw = item.width + 1;
        let ph = item.height + 1;
        let ghost limit = 1 + total_slot_height(order.subrange(0, k as int)) + INITIAL_FREE_HEIGHT;
        let pos = match find_position_best_area_fit(free_rects.as_slice(), pw, ph) {
            Some(p) => p,
            None => {
                let y_band = max_bottom;
                let band = FreeRect { x: 1, y: y_band, w: inner_w, h: INITIAL_FREE_HEIGHT };
                proof {
                    assert forall|j: int| 0 <= j < placed@.len() implies !overlap(band, slot(#[trigger] placed@[j])) by {}
                    assert(free_ok(band, inner_w as int, max_bottom as int, limit, placed@));
                }
                let ghost before_push = free_rects@;
                free_rects.push(band);
                proof {
                    assert forall|i: int| 0 <= i < free_rects@.len() implies free_ok(#[trigger] free_rects@[i], inner_w as int, max_bottom as int, limit, placed@) by {
                        if i < before_push.len() {
                            assert(free_rects@[i] == before_push[i]);
                        }
                    }
                }
                match find_position_best_area_fit(free_rects.as_slice(), pw, ph) {
                    Some(p) => p,
                    None => {
                        proof {
                            assert(fits(free_rects@[free_rects@.len() - 1], pw, ph));
                        }
                        (1, y_band)
                    },
                }
            },
        };
        let (px, py) = pos;
        proof {
            let i = choose|i: int| #[trigger] is_best_fit(free_rects@, pw, ph, i) && free_rects@[i].x == px && free_rects@[i].y == py;
            let f = free_rects@[i];
            assert(free_ok(f, inner_w as int, max_bottom as int, limit, placed@));
            let s = FreeRect { x: px, y: py, w: pw, h: ph };
            assert(inside(s, f));
            assert forall|j: int| 0 <= j < placed@.len() implies !overlap(s, slot(#[trigger] placed@[j])) by {
                assert(!overlap(f, slot(placed@[j])));
            }
            assert(px + pw <= inner_w + 1);
            assert(px >= 1 && py >= 1);
            assert(py <= max_bottom);
            assert(py + ph <= limit);
        }
        let ghost old_mb = max_bottom as int;
        item.x = px;
        item.y = py;
        let right = px + pw;
        let bottom = py + ph;
        if right > max_right {
            max_right = right;
        }
        if bottom > max_bottom {
            max_bottom = bottom;
        }
        let used = FreeRect { x: px, y: py, w: pw, h: ph };
        let ghost before_free = free_rects@;
        let ghost before_placed = placed@;
        maxrects_place_rect(&mut free_rects, used);
        placed.push(item);
        proof {
            assert(placed@.drop_last() =~= before_placed);
            assert(slot(placed@[k as int]) == used);
            assert forall|i: int| 0 <= i < before_free.len() implies (#[trigger] before_free[i]).x + before_free[i].w <= u32::MAX && before_free[i].y + before_free[i].h <= u32::MAX by {
                assert(free_ok(before_free[i], inner_w as int, old_mb, limit, before_placed));
            }
            lemma_after_split(before_free, used);
            let mid = after_split(before_free, used);
            let newlimit = 1 + total_slot_height(order.subrange(0, k + 1)) + INITIAL_FREE_HEIGHT;
            assert forall|i: int| 0 <= i < free_rects@.len() implies free_ok(#[trigger] free_rects@[i], inner_w as int, max_bottom as int, newlimit, placed@) by {
                let e = free_rects@[i];
                assert(prune_spec(mid).contains(e));
                mid.lemma_filter_contains_rev(|r: FreeRect| !redundant(mid, r), e);
                let t = choose|t: int| 0 <= t < mid.len() && mid[t] == e;
                let m = choose|m: int| 0 <= m < before_free.len() && inside(#[trigger] mid[t], before_free[m]) && !overlap(mid[t], used) && mid[t].y <= if before_free[m].y > used.y + used.h { before_free[m].y as int } else { used.y + used.h };
                let f = before_free[m];
                assert(free_ok(f, inner_w as int, old_mb, limit, before_placed));
                assert forall|j: int| 0 <= j < placed@.len() implies !overlap(e, slot(#[trigger] placed@[j])) by {
                    if j < before_placed.len() {
                        assert(placed@[j] == before_placed[j]);
                        assert(!overlap(f, slot(before_placed[j])));
                    }
                }
            }
        }
        k = k + 1;
    }
    proof {
        assert(order.subrange(0, n as int) =~= order);
    }
    *placements = placed;
    (max_right + 1, max_bottom + 1)
}

/// The slot area of all sprites.
pub open spec fn total_slot_area(s: Seq<PackPlacement>) -> int
    decreases s.len(),
{
    if s.len() == 0 {
        0
    } else {
        total_slot_area(s.drop_last()) + (s.last().width + 1) * (s.last().height + 1)
    }
}

/// The slot area of all sprites and the widest slot (1 when there is none),
/// for the width estimate.
pub fn slot_area_stats(placements: &Vec<PackPlacement>) -> (r: (u64, u32))
    requires
        total_slot_area(placements@) <= u64::MAX,
        forall|k: int| 0 <= k < placements@.len() ==> (#[trigger] placements@[k]).width < u32::MAX && placements@[k].height < u32::MAX,
    ensures
        r.0 == total_slot_area(placements@),
        r.1 == widest_slot(placements@),
{
    let mut area: u64 = 0;
    let mut widest: u32 = 1;
    let mut i: usize = 0;
    while i < placements.len()
        invariant
            i <= placements.len(),
            total_slot_area(placements@) <= u64::MAX,
            forall|k: int| 0 <= k < placements@.len() ==> (#[trigger] placements@[k]).width < u32::MAX && placements@[k].height < u32::MAX,
            area == total_slot_area(placements@.subrange(0, i as int)),
            widest == widest_slot(placements@.subrange(0, i as int)),
        decreases placements.len() - i,
    {
        let p = &placements[i];
        proof {
            assert(placements@.subrange(0, i + 1).drop_last() =~= placements@.subrange(0, i as int));
            assert(placements@.subrange(0, i + 1).last() == placements@[i as int]);
            lemma_area_prefix(placements@, i as int + 1);
            lemma_u32_product_fits((p.width + 1) as u32, (p.height + 1) as u32);
        }
        let sw = p.width + 1;
        let sh = p.height + 1;
        area = area + (sw as u64) * (sh as u64);
        if sw > widest {
            widest = sw;
        }
        i = i + 1;
    }
    proof {
        assert(placements@.subrange(0, placements@.len() as int) =~= placements@);
    }
    (area, widest)
}

proof fn lemma_area_prefix(s: Seq<PackPlacement>, k: int)
    requires
        0 <= k <= s.len(),
    ensures
        total_slot_area(s.subrange(0, k)) <= total_slot_area(s),
    decreases s.len() - k,
{
    if k < s.len() {
        lemma_area_prefix(s, k + 1);
        assert(s.subrange(0, k + 1).drop_last() =~= s.subrange(0, k));
        assert((s[k].width + 1) * (s[k].height + 1) >= 0) by (nonlinear_arith);
    } else {
        assert(s.subrange(0, k) =~= s);
    }
}

/// The atlas width to pack into: the requested width (at least 2); 2 when
/// there is nothing to pack; else the square root estimate of the slot area
/// plus 2, and at least the widest slot plus 2. `sqrt_area_ceil` is the
/// rounded-up square root of the slot area.
pub fn resolve_target_width(
    placements: &Vec<PackPlacement>,
    dimensions: Option<crate::contracts::DimensionOverride>,
    widest_slot_width: u32,
    sqrt_area_ceil: u32,
) -> (r: u32)
    ensures
        r == match dimensions {
            Some(d) => if d.width > 2 { d.width } else { 2u32 },
            None => if placements@.len() == 0 {
                2u32
            } else {
                let estimated = sqrt_area_ceil.saturating_add(2);
                let minimum = widest_slot_width.saturating_add(2);
                if estimated > minimum { estimated } else { minimum }
            },
        },
{
    if let Some(d) = dimensions {
        return if d.width > 2 { d.width } else { 2 };
    }
    if placements.len() == 0 {
        return 2;
    }
    let estimated = sqrt_area_ceil.saturating_add(2);
    let minimum = widest_slot_width.saturating_add(2);
    if estimated > minimum { estimated } else { minimum }
}
} // verus!
