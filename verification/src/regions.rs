//! Connected regions of a `w × h` grid: which cells a walk over passable
//! cells reaches, by 4- or 8-neighbour steps, and the flood fill that
//! finds them.

use vstd::prelude::*;

verus! {

/// Cells `a` and `b` (row-major indices) of a `w × h` grid are neighbours:
/// distinct, each coordinate differs by at most one, and with
/// 4-connectivity they share a row or a column.
pub open spec fn adjacent(w: int, h: int, conn8: bool, a: int, b: int) -> bool {
    &&& 0 <= a < w * h
    &&& 0 <= b < w * h
    &&& a != b
    &&& -1 <= b % w - a % w <= 1
    &&& -1 <= b / w - a / w <= 1
    &&& (conn8 || b % w == a % w || b / w == a / w)
}

/// Step `i` of a walk links neighbouring cells.
pub open spec fn linked(w: int, h: int, conn8: bool, path: Seq<int>, i: int) -> bool {
    adjacent(w, h, conn8, path[i], path[i + 1])
}

/// A walk: a non-empty sequence of passable cells, each a neighbour of the
/// one before.
pub open spec fn is_path(pass: Seq<bool>, w: int, h: int, conn8: bool, path: Seq<int>) -> bool {
    &&& path.len() > 0
    &&& forall|i: int| 0 <= i < path.len() ==> 0 <= #[trigger] path[i] < w * h && pass[path[i]]
    &&& forall|i: int| 0 <= i < path.len() - 1 ==> #[trigger] linked(w, h, conn8, path, i)
}

/// Some walk leads from `a` to `b`.
pub open spec fn reach(pass: Seq<bool>, w: int, h: int, conn8: bool, a: int, b: int) -> bool {
    exists|path: Seq<int>| #[trigger] is_path(pass, w, h, conn8, path) && path[0] == a && path.last() == b
}

/// The cells a walk from `seed` reaches.
#[verifier::opaque]
pub open spec fn region(pass: Seq<bool>, w: int, h: int, conn8: bool, seed: int) -> Set<int> {
    Set::new(|c: int| 0 <= c < w * h && reach(pass, w, h, conn8, seed, c))
}

/// The cells of a region lie in the grid and are reached from its seed.
pub proof fn lemma_region_contains(pass: Seq<bool>, w: int, h: int, conn8: bool, seed: int, c: int)
    ensures
        region(pass, w, h, conn8, seed).contains(c) <==> (0 <= c < w * h && reach(pass, w, h, conn8, seed, c)),
{
    reveal(region);
}

/// No step leads out of the marked cells onto a passable cell.
pub open spec fn closed(pass: Seq<bool>, w: int, h: int, conn8: bool, vis: Seq<bool>) -> bool {
    forall|a: int, b: int|
        #![trigger vis[a], adjacent(w, h, conn8, a, b)]
        0 <= a < w * h && vis[a] && adjacent(w, h, conn8, a, b) && pass[b] ==> vis[b]
}

/// The cells of a list, as integers.
pub open spec fn cells_of(cells: Seq<usize>) -> Seq<int> {
    cells.map_values(|c: usize| c as int)
}

/// The neighbour slot of `b` around `a`: `(dy + 1) * 3 + (dx + 1)`.
pub open spec fn slot(w: int, a: int, b: int) -> int {
    (b / w - a / w + 1) * 3 + (b % w - a % w + 1)
}

/// A walk from a marked cell of a closed set stays marked.
pub proof fn lemma_closed_path(pass: Seq<bool>, w: int, h: int, conn8: bool, vis: Seq<bool>, path: Seq<int>, i: int)
    requires
        closed(pass, w, h, conn8, vis),
        is_path(pass, w, h, conn8, path),
        vis[path[0]],
        0 <= i < path.len(),
    ensures
        vis[path[i]],
    decreases i,
{
    if i > 0 {
        lemma_closed_path(pass, w, h, conn8, vis, path, i - 1);
        assert(linked(w, h, conn8, path, i - 1));
        assert(0 <= path[i - 1] < w * h);
        assert(pass[path[i]]);
    }
}

/// A walk that starts outside a closed set never enters it.
pub proof fn lemma_path_avoids(pass: Seq<bool>, w: int, h: int, conn8: bool, vis: Seq<bool>, path: Seq<int>, i: int)
    requires
        closed(pass, w, h, conn8, vis),
        is_path(pass, w, h, conn8, path),
        !vis[path[0]],
        0 <= i < path.len(),
    ensures
        !vis[path[i]],
    decreases i,
{
    if i > 0 {
        lemma_path_avoids(pass, w, h, conn8, vis, path, i - 1);
        assert(linked(w, h, conn8, path, i - 1));
        assert(0 <= path[i] < w * h);
        assert(pass[path[i - 1]]);
        assert(adjacent(w, h, conn8, path[i], path[i - 1]));
    }
}

/// Walks chain: from `a` to `b` and from `b` to `c` is from `a` to `c`.
pub proof fn lemma_reach_trans(pass: Seq<bool>, w: int, h: int, conn8: bool, a: int, b: int, c: int)
    requires
        reach(pass, w, h, conn8, a, b),
        reach(pass, w, h, conn8, b, c),
    ensures
        reach(pass, w, h, conn8, a, c),
{
    let p1 = choose|path: Seq<int>| #[trigger] is_path(pass, w, h, conn8, path) && path[0] == a && path.last() == b;
    let p2 = choose|path: Seq<int>| #[trigger] is_path(pass, w, h, conn8, path) && path[0] == b && path.last() == c;
    let joined = p1.drop_last() + p2;
    let m = p1.len() - 1;
    assert forall|i: int| 0 <= i < joined.len() implies 0 <= #[trigger] joined[i] < w * h && pass[joined[i]] by {
        if i < m {
            assert(joined[i] == p1[i]);
        } else {
            assert(joined[i] == p2[i - m]);
        }
    }
    assert forall|i: int| 0 <= i < joined.len() - 1 implies #[trigger] linked(w, h, conn8, joined, i) by {
        if i < m - 1 {
            assert(linked(w, h, conn8, p1, i));
        } else if i == m - 1 {
            assert(linked(w, h, conn8, p1, i));
            assert(joined[i + 1] == p2[0]);
        } else {
            assert(linked(w, h, conn8, p2, i - m));
        }
    }
    assert(is_path(pass, w, h, conn8, joined));
    if m > 0 {
        assert(joined[0] == p1[0]);
    } else {
        assert(joined[0] == p2[0]);
    }
    assert(joined.last() == p2.last());
}

/// Walks go both ways: a walk from `a` to `b` read backwards leads from
/// `b` to `a`.
pub proof fn lemma_reach_symm(pass: Seq<bool>, w: int, h: int, conn8: bool, a: int, b: int)
    requires
        reach(pass, w, h, conn8, a, b),
    ensures
        reach(pass, w, h, conn8, b, a),
{
    let p = choose|path: Seq<int>| #[trigger] is_path(pass, w, h, conn8, path) && path[0] == a && path.last() == b;
    let q = p.reverse();
    let m = p.len();
    assert forall|i: int| 0 <= i < q.len() implies 0 <= #[trigger] q[i] < w * h && pass[q[i]] by {
        assert(q[i] == p[m - 1 - i]);
    }
    assert forall|i: int| 0 <= i < q.len() - 1 implies #[trigger] linked(w, h, conn8, q, i) by {
        assert(linked(w, h, conn8, p, m - 2 - i));
        assert(q[i] == p[m - 1 - i]);
        assert(q[i + 1] == p[m - 2 - i]);
    }
    assert(is_path(pass, w, h, conn8, q));
    assert(q[0] == p[m - 1]);
    assert(q.last() == p[0]);
}

/// A walk starts on a passable cell.
pub proof fn lemma_reach_from_pass(pass: Seq<bool>, w: int, h: int, conn8: bool, a: int, b: int)
    requires
        reach(pass, w, h, conn8, a, b),
    ensures
        0 <= a < w * h,
        pass[a],
        0 <= b < w * h,
        pass[b],
{
    let p = choose|path: Seq<int>| #[trigger] is_path(pass, w, h, conn8, path) && path[0] == a && path.last() == b;
    assert(0 <= p[0] < w * h && pass[p[0]]);
    assert(0 <= p[p.len() - 1] < w * h && pass[p[p.len() - 1]]);
}

/// A walk to `c` that goes one step on to the neighbour `n`.
proof fn lemma_extend(pass: Seq<bool>, w: int, h: int, conn8: bool, seed: int, c: int, n: int)
    requires
        reach(pass, w, h, conn8, seed, c),
        adjacent(w, h, conn8, c, n),
        pass[n],
    ensures
        reach(pass, w, h, conn8, seed, n),
{
    let path = choose|path: Seq<int>| #[trigger] is_path(pass, w, h, conn8, path) && path[0] == seed && path.last() == c;
    let longer = path.push(n);
    assert forall|i: int| 0 <= i < longer.len() - 1 implies #[trigger] linked(w, h, conn8, longer, i) by {
        if i < path.len() - 1 {
            assert(linked(w, h, conn8, path, i));
        }
    }
    assert forall|i: int| 0 <= i < longer.len() implies 0 <= #[trigger] longer[i] < w * h && pass[longer[i]] by {
        if i < path.len() {
            assert(path[i] == longer[i]);
        }
    }
    assert(is_path(pass, w, h, conn8, longer));
}

proof fn lemma_cell_coords(c: int, w: int, h: int)
    requires
        0 <= c < w * h,
        0 < w,
    ensures
        0 <= c % w < w,
        0 <= c / w < h,
        c == (c / w) * w + c % w,
{
    vstd::arithmetic::div_mod::lemma_fundamental_div_mod(c, w);
    let q = c / w;
    let r = c % w;
    assert(0 <= q < h) by (nonlinear_arith)
        requires
            c == w * q + r,
            0 <= r < w,
            0 <= c < w * h,
            0 < w,
    ;
    assert(q * w == w * q) by (nonlinear_arith);
}

proof fn lemma_at(x: int, y: int, w: int, h: int)
    requires
        0 <= x < w,
        0 <= y < h,
    ensures
        0 <= y * w + x < w * h,
        (y * w + x) % w == x,
        (y * w + x) / w == y,
{
    assert(0 <= y * w + x < w * h) by (nonlinear_arith)
        requires
            0 <= x < w,
            0 <= y < h,
    ;
    vstd::arithmetic::div_mod::lemma_fundamental_div_mod_converse(y * w + x, w, y, x);
}

/// The number of marked cells.
pub open spec fn count_marked(s: Seq<bool>) -> nat
    decreases s.len(),
{
    if s.len() == 0 {
        0
    } else {
        count_marked(s.drop_last()) + if s.last() {
            1nat
        } else {
            0nat
        }
    }
}

proof fn lemma_count_bound(s: Seq<bool>)
    ensures
        count_marked(s) <= s.len(),
    decreases s.len(),
{
    if s.len() > 0 {
        lemma_count_bound(s.drop_last());
    }
}

proof fn lemma_count_mark(s: Seq<bool>, i: int)
    requires
        0 <= i < s.len(),
        !s[i],
    ensures
        count_marked(s.update(i, true)) == count_marked(s) + 1,
    decreases s.len(),
{
    let t = s.update(i, true);
    if i == s.len() - 1 {
        assert(t.drop_last() =~= s.drop_last());
    } else {
        lemma_count_mark(s.drop_last(), i);
        assert(t.drop_last() =~= s.drop_last().update(i, true));
    }
}

/// Where a neighbour `b` of `c` lies: its slot `k` gives the offset
/// `(k % 3 - 1, k / 3 - 1)`, which is a step the connectivity allows and
/// stays in the grid.
proof fn lemma_slot(w: int, h: int, conn8: bool, c: int, b: int)
    requires
        adjacent(w, h, conn8, c, b),
        0 < w,
    ensures
        0 <= slot(w, c, b) < 9,
        slot(w, c, b) % 3 - 1 == b % w - c % w,
        slot(w, c, b) / 3 - 1 == b / w - c / w,
        !(slot(w, c, b) % 3 - 1 == 0 && slot(w, c, b) / 3 - 1 == 0),
        conn8 || slot(w, c, b) % 3 - 1 == 0 || slot(w, c, b) / 3 - 1 == 0,
        0 <= c % w + (slot(w, c, b) % 3 - 1) < w,
        0 <= c / w + (slot(w, c, b) / 3 - 1) < h,
        b == (c / w + (slot(w, c, b) / 3 - 1)) * w + (c % w + (slot(w, c, b) % 3 - 1)),
{
    lemma_cell_coords(b, w, h);
    lemma_cell_coords(c, w, h);
    let a3 = b / w - c / w + 1;
    let b3 = b % w - c % w + 1;
    vstd::arithmetic::div_mod::lemma_fundamental_div_mod_converse(slot(w, c, b), 3, a3, b3);
}

/// Floods the region of `seed` over the passable cells not yet marked:
/// marks it in `visited` and returns its cells. The marked cells must be
/// closed (no step leads out of them onto a passable cell), so the region
/// never meets them.
pub fn flood_region(pass: &Vec<bool>, visited: &mut Vec<bool>, w: u32, h: u32, conn8: bool, seed: usize) -> (cells:
    Vec<usize>)
    requires
        0 < w,
        0 < h,
        w * h <= u32::MAX,
        pass@.len() == w * h,
        old(visited)@.len() == w * h,
        seed < w * h,
        pass@[seed as int],
        !old(visited)@[seed as int],
        closed(pass@, w as int, h as int, conn8, old(visited)@),
    ensures
        final(visited)@.len() == w * h,
        forall|c: int|
            0 <= c < w * h ==> (#[trigger] final(visited)@[c] <==> (old(visited)@[c] || reach(
                pass@,
                w as int,
                h as int,
                conn8,
                seed as int,
                c,
            ))),
        forall|c: int| 0 <= c < w * h && reach(pass@, w as int, h as int, conn8, seed as int, c) ==> !old(visited)@[c],
        closed(pass@, w as int, h as int, conn8, final(visited)@),
        cells_of(cells@).no_duplicates(),
        cells_of(cells@).to_set() == region(pass@, w as int, h as int, conn8, seed as int),
        cells@.len() == region(pass@, w as int, h as int, conn8, seed as int).len(),
        forall|j: int| 0 <= j < cells@.len() ==> #[trigger] cells@[j] < w * h,
{
    let ghost ov = visited@;
    let ghost pa = pass@;
    let ghost wi = w as int;
    let ghost hi = h as int;
    proof {
        let path = seq![seed as int];
        assert(is_path(pa, wi, hi, conn8, path));
    }
    proof {
        lemma_count_mark(ov, seed as int);
    }
    visited.set(seed, true);
    let mut stack: Vec<usize> = Vec::new();
    stack.push(seed);
    let mut cells: Vec<usize> = Vec::new();
    let wu = w as usize;
    proof {
        assert(stack@[0] == seed);
        assert forall|c: int| 0 <= c < wi * hi && #[trigger] visited@[c] && !ov[c] implies stack@.contains(c as usize) by {
            assert(c == seed);
        }
    }
    while stack.len() > 0
        invariant
            0 < w,
            0 < h,
            w * h <= u32::MAX,
            wi == w,
            hi == h,
            wu == w,
            pa == pass@,
            pa.len() == wi * hi,
            ov.len() == wi * hi,
            visited@.len() == wi * hi,
            seed < wi * hi,
            closed(pa, wi, hi, conn8, ov),
            !ov[seed as int],
            visited@[seed as int],
            forall|c: int| 0 <= c < wi * hi && ov[c] ==> #[trigger] visited@[c],
            forall|c: int|
                0 <= c < wi * hi && #[trigger] visited@[c] && !ov[c] ==> reach(pa, wi, hi, conn8, seed as int, c),
            forall|i: int|
                0 <= i < stack@.len() ==> #[trigger] stack@[i] < wi * hi && visited@[stack@[i] as int] && !ov[stack@[i] as int],
            stack@.no_duplicates(),
            forall|i: int|
                0 <= i < cells@.len() ==> #[trigger] cells@[i] < wi * hi && visited@[cells@[i] as int] && !ov[cells@[i] as int]
                    && !stack@.contains(cells@[i]),
            cells@.no_duplicates(),
            forall|c: int|
                0 <= c < wi * hi && #[trigger] visited@[c] && !ov[c] ==> stack@.contains(c as usize) || cells@.contains(
                    c as usize,
                ),
            forall|i: int, b: int|
                0 <= i < cells@.len() && #[trigger] adjacent(wi, hi, conn8, cells@[i] as int, b) && pa[b] ==> visited@[b],
            cells@.len() + stack@.len() + count_marked(ov) == count_marked(visited@),
        decreases wi * hi - cells@.len(),
    {
        proof {
            lemma_count_bound(visited@);
        }
        let ghost before = stack@;
        let c = stack.pop().unwrap();
        proof {
            assert(stack@ =~= before.drop_last());
            assert(c == before.last());
            assert forall|v: int|
                0 <= v < wi * hi && #[trigger] visited@[v] && !ov[v] implies v == c || stack@.contains(v as usize)
                    || cells@.contains(v as usize) by {
                if before.contains(v as usize) && v != c {
                    let j = before.index_of(v as usize);
                    assert(j != before.len() - 1);
                    assert(stack@[j] == v as usize);
                }
            }
            assert(!stack@.contains(c)) by {
                if stack@.contains(c) {
                    let j = stack@.index_of(c);
                    assert(before[j] == before[before.len() - 1]);
                }
            }
            assert(!cells@.contains(c)) by {
                if cells@.contains(c) {
                    let j = cells@.index_of(c);
                    assert(before.contains(c));
                }
            }
        }
        proof {
            lemma_cell_coords(c as int, wi, hi);
        }
        let x = c % wu;
        let y = c / wu;
        let mut k: usize = 0;
        while k < 9
            invariant
                0 < w,
                0 < h,
                w * h <= u32::MAX,
                wi == w,
                hi == h,
                wu == w,
                pa == pass@,
                pa.len() == wi * hi,
                ov.len() == wi * hi,
                visited@.len() == wi * hi,
                seed < wi * hi,
                c < wi * hi,
                x == c as int % wi,
                y == c as int / wi,
                x < wi,
                y < hi,
                k <= 9,
                closed(pa, wi, hi, conn8, ov),
                !ov[seed as int],
                visited@[seed as int],
                visited@[c as int],
                !ov[c as int],
                !stack@.contains(c),
                !cells@.contains(c),
                forall|c: int| 0 <= c < wi * hi && ov[c] ==> #[trigger] visited@[c],
                forall|c: int|
                    0 <= c < wi * hi && #[trigger] visited@[c] && !ov[c] ==> reach(pa, wi, hi, conn8, seed as int, c),
                forall|i: int|
                    0 <= i < stack@.len() ==> #[trigger] stack@[i] < wi * hi && visited@[stack@[i] as int] && !ov[stack@[i] as int],
                stack@.no_duplicates(),
                forall|i: int|
                    0 <= i < cells@.len() ==> #[trigger] cells@[i] < wi * hi && visited@[cells@[i] as int] && !ov[cells@[i] as int]
                        && !stack@.contains(cells@[i]),
                cells@.no_duplicates(),
                forall|v: int|
                    0 <= v < wi * hi && #[trigger] visited@[v] && !ov[v] ==> v == c || stack@.contains(v as usize)
                        || cells@.contains(v as usize),
                forall|i: int, b: int|
                    0 <= i < cells@.len() && #[trigger] adjacent(wi, hi, conn8, cells@[i] as int, b) && pa[b] ==> visited@[b],
                forall|b: int|
                    #[trigger] adjacent(wi, hi, conn8, c as int, b) && pa[b] && slot(wi, c as int, b) < k ==> visited@[b],
                cells@.len() + stack@.len() + 1 + count_marked(ov) == count_marked(visited@),
            decreases 9 - k,
        {
            let dx: i64 = (k % 3) as i64 - 1;
            let dy: i64 = (k / 3) as i64 - 1;
            let nx: i64 = x as i64 + dx;
            let ny: i64 = y as i64 + dy;
            let ok = !(dx == 0 && dy == 0) && (conn8 || dx == 0 || dy == 0) && nx >= 0 && ny >= 0 && nx < w as i64 && ny
                < h as i64;
            if ok {
                proof {
                    lemma_at(nx as int, ny as int, wi, hi);
                }
                let n = (ny as usize) * wu + (nx as usize);
                assert(adjacent(wi, hi, conn8, c as int, n as int));
                if pass[n] && !visited[n] {
                    proof {
                        lemma_extend(pa, wi, hi, conn8, seed as int, c as int, n as int);
                        lemma_count_mark(visited@, n as int);
                    }
                    let ghost before = stack@;
                    visited.set(n, true);
                    stack.push(n);
                    proof {
                        assert(stack@ =~= before.push(n));
                        assert(!before.contains(n)) by {
                            if before.contains(n) {
                                let j = before.index_of(n);
                                assert(visited@[before[j] as int]);
                            }
                        }
                        assert forall|i: int| 0 <= i < cells@.len() implies #[trigger] cells@[i] < wi * hi
                            && visited@[(cells@[i] as int)] && !ov[(cells@[i] as int)] && !stack@.contains(cells@[i]) by {
                            assert(cells@[i] != n);
                            if stack@.contains(cells@[i]) {
                                let j = stack@.index_of(cells@[i]);
                                assert(j < before.len());
                                assert(before[j] == cells@[i]);
                            }
                        }
                        assert forall|v: int|
                            0 <= v < wi * hi && #[trigger] visited@[v] && !ov[v] implies v == c || stack@.contains(v as usize)
                                || cells@.contains(v as usize) by {
                            if v == n {
                                assert(stack@[stack@.len() - 1] == n);
                            } else if before.contains(v as usize) {
                                let j = before.index_of(v as usize);
                                assert(stack@[j] == v as usize);
                            }
                        }
                        assert(!stack@.contains(c)) by {
                            if stack@.contains(c) {
                                let j = stack@.index_of(c);
                                if j < before.len() {
                                    assert(before[j] == c);
                                }
                            }
                        }
                    }
                }
                proof {
                    assert forall|b: int|
                        #[trigger] adjacent(wi, hi, conn8, c as int, b) && pa[b] && slot(wi, c as int, b) < k + 1 implies visited@[b] by {
                        if slot(wi, c as int, b) == k {
                            lemma_slot(wi, hi, conn8, c as int, b);
                            assert(b == n);
                        }
                    }
                }
            } else {
                proof {
                    assert forall|b: int|
                        #[trigger] adjacent(wi, hi, conn8, c as int, b) && pa[b] && slot(wi, c as int, b) < k + 1 implies visited@[b] by {
                        if slot(wi, c as int, b) == k {
                            lemma_slot(wi, hi, conn8, c as int, b);
                        }
                    }
                }
            }
            k = k + 1;
        }
        proof {
            assert forall|b: int| #[trigger] adjacent(wi, hi, conn8, c as int, b) && pa[b] implies visited@[b] by {
                lemma_slot(wi, hi, conn8, c as int, b);
            }
        }
        let ghost cbefore = cells@;
        cells.push(c);
        proof {
            assert(cells@ =~= cbefore.push(c));
            assert forall|v: int|
                0 <= v < wi * hi && #[trigger] visited@[v] && !ov[v] implies stack@.contains(v as usize) || cells@.contains(
                    v as usize,
                ) by {
                if v == c {
                    assert(cells@[cells@.len() - 1] == c);
                } else if cbefore.contains(v as usize) {
                    let j = cbefore.index_of(v as usize);
                    assert(cells@[j] == v as usize);
                }
            }
            assert forall|i: int, b: int|
                0 <= i < cells@.len() && #[trigger] adjacent(wi, hi, conn8, cells@[i] as int, b) && pa[b] implies visited@[b] by {
                if i < cbefore.len() {
                    assert(cells@[i] == cbefore[i]);
                }
            }
        }
    }
    proof {
        assert forall|a: int, b: int|
            0 <= a < wi * hi && #[trigger] visited@[a] && #[trigger] adjacent(wi, hi, conn8, a, b) && pa[b] implies visited@[b] by {
            if !ov[a] {
                assert(cells@.contains(a as usize));
                let i = cells@.index_of(a as usize);
                assert(adjacent(wi, hi, conn8, cells@[i] as int, b));
            }
        }
        assert forall|c: int| 0 <= c < wi * hi && reach(pa, wi, hi, conn8, seed as int, c) implies !ov[c] && visited@[c] by {
            let path = choose|path: Seq<int>| #[trigger] is_path(pa, wi, hi, conn8, path) && path[0] == seed && path.last() == c;
            lemma_path_avoids(pa, wi, hi, conn8, ov, path, path.len() - 1);
            lemma_closed_path(pa, wi, hi, conn8, visited@, path, path.len() - 1);
        }
        reveal(region);
        let cs = cells_of(cells@);
        assert forall|i: int, j: int| 0 <= i < cs.len() && 0 <= j < cs.len() && i != j implies cs[i] != cs[j] by {
            assert(cells@[i] != cells@[j]);
        }
        assert forall|c: int| cs.to_set().contains(c) <==> region(pa, wi, hi, conn8, seed as int).contains(c) by {
            if cs.to_set().contains(c) {
                let i = cs.index_of(c);
                assert(cells@[i] as int == c);
            }
            if region(pa, wi, hi, conn8, seed as int).contains(c) {
                assert(visited@[c] && !ov[c]);
                assert(cells@.contains(c as usize));
                let i = cells@.index_of(c as usize);
                assert(cs[i] == c);
            }
        }
        assert(cs.to_set() =~= region(pa, wi, hi, conn8, seed as int));
        cs.unique_seq_to_set();
    }
    cells
}

} // verus!
