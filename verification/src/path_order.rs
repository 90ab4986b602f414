//! The order of paths (`PathBuf`'s `Ord`): segment by segment, each segment
//! by code point.

use vstd::prelude::*;
use crate::order::{lex_lt, lex_lt_str, lemma_lex_asymmetric, lemma_lex_irreflexive, lemma_lex_total, lemma_lex_transitive, strs};
use crate::paths::{path_segments, segments};

verus! {

/// Lexicographic order of segment lists.
pub open spec fn segs_lt(a: Seq<Seq<char>>, b: Seq<Seq<char>>) -> bool
    decreases a.len(),
{
    if a.len() == 0 {
        b.len() > 0
    } else if b.len() == 0 {
        false
    } else if a[0] != b[0] {
        lex_lt(a[0], b[0])
    } else {
        segs_lt(a.drop_first(), b.drop_first())
    }
}

/// `a < b` for paths under one root.
pub open spec fn path_lt(a: Seq<char>, b: Seq<char>) -> bool {
    segs_lt(segments(a), segments(b))
}

/// Ascending path order.
pub open spec fn sorted_paths(s: Seq<Seq<char>>) -> bool {
    forall|i: int, k: int| 0 <= i < k < s.len() ==> !path_lt(#[trigger] s[k], #[trigger] s[i])
}

pub proof fn lemma_segs_irreflexive(a: Seq<Seq<char>>)
    ensures
        !segs_lt(a, a),
    decreases a.len(),
{
    if a.len() > 0 {
        lemma_segs_irreflexive(a.drop_first());
    }
}

pub proof fn lemma_segs_asymmetric(a: Seq<Seq<char>>, b: Seq<Seq<char>>)
    ensures
        segs_lt(a, b) ==> !segs_lt(b, a),
    decreases a.len(),
{
    if a.len() > 0 && b.len() > 0 {
        if a[0] == b[0] {
            lemma_segs_asymmetric(a.drop_first(), b.drop_first());
        } else {
            lemma_lex_asymmetric(a[0], b[0]);
        }
    }
}

pub proof fn lemma_segs_total(a: Seq<Seq<char>>, b: Seq<Seq<char>>)
    ensures
        a != b ==> segs_lt(a, b) || segs_lt(b, a),
    decreases a.len(),
{
    if a.len() > 0 && b.len() > 0 {
        if a[0] == b[0] {
            lemma_segs_total(a.drop_first(), b.drop_first());
            if a.drop_first() == b.drop_first() {
                assert(a =~= seq![a[0]] + a.drop_first());
                assert(b =~= seq![b[0]] + b.drop_first());
            }
        } else {
            lemma_lex_total(a[0], b[0]);
        }
    } else if a.len() == 0 && b.len() == 0 {
        assert(a =~= b);
    }
}

pub proof fn lemma_segs_transitive(a: Seq<Seq<char>>, b: Seq<Seq<char>>, c: Seq<Seq<char>>)
    ensures
        segs_lt(a, b) && segs_lt(b, c) ==> segs_lt(a, c),
    decreases a.len(),
{
    if a.len() > 0 && b.len() > 0 && c.len() > 0 {
        if a[0] == b[0] && b[0] == c[0] {
            lemma_segs_transitive(a.drop_first(), b.drop_first(), c.drop_first());
        } else {
            lemma_lex_transitive(a[0], b[0], c[0]);
            lemma_lex_irreflexive(a[0]);
            lemma_lex_asymmetric(a[0], b[0]);
        }
    }
}

/// `a < b` for paths.
pub fn path_lt_exec(a: &str, b: &str) -> (r: bool)
    ensures
        r == path_lt(a@, b@),
{
    let sa = path_segments(a);
    let sb = path_segments(b);
    let ghost x = strs(sa@);
    let ghost y = strs(sb@);
    let mut i: usize = 0;
    proof {
        assert(x.subrange(0, x.len() as int) =~= x);
        assert(y.subrange(0, y.len() as int) =~= y);
    }
    while i < sa.len() && i < sb.len() && sa[i] == sb[i]
        invariant
            i <= sa.len(),
            i <= sb.len(),
            x == strs(sa@),
            y == strs(sb@),
            segs_lt(x, y) == segs_lt(x.subrange(i as int, x.len() as int), y.subrange(i as int, y.len() as int)),
        decreases sa.len() - i,
    {
        proof {
            let xs = x.subrange(i as int, x.len() as int);
            let ys = y.subrange(i as int, y.len() as int);
            assert(xs[0] == x[i as int] && ys[0] == y[i as int]);
            assert(xs.drop_first() =~= x.subrange(i + 1, x.len() as int));
            assert(ys.drop_first() =~= y.subrange(i + 1, y.len() as int));
        }
        i = i + 1;
    }
    if i == sa.len() {
        i < sb.len()
    } else if i == sb.len() {
        false
    } else {
        proof {
            let xs = x.subrange(i as int, x.len() as int);
            let ys = y.subrange(i as int, y.len() as int);
            assert(xs[0] == x[i as int] && ys[0] == y[i as int]);
        }
        lex_lt_str(sa[i].as_str(), sb[i].as_str())
    }
}

proof fn lemma_insert_to_multiset(s: Seq<Seq<char>>, pos: int, x: Seq<char>)
    requires
        0 <= pos <= s.len(),
    ensures
        s.insert(pos, x).to_multiset() =~= s.to_multiset().insert(x),
{
    broadcast use vstd::seq_lib::group_to_multiset_ensures;
    let a = s.subrange(0, pos);
    let b = s.subrange(pos, s.len() as int);
    vstd::seq_lib::lemma_multiset_commutative(a.push(x), b);
    vstd::seq_lib::lemma_multiset_commutative(a, b);
    assert(s =~= a + b);
    assert(s.insert(pos, x) =~= a.push(x) + b);
}

/// Sorts paths ascending (`Vec<PathBuf>::sort`).
pub fn sort_paths(v: Vec<String>) -> (out: Vec<String>)
    ensures
        sorted_paths(strs(out@)),
        strs(out@).to_multiset() == strs(v@).to_multiset(),
        out@.len() == v@.len(),
{
    let mut out: Vec<String> = Vec::new();
    let mut i: usize = 0;
    proof {
        broadcast use vstd::seq_lib::group_to_multiset_ensures;
        assert(strs(out@) =~= Seq::<Seq<char>>::empty());
        assert(strs(v@).subrange(0, 0) =~= Seq::<Seq<char>>::empty());
    }
    while i < v.len()
        invariant
            i <= v.len(),
            out@.len() == i,
            sorted_paths(strs(out@)),
            strs(out@).to_multiset() == strs(v@).subrange(0, i as int).to_multiset(),
        decreases v.len() - i,
    {
        let x = v[i].clone();
        let mut pos: usize = 0;
        while pos < out.len() && !path_lt_exec(x.as_str(), out[pos].as_str())
            invariant
                pos <= out.len(),
                x@ == v@[i as int]@,
                forall|k: int| 0 <= k < pos ==> !path_lt(x@, #[trigger] strs(out@)[k]),
            decreases out.len() - pos,
        {
            pos = pos + 1;
        }
        let ghost before = strs(out@);
        proof {
            assert forall|k: int| pos <= k < before.len() implies path_lt(x@, #[trigger] before[k]) by {
                if pos < before.len() {
                    assert(path_lt(x@, before[pos as int]));
                    if k > pos {
                        assert(!path_lt(before[k], before[pos as int]));
                        lemma_segs_total(segments(before[k]), segments(before[pos as int]));
                        lemma_segs_transitive(segments(x@), segments(before[pos as int]), segments(before[k]));
                    }
                }
            }
        }
        out.insert(pos, x);
        proof {
            let after = strs(out@);
            assert(after =~= before.insert(pos as int, x@));
            assert forall|p: int, q: int| 0 <= p < q < after.len() implies !path_lt(
                #[trigger] after[q],
                #[trigger] after[p],
            ) by {
                if q < pos {
                    assert(after[q] == before[q] && after[p] == before[p]);
                } else if q == pos {
                    assert(after[p] == before[p]);
                    assert(!path_lt(x@, before[p]));
                    lemma_segs_total(segments(x@), segments(before[p]));
                    lemma_segs_irreflexive(segments(x@));
                } else if p < pos {
                    assert(after[q] == before[q - 1] && after[p] == before[p]);
                } else if p == pos {
                    assert(after[q] == before[q - 1]);
                    assert(path_lt(x@, before[q - 1]));
                    lemma_segs_asymmetric(segments(x@), segments(before[q - 1]));
                } else {
                    assert(after[q] == before[q - 1] && after[p] == before[p - 1]);
                }
            }
            lemma_insert_to_multiset(before, pos as int, x@);
            assert(strs(v@).subrange(0, i + 1) =~= strs(v@).subrange(0, i as int).push(x@));
            broadcast use vstd::seq_lib::group_to_multiset_ensures;
        }
        i = i + 1;
    }
    proof {
        assert(strs(v@).subrange(0, v@.len() as int) =~= strs(v@));
    }
    out
}

} // verus!
