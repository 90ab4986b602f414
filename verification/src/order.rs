//! Lexicographic order of character sequences and sorting of string lists
//! (the order `String`'s `Ord` gives).

use vstd::prelude::*;
use crate::text::chars_of;

verus! {

/// Strict lexicographic order by code point (`String`'s `<`).
pub open spec fn lex_lt(a: Seq<char>, b: Seq<char>) -> bool
    decreases a.len(),
{
    if a.len() == 0 {
        b.len() > 0
    } else if b.len() == 0 {
        false
    } else if a[0] != b[0] {
        a[0] < b[0]
    } else {
        lex_lt(a.drop_first(), b.drop_first())
    }
}

/// The character views of a list of strings.
pub open spec fn strs(v: Seq<String>) -> Seq<Seq<char>> {
    v.map_values(|s: String| s@)
}

/// Ascending order: no later element is smaller than an earlier one.
pub open spec fn sorted_strs(s: Seq<Seq<char>>) -> bool {
    forall|i: int, j: int| 0 <= i < j < s.len() ==> !lex_lt(#[trigger] s[j], #[trigger] s[i])
}

/// `lex_lt` is irreflexive.
pub proof fn lemma_lex_irreflexive(a: Seq<char>)
    ensures
        !lex_lt(a, a),
    decreases a.len(),
{
    if a.len() > 0 {
        lemma_lex_irreflexive(a.drop_first());
    }
}

/// `lex_lt` is asymmetric.
pub proof fn lemma_lex_asymmetric(a: Seq<char>, b: Seq<char>)
    ensures
        lex_lt(a, b) ==> !lex_lt(b, a),
    decreases a.len(),
{
    if a.len() > 0 && b.len() > 0 && a[0] == b[0] {
        lemma_lex_asymmetric(a.drop_first(), b.drop_first());
    }
}

/// `lex_lt` is total on distinct sequences.
pub proof fn lemma_lex_total(a: Seq<char>, b: Seq<char>)
    ensures
        a != b ==> lex_lt(a, b) || lex_lt(b, a),
    decreases a.len(),
{
    if a.len() > 0 && b.len() > 0 {
        if a[0] == b[0] {
            lemma_lex_total(a.drop_first(), b.drop_first());
            if a.drop_first() == b.drop_first() {
                assert(a =~= seq![a[0]] + a.drop_first());
                assert(b =~= seq![b[0]] + b.drop_first());
            }
        } else {
            assert(a[0] < b[0] || b[0] < a[0]);
        }
    } else if a.len() == 0 && b.len() == 0 {
        assert(a =~= b);
    }
}

/// `lex_lt` is transitive.
pub proof fn lemma_lex_transitive(a: Seq<char>, b: Seq<char>, c: Seq<char>)
    ensures
        lex_lt(a, b) && lex_lt(b, c) ==> lex_lt(a, c),
    decreases a.len(),
{
    if a.len() > 0 && b.len() > 0 && c.len() > 0 && a[0] == b[0] && b[0] == c[0] {
        lemma_lex_transitive(a.drop_first(), b.drop_first(), c.drop_first());
    }
}

proof fn lemma_lex_common_prefix(a: Seq<char>, b: Seq<char>, i: int)
    requires
        0 <= i <= a.len(),
        i <= b.len(),
        a.subrange(0, i) == b.subrange(0, i),
    ensures
        lex_lt(a, b) == lex_lt(a.subrange(i, a.len() as int), b.subrange(i, b.len() as int)),
    decreases i,
{
    if i > 0 {
        assert(a[0] == a.subrange(0, i)[0]);
        assert(b[0] == b.subrange(0, i)[0]);
        assert(a.drop_first().subrange(0, i - 1) =~= a.subrange(0, i).drop_first());
        assert(b.drop_first().subrange(0, i - 1) =~= b.subrange(0, i).drop_first());
        lemma_lex_common_prefix(a.drop_first(), b.drop_first(), i - 1);
        assert(a.drop_first().subrange(i - 1, a.len() - 1) =~= a.subrange(i, a.len() as int));
        assert(b.drop_first().subrange(i - 1, b.len() - 1) =~= b.subrange(i, b.len() as int));
    } else {
        assert(a.subrange(0, a.len() as int) =~= a);
        assert(b.subrange(0, b.len() as int) =~= b);
    }
}

/// `a < b` in lexicographic order.
pub fn lex_lt_chars(a: &[char], b: &[char]) -> (r: bool)
    ensures
        r == lex_lt(a@, b@),
{
    let mut i: usize = 0;
    while i < a.len() && i < b.len() && a[i] == b[i]
        invariant
            i <= a.len(),
            i <= b.len(),
            a@.subrange(0, i as int) == b@.subrange(0, i as int),
        decreases a.len() - i,
    {
        proof {
            assert(a@.subrange(0, i + 1) =~= a@.subrange(0, i as int).push(a@[i as int]));
            assert(b@.subrange(0, i + 1) =~= b@.subrange(0, i as int).push(b@[i as int]));
        }
        i = i + 1;
    }
    proof {
        lemma_lex_common_prefix(a@, b@, i as int);
    }
    if i == a.len() {
        i < b.len()
    } else if i == b.len() {
        false
    } else {
        a[i] < b[i]
    }
}

/// `a < b` for strings, by code point.
pub fn lex_lt_str(a: &str, b: &str) -> (r: bool)
    ensures
        r == lex_lt(a@, b@),
{
    let av = chars_of(a);
    let bv = chars_of(b);
    lex_lt_chars(av.as_slice(), bv.as_slice())
}

proof fn lemma_insert_to_multiset(s: Seq<Seq<char>>, pos: int, x: Seq<char>)
    requires
        0 <= pos <= s.len(),
    ensures
        s.insert(pos, x).to_multiset() =~= s.to_multiset().insert(x),
{
    broadcast use vstd::seq_lib::group_to_multiset_ensures;
    let a = s.subrange(0, pos);
    let b = s.subrange(pos, s.len() as int);
    vstd::seq_lib::lemma_multiset_commutative(a.push(x), b);
    vstd::seq_lib::lemma_multiset_commutative(a, b);
    assert(s =~= a + b);
}

/// Sorts strings ascending by code point (`Vec<String>::sort`).
pub fn sort_strings(v: Vec<String>) -> (out: Vec<String>)
    ensures
        sorted_strs(strs(out@)),
        strs(out@).to_multiset() == strs(v@).to_multiset(),
        out@.len() == v@.len(),
{
    let mut out: Vec<String> = Vec::new();
    let mut i: usize = 0;
    proof {
        broadcast use vstd::seq_lib::group_to_multiset_ensures;
        assert(strs(out@) =~= Seq::<Seq<char>>::empty());
        assert(strs(v@).subrange(0, 0) =~= Seq::<Seq<char>>::empty());
    }
    while i < v.len()
        invariant
            i <= v.len(),
            out@.len() == i,
            sorted_strs(strs(out@)),
            strs(out@).to_multiset() == strs(v@).subrange(0, i as int).to_multiset(),
        decreases v.len() - i,
    {
        let x = v[i].clone();
        let mut pos: usize = 0;
        while pos < out.len() && !lex_lt_str(x.as_str(), out[pos].as_str())
            invariant
                pos <= out.len(),
                x@ == v@[i as int]@,
                forall|k: int| 0 <= k < pos ==> !lex_lt(x@, #[trigger] strs(out@)[k]),
            decreases out.len() - pos,
        {
            pos = pos + 1;
        }
        let ghost before = strs(out@);
        proof {
            assert forall|k: int| pos <= k < before.len() implies lex_lt(x@, #[trigger] before[k]) by {
                if pos < before.len() {
                    assert(lex_lt(x@, before[pos as int]));
                    if k > pos {
                        assert(!lex_lt(before[k], before[pos as int]));
                        lemma_lex_total(before[k], before[pos as int]);
                        if before[k] != before[pos as int] {
                            lemma_lex_transitive(x@, before[pos as int], before[k]);
                        }
                    }
                }
            }
        }
        out.insert(pos, x);
        proof {
            let after = strs(out@);
            assert(after =~= before.insert(pos as int, x@));
            assert forall|p: int, q: int| 0 <= p < q < after.len() implies !lex_lt(
                #[trigger] after[q],
                #[trigger] after[p],
            ) by {
                if q < pos {
                    assert(after[q] == before[q] && after[p] == before[p]);
                } else if q == pos {
                    assert(after[p] == before[p]);
                    assert(!lex_lt(x@, before[p]));
                    lemma_lex_total(x@, before[p]);
                    lemma_lex_irreflexive(x@);
                } else if p < pos {
                    assert(after[q] == before[q - 1] && after[p] == before[p]);
                } else if p == pos {
                    assert(after[q] == before[q - 1]);
                    assert(lex_lt(x@, before[q - 1]));
                    lemma_lex_asymmetric(x@, before[q - 1]);
                } else {
                    assert(after[q] == before[q - 1] && after[p] == before[p - 1]);
                }
            }
            lemma_insert_to_multiset(before, pos as int, x@);
            assert(strs(v@).subrange(0, i + 1) =~= strs(v@).subrange(0, i as int).push(x@));
            broadcast use vstd::seq_lib::group_to_multiset_ensures;
        }
        i = i + 1;
    }
    proof {
        assert(strs(v@).subrange(0, v@.len() as int) =~= strs(v@));
    }
    out
}

} // verus!
