//! Paths held as text with `/` separators, and the path operations that the
//! layout, the sheet discovery and the sheet lookup rely on.

use vstd::prelude::*;
use crate::order::strs;
use crate::text::{chars_of, concat_chars, copy_range, first_index_of, split_chars, split_on, string_from_chars};
use crate::text::{lemma_split_on_concat, lemma_split_on_pieces, lemma_split_on_plain};

verus! {

/// A piece between separators that names something: not empty and not `.`.
pub open spec fn kept_seg(s: Seq<char>) -> bool {
    s.len() > 0 && s != seq!['.']
}

/// The parent-directory piece `..`.
pub open spec fn is_dotdot(s: Seq<char>) -> bool {
    s == seq!['.', '.']
}

/// The pieces of `parts` that name something, in order.
pub open spec fn kept(parts: Seq<Seq<char>>) -> Seq<Seq<char>>
    decreases parts.len(),
{
    if parts.len() == 0 {
        parts
    } else if kept_seg(parts.last()) {
        kept(parts.drop_last()).push(parts.last())
    } else {
        kept(parts.drop_last())
    }
}

/// The pieces of `parts` other than `..`, in order.
pub open spec fn without_dotdot(parts: Seq<Seq<char>>) -> Seq<Seq<char>>
    decreases parts.len(),
{
    if parts.len() == 0 {
        parts
    } else if !is_dotdot(parts.last()) {
        without_dotdot(parts.drop_last()).push(parts.last())
    } else {
        without_dotdot(parts.drop_last())
    }
}

/// The segments of a path: its pieces between `/`, without empty and `.` pieces
/// (`Path::components` without the root).
pub open spec fn segments(p: Seq<char>) -> Seq<Seq<char>> {
    kept(split_on(p, '/'))
}

/// The named segments of a path (`Component::Normal`): segments other than `..`.
pub open spec fn normal_segments(p: Seq<char>) -> Seq<Seq<char>> {
    without_dotdot(segments(p))
}

/// A path that starts at the root.
pub open spec fn is_abs(p: Seq<char>) -> bool {
    p.len() > 0 && p[0] == '/'
}

/// `Path::join`: an absolute child replaces the base; otherwise the child is
/// appended, with a separator unless the base is empty or already ends in one.
pub open spec fn join_spec(base: Seq<char>, child: Seq<char>) -> Seq<char> {
    if is_abs(child) {
        child
    } else if base.len() == 0 || base.last() == '/' {
        base + child
    } else {
        base.push('/') + child
    }
}

/// Joins the pieces onto `base` one after the other.
pub open spec fn join_all(base: Seq<char>, parts: Seq<Seq<char>>) -> Seq<char>
    decreases parts.len(),
{
    if parts.len() == 0 {
        base
    } else {
        join_spec(join_all(base, parts.drop_last()), parts.last())
    }
}

/// A path made of `parts`, from the root when `abs`.
pub open spec fn rebuild(abs: bool, parts: Seq<Seq<char>>) -> Seq<char> {
    if abs {
        join_all(seq!['/'], parts)
    } else {
        join_all(Seq::empty(), parts)
    }
}

/// `Path::file_name`: the last segment, unless it is `..`.
pub open spec fn file_name_spec(p: Seq<char>) -> Option<Seq<char>> {
    let s = segments(p);
    if s.len() > 0 && !is_dotdot(s.last()) {
        Some(s.last())
    } else {
        None
    }
}

proof fn lemma_first_index_absent(s: Seq<char>, c: char)
    requires
        forall|i: int| 0 <= i < s.len() ==> s[i] != c,
    ensures
        first_index_of(s, c) == s.len(),
    decreases s.len(),
{
    if s.len() > 0 {
        lemma_first_index_absent(s.drop_first(), c);
    }
}

proof fn lemma_first_index_at_most(s: Seq<char>, c: char, k: int)
    requires
        0 <= k < s.len(),
        s[k] == c,
    ensures
        first_index_of(s, c) <= k,
    decreases s.len(),
{
    if s[0] != c {
        lemma_first_index_at_most(s.drop_first(), c, k - 1);
    }
}

/// The last piece of `a + c + b`, split on `c`, is `b` when `b` holds no `c`.
proof fn lemma_split_last(a: Seq<char>, c: char, b: Seq<char>)
    requires
        forall|i: int| 0 <= i < b.len() ==> b[i] != c,
    ensures
        split_on(a + seq![c] + b, c).len() > 0,
        split_on(a + seq![c] + b, c).last() == b,
    decreases a.len(),
{
    let s = a + seq![c] + b;
    lemma_first_index_at_most(s, c, a.len() as int);
    let i = first_index_of(s, c) as int;
    let rest = s.subrange(i + 1, s.len() as int);
    if s[i] != c {
        lemma_first_index_value(s, c);
    }
    assert(split_on(s, c) == seq![s.subrange(0, i)] + split_on(rest, c));
    if i == a.len() {
        assert(rest =~= b);
        lemma_first_index_absent(b, c);
        assert(split_on(b, c) == seq![b]);
    } else {
        let a2 = a.subrange(i + 1, a.len() as int);
        assert(rest =~= a2 + seq![c] + b);
        lemma_split_last(a2, c, b);
    }
}

proof fn lemma_first_index_value(s: Seq<char>, c: char)
    requires
        first_index_of(s, c) < s.len(),
    ensures
        s[first_index_of(s, c) as int] == c,
    decreases s.len(),
{
    if s[0] != c {
        lemma_first_index_value(s.drop_first(), c);
    }
}

/// The file name of `base` joined with a plain name is that name.
pub proof fn lemma_file_name_of_join(base: Seq<char>, name: Seq<char>)
    requires
        kept_seg(name),
        !is_dotdot(name),
        forall|i: int| 0 <= i < name.len() ==> name[i] != '/',
    ensures
        file_name_spec(join_spec(base, name)) == Some(name),
{
    assert(!is_abs(name));
    if base.len() == 0 {
        assert(base + name =~= name);
        lemma_first_index_absent(name, '/');
        assert(split_on(name, '/') =~= seq![name]);
    } else if base.last() == '/' {
        lemma_split_last(base.drop_last(), '/', name);
        assert(base + name =~= base.drop_last() + seq!['/'] + name);
    } else {
        lemma_split_last(base, '/', name);
        assert(base.push('/') + name =~= base + seq!['/'] + name);
    }
    let parts = split_on(join_spec(base, name), '/');
    assert(kept(parts).last() == name);
}

/// `Path::parent`: the path without its last segment.
pub open spec fn parent_spec(p: Seq<char>) -> Option<Seq<char>> {
    let s = segments(p);
    if s.len() > 0 {
        Some(rebuild(is_abs(p), s.drop_last()))
    } else {
        None
    }
}

/// Index of the last `.` in a name, or `-1`.
pub open spec fn last_dot(n: Seq<char>) -> int
    decreases n.len(),
{
    if n.len() == 0 {
        -1
    } else if n.last() == '.' {
        n.len() - 1
    } else {
        last_dot(n.drop_last())
    }
}

/// `Path::file_stem` of a file name: the name up to its last `.`, unless that
/// dot is the first character or there is none.
pub open spec fn stem_spec(name: Seq<char>) -> Seq<char> {
    if last_dot(name) <= 0 {
        name
    } else {
        name.subrange(0, last_dot(name))
    }
}

/// `Path::extension` of a file name: what follows its last `.`, when that dot
/// is not the first character.
pub open spec fn extension_spec(name: Seq<char>) -> Option<Seq<char>> {
    if last_dot(name) <= 0 {
        None
    } else {
        Some(name.subrange(last_dot(name) + 1, name.len() as int))
    }
}

/// `Path::strip_prefix`: the segments of `p` after those of `base`, when both
/// start at the root or neither does and `base`'s segments begin `p`'s.
pub open spec fn strip_prefix_spec(p: Seq<char>, base: Seq<char>) -> Option<Seq<Seq<char>>> {
    let sp = segments(p);
    let sb = segments(base);
    if is_abs(p) == is_abs(base) && sb.len() <= sp.len() && sp.subrange(0, sb.len() as int)
        == sb {
        Some(sp.subrange(sb.len() as int, sp.len() as int))
    } else {
        None
    }
}

/// A path in normal form: rebuilt from its own segments.
pub open spec fn normalized(p: Seq<char>) -> Seq<char> {
    rebuild(is_abs(p), segments(p))
}

/// `Path::join`.
pub fn join_path(base: &str, child: &str) -> (out: String)
    ensures
        out@ == join_spec(base@, child@),
{
    let b = chars_of(base);
    let c = chars_of(child);
    if c.len() > 0 && c[0] == '/' {
        return string_from_chars(c.as_slice());
    }
    let mut v = b;
    if v.len() > 0 && v[v.len() - 1] != '/' {
        v.push('/');
    }
    let w = concat_chars(v.as_slice(), c.as_slice());
    string_from_chars(w.as_slice())
}

/// Joins each piece onto `base` in turn.
pub fn join_all_exec(base: &str, parts: &[String]) -> (out: String)
    ensures
        out@ == join_all(base@, strs(parts@)),
{
    let mut out = string_from_chars(chars_of(base).as_slice());
    proof {
        assert(strs(parts@).subrange(0, 0) =~= Seq::<Seq<char>>::empty());
    }
    let mut i: usize = 0;
    while i < parts.len()
        invariant
            i <= parts.len(),
            out@ == join_all(base@, strs(parts@).subrange(0, i as int)),
        decreases parts.len() - i,
    {
        proof {
            assert(strs(parts@).subrange(0, i as int + 1).drop_last() =~= strs(parts@).subrange(
                0,
                i as int,
            ));
        }
        out = join_path(out.as_str(), parts[i].as_str());
        i = i + 1;
    }
    proof {
        assert(strs(parts@).subrange(0, parts@.len() as int) =~= strs(parts@));
    }
    out
}

/// Whether a piece names something (neither empty nor `.`).
pub fn is_kept_piece(v: &[char]) -> (r: bool)
    ensures
        r == kept_seg(v@),
{
    if v.len() == 0 {
        return false;
    }
    if v.len() == 1 && v[0] == '.' {
        assert(v@ =~= seq!['.']);
        return false;
    }
    assert(v@ != seq!['.']) by {
        if v@ == seq!['.'] {
            assert(v@.len() == 1 && v@[0] == '.');
        }
    }
    true
}

/// Whether a piece is `..`.
pub fn is_dotdot_str(s: &str) -> (r: bool)
    ensures
        r == is_dotdot(s@),
{
    let v = chars_of(s);
    if v.len() == 2 && v[0] == '.' && v[1] == '.' {
        assert(v@ =~= seq!['.', '.']);
        return true;
    }
    assert(v@ != seq!['.', '.']) by {
        if v@ == seq!['.', '.'] {
            assert(v@.len() == 2 && v@[0] == '.' && v@[1] == '.');
        }
    }
    false
}

pub proof fn lemma_strs_push(v: Seq<String>, s: String)
    ensures
        strs(v.push(s)) == strs(v).push(s@),
{
    assert(strs(v.push(s)) =~= strs(v).push(s@));
}

/// The segments of a path.
pub fn path_segments(p: &str) -> (out: Vec<String>)
    ensures
        strs(out@) == segments(p@),
{
    let cs = chars_of(p);
    let parts = split_chars(cs.as_slice(), '/');
    let ghost sp = split_on(p@, '/');
    let mut out: Vec<String> = Vec::new();
    let mut i: usize = 0;
    proof {
        assert(strs(out@) =~= Seq::<Seq<char>>::empty());
        assert(sp.subrange(0, 0) =~= Seq::<Seq<char>>::empty());
    }
    while i < parts.len()
        invariant
            i <= parts.len(),
            cs@ == p@,
            sp == split_on(p@, '/'),
            parts@.len() == sp.len(),
            forall|k: int| 0 <= k < parts@.len() ==> #[trigger] parts@[k]@ == sp[k],
            strs(out@) == kept(sp.subrange(0, i as int)),
        decreases parts.len() - i,
    {
        proof {
            assert(sp.subrange(0, i as int + 1).drop_last() =~= sp.subrange(0, i as int));
            assert(sp.subrange(0, i as int + 1).last() == sp[i as int]);
            assert(parts@[i as int]@ == sp[i as int]);
        }
        if is_kept_piece(parts[i].as_slice()) {
            let s = string_from_chars(parts[i].as_slice());
            proof {
                lemma_strs_push(out@, s);
            }
            out.push(s);
        }
        i = i + 1;
    }
    proof {
        assert(sp.subrange(0, sp.len() as int) =~= sp);
    }
    out
}

/// The pieces other than `..`, in order.
pub fn remove_dotdot(segs: &[String]) -> (out: Vec<String>)
    ensures
        strs(out@) == without_dotdot(strs(segs@)),
{
    let ghost sg = strs(segs@);
    let mut out: Vec<String> = Vec::new();
    let mut i: usize = 0;
    proof {
        assert(strs(out@) =~= Seq::<Seq<char>>::empty());
        assert(sg.subrange(0, 0) =~= Seq::<Seq<char>>::empty());
    }
    while i < segs.len()
        invariant
            i <= segs.len(),
            strs(segs@) == sg,
            strs(out@) == without_dotdot(sg.subrange(0, i as int)),
        decreases segs.len() - i,
    {
        proof {
            assert(sg.subrange(0, i as int + 1).drop_last() =~= sg.subrange(0, i as int));
            assert(sg.subrange(0, i as int + 1).last() == sg[i as int]);
            assert(sg[i as int] == segs@[i as int]@);
        }
        if !is_dotdot_str(segs[i].as_str()) {
            let s = segs[i].clone();
            proof {
                lemma_strs_push(out@, s);
            }
            out.push(s);
        }
        i = i + 1;
    }
    proof {
        assert(sg.subrange(0, sg.len() as int) =~= sg);
    }
    out
}

/// The named segments of a path (`Component::Normal`).
pub fn path_normal_segments(p: &str) -> (out: Vec<String>)
    ensures
        strs(out@) == normal_segments(p@),
{
    let segs = path_segments(p);
    remove_dotdot(segs.as_slice())
}

/// A path made of `parts`, from the root when `abs`.
pub fn rebuild_path(abs: bool, parts: &[String]) -> (out: String)
    ensures
        out@ == rebuild(abs, strs(parts@)),
{
    if abs {
        let r = "/";
        proof {
            reveal_strlit("/");
            assert(r@ =~= seq!['/']);
        }
        join_all_exec(r, parts)
    } else {
        let r = "";
        proof {
            reveal_strlit("");
            assert(r@ =~= Seq::<char>::empty());
        }
        join_all_exec(r, parts)
    }
}

/// Whether a path starts at the root.
pub fn is_abs_path(p: &str) -> (r: bool)
    ensures
        r == is_abs(p@),
{
    p.unicode_len() > 0 && p.get_char(0) == '/'
}

/// `Path::file_name`.
pub fn file_name_of(p: &str) -> (out: Option<String>)
    ensures
        opt_str(out) == file_name_spec(p@),
{
    let mut segs = path_segments(p);
    if segs.len() == 0 {
        return None;
    }
    let ghost sg = strs(segs@);
    let last = segs.pop().unwrap();
    proof {
        assert(last@ == sg.last());
    }
    if is_dotdot_str(last.as_str()) {
        None
    } else {
        Some(last)
    }
}

/// The character view of an optional string.
pub open spec fn opt_str(o: Option<String>) -> Option<Seq<char>> {
    match o {
        Some(s) => Some(s@),
        None => None,
    }
}

/// `Path::parent`.
pub fn parent_of(p: &str) -> (out: Option<String>)
    ensures
        opt_str(out) == parent_spec(p@),
{
    let mut segs = path_segments(p);
    if segs.len() == 0 {
        return None;
    }
    let ghost sg = strs(segs@);
    let _ = segs.pop();
    proof {
        assert(strs(segs@) =~= sg.drop_last());
    }
    let abs = is_abs_path(p);
    Some(rebuild_path(abs, segs.as_slice()))
}

/// Index of the last `.` in a name.
pub fn last_dot_exec(n: &[char]) -> (r: Option<usize>)
    ensures
        match r {
            Some(d) => d as int == last_dot(n@) && d < n.len(),
            None => last_dot(n@) == -1,
        },
{
    let mut i: usize = n.len();
    proof {
        assert(n@.subrange(0, n@.len() as int) =~= n@);
    }
    while i > 0
        invariant
            i <= n.len(),
            last_dot(n@) == last_dot(n@.subrange(0, i as int)),
        decreases i,
    {
        proof {
            assert(n@.subrange(0, i as int).drop_last() =~= n@.subrange(0, i - 1));
        }
        if n[i - 1] == '.' {
            return Some(i - 1);
        }
        i = i - 1;
    }
    None
}

/// `Path::file_stem` of a file name.
pub fn file_stem_of(name: &str) -> (out: String)
    ensures
        out@ == stem_spec(name@),
{
    let v = chars_of(name);
    match last_dot_exec(v.as_slice()) {
        Some(d) => {
            if d == 0 {
                string_from_chars(v.as_slice())
            } else {
                string_from_chars(copy_range(v.as_slice(), 0, d).as_slice())
            }
        },
        None => string_from_chars(v.as_slice()),
    }
}

/// `Path::extension` of a file name.
pub fn extension_of(name: &str) -> (out: Option<String>)
    ensures
        opt_str(out) == extension_spec(name@),
{
    let v = chars_of(name);
    match last_dot_exec(v.as_slice()) {
        Some(d) => {
            if d == 0 {
                None
            } else {
                Some(string_from_chars(copy_range(v.as_slice(), d + 1, v.len()).as_slice()))
            }
        },
        None => None,
    }
}

/// `Path::strip_prefix`: the segments of `p` that follow those of `base`.
pub fn strip_path_prefix(p: &str, base: &str) -> (out: Option<Vec<String>>)
    ensures
        match out {
            Some(v) => strip_prefix_spec(p@, base@) == Some(strs(v@)),
            None => strip_prefix_spec(p@, base@) is None,
        },
{
    let sp = path_segments(p);
    let sb = path_segments(base);
    if is_abs_path(p) != is_abs_path(base) || sb.len() > sp.len() {
        return None;
    }
    let mut i: usize = 0;
    while i < sb.len()
        invariant
            i <= sb.len() <= sp.len(),
            strs(sp@) == segments(p@),
            strs(sb@) == segments(base@),
            is_abs(p@) == is_abs(base@),
            forall|k: int| 0 <= k < i ==> sp@[k]@ == sb@[k]@,
        decreases sb.len() - i,
    {
        if !(sp[i] == sb[i]) {
            proof {
                assert(strs(sp@).subrange(0, sb@.len() as int)[i as int] == sp@[i as int]@);
                assert(strs(sb@)[i as int] == sb@[i as int]@);
            }
            return None;
        }
        i = i + 1;
    }
    proof {
        assert(strs(sp@).subrange(0, sb@.len() as int) =~= strs(sb@));
    }
    let mut rest: Vec<String> = Vec::new();
    let mut j: usize = sb.len();
    proof {
        assert(strs(rest@) =~= strs(sp@).subrange(sb@.len() as int, j as int));
    }
    while j < sp.len()
        invariant
            sb.len() <= j <= sp.len(),
            strs(rest@) == strs(sp@).subrange(sb@.len() as int, j as int),
        decreases sp.len() - j,
    {
        let s = sp[j].clone();
        proof {
            lemma_strs_push(rest@, s);
            assert(strs(sp@).subrange(sb@.len() as int, j + 1) =~= strs(sp@).subrange(
                sb@.len() as int,
                j as int,
            ).push(s@));
        }
        rest.push(s);
        j = j + 1;
    }
    Some(rest)
}

/// A path in normal form: `/` separators, no empty or `.` segments, no
/// trailing separator.
pub fn normalize_path(p: &str) -> (out: String)
    ensures
        out@ == normalized(p@),
{
    let segs = path_segments(p);
    rebuild_path(is_abs_path(p), segs.as_slice())
}


/// A plain path segment: it names something and holds no `/`.
pub open spec fn plain_seg(s: Seq<char>) -> bool {
    kept_seg(s) && forall|i: int| 0 <= i < s.len() ==> s[i] != '/'
}

/// Keeping the named pieces of two lists one after the other.
pub proof fn lemma_kept_concat(x: Seq<Seq<char>>, y: Seq<Seq<char>>)
    ensures
        kept(x + y) == kept(x) + kept(y),
    decreases y.len(),
{
    if y.len() == 0 {
        assert(x + y =~= x);
        assert(kept(x) + kept(y) =~= kept(x));
    } else {
        assert((x + y).drop_last() =~= x + y.drop_last());
        assert((x + y).last() == y.last());
        lemma_kept_concat(x, y.drop_last());
        if kept_seg(y.last()) {
            assert(kept(x) + kept(y) =~= (kept(x) + kept(y.drop_last())).push(y.last()));
        }
    }
}

/// The pieces a list keeps name something, and hold no `/` when none of
/// the list's pieces does.
pub proof fn lemma_kept_plain(parts: Seq<Seq<char>>)
    requires
        forall|k: int, i: int| 0 <= k < parts.len() && 0 <= i < parts[k].len() ==> parts[k][i] != '/',
    ensures
        forall|k: int| 0 <= k < kept(parts).len() ==> plain_seg(#[trigger] kept(parts)[k]),
    decreases parts.len(),
{
    if parts.len() > 0 {
        let r = parts.drop_last();
        assert forall|k: int, i: int| 0 <= k < r.len() && 0 <= i < r[k].len() implies r[k][i] != '/' by {
            assert(r[k] == parts[k]);
        }
        lemma_kept_plain(r);
        let l = parts.last();
        assert(l == parts[parts.len() - 1]);
        assert forall|k: int| 0 <= k < kept(parts).len() implies plain_seg(#[trigger] kept(parts)[k]) by {
            if kept_seg(l) && k == kept(r).len() {
                assert(kept(parts)[k] == l);
            } else {
                assert(kept(parts)[k] == kept(r)[k]);
            }
        }
    }
}

/// Every segment of a path is plain.
pub proof fn lemma_segments_plain(p: Seq<char>)
    ensures
        forall|k: int| 0 <= k < segments(p).len() ==> plain_seg(#[trigger] segments(p)[k]),
{
    lemma_split_on_pieces(p, '/');
    lemma_kept_plain(split_on(p, '/'));
}

/// Joining plain segments onto nothing gives a path with exactly those
/// segments, which is empty only for none and never ends in `/`.
pub proof fn lemma_segments_of_joined(parts: Seq<Seq<char>>)
    requires
        forall|k: int| 0 <= k < parts.len() ==> plain_seg(#[trigger] parts[k]),
    ensures
        segments(join_all(Seq::empty(), parts)) == parts,
        parts.len() == 0 ==> join_all(Seq::empty(), parts).len() == 0,
        parts.len() > 0 ==> join_all(Seq::empty(), parts).len() > 0 && join_all(Seq::empty(), parts).last() != '/',
    decreases parts.len(),
{
    if parts.len() == 0 {
        assert(split_on(Seq::<char>::empty(), '/') == seq![Seq::<char>::empty()]) by {
            lemma_split_on_plain(Seq::empty(), '/');
        }
        assert(kept(seq![Seq::<char>::empty()]) =~= Seq::<Seq<char>>::empty()) by {
            reveal_with_fuel(kept, 2);
            assert(seq![Seq::<char>::empty()].drop_last() =~= Seq::<Seq<char>>::empty());
            assert(!kept_seg(Seq::<char>::empty()));
        }
    } else {
        let d = parts.drop_last();
        let b = parts.last();
        assert(b == parts[parts.len() - 1]);
        assert forall|k: int| 0 <= k < d.len() implies plain_seg(#[trigger] d[k]) by {
            assert(d[k] == parts[k]);
        }
        lemma_segments_of_joined(d);
        let a = join_all(Seq::empty(), d);
        assert(!is_abs(b));
        lemma_split_on_plain(b, '/');
        assert(kept(seq![b]) =~= seq![b]) by {
            reveal_with_fuel(kept, 2);
            assert(kept_seg(b));
            assert(seq![b].drop_last() =~= Seq::<Seq<char>>::empty());
            assert(seq![b].last() == b);
        }
        if a.len() == 0 {
            assert(a + b =~= b);
            assert(d.push(b) =~= parts);
            assert(d =~= Seq::<Seq<char>>::empty());
        } else {
            assert(a.push('/') + b =~= a + seq!['/'] + b);
            lemma_split_on_concat(a, '/', b);
            lemma_kept_concat(split_on(a, '/'), seq![b]);
            assert(segments(a).push(b) =~= parts);
            assert(segments(a) + seq![b] =~= segments(a).push(b));
        }
        let r = join_all(Seq::empty(), parts);
        assert(r.last() == b.last());
    }
}

} // verus!
