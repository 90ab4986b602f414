//! Property lists as the sheet tools read them: text, dictionaries and
//! arrays, with every other value a leaf the caller keeps by number; and the
//! renaming of a sheet's identifiers throughout a list.

use vstd::prelude::*;
use crate::errors::AppError;
use crate::icon_editor::{apply_rename_replacements, rename_spec};
use crate::text::{chars_eq, chars_eq_str, chars_of};

verus! {

broadcast use vstd::seq::axiom_seq_index_decreases;

/// A property-list value: text, a dictionary of entries in order, an array,
/// a boolean, a signed integer, or another value (a larger integer, a real,
/// a date, data) held by the caller under the given number.
#[derive(Debug, PartialEq, Eq)]
pub enum PlistNode {
    Text(String),
    Dict(Vec<(String, PlistNode)>),
    List(Vec<PlistNode>),
    Bool(bool),
    Int(i64),
    Leaf(u64),
}

/// The value of a [`PlistNode`].
pub enum PlistShape {
    Text(Seq<char>),
    Dict(Seq<(Seq<char>, PlistShape)>),
    List(Seq<PlistShape>),
    Bool(bool),
    Int(i64),
    Leaf(u64),
}

/// The value of a node.
pub open spec fn shape_of(n: PlistNode) -> PlistShape
    decreases n, 1int,
{
    match n {
        PlistNode::Text(s) => PlistShape::Text(s@),
        PlistNode::Dict(es) => PlistShape::Dict(entry_shapes(es@, es@.len() as int)),
        PlistNode::List(xs) => PlistShape::List(item_shapes(xs@, xs@.len() as int)),
        PlistNode::Bool(b) => PlistShape::Bool(b),
        PlistNode::Int(v) => PlistShape::Int(v),
        PlistNode::Leaf(k) => PlistShape::Leaf(k),
    }
}

/// The values of the first `k` entries.
pub open spec fn entry_shapes(es: Seq<(String, PlistNode)>, k: int) -> Seq<(Seq<char>, PlistShape)>
    decreases es, k,
{
    if k <= 0 || k > es.len() {
        seq![]
    } else {
        entry_shapes(es, k - 1).push((es[k - 1].0@, shape_of(es[k - 1].1)))
    }
}

/// The values of the first `k` items.
pub open spec fn item_shapes(xs: Seq<PlistNode>, k: int) -> Seq<PlistShape>
    decreases xs, k,
{
    if k <= 0 || k > xs.len() {
        seq![]
    } else {
        item_shapes(xs, k - 1).push(shape_of(xs[k - 1]))
    }
}

/// The value with each text renamed by [`rename_spec`] (dictionary keys
/// stay).
pub open spec fn renamed(n: PlistShape, o: Seq<char>, ne: Seq<char>, os: Seq<char>, ns: Seq<char>) -> PlistShape
    decreases n, 1int,
{
    match n {
        PlistShape::Text(s) => PlistShape::Text(rename_spec(s, o, ne, os, ns)),
        PlistShape::Dict(es) => PlistShape::Dict(renamed_entries(es, es.len() as int, o, ne, os, ns)),
        PlistShape::List(xs) => PlistShape::List(renamed_items(xs, xs.len() as int, o, ne, os, ns)),
        PlistShape::Bool(b) => PlistShape::Bool(b),
        PlistShape::Int(v) => PlistShape::Int(v),
        PlistShape::Leaf(k) => PlistShape::Leaf(k),
    }
}

/// The first `k` entries with their values renamed.
pub open spec fn renamed_entries(
    es: Seq<(Seq<char>, PlistShape)>,
    k: int,
    o: Seq<char>,
    ne: Seq<char>,
    os: Seq<char>,
    ns: Seq<char>,
) -> Seq<(Seq<char>, PlistShape)>
    decreases es, k,
{
    if k <= 0 || k > es.len() {
        seq![]
    } else {
        renamed_entries(es, k - 1, o, ne, os, ns).push((es[k - 1].0, renamed(es[k - 1].1, o, ne, os, ns)))
    }
}

/// The first `k` items renamed.
pub open spec fn renamed_items(
    xs: Seq<PlistShape>,
    k: int,
    o: Seq<char>,
    ne: Seq<char>,
    os: Seq<char>,
    ns: Seq<char>,
) -> Seq<PlistShape>
    decreases xs, k,
{
    if k <= 0 || k > xs.len() {
        seq![]
    } else {
        renamed_items(xs, k - 1, o, ne, os, ns).push(renamed(xs[k - 1], o, ne, os, ns))
    }
}

/// A copy of `n` with each text renamed (see [`renamed`]).
pub fn rename_all_string_values(n: &PlistNode, old_stem: &str, new_stem: &str, old_sprite: &str, new_sprite: &str) -> (r:
    PlistNode)
    ensures
        shape_of(r) == renamed(shape_of(*n), old_stem@, new_stem@, old_sprite@, new_sprite@),
    decreases n,
{
    match n {
        PlistNode::Text(s) => PlistNode::Text(
            apply_rename_replacements(s.as_str(), old_stem, new_stem, old_sprite, new_sprite),
        ),
        PlistNode::Dict(es) => {
            let mut out: Vec<(String, PlistNode)> = Vec::new();
            let mut i: usize = 0;
            while i < es.len()
                invariant
                    i <= es@.len(),
                    *n == PlistNode::Dict(*es),
                    out@.len() == i,
                    entry_shapes(out@, i as int) == renamed_entries(
                        entry_shapes(es@, es@.len() as int),
                        i as int,
                        old_stem@,
                        new_stem@,
                        old_sprite@,
                        new_sprite@,
                    ),
                decreases es@.len() - i,
            {
                proof {
                    let ghost e = es[i as int];
                    assert(decreases_to!(*n => (*n)->Dict_0));
                    assert(decreases_to!(*es => es[i as int]));
                    assert(decreases_to!(e => e.1));
                }
                let v = rename_all_string_values(&es[i].1, old_stem, new_stem, old_sprite, new_sprite);
                let k = es[i].0.clone();
                let ghost prev = out@;
                out.push((k, v));
                proof {
                    lemma_entry_shapes_push(out@, i as int);
                    assert(out@.drop_last() =~= prev);
                    lemma_entry_shapes_at(es@, i as int);
                }
                i = i + 1;
            }
            proof {
                lemma_entry_shapes_len(es@, es@.len() as int);
            }
            PlistNode::Dict(out)
        },
        PlistNode::List(xs) => {
            let mut out: Vec<PlistNode> = Vec::new();
            let mut i: usize = 0;
            while i < xs.len()
                invariant
                    i <= xs@.len(),
                    *n == PlistNode::List(*xs),
                    out@.len() == i,
                    item_shapes(out@, i as int) == renamed_items(
                        item_shapes(xs@, xs@.len() as int),
                        i as int,
                        old_stem@,
                        new_stem@,
                        old_sprite@,
                        new_sprite@,
                    ),
                decreases xs@.len() - i,
            {
                proof {
                    assert(decreases_to!(*n => (*n)->List_0));
                    assert(decreases_to!(*xs => xs[i as int]));
                }
                let v = rename_all_string_values(&xs[i], old_stem, new_stem, old_sprite, new_sprite);
                let ghost prev = out@;
                out.push(v);
                proof {
                    lemma_item_shapes_push(out@, i as int);
                    assert(out@.drop_last() =~= prev);
                    lemma_item_shapes_at(xs@, i as int);
                }
                i = i + 1;
            }
            proof {
                lemma_item_shapes_len(xs@, xs@.len() as int);
            }
            PlistNode::List(out)
        },
        PlistNode::Bool(b) => PlistNode::Bool(*b),
        PlistNode::Int(v) => PlistNode::Int(*v),
        PlistNode::Leaf(k) => PlistNode::Leaf(*k),
    }
}

/// A copy of `n`.
pub fn copy_node(n: &PlistNode) -> (r: PlistNode)
    ensures
        shape_of(r) == shape_of(*n),
    decreases n,
{
    match n {
        PlistNode::Text(s) => PlistNode::Text(s.clone()),
        PlistNode::Dict(es) => {
            let mut out: Vec<(String, PlistNode)> = Vec::new();
            let mut i: usize = 0;
            while i < es.len()
                invariant
                    i <= es@.len(),
                    *n == PlistNode::Dict(*es),
                    out@.len() == i,
                    entry_shapes(out@, i as int) == entry_shapes(es@, i as int),
                decreases es@.len() - i,
            {
                proof {
                    let ghost e = es[i as int];
                    assert(decreases_to!(*n => (*n)->Dict_0));
                    assert(decreases_to!(*es => es[i as int]));
                    assert(decreases_to!(e => e.1));
                }
                let v = copy_node(&es[i].1);
                let k = es[i].0.clone();
                let ghost prev = out@;
                out.push((k, v));
                proof {
                    lemma_entry_shapes_push(out@, i as int);
                    assert(out@.drop_last() =~= prev);
                    lemma_entry_shapes_at(es@, i as int);
                }
                i = i + 1;
            }
            proof {
                lemma_entry_shapes_len(es@, es@.len() as int);
            }
            PlistNode::Dict(out)
        },
        PlistNode::List(xs) => {
            let mut out: Vec<PlistNode> = Vec::new();
            let mut i: usize = 0;
            while i < xs.len()
                invariant
                    i <= xs@.len(),
                    *n == PlistNode::List(*xs),
                    out@.len() == i,
                    item_shapes(out@, i as int) == item_shapes(xs@, i as int),
                decreases xs@.len() - i,
            {
                proof {
                    assert(decreases_to!(*n => (*n)->List_0));
                    assert(decreases_to!(*xs => xs[i as int]));
                }
                let v = copy_node(&xs[i]);
                let ghost prev = out@;
                out.push(v);
                proof {
                    lemma_item_shapes_push(out@, i as int);
                    assert(out@.drop_last() =~= prev);
                    lemma_item_shapes_at(xs@, i as int);
                }
                i = i + 1;
            }
            proof {
                lemma_item_shapes_len(xs@, xs@.len() as int);
            }
            PlistNode::List(out)
        },
        PlistNode::Bool(b) => PlistNode::Bool(*b),
        PlistNode::Int(v) => PlistNode::Int(*v),
        PlistNode::Leaf(k) => PlistNode::Leaf(*k),
    }
}

/// The shapes of a prefix do not depend on what follows it.
proof fn lemma_entry_shapes_push(es: Seq<(String, PlistNode)>, i: int)
    requires
        0 <= i < es.len(),
        es.len() == i + 1,
    ensures
        entry_shapes(es, i + 1) == entry_shapes(es.drop_last(), i).push((es[i].0@, shape_of(es[i].1))),
{
    lemma_entry_shapes_prefix(es, es.drop_last(), i);
}

proof fn lemma_entry_shapes_prefix(a: Seq<(String, PlistNode)>, b: Seq<(String, PlistNode)>, k: int)
    requires
        0 <= k <= a.len(),
        k <= b.len(),
        forall|j: int| 0 <= j < k ==> a[j] == b[j],
    ensures
        entry_shapes(a, k) == entry_shapes(b, k),
    decreases k,
{
    if k > 0 {
        lemma_entry_shapes_prefix(a, b, k - 1);
    }
}

proof fn lemma_entry_shapes_at(es: Seq<(String, PlistNode)>, i: int)
    requires
        0 <= i < es.len(),
    ensures
        entry_shapes(es, es.len() as int)[i] == (es[i].0@, shape_of(es[i].1)),
        entry_shapes(es, es.len() as int).len() == es.len(),
    decreases es.len(),
{
    lemma_entry_shapes_len(es, es.len() as int);
    lemma_entry_shapes_index(es, es.len() as int, i);
}

proof fn lemma_entry_shapes_len(es: Seq<(String, PlistNode)>, k: int)
    requires
        0 <= k <= es.len(),
    ensures
        entry_shapes(es, k).len() == k,
    decreases k,
{
    if k > 0 {
        lemma_entry_shapes_len(es, k - 1);
    }
}

proof fn lemma_entry_shapes_index(es: Seq<(String, PlistNode)>, k: int, i: int)
    requires
        0 <= i < k <= es.len(),
    ensures
        entry_shapes(es, k)[i] == (es[i].0@, shape_of(es[i].1)),
    decreases k,
{
    lemma_entry_shapes_len(es, k - 1);
    if i < k - 1 {
        lemma_entry_shapes_index(es, k - 1, i);
    }
}

proof fn lemma_item_shapes_push(xs: Seq<PlistNode>, i: int)
    requires
        0 <= i < xs.len(),
        xs.len() == i + 1,
    ensures
        item_shapes(xs, i + 1) == item_shapes(xs.drop_last(), i).push(shape_of(xs[i])),
{
    lemma_item_shapes_prefix(xs, xs.drop_last(), i);
}

proof fn lemma_item_shapes_prefix(a: Seq<PlistNode>, b: Seq<PlistNode>, k: int)
    requires
        0 <= k <= a.len(),
        k <= b.len(),
        forall|j: int| 0 <= j < k ==> a[j] == b[j],
    ensures
        item_shapes(a, k) == item_shapes(b, k),
    decreases k,
{
    if k > 0 {
        lemma_item_shapes_prefix(a, b, k - 1);
    }
}

proof fn lemma_item_shapes_len(xs: Seq<PlistNode>, k: int)
    requires
        0 <= k <= xs.len(),
    ensures
        item_shapes(xs, k).len() == k,
    decreases k,
{
    if k > 0 {
        lemma_item_shapes_len(xs, k - 1);
    }
}

proof fn lemma_item_shapes_index(xs: Seq<PlistNode>, k: int, i: int)
    requires
        0 <= i < k <= xs.len(),
    ensures
        item_shapes(xs, k)[i] == shape_of(xs[i]),
    decreases k,
{
    lemma_item_shapes_len(xs, k - 1);
    if i < k - 1 {
        lemma_item_shapes_index(xs, k - 1, i);
    }
}

proof fn lemma_item_shapes_at(xs: Seq<PlistNode>, i: int)
    requires
        0 <= i < xs.len(),
    ensures
        item_shapes(xs, xs.len() as int)[i] == shape_of(xs[i]),
        item_shapes(xs, xs.len() as int).len() == xs.len(),
{
    lemma_item_shapes_len(xs, xs.len() as int);
    lemma_item_shapes_index(xs, xs.len() as int, i);
}

/// The position of the first entry under `key`, or -1 where there is none.
pub open spec fn key_index(es: Seq<(Seq<char>, PlistShape)>, key: Seq<char>) -> int
    decreases es.len(),
{
    if es.len() == 0 {
        -1
    } else {
        let j = key_index(es.drop_last(), key);
        if j >= 0 {
            j
        } else if es.last().0 == key {
            es.len() - 1
        } else {
            -1
        }
    }
}

/// The entries with `value` stored under `key`: in the place of the entry
/// already there, or else at the end.
pub open spec fn put_entry(es: Seq<(Seq<char>, PlistShape)>, key: Seq<char>, value: PlistShape) -> Seq<
    (Seq<char>, PlistShape),
> {
    let j = key_index(es, key);
    if j >= 0 {
        es.update(j, (key, value))
    } else {
        es.push((key, value))
    }
}

/// The first `k` entries stored, in order, under their renamed keys.
pub open spec fn rekeyed(
    es: Seq<(Seq<char>, PlistShape)>,
    k: int,
    o: Seq<char>,
    ne: Seq<char>,
    os: Seq<char>,
    ns: Seq<char>,
) -> Seq<(Seq<char>, PlistShape)>
    decreases k,
{
    if k <= 0 || k > es.len() {
        seq![]
    } else {
        put_entry(rekeyed(es, k - 1, o, ne, os, ns), rename_spec(es[k - 1].0, o, ne, os, ns), es[k - 1].1)
    }
}

/// Entry `i` of a sheet's root after renaming: the `frames` dictionary has
/// its keys renamed as well as its values; every other value is renamed.
pub open spec fn renamed_sheet_entry(
    es: Seq<(Seq<char>, PlistShape)>,
    i: int,
    o: Seq<char>,
    ne: Seq<char>,
    os: Seq<char>,
    ns: Seq<char>,
) -> (Seq<char>, PlistShape) {
    if i == key_index(es, "frames"@) {
        match es[i].1 {
            PlistShape::Dict(inner) => (
                es[i].0,
                PlistShape::Dict(
                    rekeyed(renamed_entries(inner, inner.len() as int, o, ne, os, ns), inner.len() as int, o, ne, os, ns),
                ),
            ),
            _ => (es[i].0, renamed(es[i].1, o, ne, os, ns)),
        }
    } else {
        (es[i].0, renamed(es[i].1, o, ne, os, ns))
    }
}

/// A sheet's root after its identifiers are renamed.
pub open spec fn renamed_sheet(root: PlistShape, o: Seq<char>, ne: Seq<char>, os: Seq<char>, ns: Seq<char>) -> PlistShape {
    match root {
        PlistShape::Dict(es) => PlistShape::Dict(
            Seq::new(es.len(), |i: int| renamed_sheet_entry(es, i, o, ne, os, ns)),
        ),
        _ => root,
    }
}

/// Where the first entry under a key stands.
pub proof fn lemma_key_index(es: Seq<(Seq<char>, PlistShape)>, key: Seq<char>)
    ensures
        -1 <= key_index(es, key) < es.len(),
        key_index(es, key) >= 0 ==> es[key_index(es, key)].0 == key,
        forall|t: int| 0 <= t < es.len() && (t < key_index(es, key) || key_index(es, key) < 0) ==> es[t].0 != key,
    decreases es.len(),
{
    if es.len() > 0 {
        lemma_key_index(es.drop_last(), key);
        assert forall|t: int| 0 <= t < es.len() - 1 implies #[trigger] es[t] == es.drop_last()[t] by {}
    }
}

/// The shapes of a whole list of entries, entry by entry.
pub(crate) proof fn lemma_entry_shapes_all(es: Seq<(String, PlistNode)>)
    ensures
        entry_shapes(es, es.len() as int).len() == es.len(),
        forall|t: int| 0 <= t < es.len() ==> #[trigger] entry_shapes(es, es.len() as int)[t] == (es[t].0@, shape_of(es[t].1)),
{
    lemma_entry_shapes_len(es, es.len() as int);
    assert forall|t: int| 0 <= t < es.len() implies #[trigger] entry_shapes(es, es.len() as int)[t] == (es[t].0@, shape_of(es[t].1)) by {
        lemma_entry_shapes_index(es, es.len() as int, t);
    }
}

/// Renamed entries, entry by entry.
proof fn lemma_renamed_entries_all(es: Seq<(Seq<char>, PlistShape)>, o: Seq<char>, ne: Seq<char>, os: Seq<char>, ns: Seq<char>)
    ensures
        renamed_entries(es, es.len() as int, o, ne, os, ns).len() == es.len(),
        forall|t: int| 0 <= t < es.len() ==> #[trigger] renamed_entries(es, es.len() as int, o, ne, os, ns)[t] == (es[t].0, renamed(es[t].1, o, ne, os, ns)),
{
    lemma_renamed_entries_prefix(es, es.len() as int, o, ne, os, ns);
}

proof fn lemma_renamed_entries_prefix(es: Seq<(Seq<char>, PlistShape)>, k: int, o: Seq<char>, ne: Seq<char>, os: Seq<char>, ns: Seq<char>)
    requires
        0 <= k <= es.len(),
    ensures
        renamed_entries(es, k, o, ne, os, ns).len() == k,
        forall|t: int| 0 <= t < k ==> #[trigger] renamed_entries(es, k, o, ne, os, ns)[t] == (es[t].0, renamed(es[t].1, o, ne, os, ns)),
    decreases k,
{
    if k > 0 {
        lemma_renamed_entries_prefix(es, k - 1, o, ne, os, ns);
    }
}

/// Stores `value` under `key` in `out` (see [`put_entry`]).
pub(crate) fn put_entry_exec(out: &mut Vec<(String, PlistNode)>, key: String, value: PlistNode)
    ensures
        entry_shapes(final(out)@, final(out)@.len() as int) == put_entry(
            entry_shapes(old(out)@, old(out)@.len() as int),
            key@,
            shape_of(value),
        ),
{
    let ghost before = entry_shapes(out@, out@.len() as int);
    proof {
        lemma_entry_shapes_all(out@);
        lemma_key_index(before, key@);
    }
    let kc = chars_of(key.as_str());
    let mut j: usize = 0;
    while j < out.len()
        invariant
            j <= out@.len(),
            kc@ == key@,
            before == entry_shapes(out@, out@.len() as int),
            before.len() == out@.len(),
            forall|t: int| 0 <= t < out@.len() ==> #[trigger] before[t] == (out@[t].0@, shape_of(out@[t].1)),
            forall|t: int| 0 <= t < j ==> out@[t].0@ != key@,
        ensures
            j < out@.len() ==> out@[j as int].0@ == key@,
        decreases out@.len() - j,
    {
        let oc = chars_of(out[j].0.as_str());
        if chars_eq(oc.as_slice(), kc.as_slice()) {
            break;
        }
        j = j + 1;
    }
    let ghost old_out = out@;
    if j < out.len() {
        proof {
            assert(before[j as int].0 == key@);
            assert forall|t: int| 0 <= t < j implies before[t].0 != key@ by {}
            lemma_key_index(before, key@);
            assert(key_index(before, key@) == j);
        }
        out.set(j, (key, value));
        proof {
            lemma_entry_shapes_all(out@);
            assert(entry_shapes(out@, out@.len() as int) =~= before.update(j as int, (key@, shape_of(value))));
        }
    } else {
        proof {
            lemma_key_index(before, key@);
            assert(key_index(before, key@) < 0);
        }
        out.push((key, value));
        proof {
            lemma_entry_shapes_all(out@);
            assert(entry_shapes(out@, out@.len() as int) =~= before.push((key@, shape_of(value))));
        }
    }
}

/// The entries of a `frames` dictionary under their renamed keys, with
/// their values renamed.
fn rekey_frames(
    inner: &Vec<(String, PlistNode)>,
    old_stem: &str,
    new_stem: &str,
    old_sprite: &str,
    new_sprite: &str,
) -> (r: Vec<(String, PlistNode)>)
    ensures
        entry_shapes(r@, r@.len() as int) == rekeyed(
            renamed_entries(
                entry_shapes(inner@, inner@.len() as int),
                inner@.len() as int,
                old_stem@,
                new_stem@,
                old_sprite@,
                new_sprite@,
            ),
            inner@.len() as int,
            old_stem@,
            new_stem@,
            old_sprite@,
            new_sprite@,
        ),
{
    let ghost ins = entry_shapes(inner@, inner@.len() as int);
    let ghost rs = renamed_entries(ins, inner@.len() as int, old_stem@, new_stem@, old_sprite@, new_sprite@);
    proof {
        lemma_entry_shapes_all(inner@);
        lemma_renamed_entries_all(ins, old_stem@, new_stem@, old_sprite@, new_sprite@);
    }
    let mut out: Vec<(String, PlistNode)> = Vec::new();
    let mut j: usize = 0;
    while j < inner.len()
        invariant
            j <= inner@.len(),
            ins == entry_shapes(inner@, inner@.len() as int),
            rs == renamed_entries(ins, inner@.len() as int, old_stem@, new_stem@, old_sprite@, new_sprite@),
            ins.len() == inner@.len(),
            rs.len() == inner@.len(),
            forall|t: int| 0 <= t < inner@.len() ==> #[trigger] ins[t] == (inner@[t].0@, shape_of(inner@[t].1)),
            forall|t: int| 0 <= t < inner@.len() ==> #[trigger] rs[t] == (ins[t].0, renamed(ins[t].1, old_stem@, new_stem@, old_sprite@, new_sprite@)),
            entry_shapes(out@, out@.len() as int) == rekeyed(rs, j as int, old_stem@, new_stem@, old_sprite@, new_sprite@),
        decreases inner@.len() - j,
    {
        let k = apply_rename_replacements(inner[j].0.as_str(), old_stem, new_stem, old_sprite, new_sprite);
        let v = rename_all_string_values(&inner[j].1, old_stem, new_stem, old_sprite, new_sprite);
        proof {
            assert(rs[j as int] == (inner@[j as int].0@, renamed(shape_of(inner@[j as int].1), old_stem@, new_stem@, old_sprite@, new_sprite@)));
        }
        put_entry_exec(&mut out, k, v);
        j = j + 1;
    }
    out
}

/// Renames a sheet's identifiers throughout its property list: the keys of
/// its `frames` dictionary, and every text value. Where neither name
/// changes the list is handed back as it is; otherwise its root must be a
/// dictionary.
pub fn rename_plist_sheet_identifiers(
    root: PlistNode,
    old_stem: &str,
    new_stem: &str,
    old_sprite_stem: &str,
    new_sprite_stem: &str,
) -> (r: Result<PlistNode, AppError>)
    ensures
        old_stem@ == new_stem@ && old_sprite_stem@ == new_sprite_stem@ ==> r == Ok::<PlistNode, AppError>(root),
        !(old_stem@ == new_stem@ && old_sprite_stem@ == new_sprite_stem@) ==> match r {
            Ok(x) => root is Dict && shape_of(x) == renamed_sheet(
                shape_of(root),
                old_stem@,
                new_stem@,
                old_sprite_stem@,
                new_sprite_stem@,
            ),
            Err(e) => !(root is Dict) && (e matches AppError::ParseError(m) && m@ == "plist root must be a dictionary"@),
        },
{
    let os = chars_of(old_stem);
    let ns = chars_of(new_stem);
    let osp = chars_of(old_sprite_stem);
    let nsp = chars_of(new_sprite_stem);
    if chars_eq(os.as_slice(), ns.as_slice()) && chars_eq(osp.as_slice(), nsp.as_slice()) {
        return Ok(root);
    }
    match &root {
        PlistNode::Dict(es) => {
            let ghost ess = entry_shapes(es@, es@.len() as int);
            proof {
                lemma_entry_shapes_all(es@);
                lemma_key_index(ess, "frames"@);
            }
            let mut out: Vec<(String, PlistNode)> = Vec::new();
            let mut seen = false;
            let mut i: usize = 0;
            while i < es.len()
                invariant
                    i <= es@.len(),
                    ess == entry_shapes(es@, es@.len() as int),
                    ess.len() == es@.len(),
                    -1 <= key_index(ess, "frames"@) < ess.len(),
                    key_index(ess, "frames"@) >= 0 ==> ess[key_index(ess, "frames"@)].0 == "frames"@,
                    forall|t: int| 0 <= t < ess.len() && (t < key_index(ess, "frames"@) || key_index(ess, "frames"@) < 0) ==> ess[t].0 != "frames"@,
                    forall|t: int| 0 <= t < es@.len() ==> #[trigger] ess[t] == (es@[t].0@, shape_of(es@[t].1)),
                    seen == (0 <= key_index(ess, "frames"@) < i),
                    out@.len() == i,
                    forall|t: int| #![trigger out@[t]] 0 <= t < i ==> (out@[t].0@, shape_of(out@[t].1)) == renamed_sheet_entry(
                        ess,
                        t,
                        old_stem@,
                        new_stem@,
                        old_sprite_stem@,
                        new_sprite_stem@,
                    ),
                decreases es@.len() - i,
            {
                let kc = chars_of(es[i].0.as_str());
                let is_frames = !seen && chars_eq_str(kc.as_slice(), "frames");
                proof {
                    assert(ess[i as int] == (es@[i as int].0@, shape_of(es@[i as int].1)));
                    assert(kc@ == ess[i as int].0);
                    assert(is_frames == (i == key_index(ess, "frames"@)));
                }
                let key = es[i].0.clone();
                let value = match &es[i].1 {
                    PlistNode::Dict(inner) => {
                        if is_frames {
                            let f = rekey_frames(inner, old_stem, new_stem, old_sprite_stem, new_sprite_stem);
                            proof {
                                lemma_entry_shapes_len(inner@, inner@.len() as int);
                            }
                            PlistNode::Dict(f)
                        } else {
                            rename_all_string_values(&es[i].1, old_stem, new_stem, old_sprite_stem, new_sprite_stem)
                        }
                    },
                    _ => rename_all_string_values(&es[i].1, old_stem, new_stem, old_sprite_stem, new_sprite_stem),
                };
                proof {
                    assert((key@, shape_of(value)) == renamed_sheet_entry(
                        ess,
                        i as int,
                        old_stem@,
                        new_stem@,
                        old_sprite_stem@,
                        new_sprite_stem@,
                    ));
                }
                if is_frames {
                    seen = true;
                }
                let ghost prev = out@;
                out.push((key, value));
                proof {
                    assert forall|t: int| #![trigger out@[t]] 0 <= t < i + 1 implies (out@[t].0@, shape_of(out@[t].1)) == renamed_sheet_entry(
                        ess,
                        t,
                        old_stem@,
                        new_stem@,
                        old_sprite_stem@,
                        new_sprite_stem@,
                    ) by {
                        if t < i {
                            assert(out@[t] == prev[t]);
                        }
                    }
                }
                i = i + 1;
            }
            let r = PlistNode::Dict(out);
            proof {
                lemma_entry_shapes_all(out@);
                assert(entry_shapes(out@, out@.len() as int) =~= Seq::new(
                    ess.len(),
                    |t: int| renamed_sheet_entry(ess, t, old_stem@, new_stem@, old_sprite_stem@, new_sprite_stem@),
                ));
            }
            Ok(r)
        },
        _ => Err(AppError::ParseError("plist root must be a dictionary".to_string())),
    }
}

/// The position of the first entry under `key` (see [`key_index`]).
pub fn find_entry(es: &Vec<(String, PlistNode)>, key: &str) -> (r: Option<usize>)
    ensures
        ({
            let ki = key_index(entry_shapes(es@, es@.len() as int), key@);
            match r {
                Some(j) => ki >= 0 && j == ki,
                None => ki < 0,
            }
        }),
{
    let ghost ess = entry_shapes(es@, es@.len() as int);
    proof {
        lemma_entry_shapes_all(es@);
        lemma_key_index(ess, key@);
    }
    let mut j: usize = 0;
    while j < es.len()
        invariant
            j <= es@.len(),
            ess == entry_shapes(es@, es@.len() as int),
            ess.len() == es@.len(),
            forall|t: int| 0 <= t < es@.len() ==> #[trigger] ess[t] == (es@[t].0@, shape_of(es@[t].1)),
            forall|t: int| 0 <= t < j ==> ess[t].0 != key@,
        decreases es@.len() - j,
    {
        let kc = chars_of(es[j].0.as_str());
        if chars_eq_str(kc.as_slice(), key) {
            proof {
                assert(ess[j as int].0 == key@);
                lemma_key_index(ess, key@);
            }
            return Some(j);
        }
        proof {
            assert(ess[j as int].0 != key@);
        }
        j = j + 1;
    }
    proof {
        lemma_key_index(ess, key@);
    }
    None
}

} // verus!
