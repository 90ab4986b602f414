//! Which frame of an icon sheet the glow preview shows: a primary icon
//! frame, else a compositable `{stem}_001` key, else the one frame that is
//! not a layer variant.

use vstd::prelude::*;
use crate::errors::AppError;
use crate::glow_names::{
    excluded_variant_spec, icon_primary_spec, icon_stem_from_frame_name, icon_stem_spec, is_icon_primary_frame,
    is_preview_excluded_variant_frame, strip_png_extension, strip_png_spec,
};
use crate::order::{lemma_lex_total, lemma_lex_transitive, lex_lt, lex_lt_str, sort_strings, sorted_strs, strs};
use crate::text::{chars_of, concat_str, eq_ic, eq_ignore_case_chars};

verus! {

/// The canonical primary key of an icon stem: `{stem}_001`.
pub open spec fn canonical_key(stem: Seq<char>) -> Seq<char> {
    stem + "_001"@
}

/// The first of `names`, from index `j` on, that reads as `canon` without
/// its `.png` and ignoring ASCII case.
pub open spec fn first_named(names: Seq<Seq<char>>, canon: Seq<char>, j: int) -> Option<Seq<char>>
    decreases names.len() - j,
{
    if j < 0 || j >= names.len() {
        None
    } else if eq_ic(strip_png_spec(names[j]), canon) {
        Some(names[j])
    } else {
        first_named(names, canon, j + 1)
    }
}

/// `keys` holds `e` ignoring ASCII case.
pub open spec fn listed_ic(keys: Seq<Seq<char>>, e: Seq<char>) -> bool {
    exists|i: int| 0 <= i < keys.len() && eq_ic(#[trigger] keys[i], e)
}

/// The `{stem}_001` keys present among `names` for the first `k` names that
/// give an icon stem, each once (ignoring ASCII case), in that order.
pub open spec fn compositable_keys_spec(names: Seq<Seq<char>>, k: int) -> Seq<Seq<char>>
    decreases k,
{
    if k <= 0 {
        seq![]
    } else {
        let prev = compositable_keys_spec(names, k - 1);
        match icon_stem_spec(names[k - 1]) {
            None => prev,
            Some(stem) => match first_named(names, canonical_key(stem), 0) {
                None => prev,
                Some(e) => if listed_ic(prev, e) {
                    prev
                } else {
                    prev.push(e)
                },
            },
        }
    }
}

fn find_named(names: &Vec<String>, canon: &Vec<char>) -> (r: Option<usize>)
    ensures
        match r {
            Some(j) => j < names@.len() && first_named(strs(names@), canon@, 0) == Some(strs(names@)[j as int]),
            None => first_named(strs(names@), canon@, 0) is None,
        },
{
    let ghost ns = strs(names@);
    let mut j: usize = names.len();
    let mut found: Option<usize> = None;
    while j > 0
        invariant
            ns == strs(names@),
            j <= names@.len(),
            match found {
                Some(k) => k < names@.len() && first_named(ns, canon@, j as int) == Some(ns[k as int]),
                None => first_named(ns, canon@, j as int) is None,
            },
        decreases j,
    {
        j = j - 1;
        let v = chars_of(names[j].as_str());
        let base = strip_png_extension(v.as_slice());
        assert(ns[j as int] == names@[j as int]@);
        if eq_ignore_case_chars(base.as_slice(), canon.as_slice()) {
            found = Some(j);
        }
    }
    found
}

fn listed_ignoring_case(keys: &Vec<String>, e: &str) -> (r: bool)
    ensures
        r == listed_ic(strs(keys@), e@),
{
    let ghost ks = strs(keys@);
    let ev = chars_of(e);
    let mut i: usize = 0;
    while i < keys.len()
        invariant
            ks == strs(keys@),
            ev@ == e@,
            i <= keys@.len(),
            forall|k: int| 0 <= k < i ==> !eq_ic(#[trigger] ks[k], e@),
        decreases keys@.len() - i,
    {
        let kv = chars_of(keys[i].as_str());
        assert(ks[i as int] == keys@[i as int]@);
        if eq_ignore_case_chars(kv.as_slice(), ev.as_slice()) {
            assert(eq_ic(ks[i as int], e@));
            return true;
        }
        i = i + 1;
    }
    false
}

/// The `{stem}_001` keys among `names` (see [`compositable_keys_spec`]).
pub fn compositable_primary_keys(names: &Vec<String>) -> (r: Vec<String>)
    ensures
        strs(r@) == compositable_keys_spec(strs(names@), names@.len() as int),
{
    let ghost ns = strs(names@);
    let mut keys: Vec<String> = Vec::new();
    let mut k: usize = 0;
    while k < names.len()
        invariant
            ns == strs(names@),
            k <= names@.len(),
            strs(keys@) == compositable_keys_spec(ns, k as int),
        decreases names@.len() - k,
    {
        assert(ns[k as int] == names@[k as int]@);
        match icon_stem_from_frame_name(names[k].as_str()) {
            None => {},
            Some(stem) => {
                let sv = chars_of(stem.as_str());
                proof {
                    reveal_strlit("_001");
                }
                let canon = concat_str(sv.as_slice(), "_001");
                match find_named(names, &canon) {
                    None => {},
                    Some(j) => {
                        if !listed_ignoring_case(&keys, names[j].as_str()) {
                            let ghost before = keys@;
                            let e = names[j].clone();
                            keys.push(e);
                            proof {
                                assert(strs(keys@) =~= strs(before).push(ns[j as int]));
                            }
                        }
                    },
                }
            },
        }
        k = k + 1;
    }
    keys
}

/// Primary icon frames.
pub open spec fn primary_pred() -> spec_fn(Seq<char>) -> bool {
    |n: Seq<char>| icon_primary_spec(n)
}

/// Frames that are not a glow, secondary, third or extra layer.
pub open spec fn plain_pred() -> spec_fn(Seq<char>) -> bool {
    |n: Seq<char>| !excluded_variant_spec(n)
}

/// The frames a preview may show: the primary icon frames; when there are
/// none, the compositable `{stem}_001` keys; when there are none either,
/// the one frame that is not a layer variant, if exactly one is; else none.
pub open spec fn preview_candidates_spec(names: Seq<Seq<char>>) -> Seq<Seq<char>> {
    let primary = names.filter(primary_pred());
    let comp = compositable_keys_spec(names, names.len() as int);
    let plain = names.filter(plain_pred());
    if primary.len() > 0 {
        primary
    } else if comp.len() > 0 {
        comp
    } else if plain.len() == 1 {
        plain
    } else {
        seq![]
    }
}

/// Strictly ascending (by code point): sorted and without repeats.
pub open spec fn strictly_sorted(s: Seq<Seq<char>>) -> bool {
    forall|i: int, j: int| 0 <= i < j < s.len() ==> lex_lt(#[trigger] s[i], #[trigger] s[j])
}

fn primary_frames(names: &Vec<String>) -> (r: Vec<String>)
    ensures
        strs(r@) == strs(names@).filter(primary_pred()),
{
    let ghost ns = strs(names@);
    let mut out: Vec<String> = Vec::new();
    let mut i: usize = 0;
    while i < names.len()
        invariant
            ns == strs(names@),
            i <= names@.len(),
            strs(out@) == ns.subrange(0, i as int).filter(primary_pred()),
        decreases names@.len() - i,
    {
        let ghost before = out@;
        proof {
            reveal(Seq::filter);
            assert(ns.subrange(0, i + 1).drop_last() =~= ns.subrange(0, i as int));
            assert(ns[i as int] == names@[i as int]@);
        }
        if is_icon_primary_frame(names[i].as_str()) {
            out.push(names[i].clone());
            proof {
                assert(strs(out@) =~= strs(before).push(ns[i as int]));
            }
        }
        i = i + 1;
    }
    proof {
        assert(ns.subrange(0, ns.len() as int) =~= ns);
    }
    out
}

fn plain_frames(names: &Vec<String>) -> (r: Vec<String>)
    ensures
        strs(r@) == strs(names@).filter(plain_pred()),
{
    let ghost ns = strs(names@);
    let mut out: Vec<String> = Vec::new();
    let mut i: usize = 0;
    while i < names.len()
        invariant
            ns == strs(names@),
            i <= names@.len(),
            strs(out@) == ns.subrange(0, i as int).filter(plain_pred()),
        decreases names@.len() - i,
    {
        let ghost before = out@;
        proof {
            reveal(Seq::filter);
            assert(ns.subrange(0, i + 1).drop_last() =~= ns.subrange(0, i as int));
            assert(ns[i as int] == names@[i as int]@);
        }
        if !is_preview_excluded_variant_frame(names[i].as_str()) {
            out.push(names[i].clone());
            proof {
                assert(strs(out@) =~= strs(before).push(ns[i as int]));
            }
        }
        i = i + 1;
    }
    proof {
        assert(ns.subrange(0, ns.len() as int) =~= ns);
    }
    out
}

fn dedup_sorted(v: Vec<String>) -> (r: Vec<String>)
    requires
        sorted_strs(strs(v@)),
    ensures
        strictly_sorted(strs(r@)),
        strs(r@).to_set() == strs(v@).to_set(),
{
    let ghost vs = strs(v@);
    let mut out: Vec<String> = Vec::new();
    let mut i: usize = 0;
    while i < v.len()
        invariant
            vs == strs(v@),
            sorted_strs(vs),
            i <= v@.len(),
            strictly_sorted(strs(out@)),
            forall|x: Seq<char>| strs(out@).contains(x) <==> vs.subrange(0, i as int).contains(x),
            i > 0 ==> out@.len() > 0 && strs(out@).last() == vs[i - 1],
            i == 0 ==> out@.len() == 0,
        decreases v@.len() - i,
    {
        let ghost before = strs(out@);
        let ghost prefix = vs.subrange(0, i as int);
        let ghost next = vs.subrange(0, i + 1);
        assert(vs[i as int] == v@[i as int]@);
        proof {
            assert(next =~= prefix.push(vs[i as int]));
        }
        let keep = out.len() == 0 || lex_lt_str(out[out.len() - 1].as_str(), v[i].as_str());
        if keep {
            out.push(v[i].clone());
            proof {
                assert(strs(out@) =~= before.push(vs[i as int]));
                assert forall|a: int, b: int| 0 <= a < b < strs(out@).len() implies lex_lt(
                    #[trigger] strs(out@)[a],
                    #[trigger] strs(out@)[b],
                ) by {
                    if b == strs(out@).len() - 1 && a < b - 1 {
                        assert(lex_lt(before[a], before[before.len() - 1]));
                        lemma_lex_transitive(before[a], before[before.len() - 1], vs[i as int]);
                    }
                }
                assert forall|x: Seq<char>| strs(out@).contains(x) <==> next.contains(x) by {
                    if strs(out@).contains(x) {
                        let a = strs(out@).index_of(x);
                        if a < before.len() {
                            assert(before[a] == x);
                            assert(before.contains(x));
                            assert(prefix.contains(x));
                            let c = prefix.index_of(x);
                            assert(next[c] == x);
                        } else {
                            assert(next[i as int] == x);
                        }
                    }
                    if next.contains(x) {
                        let a = next.index_of(x);
                        if a < i {
                            assert(prefix[a] == x);
                            assert(before.contains(x));
                            let c = before.index_of(x);
                            assert(strs(out@)[c] == x);
                        } else {
                            assert(strs(out@)[strs(out@).len() - 1] == x);
                        }
                    }
                }
            }
        } else {
            proof {
                assert(!lex_lt(vs[i as int], vs[i - 1]));
                lemma_lex_total(vs[i - 1], vs[i as int]);
                assert(vs[i as int] == vs[i - 1]);
                assert forall|x: Seq<char>| strs(out@).contains(x) <==> next.contains(x) by {
                    if strs(out@).contains(x) {
                        assert(prefix.contains(x));
                        let c = prefix.index_of(x);
                        assert(next[c] == x);
                    }
                    if next.contains(x) {
                        let a = next.index_of(x);
                        if a < i {
                            assert(prefix[a] == x);
                        } else {
                            assert(prefix[i - 1] == x);
                        }
                        assert(prefix.contains(x));
                    }
                }
            }
        }
        i = i + 1;
    }
    proof {
        assert(vs.subrange(0, vs.len() as int) =~= vs);
        assert(strs(out@).to_set() =~= vs.to_set());
    }
    out
}

/// How the preview frame is chosen among the candidates.
#[derive(Debug, Clone, Copy, PartialEq, Eq, Structural)]
pub enum PrimaryFramePick {
    /// Any candidate, at random.
    Random,
    /// The first candidate in code-point order.
    First,
}

/// The candidate frames of a sheet whose frame names are `names`, sorted by
/// code point and without repeats (see [`preview_candidates_spec`]); an
/// error when there is none.
pub fn preview_frame_candidates(names: &Vec<String>) -> (r: Result<Vec<String>, AppError>)
    ensures
        match r {
            Ok(c) => c@.len() > 0 && strictly_sorted(strs(c@)) && strs(c@).to_set() == preview_candidates_spec(
                strs(names@),
            ).to_set(),
            Err(e) => preview_candidates_spec(strs(names@)).len() == 0 && (e matches AppError::InvalidOperation(m)
                && m@ == "icon sheet has no standalone sprite frame to preview without compositing"@),
        },
{
    let ghost ns = strs(names@);
    let mut candidates = primary_frames(names);
    if candidates.len() == 0 {
        candidates = compositable_primary_keys(names);
        if candidates.len() == 0 {
            let plain = plain_frames(names);
            if plain.len() == 1 {
                candidates = plain;
            }
        }
    }
    assert(strs(candidates@) == preview_candidates_spec(ns));
    let sorted = sort_strings(candidates);
    let unique = dedup_sorted(sorted);
    proof {
        let cs = strs(candidates@);
        let ss = strs(sorted@);
        broadcast use vstd::seq_lib::group_to_multiset_ensures;
        assert forall|x: Seq<char>| ss.contains(x) <==> cs.contains(x) by {
            assert(ss.to_multiset() == cs.to_multiset());
            if ss.contains(x) {
                assert(ss.to_multiset().count(x) > 0);
            }
            if cs.contains(x) {
                assert(cs.to_multiset().count(x) > 0);
            }
        }
        assert(ss.to_set() =~= cs.to_set());
    }
    if unique.len() == 0 {
        proof {
            reveal_strlit("icon sheet has no standalone sprite frame to preview without compositing");
            if strs(candidates@).len() > 0 {
                assert(strs(candidates@).to_set().contains(strs(candidates@)[0]));
                assert(strs(unique@).to_set().contains(strs(candidates@)[0]));
            }
        }
        return Err(AppError::InvalidOperation("icon sheet has no standalone sprite frame to preview without compositing"));
    }
    Ok(unique)
}

/// A random index below `len`: `rand::random_range(0..len)`, which draws
/// from the thread-local generator a value of the range (and panics on an
/// empty range, hence `len > 0`). Which index comes back is left open.
#[verifier::external_body]
fn random_index(len: usize) -> (r: usize)
    requires
        len > 0,
    ensures
        r < len,
{
    rand::random_range(0..len)
}

/// The frame the preview shows: the first candidate, or one at random
/// (see [`preview_frame_candidates`]).
pub fn pick_preview_frame_name(names: &Vec<String>, pick: PrimaryFramePick) -> (r: Result<String, AppError>)
    ensures
        match r {
            Ok(s) => preview_candidates_spec(strs(names@)).contains(s@) && (pick == PrimaryFramePick::First ==> forall|
                c: Seq<char>,
            | #[trigger] preview_candidates_spec(strs(names@)).contains(c) ==> !lex_lt(c, s@)),
            Err(e) => preview_candidates_spec(strs(names@)).len() == 0 && (e matches AppError::InvalidOperation(m)
                && m@ == "icon sheet has no standalone sprite frame to preview without compositing"@),
        },
{
    let candidates = preview_frame_candidates(names)?;
    let ghost cs = strs(candidates@);
    let ghost spec = preview_candidates_spec(strs(names@));
    let i = match pick {
        PrimaryFramePick::Random => random_index(candidates.len()),
        PrimaryFramePick::First => 0,
    };
    let chosen = candidates[i].clone();
    proof {
        assert(cs[i as int] == chosen@);
        assert(cs.to_set().contains(chosen@));
        assert(spec.to_set().contains(chosen@));
        if pick == PrimaryFramePick::First {
            assert forall|c: Seq<char>| #[trigger] spec.contains(c) implies !lex_lt(c, chosen@) by {
                assert(spec.to_set().contains(c));
                assert(cs.to_set().contains(c));
                let k = cs.index_of(c);
                if k > 0 {
                    assert(lex_lt(cs[0], cs[k]));
                    crate::order::lemma_lex_asymmetric(cs[0], cs[k]);
                } else {
                    crate::order::lemma_lex_irreflexive(c);
                }
            }
        }
    }
    Ok(chosen)
}

/// What the preview keeps of a loaded sheet.
#[derive(Debug, Clone, PartialEq, Eq)]
pub enum PrimaryChoice {
    /// The picked frame is visible and safe to show alone.
    KeepPicked,
    /// The first visible primary or compositable frame.
    Use(String),
    /// No frame is safe alone, but the sheet has several sprites for a
    /// composite: a blank primary, named by this frame.
    Blank(String),
    /// Nothing to preview.
    Nothing,
}

/// The frames that may stand in as primary: the primary icon frames and the
/// compositable keys.
pub open spec fn stand_in_spec(names: Seq<Seq<char>>) -> Seq<Seq<char>> {
    names.filter(primary_pred()) + compositable_keys_spec(names, names.len() as int)
}

/// Frame `n` is one of the names and its sprite has a visible pixel (the
/// flag of its first occurrence).
pub open spec fn visible_name(names: Seq<Seq<char>>, visible: Seq<bool>, n: Seq<char>) -> bool {
    names.contains(n) && visible[names.index_of(n)]
}

/// The choice of the preview (see [`PrimaryChoice`]): keep the pick when it
/// is visible and a primary frame (or the only sprite); else the least
/// stand-in (by code point) that is visible; else, with several sprites, a
/// blank primary named by the pick, or by the first compositable key when
/// the pick is empty or not a sprite of the sheet; else nothing.
pub open spec fn primary_choice_ok(
    names: Seq<Seq<char>>,
    visible: Seq<bool>,
    picked: Seq<char>,
    picked_visible: bool,
    r: PrimaryChoice,
) -> bool {
    let keep = picked_visible && (icon_primary_spec(picked) || names.len() == 1);
    let cands = stand_in_spec(names);
    let any_visible = exists|c: Seq<char>| #[trigger] cands.contains(c) && visible_name(names, visible, c);
    let comp = compositable_keys_spec(names, names.len() as int);
    if keep {
        r == PrimaryChoice::KeepPicked
    } else if any_visible {
        r matches PrimaryChoice::Use(n) && cands.contains(n@) && visible_name(names, visible, n@) && forall|c: Seq<char>|
            #[trigger] cands.contains(c) && lex_lt(c, n@) ==> !visible_name(names, visible, c)
    } else if names.len() > 1 {
        r matches PrimaryChoice::Blank(f) && f@ == (if (picked.len() == 0 || !names.contains(picked)) && comp.len() > 0 {
            comp[0]
        } else {
            picked
        })
    } else {
        r == PrimaryChoice::Nothing
    }
}

fn index_of_name(names: &Vec<String>, n: &str) -> (r: Option<usize>)
    requires
        strs(names@).no_duplicates(),
    ensures
        match r {
            Some(i) => i < names@.len() && strs(names@).contains(n@) && i as int == strs(names@).index_of(n@),
            None => !strs(names@).contains(n@),
        },
{
    let ghost ns = strs(names@);
    let mut i: usize = 0;
    while i < names.len()
        invariant
            ns == strs(names@),
            ns.no_duplicates(),
            i <= names@.len(),
            forall|k: int| 0 <= k < i ==> ns[k] != n@,
        decreases names@.len() - i,
    {
        assert(ns[i as int] == names@[i as int]@);
        if crate::facts::str_eq(names[i].as_str(), n) {
            proof {
                assert(ns.contains(n@));
                let j = ns.index_of(n@);
                if j < i {
                    assert(ns[j] != n@);
                }
                if (i as int) < j {
                    assert(ns[j] == n@);
                }
            }
            return Some(i);
        }
        i = i + 1;
    }
    proof {
        if ns.contains(n@) {
            let j = ns.index_of(n@);
            assert(ns[j] == n@);
        }
    }
    None
}

/// What the preview keeps of a loaded sheet with sprites `names` (sorted,
/// as the sheet lists them) whose visibility is `visible`, given the picked
/// frame (see [`primary_choice_ok`]).
pub fn sample_with_visible_primary(names: &Vec<String>, visible: &Vec<bool>, picked: &str, picked_visible: bool) -> (r:
    PrimaryChoice)
    requires
        visible@.len() == names@.len(),
        strs(names@).no_duplicates(),
    ensures
        primary_choice_ok(strs(names@), visible@, picked@, picked_visible, r),
{
    let ghost ns = strs(names@);
    if picked_visible && (is_icon_primary_frame(picked) || names.len() == 1) {
        return PrimaryChoice::KeepPicked;
    }
    let primary = primary_frames(names);
    let comp = compositable_primary_keys(names);
    let mut both = primary;
    let mut k: usize = 0;
    let ghost p0 = strs(both@);
    while k < comp.len()
        invariant
            k <= comp@.len(),
            strs(both@) == p0 + strs(comp@).subrange(0, k as int),
        decreases comp@.len() - k,
    {
        let ghost before = strs(both@);
        let x = comp[k].clone();
        assert(x@ == strs(comp@)[k as int]);
        both.push(x);
        proof {
            assert(strs(both@) =~= before.push(strs(comp@)[k as int]));
            assert(strs(comp@).subrange(0, k + 1) =~= strs(comp@).subrange(0, k as int).push(strs(comp@)[k as int]));
            assert(strs(both@) =~= p0 + strs(comp@).subrange(0, k + 1));
        }
        k = k + 1;
    }
    proof {
        assert(strs(comp@).subrange(0, comp@.len() as int) =~= strs(comp@));
        assert(strs(both@) == stand_in_spec(ns));
    }
    let ghost cands = stand_in_spec(ns);
    let sorted = sort_strings(both);
    let ordered = dedup_sorted(sorted);
    proof {
        broadcast use vstd::seq_lib::group_to_multiset_ensures;
        let cs = strs(both@);
        let ss = strs(sorted@);
        assert forall|x: Seq<char>| ss.contains(x) <==> cs.contains(x) by {
            if ss.contains(x) {
                assert(ss.to_multiset().count(x) > 0);
            }
            if cs.contains(x) {
                assert(cs.to_multiset().count(x) > 0);
            }
        }
        assert forall|x: Seq<char>| strs(ordered@).contains(x) <==> cands.contains(x) by {
            assert(strs(ordered@).to_set().contains(x) == strs(ordered@).contains(x));
            assert(ss.to_set().contains(x) == ss.contains(x));
        }
    }
    let ghost os = strs(ordered@);
    let mut j: usize = 0;
    while j < ordered.len()
        invariant
            os == strs(ordered@),
            ns == strs(names@),
            ns.no_duplicates(),
            !(picked_visible && (icon_primary_spec(picked@) || ns.len() == 1)),
            cands == stand_in_spec(ns),
            visible@.len() == names@.len(),
            strictly_sorted(os),
            forall|x: Seq<char>| os.contains(x) <==> cands.contains(x),
            j <= os.len(),
            forall|k: int| 0 <= k < j ==> !visible_name(ns, visible@, #[trigger] os[k]),
        decreases os.len() - j,
    {
        assert(os[j as int] == ordered@[j as int]@);
        match index_of_name(names, ordered[j].as_str()) {
            Some(i) => {
                if visible[i] {
                    proof {
                        assert(os.contains(os[j as int]));
                        assert forall|c: Seq<char>| #[trigger] cands.contains(c) && lex_lt(c, os[j as int]) implies !visible_name(
                            ns,
                            visible@,
                            c,
                        ) by {
                            assert(os.contains(c));
                            let q = os.index_of(c);
                            if q >= j {
                                if q == j {
                                    crate::order::lemma_lex_irreflexive(c);
                                } else {
                                    assert(lex_lt(os[j as int], os[q]));
                                    crate::order::lemma_lex_asymmetric(os[j as int], os[q]);
                                }
                            }
                        }
                    }
                    let n = ordered[j].clone();
                    proof {
                        assert(n@ == os[j as int]);
                        assert(ns.contains(n@));
                        assert(ns.index_of(n@) == i);
                        assert(visible_name(ns, visible@, n@));
                        assert(cands.contains(n@));
                    }
                    return PrimaryChoice::Use(n);
                }
            },
            None => {},
        }
        j = j + 1;
    }
    proof {
        assert forall|c: Seq<char>| #[trigger] cands.contains(c) implies !visible_name(ns, visible@, c) by {
            assert(os.contains(c));
            let q = os.index_of(c);
            assert(os[q] == c);
        }
    }
    if names.len() > 1 {
        let need_key = picked.unicode_len() == 0 || index_of_name(names, picked).is_none();
        if need_key && comp.len() > 0 {
            assert(strs(comp@)[0] == comp@[0]@);
            return PrimaryChoice::Blank(comp[0].clone());
        }
        return PrimaryChoice::Blank(crate::text::string_from_chars(chars_of(picked).as_slice()));
    }
    PrimaryChoice::Nothing
}

} // verus!
