//! The index of the frames the Geode buttons tool can generate: the target
//! frames of a sheet, grouped, with the groups ascending by id and the frames
//! of a group ascending by name.

use vstd::prelude::*;
use crate::errors::AppError;
use crate::facts::PathFacts;
use crate::game_files::{gd_required_message, geometry_dash_required_error, Platform};
use crate::geode_buttons::{
    target_group_for_frame, target_group_spec, GeodeButtonsTargetFrame, GeodeButtonsTargetGroup,
    GeodeButtonsTargetSize,
};
use crate::layout::GameFilesLayout;
use crate::order::{lemma_lex_asymmetric, lemma_lex_irreflexive, lemma_lex_total, lemma_lex_transitive, lex_lt, lex_lt_str};

verus! {

/// The group a frame of the sheet joins, as its id and label: frames without
/// a sprite size join none.
#[verifier::opaque]
pub open spec fn frame_entry(f: (String, Option<GeodeButtonsTargetSize>)) -> Option<(Seq<char>, Seq<char>)> {
    match f.1 {
        Some(_) => target_group_spec(f.0@),
        None => None,
    }
}

/// The id of the group a frame joins (empty when it joins none).
pub open spec fn entry_id(f: (String, Option<GeodeButtonsTargetSize>)) -> Seq<char> {
    match frame_entry(f) {
        Some((i, _)) => i,
        None => Seq::empty(),
    }
}

/// Frame `k` of the sheet joins a group.
pub open spec fn targeted(input: Seq<(String, Option<GeodeButtonsTargetSize>)>, k: int) -> bool {
    frame_entry(input[k]) is Some
}

/// The frame names of the sheet are distinct (they are a dictionary's keys).
pub open spec fn names_distinct(input: Seq<(String, Option<GeodeButtonsTargetSize>)>) -> bool {
    forall|i: int, k: int| 0 <= i < k < input.len() ==> (#[trigger] input[i]).0@ != (#[trigger] input[k]).0@
}

/// Group ids strictly ascending.
pub open spec fn ids_sorted(g: Seq<GeodeButtonsTargetGroup>) -> bool {
    forall|a: int, b: int| 0 <= a < b < g.len() ==> lex_lt((#[trigger] g[a]).id@, (#[trigger] g[b]).id@)
}

/// Frame names strictly ascending.
pub open spec fn names_sorted(f: Seq<GeodeButtonsTargetFrame>) -> bool {
    forall|a: int, b: int| 0 <= a < b < f.len() ==> lex_lt((#[trigger] f[a]).name@, (#[trigger] f[b]).name@)
}

/// Frame `k` of the sheet joins group `id` as `fr`.
pub open spec fn joins_as(input: Seq<(String, Option<GeodeButtonsTargetSize>)>, k: int, id: Seq<char>, fr: GeodeButtonsTargetFrame) -> bool {
    &&& 0 <= k < input.len()
    &&& input[k].0@ == fr.name@
    &&& input[k].1 == Some(fr.sprite_size)
    &&& frame_entry(input[k]) matches Some((i, _)) && i == id
}

/// Group `a` holds frame `k` of the sheet.
pub open spec fn holds(g: Seq<GeodeButtonsTargetGroup>, a: int, input: Seq<(String, Option<GeodeButtonsTargetSize>)>, k: int) -> bool {
    0 <= a < g.len() && exists|m: int| 0 <= m < g[a].frames@.len() && #[trigger] g[a].frames@[m].name@ == input[k].0@
        && input[k].1 == Some(g[a].frames@[m].sprite_size)
}

/// Some frame among the first `n` joins group `id` under `label`.
pub open spec fn labelled(input: Seq<(String, Option<GeodeButtonsTargetSize>)>, n: int, id: Seq<char>, label: Seq<char>) -> bool {
    exists|k: int| 0 <= k < n && frame_entry(#[trigger] input[k]) == Some((id, label))
}

/// `fr` is one of the first `n` frames, joining group `id`.
pub open spec fn from_prefix(input: Seq<(String, Option<GeodeButtonsTargetSize>)>, n: int, id: Seq<char>, fr: GeodeButtonsTargetFrame) -> bool {
    exists|k: int| 0 <= k < n && #[trigger] joins_as(input, k, id, fr)
}

/// Frame `k` is held by the group of its id.
pub open spec fn placed(g: Seq<GeodeButtonsTargetGroup>, input: Seq<(String, Option<GeodeButtonsTargetSize>)>, k: int) -> bool {
    exists|a: int| #[trigger] holds(g, a, input, k) && g[a].id@ == entry_id(input[k])
}

/// The index of the first `n` frames of the sheet: groups ascending by id,
/// each non-empty, its frames ascending by name and without a preview; each
/// group's id and label those of a frame; each frame of a group a frame of
/// the sheet that joins it; each frame of the sheet that joins a group held
/// by the group of its id.
#[verifier::opaque]
pub open spec fn index_of_prefix(g: Seq<GeodeButtonsTargetGroup>, input: Seq<(String, Option<GeodeButtonsTargetSize>)>, n: int) -> bool {
    &&& ids_sorted(g)
    &&& forall|a: int| 0 <= a < g.len() ==> {
        &&& names_sorted((#[trigger] g[a]).frames@)
        &&& g[a].frames@.len() > 0
        &&& g[a].preview_png_data_url is None
        &&& labelled(input, n, g[a].id@, g[a].label@)
    }
    &&& forall|a: int, m: int| 0 <= a < g.len() && 0 <= m < g[a].frames@.len() ==> #[trigger] from_prefix(
        input,
        n,
        g[a].id@,
        g[a].frames@[m],
    )
    &&& forall|k: int| 0 <= k < n && #[trigger] targeted(input, k) ==> placed(g, input, k)
}

/// The first group whose id is not below `id`.
fn group_position(groups: &Vec<GeodeButtonsTargetGroup>, id: &str) -> (r: usize)
    ensures
        r <= groups@.len(),
        forall|a: int| 0 <= a < r ==> lex_lt((#[trigger] groups@[a]).id@, id@),
        r < groups@.len() ==> !lex_lt(groups@[r as int].id@, id@),
{
    let mut i: usize = 0;
    while i < groups.len()
        invariant
            i <= groups@.len(),
            forall|a: int| 0 <= a < i ==> lex_lt((#[trigger] groups@[a]).id@, id@),
        decreases groups@.len() - i,
    {
        if !lex_lt_str(groups[i].id.as_str(), id) {
            return i;
        }
        i = i + 1;
    }
    i
}

/// The first frame whose name is not below `name`.
fn frame_position(frames: &Vec<GeodeButtonsTargetFrame>, name: &str) -> (r: usize)
    ensures
        r <= frames@.len(),
        forall|a: int| 0 <= a < r ==> lex_lt((#[trigger] frames@[a]).name@, name@),
        r < frames@.len() ==> !lex_lt(frames@[r as int].name@, name@),
{
    let mut i: usize = 0;
    while i < frames.len()
        invariant
            i <= frames@.len(),
            forall|a: int| 0 <= a < i ==> lex_lt((#[trigger] frames@[a]).name@, name@),
        decreases frames@.len() - i,
    {
        if !lex_lt_str(frames[i].name.as_str(), name) {
            return i;
        }
        i = i + 1;
    }
    i
}

proof fn lemma_extend_prefix(g: Seq<GeodeButtonsTargetGroup>, input: Seq<(String, Option<GeodeButtonsTargetSize>)>, n: int)
    requires
        0 <= n < input.len(),
        index_of_prefix(g, input, n),
        frame_entry(input[n]) is None,
    ensures
        index_of_prefix(g, input, n + 1),
{
    reveal(index_of_prefix);
    assert forall|a: int| 0 <= a < g.len() implies labelled(input, n + 1, (#[trigger] g[a]).id@, g[a].label@) by {
        assert(labelled(input, n, g[a].id@, g[a].label@));
        let k = choose|k: int| 0 <= k < n && frame_entry(#[trigger] input[k]) == Some((g[a].id@, g[a].label@));
        assert(frame_entry(input[k]) == Some((g[a].id@, g[a].label@)));
    }
    assert forall|a: int, m: int| 0 <= a < g.len() && 0 <= m < g[a].frames@.len() implies #[trigger] from_prefix(input, n + 1, g[a].id@, g[a].frames@[m]) by {
        assert(from_prefix(input, n, g[a].id@, g[a].frames@[m]));
        let k = choose|k: int| 0 <= k < n && #[trigger] joins_as(input, k, g[a].id@, g[a].frames@[m]);
        assert(joins_as(input, k, g[a].id@, g[a].frames@[m]));
    }
}

/// The index after frame `k` joined the existing group `p` at place `q`.
#[verifier::spinoff_prover]
proof fn lemma_join_group(
    g0: Seq<GeodeButtonsTargetGroup>,
    p: int,
    q: int,
    frame: GeodeButtonsTargetFrame,
    newg: GeodeButtonsTargetGroup,
    input: Seq<(String, Option<GeodeButtonsTargetSize>)>,
    k: int,
)
    requires
        0 <= k < input.len(),
        index_of_prefix(g0, input, k),
        0 <= p < g0.len(),
        g0[p].id@ == entry_id(input[k]),
        frame_entry(input[k]) is Some,
        input[k].0@ == frame.name@,
        input[k].1 == Some(frame.sprite_size),
        0 <= q <= g0[p].frames@.len(),
        forall|a: int| 0 <= a < q ==> lex_lt((#[trigger] g0[p].frames@[a]).name@, frame.name@),
        q < g0[p].frames@.len() ==> lex_lt(frame.name@, g0[p].frames@[q].name@),
        newg.id == g0[p].id,
        newg.label == g0[p].label,
        newg.preview_png_data_url == g0[p].preview_png_data_url,
        newg.frames@ == g0[p].frames@.insert(q, frame),
    ensures
        index_of_prefix(g0.update(p, newg), input, k + 1),
{
    reveal(index_of_prefix);
    let g1 = g0.update(p, newg);
    let f0 = g0[p].frames@;
    let f1 = newg.frames@;
    assert(joins_as(input, k, newg.id@, frame));
    assert(names_sorted(f0));
    assert forall|b: int| q <= b < f0.len() implies lex_lt(frame.name@, (#[trigger] f0[b]).name@) by {
        if b > q {
            assert(lex_lt(f0[q].name@, f0[b].name@));
            lemma_lex_transitive(frame.name@, f0[q].name@, f0[b].name@);
        }
    }
    assert forall|a: int, b: int| 0 <= a < b < f1.len() implies lex_lt((#[trigger] f1[a]).name@, (#[trigger] f1[b]).name@) by {
        if a < q && b > q {
            assert(f1[a] == f0[a]);
            assert(f1[b] == f0[b - 1]);
            lemma_lex_transitive(f0[a].name@, frame.name@, f0[b - 1].name@);
        } else if a == q {
            assert(f1[b] == f0[b - 1]);
        } else if b == q {
            assert(f1[a] == f0[a]);
        } else if b < q {
            assert(f1[a] == f0[a] && f1[b] == f0[b]);
        } else {
            assert(f1[a] == f0[a - 1] && f1[b] == f0[b - 1]);
            assert(lex_lt(f0[a - 1].name@, f0[b - 1].name@));
        }
    }
    assert(names_sorted(f1));
    assert forall|a: int, b: int| 0 <= a < b < g1.len() implies lex_lt((#[trigger] g1[a]).id@, (#[trigger] g1[b]).id@) by {
        assert(lex_lt(g0[a].id@, g0[b].id@));
    }
    assert forall|a: int| 0 <= a < g1.len() implies {
        &&& names_sorted((#[trigger] g1[a]).frames@)
        &&& g1[a].frames@.len() > 0
        &&& g1[a].preview_png_data_url is None
        &&& labelled(input, k + 1, g1[a].id@, g1[a].label@)
    } by {
        assert(names_sorted(g0[a].frames@));
        assert(labelled(input, k, g0[a].id@, g0[a].label@));
        let kk = choose|kk: int| 0 <= kk < k && frame_entry(#[trigger] input[kk]) == Some((g0[a].id@, g0[a].label@));
        assert(frame_entry(input[kk]) == Some((g1[a].id@, g1[a].label@)));
    }
    assert forall|a: int, m: int| 0 <= a < g1.len() && 0 <= m < g1[a].frames@.len() implies #[trigger] from_prefix(input, k + 1, g1[a].id@, g1[a].frames@[m]) by {
        if a != p {
            assert(from_prefix(input, k, g0[a].id@, g0[a].frames@[m]));
            let kk = choose|kk: int| 0 <= kk < k && #[trigger] joins_as(input, kk, g0[a].id@, g0[a].frames@[m]);
            assert(joins_as(input, kk, g1[a].id@, g1[a].frames@[m]));
        } else if m == q {
            assert(joins_as(input, k, g1[a].id@, g1[a].frames@[m]));
        } else {
            let m0 = if m < q { m } else { m - 1 };
            assert(g1[a].frames@[m] == f0[m0]);
            assert(from_prefix(input, k, g0[a].id@, g0[a].frames@[m0]));
            let kk = choose|kk: int| 0 <= kk < k && #[trigger] joins_as(input, kk, g0[a].id@, g0[a].frames@[m0]);
            assert(joins_as(input, kk, g1[a].id@, g1[a].frames@[m]));
        }
    }
    assert forall|kk: int| 0 <= kk < k + 1 && #[trigger] targeted(input, kk) implies placed(g1, input, kk) by {
        if kk == k {
            assert(g1[p].frames@[q].name@ == input[k].0@);
            assert(holds(g1, p, input, k));
        } else {
            assert(placed(g0, input, kk));
            let a = choose|a: int| #[trigger] holds(g0, a, input, kk) && g0[a].id@ == entry_id(input[kk]);
            let m = choose|m: int| 0 <= m < g0[a].frames@.len() && #[trigger] g0[a].frames@[m].name@ == input[kk].0@
                && input[kk].1 == Some(g0[a].frames@[m].sprite_size);
            if a != p {
                assert(g1[a].frames@[m].name@ == input[kk].0@);
                assert(holds(g1, a, input, kk));
            } else {
                let m1 = if m < q { m } else { m + 1 };
                assert(g1[a].frames@[m1] == f0[m]);
                assert(g1[a].frames@[m1].name@ == input[kk].0@);
                assert(holds(g1, a, input, kk));
            }
        }
    }
}

/// The index after frame `k` opened a new group at place `p`.
#[verifier::spinoff_prover]
proof fn lemma_new_group(
    g0: Seq<GeodeButtonsTargetGroup>,
    p: int,
    g: GeodeButtonsTargetGroup,
    input: Seq<(String, Option<GeodeButtonsTargetSize>)>,
    k: int,
)
    requires
        0 <= k < input.len(),
        index_of_prefix(g0, input, k),
        0 <= p <= g0.len(),
        forall|a: int| 0 <= a < p ==> lex_lt((#[trigger] g0[a]).id@, g.id@),
        p < g0.len() ==> lex_lt(g.id@, g0[p].id@),
        frame_entry(input[k]) == Some((g.id@, g.label@)),
        g.frames@.len() == 1,
        g.frames@[0].name@ == input[k].0@,
        input[k].1 == Some(g.frames@[0].sprite_size),
        g.preview_png_data_url is None,
    ensures
        index_of_prefix(g0.insert(p, g), input, k + 1),
{
    reveal(index_of_prefix);
    let g1 = g0.insert(p, g);
    assert forall|b: int| p <= b < g0.len() implies lex_lt(g.id@, (#[trigger] g0[b]).id@) by {
        if b > p {
            assert(lex_lt(g0[p].id@, g0[b].id@));
            lemma_lex_transitive(g.id@, g0[p].id@, g0[b].id@);
        }
    }
    assert forall|a: int, b: int| 0 <= a < b < g1.len() implies lex_lt((#[trigger] g1[a]).id@, (#[trigger] g1[b]).id@) by {
        if a < p && b > p {
            assert(g1[a] == g0[a]);
            assert(g1[b] == g0[b - 1]);
            lemma_lex_transitive(g0[a].id@, g.id@, g0[b - 1].id@);
        } else if a == p {
            assert(g1[b] == g0[b - 1]);
        } else if b == p {
            assert(g1[a] == g0[a]);
        } else if b < p {
            assert(g1[a] == g0[a] && g1[b] == g0[b]);
            assert(lex_lt(g0[a].id@, g0[b].id@));
        } else {
            assert(g1[a] == g0[a - 1] && g1[b] == g0[b - 1]);
            assert(lex_lt(g0[a - 1].id@, g0[b - 1].id@));
        }
    }
    assert(names_sorted(g.frames@));
    assert forall|a: int| 0 <= a < g1.len() implies {
        &&& names_sorted((#[trigger] g1[a]).frames@)
        &&& g1[a].frames@.len() > 0
        &&& g1[a].preview_png_data_url is None
        &&& labelled(input, k + 1, g1[a].id@, g1[a].label@)
    } by {
        if a == p {
            assert(frame_entry(input[k]) == Some((g1[a].id@, g1[a].label@)));
        } else {
            let a0 = if a < p { a } else { a - 1 };
            assert(g1[a] == g0[a0]);
            assert(names_sorted(g0[a0].frames@));
            assert(labelled(input, k, g0[a0].id@, g0[a0].label@));
            let kk = choose|kk: int| 0 <= kk < k && frame_entry(#[trigger] input[kk]) == Some((g0[a0].id@, g0[a0].label@));
            assert(frame_entry(input[kk]) == Some((g1[a].id@, g1[a].label@)));
        }
    }
    assert forall|a: int, m: int| 0 <= a < g1.len() && 0 <= m < g1[a].frames@.len() implies #[trigger] from_prefix(input, k + 1, g1[a].id@, g1[a].frames@[m]) by {
        if a == p {
            assert(joins_as(input, k, g1[a].id@, g1[a].frames@[m]));
        } else {
            let a0 = if a < p { a } else { a - 1 };
            assert(g1[a] == g0[a0]);
            assert(from_prefix(input, k, g0[a0].id@, g0[a0].frames@[m]));
            let kk = choose|kk: int| 0 <= kk < k && #[trigger] joins_as(input, kk, g0[a0].id@, g0[a0].frames@[m]);
            assert(joins_as(input, kk, g1[a].id@, g1[a].frames@[m]));
        }
    }
    assert forall|kk: int| 0 <= kk < k + 1 && #[trigger] targeted(input, kk) implies placed(g1, input, kk) by {
        if kk == k {
            assert(g1[p].frames@[0].name@ == input[k].0@);
            assert(holds(g1, p, input, k));
        } else {
            assert(placed(g0, input, kk));
            let a = choose|a: int| #[trigger] holds(g0, a, input, kk) && g0[a].id@ == entry_id(input[kk]);
            let m = choose|m: int| 0 <= m < g0[a].frames@.len() && #[trigger] g0[a].frames@[m].name@ == input[kk].0@
                && input[kk].1 == Some(g0[a].frames@[m].sprite_size);
            let a1 = if a < p { a } else { a + 1 };
            assert(g1[a1] == g0[a]);
            assert(g1[a1].frames@[m].name@ == input[kk].0@);
            assert(holds(g1, a1, input, kk));
        }
    }
}

/// Puts frame `k` of the sheet into the index of the frames before it.
fn add_frame(
    groups: &mut Vec<GeodeButtonsTargetGroup>,
    id: String,
    label: String,
    frame: GeodeButtonsTargetFrame,
    Ghost(input): Ghost<Seq<(String, Option<GeodeButtonsTargetSize>)>>,
    Ghost(k): Ghost<int>,
)
    requires
        0 <= k < input.len(),
        names_distinct(input),
        index_of_prefix(old(groups)@, input, k),
        frame_entry(input[k]) == Some((id@, label@)),
        input[k].0@ == frame.name@,
        input[k].1 == Some(frame.sprite_size),
    ensures
        index_of_prefix(final(groups)@, input, k + 1),
{
    let ghost g0 = groups@;
    let p = group_position(groups, id.as_str());
    if p < groups.len() && !lex_lt_str(id.as_str(), groups[p].id.as_str()) {
        proof {
            lemma_lex_total(g0[p as int].id@, id@);
        }
        proof {
            reveal(index_of_prefix);
        }
        let mut g = groups.remove(p);
        let ghost f0 = g.frames@;
        let q = frame_position(&g.frames, frame.name.as_str());
        proof {
            assert(g == g0[p as int]);
            if q < f0.len() {
                assert(from_prefix(input, k, g0[p as int].id@, g0[p as int].frames@[q as int]));
                let kk = choose|kk: int| 0 <= kk < k && #[trigger] joins_as(input, kk, g0[p as int].id@, g0[p as int].frames@[q as int]);
                assert(input[kk].0@ != input[k].0@);
                lemma_lex_total(f0[q as int].name@, frame.name@);
            }
        }
        let ghost fr = frame;
        g.frames.insert(q, frame);
        proof {
            lemma_join_group(g0, p as int, q as int, fr, g, input, k);
        }
        groups.insert(p, g);
        proof {
            assert(groups@ =~= g0.update(p as int, g));
        }
    } else {
        proof {
            if p < g0.len() {
                lemma_lex_total(g0[p as int].id@, id@);
            }
        }
        let mut frames: Vec<GeodeButtonsTargetFrame> = Vec::new();
        frames.push(frame);
        let g = GeodeButtonsTargetGroup { id, label, frames, preview_png_data_url: None };
        proof {
            lemma_new_group(g0, p as int, g, input, k);
        }
        groups.insert(p, g);
    }
}

/// The target index of a sheet, from its frames as the `.plist` reading gave
/// them (each name with its sprite size, when it has a readable one), or
/// from the error that reading gave. With the cache requested, Geometry Dash
/// must be found first. The previews are filled in afterwards.
pub fn geode_buttons_target_index(
    layout: &GameFilesLayout,
    facts: &PathFacts,
    platform: Platform,
    use_game_files_cache: bool,
    parsed_frames: Result<Vec<(String, Option<GeodeButtonsTargetSize>)>, AppError>,
) -> (r: Result<Vec<GeodeButtonsTargetGroup>, AppError>)
    requires
        parsed_frames matches Ok(f) ==> names_distinct(f@),
    ensures
        use_game_files_cache && !layout.found_spec(*facts) ==> (r matches Err(AppError::IoError(m)) && m@ == gd_required_message(platform)),
        !(use_game_files_cache && !layout.found_spec(*facts)) ==> match parsed_frames {
            Err(e) => r == Err::<Vec<GeodeButtonsTargetGroup>, AppError>(e),
            Ok(f) => match r {
                Ok(g) => index_of_prefix(g@, f@, f@.len() as int),
                Err(_) => false,
            },
        },
{
    if use_game_files_cache && !layout.geometry_dash_found(facts) {
        return Err(geometry_dash_required_error(platform));
    }
    let frames = match parsed_frames {
        Ok(f) => f,
        Err(e) => return Err(e),
    };
    let ghost input = frames@;
    proof {
        reveal(index_of_prefix);
        assert(index_of_prefix(Seq::<GeodeButtonsTargetGroup>::empty(), input, 0));
    }
    let mut groups: Vec<GeodeButtonsTargetGroup> = Vec::new();
    let mut i: usize = 0;
    while i < frames.len()
        invariant
            i <= frames@.len(),
            input == frames@,
            names_distinct(input),
            !(use_game_files_cache && !layout.found_spec(*facts)),
            parsed_frames matches Ok(f) && f@ == input,
            index_of_prefix(groups@, input, i as int),
        decreases frames@.len() - i,
    {
        let name = &frames[i].0;
        match frames[i].1 {
            None => {
                proof {
                    reveal(frame_entry);
                    assert(frame_entry(input[i as int]) is None);
                    lemma_extend_prefix(groups@, input, i as int);
                }
            },
            Some(size) => {
                match target_group_for_frame(name.as_str()) {
                    Err(e) => {
                        return Err(e);
                    },
                    Ok(None) => {
                        proof {
                            reveal(frame_entry);
                            assert(frame_entry(input[i as int]) is None);
                            lemma_extend_prefix(groups@, input, i as int);
                        }
                    },
                    Ok(Some((id, label))) => {
                        let frame = GeodeButtonsTargetFrame { name: name.clone(), sprite_size: size };
                        proof {
                            reveal(frame_entry);
                        }
                        add_frame(&mut groups, id, label, frame, Ghost(input), Ghost(i as int));
                    },
                }
            },
        }
        i = i + 1;
    }
    Ok(groups)
}

} // verus!
