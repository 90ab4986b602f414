//! Sizing and templates of the Geode button families: the largest sprite
//! of each family, and the template image a frame is drawn from.

use vstd::prelude::*;
use crate::facts::str_eq;
use crate::geode_buttons::{base_type_spec, family_id_spec, frame_base_type, frame_family_id, frame_variant_from_color_suffix, variant_of_spec};
use crate::report::{ReportIssue, ReportLevel};
use crate::order::{lex_lt, lex_lt_str};
use crate::text::opt_view;

verus! {

/// Sprites by name, with their width and height.
pub open spec fn sprite_views(s: Seq<(String, u32, u32)>) -> Seq<(Seq<char>, u32, u32)> {
    s.map_values(|e: (String, u32, u32)| (e.0@, e.1, e.2))
}

/// The area of a `w × h` sprite.
pub open spec fn area(w: u32, h: u32) -> int {
    w * h
}

/// The size of the largest sprite of family `f` among the first `k`
/// sprites; the first one of that area when several share it.
pub open spec fn family_dims_spec(s: Seq<(Seq<char>, u32, u32)>, f: Seq<char>, k: int) -> Option<(u32, u32)>
    decreases k,
{
    if k <= 0 {
        None
    } else {
        let prev = family_dims_spec(s, f, k - 1);
        let e = s[k - 1];
        if family_id_spec(e.0) == Some(f) {
            match prev {
                None => Some((e.1, e.2)),
                Some(best) => if area(e.1, e.2) > area(best.0, best.1) {
                    Some((e.1, e.2))
                } else {
                    prev
                },
            }
        } else {
            prev
        }
    }
}

/// Family entries by family id.
pub open spec fn family_views(out: Seq<(String, u32, u32)>) -> Seq<(Seq<char>, u32, u32)> {
    sprite_views(out)
}

fn area_u64(w: u32, h: u32) -> (r: u64)
    ensures
        r == area(w, h),
{
    assert((w as int) * (h as int) <= u64::MAX) by (nonlinear_arith)
        requires
            w <= u32::MAX,
            h <= u32::MAX,
    ;
    (w as u64) * (h as u64)
}

fn position_of_family(out: &Vec<(String, u32, u32)>, f: &str) -> (r: Option<usize>)
    ensures
        match r {
            Some(i) => i < out@.len() && out@[i as int].0@ == f@,
            None => forall|i: int| 0 <= i < out@.len() ==> (#[trigger] out@[i]).0@ != f@,
        },
{
    let mut i: usize = 0;
    while i < out.len()
        invariant
            i <= out@.len(),
            forall|k: int| 0 <= k < i ==> (#[trigger] out@[k]).0@ != f@,
        decreases out@.len() - i,
    {
        if str_eq(out[i].0.as_str(), f) {
            return Some(i);
        }
        i = i + 1;
    }
    None
}

/// The size of the largest sprite of each family, one entry per family
/// (see [`family_dims_spec`]), in the order the families first occur.
pub fn build_family_largest_dims(sprites: &Vec<(String, u32, u32)>) -> (out: Vec<(String, u32, u32)>)
    ensures
        forall|i: int, j: int| 0 <= i < j < out@.len() ==> (#[trigger] out@[i]).0@ != (#[trigger] out@[j]).0@,
        forall|i: int|
            0 <= i < out@.len() ==> family_dims_spec(sprite_views(sprites@), (#[trigger] out@[i]).0@, sprites@.len() as int)
                == Some((out@[i].1, out@[i].2)),
        forall|f: Seq<char>|
            #[trigger] family_dims_spec(sprite_views(sprites@), f, sprites@.len() as int) is Some ==> exists|i: int|
                0 <= i < out@.len() && (#[trigger] out@[i]).0@ == f,
{
    let ghost sv = sprite_views(sprites@);
    let mut out: Vec<(String, u32, u32)> = Vec::new();
    let mut k: usize = 0;
    while k < sprites.len()
        invariant
            sv == sprite_views(sprites@),
            k <= sprites@.len(),
            forall|i: int, j: int| 0 <= i < j < out@.len() ==> (#[trigger] out@[i]).0@ != (#[trigger] out@[j]).0@,
            forall|i: int|
                0 <= i < out@.len() ==> family_dims_spec(sv, (#[trigger] out@[i]).0@, k as int) == Some(
                    (out@[i].1, out@[i].2),
                ),
            forall|f: Seq<char>|
                #[trigger] family_dims_spec(sv, f, k as int) is Some ==> exists|i: int|
                    0 <= i < out@.len() && (#[trigger] out@[i]).0@ == f,
        decreases sprites@.len() - k,
    {
        let ghost before = out@;
        let name = &sprites[k].0;
        let w = sprites[k].1;
        let h = sprites[k].2;
        assert(sv[k as int] == (name@, w, h));
        match frame_family_id(name.as_str()) {
            None => {
                proof {
                    assert forall|f: Seq<char>| #[trigger] family_dims_spec(sv, f, k + 1) == family_dims_spec(sv, f, k as int) by {}
                }
            },
            Some(fam) => {
                let a = area_u64(w, h);
                match position_of_family(&out, fam.as_str()) {
                    None => {
                        proof {
                            assert(family_dims_spec(sv, fam@, k as int) is None) by {
                                if family_dims_spec(sv, fam@, k as int) is Some {
                                    let i = choose|i: int| 0 <= i < before.len() && (#[trigger] before[i]).0@ == fam@;
                                }
                            }
                        }
                        out.push((fam, w, h));
                    },
                    Some(i) => {
                        let bw = out[i].1;
                        let bh = out[i].2;
                        if a > area_u64(bw, bh) {
                            let f2 = out[i].0.clone();
                            out.set(i, (f2, w, h));
                        }
                    },
                }
                proof {
                    assert forall|f: Seq<char>|
                        #[trigger] family_dims_spec(sv, f, k + 1) is Some implies exists|j: int|
                            0 <= j < out@.len() && (#[trigger] out@[j]).0@ == f by {
                        if f == fam@ {
                            if out@.len() > before.len() {
                                assert(out@[before.len() as int].0@ == f);
                            } else {
                                let j = choose|j: int| 0 <= j < before.len() && (#[trigger] before[j]).0@ == f;
                                assert(out@[j].0@ == f);
                            }
                        } else {
                            assert(family_dims_spec(sv, f, k + 1) == family_dims_spec(sv, f, k as int));
                            let j = choose|j: int| 0 <= j < before.len() && (#[trigger] before[j]).0@ == f;
                            assert(out@[j].0@ == f);
                        }
                    }
                }
            },
        }
        k = k + 1;
    }
    out
}

/// The index of the largest sprite of family `family`: the greatest area,
/// and among equal areas the least name (by code point); none when no
/// sprite belongs to the family.
pub open spec fn largest_in_family_spec(s: Seq<(Seq<char>, u32, u32)>, family: Seq<char>, k: int) -> Option<int>
    decreases k,
{
    if k <= 0 {
        None
    } else {
        let prev = largest_in_family_spec(s, family, k - 1);
        let e = s[k - 1];
        if family_id_spec(e.0) != Some(family) {
            prev
        } else {
            match prev {
                None => Some(k - 1),
                Some(b) => if area(e.1, e.2) > area(s[b].1, s[b].2) || (area(e.1, e.2) == area(s[b].1, s[b].2)
                    && lex_lt(e.0, s[b].0)) {
                    Some(k - 1)
                } else {
                    prev
                },
            }
        }
    }
}

/// Which sprite stands in for a family that has no template: the largest
/// (see [`largest_in_family_spec`]).
pub fn largest_family_sprite(family: &str, sprites: &Vec<(String, u32, u32)>) -> (r: Option<usize>)
    ensures
        match r {
            Some(i) => i < sprites@.len() && largest_in_family_spec(sprite_views(sprites@), family@, sprites@.len() as int)
                == Some(i as int),
            None => largest_in_family_spec(sprite_views(sprites@), family@, sprites@.len() as int) is None,
        },
{
    let ghost sv = sprite_views(sprites@);
    let mut best: Option<usize> = None;
    let mut k: usize = 0;
    while k < sprites.len()
        invariant
            sv == sprite_views(sprites@),
            k <= sprites@.len(),
            match best {
                Some(i) => i < k && largest_in_family_spec(sv, family@, k as int) == Some(i as int),
                None => largest_in_family_spec(sv, family@, k as int) is None,
            },
        decreases sprites@.len() - k,
    {
        let name = &sprites[k].0;
        let w = sprites[k].1;
        let h = sprites[k].2;
        assert(sv[k as int] == (name@, w, h));
        let fam = frame_family_id(name.as_str());
        let same = match &fam {
            Some(f) => str_eq(f.as_str(), family),
            None => false,
        };
        if same {
            let a = area_u64(w, h);
            match best {
                None => {
                    best = Some(k);
                },
                Some(b) => {
                    assert(sv[b as int] == (sprites@[b as int].0@, sprites@[b as int].1, sprites@[b as int].2));
                    let ba = area_u64(sprites[b].1, sprites[b].2);
                    if a > ba || (a == ba && lex_lt_str(name.as_str(), sprites[b].0.as_str())) {
                        best = Some(k);
                    }
                },
            }
        }
        k = k + 1;
    }
    best
}

/// The templates by family, as entries of key and path.
pub open spec fn entry_views(e: Seq<(String, String)>) -> Seq<(Seq<char>, Seq<char>)> {
    e.map_values(|x: (String, String)| (x.0@, x.1@))
}

/// The path of the first entry with key `key`.
pub open spec fn lookup_spec(e: Seq<(Seq<char>, Seq<char>)>, key: Seq<char>, j: int) -> Option<Seq<char>>
    decreases e.len() - j,
{
    if j < 0 || j >= e.len() {
        None
    } else if e[j].0 == key {
        Some(e[j].1)
    } else {
        lookup_spec(e, key, j + 1)
    }
}

fn lookup(entries: &Vec<(String, String)>, key: &str) -> (r: Option<String>)
    ensures
        opt_view(r) == lookup_spec(entry_views(entries@), key@, 0),
{
    let ghost ev = entry_views(entries@);
    let mut j: usize = entries.len();
    let mut found: Option<String> = None;
    while j > 0
        invariant
            ev == entry_views(entries@),
            j <= entries@.len(),
            opt_view(found) == lookup_spec(ev, key@, j as int),
        decreases j,
    {
        j = j - 1;
        assert(ev[j as int] == (entries@[j as int].0@, entries@[j as int].1@));
        if str_eq(entries[j].0.as_str(), key) {
            found = Some(entries[j].1.clone());
        }
    }
    found
}

/// The template a frame is drawn from: its family's template; for the three
/// tab states their own template, else the `tabs` template; else none.
pub open spec fn template_path_spec(
    e: Seq<(Seq<char>, Seq<char>)>,
    selected: Option<Seq<char>>,
    unselected: Option<Seq<char>>,
    unselected_dark: Option<Seq<char>>,
    frame: Seq<char>,
) -> Option<Seq<char>> {
    let by_family = match family_id_spec(frame) {
        Some(f) => lookup_spec(e, f, 0),
        None => None,
    };
    let tabs = lookup_spec(e, "tabs"@, 0);
    if by_family is Some {
        by_family
    } else if frame == "geode.loader/baseTab_Normal_Selected.png"@ {
        if selected is Some { selected } else { tabs }
    } else if frame == "geode.loader/baseTab_Normal_Unselected.png"@ {
        if unselected is Some { unselected } else { tabs }
    } else if frame == "geode.loader/baseTab_Normal_UnselectedDark.png"@ {
        if unselected_dark is Some { unselected_dark } else { tabs }
    } else {
        None
    }
}

/// The template path a frame is drawn from (see [`template_path_spec`]);
/// `family_templates` holds the templates by family, as entries.
pub fn template_path_for_frame(
    family_templates: &Vec<(String, String)>,
    tab_selected: &Option<String>,
    tab_unselected: &Option<String>,
    tab_unselected_dark: &Option<String>,
    frame_name: &str,
) -> (r: Option<String>)
    ensures
        opt_view(r) == template_path_spec(
            entry_views(family_templates@),
            opt_view(*tab_selected),
            opt_view(*tab_unselected),
            opt_view(*tab_unselected_dark),
            frame_name@,
        ),
{
    if let Some(family) = frame_family_id(frame_name) {
        if let Some(path) = lookup(family_templates, family.as_str()) {
            return Some(path);
        }
    }
    let tabs_or = |own: &Option<String>| -> (r: Option<String>)
        ensures
            opt_view(r) == (if own is Some { opt_view(*own) } else { lookup_spec(entry_views(family_templates@), "tabs"@, 0) }),
    {
        match own {
            Some(p) => Some(p.clone()),
            None => lookup(family_templates, "tabs"),
        }
    };
    if str_eq(frame_name, "geode.loader/baseTab_Normal_Selected.png") {
        return tabs_or(tab_selected);
    }
    if str_eq(frame_name, "geode.loader/baseTab_Normal_Unselected.png") {
        return tabs_or(tab_unselected);
    }
    if str_eq(frame_name, "geode.loader/baseTab_Normal_UnselectedDark.png") {
        return tabs_or(tab_unselected_dark);
    }
    None
}

/// What the buttons tool does with one frame of the sheet.
#[derive(Debug, PartialEq, Eq)]
pub enum ButtonFrameStep {
    /// Not a frame of a known family: left as it is.
    NotTarget,
    /// A coloured kind whose colour maps to no variant: left as it is, with a
    /// warning.
    UnmappedVariant,
    /// Redrawn from the template at this path.
    Template(String),
    /// Redrawn from the largest sprite of this family.
    FamilyBase(String),
}

/// The kinds whose frames must carry a colour variant.
pub open spec fn needs_variant(t: Seq<char>) -> bool {
    t == "circle"@ || t == "cross"@ || t == "category"@ || t == "leaderboard"@
}

/// The step for frame `name` (see [`ButtonFrameStep`]), as plain values: 0
/// not a target, 1 unmapped, 2 a template (with its path), 3 the family's
/// largest sprite (with the family).
pub open spec fn button_step_spec(
    templates: Seq<(Seq<char>, Seq<char>)>,
    sel: Option<Seq<char>>,
    unsel: Option<Seq<char>>,
    dark: Option<Seq<char>>,
    name: Seq<char>,
) -> (int, Seq<char>) {
    match family_id_spec(name) {
        None => (0, Seq::empty()),
        Some(f) => {
            let t = match base_type_spec(name) {
                Some(t) => t,
                None => Seq::empty(),
            };
            if needs_variant(t) && variant_of_spec(name) is None {
                (1, Seq::empty())
            } else {
                match template_path_spec(templates, sel, unsel, dark, name) {
                    Some(p) => (2, p),
                    None => (3, f),
                }
            }
        },
    }
}

/// The step as plain values.
pub open spec fn step_view(s: ButtonFrameStep) -> (int, Seq<char>) {
    match s {
        ButtonFrameStep::NotTarget => (0, Seq::empty()),
        ButtonFrameStep::UnmappedVariant => (1, Seq::empty()),
        ButtonFrameStep::Template(p) => (2, p@),
        ButtonFrameStep::FamilyBase(f) => (3, f@),
    }
}

/// What the buttons tool does with frame `frame_name`: frames of no family
/// stay; a circle, cross, category or leaderboard frame whose colour maps to
/// no variant stays (with a warning); the others are redrawn from their
/// template when one is configured, else from their family's largest sprite.
pub fn geode_button_frame_step(
    family_templates: &Vec<(String, String)>,
    tab_selected: &Option<String>,
    tab_unselected: &Option<String>,
    tab_unselected_dark: &Option<String>,
    frame_name: &str,
) -> (r: ButtonFrameStep)
    ensures
        step_view(r) == button_step_spec(
            entry_views(family_templates@),
            opt_view(*tab_selected),
            opt_view(*tab_unselected),
            opt_view(*tab_unselected_dark),
            frame_name@,
        ),
{
    let family = match frame_family_id(frame_name) {
        Some(f) => f,
        None => return ButtonFrameStep::NotTarget,
    };
    let base = match frame_base_type(frame_name) {
        Some(b) => b,
        None => "",
    };
    proof {
        reveal_strlit("");
    }
    let requires_variant = str_eq(base, "circle") || str_eq(base, "cross") || str_eq(base, "category") || str_eq(
        base,
        "leaderboard",
    );
    if requires_variant && frame_variant_from_color_suffix(frame_name).is_none() {
        return ButtonFrameStep::UnmappedVariant;
    }
    match template_path_for_frame(family_templates, tab_selected, tab_unselected, tab_unselected_dark, frame_name) {
        Some(p) => ButtonFrameStep::Template(p),
        None => ButtonFrameStep::FamilyBase(family),
    }
}

/// The closing warning of a buttons run: none targeted, or none replaced.
pub fn geode_buttons_summary_issue(targeted: usize, replaced: usize, stem: &str) -> (r: Option<ReportIssue>)
    ensures
        targeted == 0 ==> (r matches Some(i) && (i.level == ReportLevel::Warning && i.message@
            == "no target frames found in this sheet"@ && (i.file matches Some(f) && f@ == stem@))),
        targeted != 0 && replaced == 0 ==> (r matches Some(i) && (i.level == ReportLevel::Warning
            && i.message@ == "no frames were replaced (likely missing templates)"@ && (i.file matches Some(f) && f@ == stem@))),
        targeted != 0 && replaced != 0 ==> r is None,
{
    if targeted == 0 {
        Some(ReportIssue {
            level: ReportLevel::Warning,
            message: "no target frames found in this sheet".to_string(),
            file: Some(stem.to_string()),
        })
    } else if replaced == 0 {
        Some(ReportIssue {
            level: ReportLevel::Warning,
            message: "no frames were replaced (likely missing templates)".to_string(),
            file: Some(stem.to_string()),
        })
    } else {
        None
    }
}

} // verus!
