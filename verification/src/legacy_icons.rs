//! Rules that recognize pre-2.2 icon sprites and sheets when converting a pack
//! to the newest game version.

use vstd::prelude::*;
use crate::game_files::{normalize_legacy_version, normalized_version};
use crate::text::{
    all_digits, chars_eq_str, chars_of, concat_chars, concat_str, contains_seq, contains_str,
    copy_range, ends_with_str, eq_ic, eq_ignore_case_chars, eq_ignore_case_str, has_prefix, has_suffix, lower,
    lower_chars, opt_view, split_chars, split_on, starts_with_str, string_from_chars,
};
use crate::text::{is_digit, lemma_split_on_concat, lemma_split_on_plain, lower_char};
use crate::app_update::lemma_split_nonempty;
use crate::order::{sort_strings, sorted_strs, strs};
use crate::discovery::SheetCandidate;
use crate::contracts::UpscalerTargetGraphics;

verus! {

/// `relative_dir` has a path component named `icons` (any ASCII case).
pub open spec fn under_icons_spec(relative_dir: Seq<char>) -> bool {
    exists|k: int| 0 <= k < split_on(relative_dir, '/').len() && eq_ic(
        #[trigger] split_on(relative_dir, '/')[k],
        "icons"@,
    )
}

/// True when the sheet sits under an `icons` folder at any depth.
pub fn sheet_is_under_icons(relative_dir: &str) -> (r: bool)
    ensures
        r == under_icons_spec(relative_dir@),
{
    let chars = chars_of(relative_dir);
    let parts = split_chars(chars.as_slice(), '/');
    let mut i: usize = 0;
    while i < parts.len()
        invariant
            i <= parts.len(),
            parts@.len() == split_on(relative_dir@, '/').len(),
            forall|k: int| 0 <= k < parts@.len() ==> #[trigger] parts@[k]@ == split_on(
                relative_dir@,
                '/',
            )[k],
            forall|k: int| 0 <= k < i ==> !eq_ic(#[trigger] split_on(relative_dir@, '/')[k], "icons"@),
        decreases parts.len() - i,
    {
        if eq_ignore_case_str(parts[i].as_slice(), "icons") {
            return true;
        }
        i = i + 1;
    }
    false
}

/// The tier suffix of a stem named `base` with an optional `-uhd` / `-hd` suffix,
/// compared ignoring ASCII case.
pub open spec fn tier_of(stem: Seq<char>, base: Seq<char>) -> Option<Seq<char>> {
    if lower(stem) == base {
        Some(Seq::<char>::empty())
    } else if lower(stem) == base + "-uhd"@ {
        Some("-uhd"@)
    } else if lower(stem) == base + "-hd"@ {
        Some("-hd"@)
    } else {
        None
    }
}

fn tier_of_exec(stem: &str, base: &str, with_uhd: &str, with_hd: &str) -> (r: Option<String>)
    ensures
        with_uhd@ == base@ + "-uhd"@ && with_hd@ == base@ + "-hd"@ ==> opt_view(r) == tier_of(
            stem@,
            base@,
        ),
{
    let s = chars_of(stem);
    let lower_stem = lower_chars(s.as_slice());
    if chars_eq_str(lower_stem.as_slice(), base) {
        return Some(String::new());
    }
    if chars_eq_str(lower_stem.as_slice(), with_uhd) {
        return Some(String::from_str("-uhd"));
    }
    if chars_eq_str(lower_stem.as_slice(), with_hd) {
        return Some(String::from_str("-hd"));
    }
    None
}

/// The graphics-tier suffix when `stem` is the legacy combined icon gamesheet
/// (`GJ_GameSheet02`, `-hd`, `-uhd`, any ASCII case).
pub fn is_legacy_combined_icon_sheet(stem: &str) -> (r: Option<String>)
    ensures
        opt_view(r) == tier_of(stem@, "gj_gamesheet02"@),
{
    proof {
        reveal_strlit("gj_gamesheet02");
        reveal_strlit("gj_gamesheet02-uhd");
        reveal_strlit("gj_gamesheet02-hd");
        reveal_strlit("-uhd");
        reveal_strlit("-hd");
        assert("gj_gamesheet02-uhd"@ =~= "gj_gamesheet02"@ + "-uhd"@);
        assert("gj_gamesheet02-hd"@ =~= "gj_gamesheet02"@ + "-hd"@);
    }
    tier_of_exec(stem, "gj_gamesheet02", "gj_gamesheet02-uhd", "gj_gamesheet02-hd")
}

/// The graphics-tier suffix when `stem` is the legacy icon glow sheet
/// (`GJ_GameSheetGlow`, `-hd`, `-uhd`, any ASCII case).
pub fn is_legacy_icon_glow_sheet(stem: &str) -> (r: Option<String>)
    ensures
        opt_view(r) == tier_of(stem@, "gj_gamesheetglow"@),
{
    proof {
        reveal_strlit("gj_gamesheetglow");
        reveal_strlit("gj_gamesheetglow-uhd");
        reveal_strlit("gj_gamesheetglow-hd");
        reveal_strlit("-uhd");
        reveal_strlit("-hd");
        assert("gj_gamesheetglow-uhd"@ =~= "gj_gamesheetglow"@ + "-uhd"@);
        assert("gj_gamesheetglow-hd"@ =~= "gj_gamesheetglow"@ + "-hd"@);
    }
    tier_of_exec(stem, "gj_gamesheetglow", "gj_gamesheetglow-uhd", "gj_gamesheetglow-hd")
}

/// Icon ids whose sprites moved out of the icon sheets (portals, boosts,
/// checkpoints, floor lines).
pub open spec fn excluded_icon_id_spec(icon_id: Seq<char>) -> bool {
    let l = lower(icon_id);
    has_prefix(l, "portal_"@) || has_prefix(l, "boost_"@) || has_prefix(l, "checkpoint_"@)
        || has_prefix(l, "floorline_"@)
}

/// True for icon ids of sprites that are not exported as icons.
pub fn is_excluded_legacy_icon_id(icon_id: &str) -> (r: bool)
    ensures
        r == excluded_icon_id_spec(icon_id@),
{
    let c = chars_of(icon_id);
    let l = lower_chars(c.as_slice());
    starts_with_str(l.as_slice(), "portal_") || starts_with_str(l.as_slice(), "boost_")
        || starts_with_str(l.as_slice(), "checkpoint_") || starts_with_str(
        l.as_slice(),
        "floorline_",
    )
}

/// Ids that look like icons but are not (`secretCoin_*`).
pub open spec fn non_icon_sheet_id_spec(icon_id: Seq<char>) -> bool {
    has_prefix(lower(icon_id), "secretcoin_"@)
}

/// True for `secretCoin_*` ids.
pub fn is_non_icon_legacy_sheet_id(icon_id: &str) -> (r: bool)
    ensures
        r == non_icon_sheet_id_spec(icon_id@),
{
    let c = chars_of(icon_id);
    let l = lower_chars(c.as_slice());
    starts_with_str(l.as_slice(), "secretcoin_")
}

/// Game versions whose packs keep icons in the combined GS02 sheet.
pub open spec fn legacy_split_version_spec(v: Seq<char>) -> bool {
    normalized_version(v) == "2.0"@ || normalized_version(v) == "2.11"@
}

/// True when converting from 2.0 or 2.11 (after trimming and dropping a `v`).
pub fn is_legacy_icon_split_version(game_version: &str) -> (r: bool)
    ensures
        r == legacy_split_version_spec(game_version@),
{
    let n = normalize_legacy_version(game_version);
    let nc = chars_of(n.as_str());
    chars_eq_str(nc.as_slice(), "2.0") || chars_eq_str(nc.as_slice(), "2.11")
}

/// The icon kinds of the game.
pub open spec fn known_kind_spec(kind: Seq<char>) -> bool {
    ||| kind == "player"@
    ||| kind == "ship"@
    ||| kind == "ufo"@
    ||| kind == "bird"@
    ||| kind == "dart"@
    ||| kind == "robot"@
    ||| kind == "spider"@
    ||| kind == "swing"@
    ||| kind == "jetpack"@
    ||| kind == "cube"@
}

fn known_kind_chars(k: &[char]) -> (r: bool)
    ensures
        r == known_kind_spec(k@),
{
    chars_eq_str(k, "player") || chars_eq_str(k, "ship") || chars_eq_str(k, "ufo")
        || chars_eq_str(k, "bird") || chars_eq_str(k, "dart") || chars_eq_str(k, "robot")
        || chars_eq_str(k, "spider") || chars_eq_str(k, "swing") || chars_eq_str(k, "jetpack")
        || chars_eq_str(k, "cube")
}

/// True for the icon families (`player`, `ship`, `ufo`, `bird`, `dart`,
/// `robot`, `spider`, `swing`, `jetpack`, `cube`); case-sensitive.
pub fn is_known_legacy_icon_kind(kind: &str) -> (r: bool)
    ensures
        r == known_kind_spec(kind@),
{
    let k = chars_of(kind);
    known_kind_chars(k.as_slice())
}

/// True when a gamesheet stem is the combined icon atlas or its glow sheet.
pub fn sheet_may_hold_legacy_icons(stem: &str) -> (r: bool)
    ensures
        r == (tier_of(stem@, "gj_gamesheet02"@) is Some || tier_of(stem@, "gj_gamesheetglow"@) is Some),
{
    is_legacy_combined_icon_sheet(stem).is_some() || is_legacy_icon_glow_sheet(stem).is_some()
}

/// A frame of the glow layer.
pub fn is_glow_frame_name(frame_name: &str) -> (r: bool)
    ensures
        r == contains_seq(frame_name@, "_glow_"@),
{
    let c = chars_of(frame_name);
    contains_str(c.as_slice(), "_glow_")
}

/// The fire-boost frame (`fireBoost_001.png`, any ASCII case).
pub fn is_fireboost_frame_name(frame_name: &str) -> (r: bool)
    ensures
        r == eq_ic(frame_name@, "fireBoost_001.png"@),
{
    let c = chars_of(frame_name);
    eq_ignore_case_str(c.as_slice(), "fireBoost_001.png")
}

/// The 2.0 menu buttons that live on `GJ_GameSheet04` in the current game.
pub open spec fn gamesheet04_moved_spec(f: Seq<char>) -> bool {
    ||| eq_ic(f, "GJ_featuredBtn_001.png"@)
    ||| eq_ic(f, "GJ_searchBtn_001.png"@)
    ||| eq_ic(f, "GJ_highscoreBtn_001.png"@)
    ||| eq_ic(f, "GJ_mapPacksBtn_001.png"@)
    ||| eq_ic(f, "GJ_createBtn_001.png"@)
    ||| eq_ic(f, "GJ_savedBtn_001.png"@)
}

/// True for a 2.0 menu button that moved to `GJ_GameSheet04` (any ASCII case).
pub fn is_gamesheet04_moved_frame(frame_name: &str) -> (r: bool)
    ensures
        r == gamesheet04_moved_spec(frame_name@),
{
    let f = chars_of(frame_name);
    let s = f.as_slice();
    eq_ignore_case_str(s, "GJ_featuredBtn_001.png") || eq_ignore_case_str(
        s,
        "GJ_searchBtn_001.png",
    ) || eq_ignore_case_str(s, "GJ_highscoreBtn_001.png") || eq_ignore_case_str(
        s,
        "GJ_mapPacksBtn_001.png",
    ) || eq_ignore_case_str(s, "GJ_createBtn_001.png") || eq_ignore_case_str(
        s,
        "GJ_savedBtn_001.png",
    )
}

/// A `GJ_GameSheet04` stem with or without a tier suffix.
pub open spec fn gamesheet04_stem_spec(stem: Seq<char>) -> bool {
    lower(stem) == "gj_gamesheet04"@ || has_prefix(lower(stem), "gj_gamesheet04-"@)
}

/// True for `GJ_GameSheet04` and `GJ_GameSheet04-*` (any ASCII case).
pub fn is_gamesheet04_stem(stem: &str) -> (r: bool)
    ensures
        r == gamesheet04_stem_spec(stem@),
{
    let c = chars_of(stem);
    let l = lower_chars(c.as_slice());
    chars_eq_str(l.as_slice(), "gj_gamesheet04") || starts_with_str(
        l.as_slice(),
        "gj_gamesheet04-",
    )
}

/// True when converting from 2.0.
pub fn is_convert_from_2_0(game_version: &str) -> (r: bool)
    ensures
        r == (normalized_version(game_version@) == "2.0"@),
{
    let n = normalize_legacy_version(game_version);
    let nc = chars_of(n.as_str());
    chars_eq_str(nc.as_slice(), "2.0")
}

/// A non-empty run of ASCII digits.
pub open spec fn numeric_token_spec(t: Seq<char>) -> bool {
    t.len() > 0 && all_digits(t)
}

/// True for a non-empty run of ASCII digits.
pub fn is_numeric_icon_token(token: &[char]) -> (r: bool)
    ensures
        r == numeric_token_spec(token@),
{
    if token.len() == 0 {
        return false;
    }
    let mut i: usize = 0;
    while i < token.len()
        invariant
            i <= token.len(),
            forall|j: int| 0 <= j < i ==> crate::text::is_digit(#[trigger] token@[j]),
        decreases token.len() - i,
    {
        let c = token[i];
        if !('0' <= c && c <= '9') {
            proof {
                assert(!crate::text::is_digit(token@[i as int]));
            }
            return false;
        }
        i = i + 1;
    }
    true
}

/// A frame name without a trailing `.png`.
pub open spec fn strip_png_spec(s: Seq<char>) -> Seq<char> {
    if has_suffix(s, ".png"@) {
        s.subrange(0, s.len() - 4)
    } else {
        s
    }
}

/// The icon sheet id of a frame name: `{kind}_{nn}` for the icon families, and
/// `player_{word}_{nn}` for named player variants; `secretCoin` ids are not icons.
pub open spec fn icon_id_spec(frame_name: Seq<char>) -> Option<Seq<char>> {
    let parts = split_on(strip_png_spec(frame_name), '_');
    if parts.len() < 2 {
        None
    } else if parts[0] == "player"@ && parts.len() >= 3 && numeric_token_spec(parts[2])
        && !numeric_token_spec(parts[1]) {
        Some(parts[0] + "_"@ + parts[1] + "_"@ + parts[2])
    } else if numeric_token_spec(parts[1]) {
        if !known_kind_spec(parts[0]) {
            None
        } else if non_icon_sheet_id_spec(parts[0] + "_"@ + parts[1]) {
            None
        } else {
            Some(parts[0] + "_"@ + parts[1])
        }
    } else {
        None
    }
}

fn strip_png_chars(s: &[char]) -> (out: Vec<char>)
    ensures
        out@ == strip_png_spec(s@),
{
    proof {
        reveal_strlit(".png");
    }
    if ends_with_str(s, ".png") {
        copy_range(s, 0, s.len() - 4)
    } else {
        copy_range(s, 0, s.len())
    }
}

fn icon_id_chars(frame_name: &[char]) -> (r: Option<Vec<char>>)
    ensures
        match (r, icon_id_spec(frame_name@)) {
            (Some(v), Some(s)) => v@ == s,
            (None, None) => true,
            _ => false,
        },
{
    let stem = strip_png_chars(frame_name);
    let parts = split_chars(stem.as_slice(), '_');
    proof {
        lemma_split_nonempty(stem@, '_');
        if stem@.subrange(0, stem@.len() as int) =~= stem@ {
        }
    }
    if parts.len() < 2 {
        return None;
    }
    if chars_eq_str(parts[0].as_slice(), "player") && parts.len() >= 3 && is_numeric_icon_token(
        parts[2].as_slice(),
    ) {
        if !is_numeric_icon_token(parts[1].as_slice()) {
            let a = concat_str(parts[0].as_slice(), "_");
            let b = concat_chars(a.as_slice(), parts[1].as_slice());
            let c = concat_str(b.as_slice(), "_");
            let d = concat_chars(c.as_slice(), parts[2].as_slice());
            return Some(d);
        }
    }
    if is_numeric_icon_token(parts[1].as_slice()) {
        if !known_kind_chars(parts[0].as_slice()) {
            return None;
        }
        let a = concat_str(parts[0].as_slice(), "_");
        let id = concat_chars(a.as_slice(), parts[1].as_slice());
        let l = lower_chars(id.as_slice());
        if starts_with_str(l.as_slice(), "secretcoin_") {
            return None;
        }
        return Some(id);
    }
    None
}

/// Icon sheet id from a frame key (e.g. `player_02`, `player_ball_00`, `robot_01`).
pub fn icon_sheet_id_from_frame_name(frame_name: &str) -> (r: Option<String>)
    ensures
        opt_view(r) == icon_id_spec(frame_name@),
{
    let f = chars_of(frame_name);
    match icon_id_chars(f.as_slice()) {
        Some(v) => Some(string_from_chars(v.as_slice())),
        None => None,
    }
}

/// A sprite is an icon sprite when it sits under `icons/`, or when its frame
/// name carries an icon id of a family that stays in the icon sheets.
pub open spec fn icon_sprite_spec(relative_dir: Seq<char>, frame_name: Seq<char>) -> bool {
    under_icons_spec(relative_dir) || match icon_id_spec(frame_name) {
        Some(id) => !excluded_icon_id_spec(id),
        None => false,
    }
}

/// Icon sprites are told by folder or by frame identity, never by sheet filename.
pub fn is_icon_sprite(relative_dir: &str, frame_name: &str) -> (r: bool)
    ensures
        r == icon_sprite_spec(relative_dir@, frame_name@),
{
    if sheet_is_under_icons(relative_dir) {
        return true;
    }
    match icon_sheet_id_from_frame_name(frame_name) {
        Some(id) => !is_excluded_legacy_icon_id(id.as_str()),
        None => false,
    }
}

} // verus!

verus! {

/// A frame that the icon export writes: not a glow frame and not the fire boost.
pub open spec fn output_frame_spec(frame_name: Seq<char>) -> bool {
    !contains_seq(frame_name, "_glow_"@) && !eq_ic(frame_name, "fireBoost_001.png"@)
}

/// `frame_name` belongs to the group `id`; with `output_only`, only frames the
/// icon export writes count, and excluded ids have no group.
pub open spec fn in_group_spec(frame_name: Seq<char>, id: Seq<char>, output_only: bool) -> bool {
    icon_id_spec(frame_name) == Some(id) && (!output_only || (output_frame_spec(frame_name)
        && !excluded_icon_id_spec(id)))
}

/// The frames of `names`, in order, that belong to the group `id`.
pub open spec fn group_members(names: Seq<Seq<char>>, id: Seq<char>, output_only: bool) -> Seq<
    Seq<char>,
> {
    names.filter(|n: Seq<char>| in_group_spec(n, id, output_only))
}

/// Position of the first string of `list` whose characters are `x`.
pub fn position_of_chars(list: &Vec<String>, x: &[char]) -> (r: Option<usize>)
    ensures
        r matches Some(k) ==> k < list@.len() && list@[k as int]@ == x@,
        r is None ==> forall|k: int| 0 <= k < list@.len() ==> list@[k]@ != x@,
{
    let mut k: usize = 0;
    while k < list.len()
        invariant
            k <= list@.len(),
            forall|j: int| 0 <= j < k ==> list@[j]@ != x@,
        decreases list@.len() - k,
    {
        let c = chars_of(list[k].as_str());
        if crate::text::chars_eq(c.as_slice(), x) {
            return Some(k);
        }
        k = k + 1;
    }
    None
}

/// Frame names bucketed by icon id; each bucket is sorted.
pub struct IconGroups {
    ids: Vec<String>,
    frames: Vec<Vec<String>>,
}

impl IconGroups {
    /// The ids, in the order their first frame was seen.
    pub closed spec fn id_seq(&self) -> Seq<Seq<char>> {
        strs(self.ids@)
    }

    /// The frames of the `k`-th group.
    pub closed spec fn group_at(&self, k: int) -> Seq<Seq<char>> {
        strs(self.frames@[k]@)
    }

    /// The groups: distinct ids, one frame list each.
    #[verifier::type_invariant]
    closed spec fn wf(&self) -> bool {
        &&& self.ids@.len() == self.frames@.len()
        &&& forall|a: int, b: int|
            0 <= a < b < self.ids@.len() ==> #[trigger] self.ids@[a]@ != #[trigger] self.ids@[b]@
    }

    /// Number of groups.
    pub fn len(&self) -> (n: usize)
        ensures
            n == self.id_seq().len(),
    {
        proof {
            use_type_invariant(self);
        }
        self.ids.len()
    }

    fn index_of(&self, id: &[char]) -> (r: Option<usize>)
        ensures
            r matches Some(k) ==> k < self.id_seq().len() && self.id_seq()[k as int] == id@,
            r is None ==> forall|k: int| 0 <= k < self.id_seq().len() ==> self.id_seq()[k] != id@,
    {
        position_of_chars(&self.ids, id)
    }

    /// The frames of group `id`, when there is one.
    pub fn get(&self, id: &str) -> (r: Option<&Vec<String>>)
        ensures
            r matches Some(v) ==> exists|k: int|
                0 <= k < self.id_seq().len() && self.id_seq()[k] == id@ && strs(v@)
                    == self.group_at(k),
            r is None ==> forall|k: int| 0 <= k < self.id_seq().len() ==> self.id_seq()[k] != id@,
    {
        proof {
            use_type_invariant(self);
        }
        let c = chars_of(id);
        match self.index_of(c.as_slice()) {
            Some(k) => {
                proof {
                    assert(strs(self.frames@[k as int]@) == self.group_at(k as int));
                }
                Some(&self.frames[k])
            },
            None => None,
        }
    }

    /// Whether group `id` exists.
    pub fn contains_key(&self, id: &str) -> (r: bool)
        ensures
            r == exists|k: int| 0 <= k < self.id_seq().len() && self.id_seq()[k] == id@,
    {
        let c = chars_of(id);
        self.index_of(c.as_slice()).is_some()
    }

    /// The group ids in ascending order (the order of a `BTreeMap`'s keys).
    pub fn ids(&self) -> (r: Vec<String>)
        ensures
            sorted_strs(strs(r@)),
            strs(r@).to_multiset() == self.id_seq().to_multiset(),
            r@.len() == self.id_seq().len(),
    {
        let mut copy: Vec<String> = Vec::new();
        let mut i: usize = 0;
        while i < self.ids.len()
            invariant
                i <= self.ids@.len(),
                copy@.len() == i,
                forall|t: int| 0 <= t < i ==> #[trigger] copy@[t]@ == self.ids@[t]@,
            decreases self.ids@.len() - i,
        {
            copy.push(self.ids[i].clone());
            i = i + 1;
        }
        proof {
            assert(strs(copy@) =~= self.id_seq());
        }
        sort_strings(copy)
    }
}

/// Some frame of `names` belongs to the group `id`.
pub open spec fn has_member(names: Seq<Seq<char>>, id: Seq<char>, output_only: bool) -> bool {
    exists|i: int| 0 <= i < names.len() && in_group_spec(names[i], id, output_only)
}

/// The grouping rule: `g` has one group per id that some frame of `names`
/// belongs to (no id twice), and each group holds exactly those frames,
/// sorted.
pub open spec fn grouping_spec(g: IconGroups, names: Seq<Seq<char>>, output_only: bool) -> bool {
    &&& forall|a: int, b: int| 0 <= a < b < g.id_seq().len() ==> #[trigger] g.id_seq()[a] != #[trigger] g.id_seq()[b]
    &&& forall|k: int|
        0 <= k < g.id_seq().len() ==> has_member(names, #[trigger] g.id_seq()[k], output_only)
    &&& forall|i: int, id: Seq<char>|
        0 <= i < names.len() && #[trigger] in_group_spec(names[i], id, output_only) ==> exists|
            k: int,
        | 0 <= k < g.id_seq().len() && g.id_seq()[k] == id
    &&& forall|k: int|
        0 <= k < g.id_seq().len() ==> sorted_strs(#[trigger] g.group_at(k)) && g.group_at(
            k,
        ).to_multiset() == group_members(names, g.id_seq()[k], output_only).to_multiset()
}

fn group_frames(frame_names: &Vec<String>, output_only: bool) -> (g: IconGroups)
    ensures
        grouping_spec(g, strs(frame_names@), output_only),
{
    let ghost names = strs(frame_names@);
    let mut ids: Vec<String> = Vec::new();
    let mut frames: Vec<Vec<String>> = Vec::new();
    let mut i: usize = 0;
    while i < frame_names.len()
        invariant
            i <= frame_names@.len(),
            names == strs(frame_names@),
            ids@.len() == frames@.len(),
            forall|a: int, b: int|
                0 <= a < b < ids@.len() ==> #[trigger] ids@[a]@ != #[trigger] ids@[b]@,
            forall|k: int|
                0 <= k < ids@.len() ==> exists|j: int|
                    0 <= j < i && in_group_spec(names[j], #[trigger] ids@[k]@, output_only),
            forall|j: int, id: Seq<char>|
                0 <= j < i && #[trigger] in_group_spec(names[j], id, output_only) ==> exists|
                    k: int,
                | 0 <= k < ids@.len() && ids@[k]@ == id,
            forall|k: int|
                0 <= k < ids@.len() ==> #[trigger] strs(frames@[k]@) == group_members(
                    names.subrange(0, i as int),
                    ids@[k]@,
                    output_only,
                ),
        decreases frame_names@.len() - i,
    {
        let name = &frame_names[i];
        let id_opt = icon_sheet_id_from_frame_name(name.as_str());
        let ghost ids_before = ids@;
        let ghost prefix = names.subrange(0, i as int);
        let ghost next = names.subrange(0, i + 1);
        proof {
            assert(next =~= prefix.push(name@));
            assert(names[i as int] == name@);
        }
        let belongs = match &id_opt {
            Some(id) => {
                if output_only {
                    !is_glow_frame_name(name.as_str()) && !is_fireboost_frame_name(name.as_str())
                        && !is_excluded_legacy_icon_id(id.as_str())
                } else {
                    true
                }
            },
            None => false,
        };
        proof {
            assert forall|id: Seq<char>| #[trigger]
                in_group_spec(name@, id, output_only) implies (belongs && (id_opt matches Some(
                s,
            ) && s@ == id)) by {}
        }
        if belongs {
            let id = match id_opt {
                Some(id) => id,
                None => {
                    proof {
                        assert(false);
                    }
                    String::new()
                },
            };
            let idc = chars_of(id.as_str());
            let found = position_of_chars(&ids, idc.as_slice());
            let ghost old_frames = frames@;
            let ghost old_ids = ids@;
            match found {
                Some(k) => {
                    let mut g = frames.remove(k);
                    g.push(name.clone());
                    frames.insert(k, g);
                    proof {
                        assert forall|kk: int| 0 <= kk < ids@.len() implies #[trigger] strs(
                            frames@[kk]@,
                        ) == group_members(next, ids@[kk]@, output_only) by {
                            let pred = |n: Seq<char>| in_group_spec(n, ids@[kk]@, output_only);
                            prefix.lemma_filter_push(name@, pred);
                            if kk == k as int {
                                assert(strs(frames@[kk]@) =~= strs(old_frames[kk]@).push(name@));
                            } else {
                                assert(frames@[kk] == old_frames[kk]);
                                assert(ids@[kk]@ != id@);
                            }
                        }
                        assert forall|j: int, iid: Seq<char>|
                            0 <= j < i + 1 && #[trigger] in_group_spec(names[j], iid, output_only) implies exists|
                                kk: int,
                            | 0 <= kk < ids@.len() && ids@[kk]@ == iid by {
                            if j == i {
                                assert(ids@[k as int]@ == iid);
                            }
                        }
                    }
                },
                None => {
                    let mut g: Vec<String> = Vec::new();
                    g.push(name.clone());
                    ids.push(id);
                    frames.push(g);
                    proof {
                        assert forall|kk: int| 0 <= kk < ids@.len() implies #[trigger] strs(
                            frames@[kk]@,
                        ) == group_members(next, ids@[kk]@, output_only) by {
                            let pred = |n: Seq<char>| in_group_spec(n, ids@[kk]@, output_only);
                            prefix.lemma_filter_push(name@, pred);
                            if kk == old_ids.len() {
                                assert(ids@[kk]@ == id@);
                                assert forall|j: int| 0 <= j < prefix.len() implies !pred(
                                    #[trigger] prefix[j],
                                ) by {
                                    assert(prefix[j] == names[j]);
                                    if pred(prefix[j]) {
                                        assert(in_group_spec(names[j], id@, output_only));
                                        let w = choose|w: int| 0 <= w < old_ids.len() && old_ids[w]@ == id@;
                                        assert(old_ids[w]@ != idc@);
                                    }
                                }
                                assert(prefix.all(|x: Seq<char>| !pred(x)));
                                prefix.lemma_all_neg_filter_empty(pred);
                                assert(strs(frames@[kk]@) =~= seq![name@]);
                            } else {
                                assert(frames@[kk] == old_frames[kk]);
                                assert(ids@[kk] == old_ids[kk]);
                            }
                        }
                        assert forall|j: int, iid: Seq<char>|
                            0 <= j < i + 1 && #[trigger] in_group_spec(names[j], iid, output_only) implies exists|
                                kk: int,
                            | 0 <= kk < ids@.len() && ids@[kk]@ == iid by {
                            if j == i {
                                assert(ids@[old_ids.len() as int]@ == iid);
                            } else {
                                let w = choose|w: int| 0 <= w < old_ids.len() && old_ids[w]@ == iid;
                                assert(ids@[w] == old_ids[w]);
                            }
                        }
                        assert forall|kk: int|
                            0 <= kk < ids@.len() implies exists|j: int|
                                0 <= j < i + 1 && in_group_spec(names[j], #[trigger] ids@[kk]@, output_only) by {
                            if kk == old_ids.len() {
                                assert(in_group_spec(names[i as int], ids@[kk]@, output_only));
                            } else {
                                assert(ids@[kk] == old_ids[kk]);
                            }
                        }
                        assert forall|a: int, b: int|
                            0 <= a < b < ids@.len() implies #[trigger] ids@[a]@ != #[trigger] ids@[b]@ by {
                            if b == old_ids.len() {
                                assert(old_ids[a]@ != idc@);
                            }
                        }
                    }
                },
            }
        } else {
            proof {
                assert forall|kk: int| 0 <= kk < ids@.len() implies #[trigger] strs(
                    frames@[kk]@,
                ) == group_members(next, ids@[kk]@, output_only) by {
                    let pred = |n: Seq<char>| in_group_spec(n, ids@[kk]@, output_only);
                    prefix.lemma_filter_push(name@, pred);
                }
            }
        }
        i = i + 1;
    }
    proof {
        assert(names.subrange(0, names.len() as int) =~= names);
    }
    let ghost orig = frames@;
    let mut sorted: Vec<Vec<String>> = Vec::new();
    while frames.len() > 0
        invariant
            sorted@.len() + frames@.len() == orig.len(),
            forall|kk: int|
                0 <= kk < frames@.len() ==> #[trigger] frames@[kk] == orig[sorted@.len() + kk],
            forall|kk: int|
                0 <= kk < sorted@.len() ==> sorted_strs(#[trigger] strs(sorted@[kk]@)) && strs(
                    sorted@[kk]@,
                ).to_multiset() == strs(orig[kk]@).to_multiset(),
        decreases frames@.len(),
    {
        let g = frames.remove(0);
        let sg = sort_strings(g);
        sorted.push(sg);
    }
    let ghost sorted_v = sorted@;
    let g = IconGroups { ids, frames: sorted };
    proof {
        assert forall|k: int| 0 <= k < g.id_seq().len() implies sorted_strs(
            #[trigger] g.group_at(k),
        ) && g.group_at(k).to_multiset() == group_members(names, g.id_seq()[k], output_only).to_multiset() by {
            assert(g.id_seq()[k] == g.ids@[k]@);
            assert(sorted_strs(strs(sorted_v[k]@)));
            assert(g.group_at(k) == strs(sorted_v[k]@));
            assert(strs(orig[k]@) == group_members(names.subrange(0, names.len() as int), g.ids@[k]@, output_only));
        }
        assert forall|k: int| 0 <= k < g.id_seq().len() implies has_member(names, #[trigger] g.id_seq()[k], output_only) by {
            assert(g.id_seq()[k] == g.ids@[k]@);
            let j = choose|j: int| 0 <= j < names.len() && in_group_spec(names[j], g.ids@[k]@, output_only);
            assert(in_group_spec(names[j], g.id_seq()[k], output_only));
        }
        assert forall|i: int, id: Seq<char>|
            0 <= i < names.len() && #[trigger] in_group_spec(names[i], id, output_only) implies exists|
                k: int,
            | 0 <= k < g.id_seq().len() && g.id_seq()[k] == id by {
            let k = choose|k: int| 0 <= k < g.ids@.len() && g.ids@[k]@ == id;
            assert(g.id_seq()[k] == g.ids@[k]@);
        }
        assert forall|a: int, b: int| 0 <= a < b < g.id_seq().len() implies #[trigger] g.id_seq()[a] != #[trigger] g.id_seq()[b] by {
            assert(g.id_seq()[a] == g.ids@[a]@ && g.id_seq()[b] == g.ids@[b]@);
        }
        assert(names == strs(frame_names@));
        assert(grouping_spec(g, names, output_only));
    }
    g
}

/// Buckets frame names by icon id; frames without an id are dropped and each
/// bucket is sorted.
pub fn group_frame_names_by_icon_id(frame_names: Vec<String>) -> (g: IconGroups)
    ensures
        grouping_spec(g, strs(frame_names@), false),
{
    group_frames(&frame_names, false)
}

/// Like [`group_frame_names_by_icon_id`], for the frames the icon export writes:
/// glow frames and the fire boost are left out, and so are the excluded ids
/// (portals, boosts, checkpoints, floor lines).
pub fn group_icon_output_frames(frame_names: Vec<String>) -> (g: IconGroups)
    ensures
        grouping_spec(g, strs(frame_names@), true),
{
    group_frames(&frame_names, true)
}

} // verus!

verus! {

/// `x` is one of the strings of `list`.
pub open spec fn listed(list: Seq<String>, x: Seq<char>) -> bool {
    exists|k: int| 0 <= k < list.len() && list[k]@ == x
}

pub(crate) fn listed_exec(list: &Vec<String>, x: &str) -> (r: bool)
    ensures
        r == listed(list@, x@),
{
    let xc = chars_of(x);
    match position_of_chars(list, xc.as_slice()) {
        Some(k) => true,
        None => false,
    }
}

/// The frame's icon id is one of the extracted icons.
pub open spec fn belongs_to_extracted_spec(frame_name: Seq<char>, extracted: Seq<String>) -> bool {
    match icon_id_spec(frame_name) {
        Some(id) => listed(extracted, id),
        None => false,
    }
}

/// True when the frame's icon id is one of `extracted_icon_ids`.
pub fn frame_belongs_to_extracted_icon(frame_name: &str, extracted_icon_ids: &Vec<String>) -> (r:
    bool)
    ensures
        r == belongs_to_extracted_spec(frame_name@, extracted_icon_ids@),
{
    match icon_sheet_id_from_frame_name(frame_name) {
        Some(id) => listed_exec(extracted_icon_ids, id.as_str()),
        None => false,
    }
}

/// What leaves a rewritten legacy `GJ_GameSheet02`: the fire boost, frames
/// exported as standalone PNGs, menu buttons that moved to `GJ_GameSheet04`,
/// and frames of extracted icons. Excluded sprite types stay.
pub open spec fn remove_from_gs02_spec(
    frame_name: Seq<char>,
    extracted: Seq<String>,
    exported: Seq<String>,
) -> bool {
    eq_ic(frame_name, "fireBoost_001.png"@) || listed(exported, frame_name)
        || gamesheet04_moved_spec(frame_name) || belongs_to_extracted_spec(frame_name, extracted)
}

/// True when `frame_name` must be stripped from a rewritten legacy `GJ_GameSheet02`.
pub fn should_remove_from_legacy_gamesheet02(
    frame_name: &str,
    extracted_icon_ids: &Vec<String>,
    exported_standalones: &Vec<String>,
) -> (r: bool)
    ensures
        r == remove_from_gs02_spec(frame_name@, extracted_icon_ids@, exported_standalones@),
{
    if is_fireboost_frame_name(frame_name) || listed_exec(exported_standalones, frame_name)
        || is_gamesheet04_moved_frame(frame_name) {
        return true;
    }
    frame_belongs_to_extracted_icon(frame_name, extracted_icon_ids)
}

/// True when `frame_name` must be stripped from the legacy glow sheet: it
/// belongs to an extracted icon.
pub fn should_remove_from_legacy_glow_sheet(frame_name: &str, extracted_icon_ids: &Vec<String>) -> (r:
    bool)
    ensures
        r == belongs_to_extracted_spec(frame_name@, extracted_icon_ids@),
{
    frame_belongs_to_extracted_icon(frame_name, extracted_icon_ids)
}

/// Frame keys of the latest sheet that the input sheet lacks, sorted.
pub fn missing_frame_keys(latest_frame_keys: &Vec<String>, input_frame_names: &Vec<String>) -> (r:
    Vec<String>)
    ensures
        sorted_strs(strs(r@)),
        strs(r@).to_multiset() == strs(latest_frame_keys@).filter(
            |n: Seq<char>| !listed(input_frame_names@, n),
        ).to_multiset(),
{
    let ghost pred = |n: Seq<char>| !listed(input_frame_names@, n);
    let mut missing: Vec<String> = Vec::new();
    let mut i: usize = 0;
    while i < latest_frame_keys.len()
        invariant
            i <= latest_frame_keys@.len(),
            pred == (|n: Seq<char>| !listed(input_frame_names@, n)),
            strs(missing@) == strs(latest_frame_keys@).subrange(0, i as int).filter(pred),
        decreases latest_frame_keys@.len() - i,
    {
        let key = &latest_frame_keys[i];
        let ghost prefix = strs(latest_frame_keys@).subrange(0, i as int);
        proof {
            assert(strs(latest_frame_keys@).subrange(0, i + 1) =~= prefix.push(key@));
            prefix.lemma_filter_push(key@, pred);
        }
        if !listed_exec(input_frame_names, key.as_str()) {
            missing.push(key.clone());
            proof {
                assert(strs(missing@) =~= prefix.filter(pred).push(key@));
            }
        }
        i = i + 1;
    }
    proof {
        assert(strs(latest_frame_keys@).subrange(0, latest_frame_keys@.len() as int) =~= strs(
            latest_frame_keys@,
        ));
    }
    sort_strings(missing)
}

/// A glow frame of the icon `icon_id`.
pub open spec fn glow_of_icon_spec(frame_name: Seq<char>, icon_id: Seq<char>) -> bool {
    contains_seq(frame_name, "_glow_"@) && icon_id_spec(frame_name) == Some(icon_id)
}

/// The glow frames of one icon among a sheet's frame keys, in key order.
pub fn glow_frame_names_for_icon(frame_keys: &Vec<String>, icon_id: &str) -> (r: Vec<String>)
    ensures
        strs(r@) == strs(frame_keys@).filter(|n: Seq<char>| glow_of_icon_spec(n, icon_id@)),
{
    let ghost pred = |n: Seq<char>| glow_of_icon_spec(n, icon_id@);
    let mut out: Vec<String> = Vec::new();
    let mut i: usize = 0;
    while i < frame_keys.len()
        invariant
            i <= frame_keys@.len(),
            pred == (|n: Seq<char>| glow_of_icon_spec(n, icon_id@)),
            strs(out@) == strs(frame_keys@).subrange(0, i as int).filter(pred),
        decreases frame_keys@.len() - i,
    {
        let key = &frame_keys[i];
        let ghost prefix = strs(frame_keys@).subrange(0, i as int);
        proof {
            assert(strs(frame_keys@).subrange(0, i + 1) =~= prefix.push(key@));
            prefix.lemma_filter_push(key@, pred);
        }
        let matches_icon = match icon_sheet_id_from_frame_name(key.as_str()) {
            Some(id) => crate::facts::str_eq(id.as_str(), icon_id),
            None => false,
        };
        if is_glow_frame_name(key.as_str()) && matches_icon {
            out.push(key.clone());
            proof {
                assert(strs(out@) =~= prefix.filter(pred).push(key@));
            }
        }
        i = i + 1;
    }
    proof {
        assert(strs(frame_keys@).subrange(0, frame_keys@.len() as int) =~= strs(frame_keys@));
    }
    out
}

/// Some frame of the sheet is an icon sprite by frame identity.
pub open spec fn frames_hold_icons_spec(frame_names: Seq<String>) -> bool {
    exists|k: int| 0 <= k < frame_names.len() && icon_sprite_spec(Seq::empty(), #[trigger] frame_names[k]@)
}

/// True when a sheet's frame keys still hold cube/ship/etc. frames (the
/// 2.1 / old-convention 2.2 `GJ_GameSheet02` layout).
pub fn frames_contain_legacy_icon_frames(frame_names: &Vec<String>) -> (r: bool)
    ensures
        r == frames_hold_icons_spec(frame_names@),
{
    let mut k: usize = 0;
    while k < frame_names.len()
        invariant
            k <= frame_names@.len(),
            forall|j: int| 0 <= j < k ==> !icon_sprite_spec(Seq::empty(), #[trigger] frame_names@[j]@),
        decreases frame_names@.len() - k,
    {
        let hit = is_icon_sprite("", frame_names[k].as_str());
        proof {
            assert(""@ =~= Seq::<char>::empty()) by {
                reveal_strlit("");
            }
        }
        if hit {
            return true;
        }
        k = k + 1;
    }
    false
}


/// The pack has a legacy combined icon sheet (`GJ_GameSheet02` or
/// `GJ_GameSheetGlow`) whose `.plist` holds icon frames. `frame_lists[i]` is
/// the frame names of sheet `i`'s `.plist`, or none when it could not be read.
pub open spec fn uses_legacy_icons_spec(pairs: Seq<SheetCandidate>, frame_lists: Seq<Option<Vec<String>>>) -> bool {
    exists|i: int|
        0 <= i < pairs.len() && (tier_of((#[trigger] pairs[i]).stem@, "gj_gamesheet02"@) is Some || tier_of(
            pairs[i].stem@,
            "gj_gamesheetglow"@,
        ) is Some) && list_holds_icons(frame_lists[i])
}

/// A readable frame list that holds icon frames.
pub open spec fn list_holds_icons(o: Option<Vec<String>>) -> bool {
    match o {
        Some(f) => frames_hold_icons_spec(f@),
        None => false,
    }
}

/// Whether the pack still keeps its icons in the legacy combined sheets.
pub fn pack_uses_legacy_combined_icons(pairs: &Vec<SheetCandidate>, frame_lists: &Vec<Option<Vec<String>>>) -> (r: bool)
    requires
        pairs@.len() == frame_lists@.len(),
    ensures
        r == uses_legacy_icons_spec(pairs@, frame_lists@),
{
    let mut i: usize = 0;
    while i < pairs.len()
        invariant
            i <= pairs.len(),
            pairs@.len() == frame_lists@.len(),
            forall|k: int|
                0 <= k < i ==> !((tier_of((#[trigger] pairs@[k]).stem@, "gj_gamesheet02"@) is Some || tier_of(
                    pairs@[k].stem@,
                    "gj_gamesheetglow"@,
                ) is Some) && list_holds_icons(frame_lists@[k])),
        decreases pairs.len() - i,
    {
        if sheet_may_hold_legacy_icons(pairs[i].stem.as_str()) {
            match &frame_lists[i] {
                Some(f) => {
                    if frames_contain_legacy_icon_frames(f) {
                        return true;
                    }
                },
                None => {},
            }
        }
        i = i + 1;
    }
    false
}

/// The graphics tier of a pack: `-uhd` when a stem holds `-uhd`, else `-hd`
/// when one holds `-hd`, else none (in lower case).
pub open spec fn pack_quality_spec(pairs: Seq<SheetCandidate>) -> Seq<char> {
    if exists|i: int| 0 <= i < pairs.len() && contains_seq(lower((#[trigger] pairs[i]).stem@), "-uhd"@) {
        "-uhd"@
    } else if exists|i: int| 0 <= i < pairs.len() && contains_seq(lower((#[trigger] pairs[i]).stem@), "-hd"@) {
        "-hd"@
    } else {
        Seq::empty()
    }
}

/// The graphics tier of a pack.
pub fn pack_quality_suffix(pairs: &Vec<SheetCandidate>) -> (r: String)
    ensures
        r@ == pack_quality_spec(pairs@),
{
    let mut has_uhd = false;
    let mut has_hd = false;
    let mut i: usize = 0;
    while i < pairs.len()
        invariant
            i <= pairs.len(),
            has_uhd == exists|k: int| 0 <= k < i && contains_seq(lower((#[trigger] pairs@[k]).stem@), "-uhd"@),
            has_hd ==> exists|k: int| 0 <= k < i && contains_seq(lower((#[trigger] pairs@[k]).stem@), "-hd"@),
            !has_hd ==> forall|k: int| 0 <= k < i && !contains_seq(lower((#[trigger] pairs@[k]).stem@), "-uhd"@) ==> !contains_seq(lower(pairs@[k].stem@), "-hd"@),
        decreases pairs.len() - i,
    {
        let sv = chars_of(pairs[i].stem.as_str());
        let low = lower_chars(sv.as_slice());
        if contains_str(low.as_slice(), "-uhd") {
            has_uhd = true;
        } else if contains_str(low.as_slice(), "-hd") {
            has_hd = true;
        }
        i = i + 1;
    }
    proof {
        if !has_uhd && !has_hd {
            assert forall|k: int| 0 <= k < pairs@.len() implies !contains_seq(lower((#[trigger] pairs@[k]).stem@), "-hd"@) by {
                assert(!contains_seq(lower(pairs@[k].stem@), "-uhd"@));
            }
        }
        if !has_uhd && has_hd {
            assert(!exists|k: int| 0 <= k < pairs@.len() && contains_seq(lower((#[trigger] pairs@[k]).stem@), "-uhd"@));
        }
    }
    if has_uhd {
        "-uhd".to_string()
    } else if has_hd {
        "-hd".to_string()
    } else {
        String::new()
    }
}

/// The file suffix of an upscaler target tier.
pub fn target_graphics_quality_suffix(target: UpscalerTargetGraphics) -> (r: &'static str)
    ensures
        r@ == match target {
            UpscalerTargetGraphics::Uhd => "-uhd"@,
            UpscalerTargetGraphics::Hd => "-hd"@,
        },
{
    match target {
        UpscalerTargetGraphics::Uhd => "-uhd",
        UpscalerTargetGraphics::Hd => "-hd",
    }
}

/// The first sheet in `relative_dir` whose stem is `GJ_GameSheetGlow{tier}`
/// in any case.
pub open spec fn glow_pair_spec(pairs: Seq<SheetCandidate>, rel: Seq<char>, tier: Seq<char>, i: int) -> bool {
    &&& 0 <= i < pairs.len()
    &&& pairs[i].relative_dir@ == rel && eq_ic(pairs[i].stem@, "GJ_GameSheetGlow"@ + tier)
    &&& forall|k: int| 0 <= k < i ==> !((#[trigger] pairs[k]).relative_dir@ == rel && eq_ic(pairs[k].stem@, "GJ_GameSheetGlow"@ + tier))
}

/// The index of the legacy glow sheet of a folder, when the pack has one.
pub fn find_legacy_glow_sheet_pair(pairs: &Vec<SheetCandidate>, relative_dir: &str, quality_suffix: &str) -> (r: Option<usize>)
    ensures
        match r {
            Some(i) => glow_pair_spec(pairs@, relative_dir@, quality_suffix@, i as int),
            None => forall|k: int| 0 <= k < pairs@.len() ==> !((#[trigger] pairs@[k]).relative_dir@ == relative_dir@ && eq_ic(pairs@[k].stem@, "GJ_GameSheetGlow"@ + quality_suffix@)),
        },
{
    let base = chars_of("GJ_GameSheetGlow");
    let stem = concat_str(base.as_slice(), quality_suffix);
    let mut i: usize = 0;
    while i < pairs.len()
        invariant
            i <= pairs.len(),
            stem@ == "GJ_GameSheetGlow"@ + quality_suffix@,
            forall|k: int| 0 <= k < i ==> !((#[trigger] pairs@[k]).relative_dir@ == relative_dir@ && eq_ic(pairs@[k].stem@, "GJ_GameSheetGlow"@ + quality_suffix@)),
        decreases pairs.len() - i,
    {
        let sv = chars_of(pairs[i].stem.as_str());
        if crate::facts::str_eq(pairs[i].relative_dir.as_str(), relative_dir) && eq_ignore_case_chars(sv.as_slice(), stem.as_slice()) {
            return Some(i);
        }
        i = i + 1;
    }
    None
}

/// A sheet's path relative to the pack: its stem, under its folder when it
/// has one.
pub fn sheet_relative_path(pair: &SheetCandidate) -> (r: String)
    ensures
        r@ == if pair.relative_dir@.len() == 0 { pair.stem@ } else { crate::game_files::j(pair.relative_dir@, pair.stem@) },
{
    if pair.relative_dir.as_str().unicode_len() == 0 {
        pair.stem.clone()
    } else {
        crate::paths::join_path(pair.relative_dir.as_str(), pair.stem.as_str())
    }
}

/// Two first letters that do not spell `se` rule out a `secretCoin` id.
proof fn lemma_not_secretcoin(x: Seq<char>)
    requires
        x.len() >= 2,
        (x[0] != 's' && x[0] != 'S') || (x[1] != 'e' && x[1] != 'E'),
    ensures
        !has_prefix(lower(x), "secretcoin_"@),
{
    reveal_strlit("secretcoin_");
    let l = lower(x);
    assert(l[0] == lower_char(x[0]) && l[1] == lower_char(x[1]));
    if has_prefix(l, "secretcoin_"@) {
        assert(l.subrange(0, 11)[0] == l[0]);
        assert(l.subrange(0, 11)[1] == l[1]);
    }
}

/// The id of `{kind}_{n}_001.png` for a kind without `_` or `.`.
proof fn lemma_icon_id_of(kind: Seq<char>, n: Seq<char>)
    requires
        kind.len() > 0,
        forall|i: int| 0 <= i < kind.len() ==> kind[i] != '_' && kind[i] != '.',
        n.len() > 0,
        forall|i: int| 0 <= i < n.len() ==> is_digit(n[i]),
        known_kind_spec(kind),
        !has_prefix(lower(kind + "_"@ + n), "secretcoin_"@),
    ensures
        icon_id_spec(kind + "_"@ + n + "_001.png"@) == Some(kind + "_"@ + n),
{
    reveal_strlit("_");
    reveal_strlit("_001.png");
    reveal_strlit(".png");
    reveal_strlit("001");
    let name = kind + "_"@ + n + "_001.png"@;
    let stem = kind + "_"@ + n + "_001"@;
    reveal_strlit("_001");
    assert(name =~= stem + ".png"@);
    assert(name.subrange(name.len() - 4, name.len() as int) =~= ".png"@);
    assert(name.subrange(0, name.len() - 4) =~= stem);
    assert(strip_png_spec(name) == stem);
    assert forall|i: int| 0 <= i < n.len() implies n[i] != '_' by {
        assert(is_digit(n[i]));
    }
    let d = "001"@;
    assert(stem =~= kind + seq!['_'] + (n + seq!['_'] + d));
    lemma_split_on_concat(kind, '_', n + seq!['_'] + d);
    lemma_split_on_concat(n, '_', d);
    lemma_split_on_plain(kind, '_');
    lemma_split_on_plain(n, '_');
    lemma_split_on_plain(d, '_');
    let parts = split_on(stem, '_');
    assert(parts =~= seq![kind, n, d]);
    assert(all_digits(n));
    assert(kind + "_"@ + n == parts[0] + "_"@ + parts[1]);
}

/// Every icon family of the game is recognised: for each kind (player,
/// ship, ufo, bird, dart, robot, spider, swing, jetpack, cube) and each
/// number, the frame `{kind}_{n}_001.png` belongs to the icon `{kind}_{n}`.
pub proof fn law_every_icon_kind_is_known(kind: Seq<char>, n: Seq<char>)
    requires
        kind == "player"@ || kind == "ship"@ || kind == "ufo"@ || kind == "bird"@ || kind == "dart"@
            || kind == "robot"@ || kind == "spider"@ || kind == "swing"@ || kind == "jetpack"@ || kind == "cube"@,
        n.len() > 0,
        forall|i: int| 0 <= i < n.len() ==> is_digit(n[i]),
    ensures
        icon_id_spec(kind + "_"@ + n + "_001.png"@) == Some(kind + "_"@ + n),
{
    reveal_strlit("player");
    reveal_strlit("ship");
    reveal_strlit("ufo");
    reveal_strlit("bird");
    reveal_strlit("dart");
    reveal_strlit("robot");
    reveal_strlit("spider");
    reveal_strlit("swing");
    reveal_strlit("jetpack");
    reveal_strlit("cube");
    reveal_strlit("_");
    let x = kind + "_"@ + n;
    assert(x[0] == kind[0] && x[1] == kind[1]);
    lemma_not_secretcoin(x);
    lemma_icon_id_of(kind, n);
}


/// Named player variants keep their name: `player_{word}_{n}_001.png`
/// (a word that is not a number) belongs to the icon `player_{word}_{n}`.
pub proof fn law_named_player_icon(word: Seq<char>, n: Seq<char>)
    requires
        word.len() > 0,
        forall|i: int| 0 <= i < word.len() ==> word[i] != '_' && word[i] != '.',
        exists|i: int| 0 <= i < word.len() && !is_digit(#[trigger] word[i]),
        n.len() > 0,
        forall|i: int| 0 <= i < n.len() ==> is_digit(n[i]),
    ensures
        icon_id_spec("player_"@ + word + "_"@ + n + "_001.png"@) == Some("player_"@ + word + "_"@ + n),
{
    reveal_strlit("player_");
    reveal_strlit("player");
    reveal_strlit("_");
    reveal_strlit("_001.png");
    reveal_strlit(".png");
    reveal_strlit("001");
    reveal_strlit("_001");
    let name = "player_"@ + word + "_"@ + n + "_001.png"@;
    let stem = "player_"@ + word + "_"@ + n + "_001"@;
    assert(name =~= stem + ".png"@);
    assert(name.subrange(name.len() - 4, name.len() as int) =~= ".png"@);
    assert(name.subrange(0, name.len() - 4) =~= stem);
    assert(strip_png_spec(name) == stem);
    assert forall|i: int| 0 <= i < n.len() implies n[i] != '_' by {
        assert(is_digit(n[i]));
    }
    let d = "001"@;
    let p = "player"@;
    assert(stem =~= p + seq!['_'] + (word + seq!['_'] + (n + seq!['_'] + d)));
    lemma_split_on_concat(p, '_', word + seq!['_'] + (n + seq!['_'] + d));
    lemma_split_on_concat(word, '_', n + seq!['_'] + d);
    lemma_split_on_concat(n, '_', d);
    lemma_split_on_plain(p, '_');
    lemma_split_on_plain(word, '_');
    lemma_split_on_plain(n, '_');
    lemma_split_on_plain(d, '_');
    let parts = split_on(stem, '_');
    assert(parts =~= seq![p, word, n, d]);
    assert(all_digits(n));
    assert(!all_digits(word));
    assert("player_"@ + word + "_"@ + n =~= parts[0] + "_"@ + parts[1] + "_"@ + parts[2]);
}

} // verus!
