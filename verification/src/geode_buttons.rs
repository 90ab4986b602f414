//! The Geode loader button frames: which frames the buttons tool targets, how
//! they are grouped and labelled, and which BlankSheet it reads.

use vstd::prelude::*;
use crate::contracts::GeodeButtonsVariant;
use crate::discovery::{
    bad_key_exists, cand_view, cand_views, discover_sheet_pairs, is_sheet_key, key_cand,
    walk_fails, SheetCandidate,
};
use crate::errors::AppError;
use crate::facts::{str_eq, PathFacts};
use crate::game_files::{j, Platform};
use crate::layout::GameFilesLayout;
use crate::order::{lemma_lex_irreflexive, lex_lt, strs};
use crate::paths::join_path;
use crate::sheet_lookup::{find_current_sheet_for_input, locate_spec};
use crate::glow_names::{last_index_of, last_index_of_exec};
use crate::text::{
    chars_of, concat_chars, concat_str, contains_seq, contains_str, copy_range, ends_with_str,
    has_prefix, has_suffix, lower, lower_chars, starts_with_str, string_from_chars,
};

verus! {

/// The size of a frame's sprite.
#[derive(Debug, Clone, Copy, PartialEq, Eq)]
pub struct GeodeButtonsTargetSize {
    pub width: u32,
    pub height: u32,
}

/// A frame the tool can generate.
#[derive(Debug, Clone, PartialEq, Eq)]
pub struct GeodeButtonsTargetFrame {
    pub name: String,
    pub sprite_size: GeodeButtonsTargetSize,
}

/// Frames generated together, with a label and an optional preview.
#[derive(Debug, Clone, PartialEq, Eq)]
pub struct GeodeButtonsTargetGroup {
    pub id: String,
    pub label: String,
    pub frames: Vec<GeodeButtonsTargetFrame>,
    pub preview_png_data_url: Option<String>,
}

/// The kind of Geode loader button a frame is, by its name's prefix.
pub open spec fn base_type_spec(name: Seq<char>) -> Option<Seq<char>> {
    if has_prefix(name, "geode.loader/baseTab_Normal_"@) {
        Some("tabs"@)
    } else if has_prefix(name, "geode.loader/baseEditor_Normal_"@) {
        Some("editorBase"@)
    } else if has_prefix(name, "geode.loader/baseAccount_Normal_"@) {
        Some("accountBase"@)
    } else if has_prefix(name, "geode.loader/baseCross_"@) {
        Some("cross"@)
    } else if has_prefix(name, "geode.loader/baseCategory_"@) {
        Some("category"@)
    } else if has_prefix(name, "geode.loader/baseLeaderboard_"@) {
        Some("leaderboard"@)
    } else if has_prefix(name, "geode.loader/baseIconSelect_"@) {
        Some("iconSelect"@)
    } else if has_prefix(name, "geode.loader/baseCircle_"@) {
        Some("circle"@)
    } else {
        None
    }
}

/// The kind of Geode loader button a frame is.
pub fn frame_base_type(frame_name: &str) -> (r: Option<&'static str>)
    ensures
        match r {
            Some(t) => base_type_spec(frame_name@) == Some(t@),
            None => base_type_spec(frame_name@) is None,
        },
{
    let v = chars_of(frame_name);
    let s = v.as_slice();
    if starts_with_str(s, "geode.loader/baseTab_Normal_") {
        return Some("tabs");
    }
    if starts_with_str(s, "geode.loader/baseEditor_Normal_") {
        return Some("editorBase");
    }
    if starts_with_str(s, "geode.loader/baseAccount_Normal_") {
        return Some("accountBase");
    }
    if starts_with_str(s, "geode.loader/baseCross_") {
        return Some("cross");
    }
    if starts_with_str(s, "geode.loader/baseCategory_") {
        return Some("category");
    }
    if starts_with_str(s, "geode.loader/baseLeaderboard_") {
        return Some("leaderboard");
    }
    if starts_with_str(s, "geode.loader/baseIconSelect_") {
        return Some("iconSelect");
    }
    if starts_with_str(s, "geode.loader/baseCircle_") {
        return Some("circle");
    }
    None
}

/// The identifier of a colour variant.
pub open spec fn variant_slug_spec(v: GeodeButtonsVariant) -> Seq<char> {
    match v {
        GeodeButtonsVariant::Primary => "primary"@,
        GeodeButtonsVariant::Secondary => "secondary"@,
        GeodeButtonsVariant::DarkAqua => "darkAqua"@,
        GeodeButtonsVariant::DarkPurple => "darkPurple"@,
        GeodeButtonsVariant::Gray => "gray"@,
        GeodeButtonsVariant::Error => "error"@,
        GeodeButtonsVariant::Info => "info"@,
        GeodeButtonsVariant::Pink => "pink"@,
    }
}

/// The identifier of a colour variant.
pub fn variant_slug(variant: &GeodeButtonsVariant) -> (r: &'static str)
    ensures
        r@ == variant_slug_spec(*variant),
{
    match variant {
        GeodeButtonsVariant::Primary => "primary",
        GeodeButtonsVariant::Secondary => "secondary",
        GeodeButtonsVariant::DarkAqua => "darkAqua",
        GeodeButtonsVariant::DarkPurple => "darkPurple",
        GeodeButtonsVariant::Gray => "gray",
        GeodeButtonsVariant::Error => "error",
        GeodeButtonsVariant::Info => "info",
        GeodeButtonsVariant::Pink => "pink",
    }
}

/// The label of a colour variant.
pub open spec fn variant_label_spec(v: GeodeButtonsVariant) -> Seq<char> {
    match v {
        GeodeButtonsVariant::Primary => "Primary"@,
        GeodeButtonsVariant::Secondary => "Secondary"@,
        GeodeButtonsVariant::DarkAqua => "Dark Aqua"@,
        GeodeButtonsVariant::DarkPurple => "Dark Purple"@,
        GeodeButtonsVariant::Gray => "Gray"@,
        GeodeButtonsVariant::Error => "Error"@,
        GeodeButtonsVariant::Info => "Info"@,
        GeodeButtonsVariant::Pink => "Pink"@,
    }
}

/// The label of a colour variant.
pub fn variant_label(variant: &GeodeButtonsVariant) -> (r: &'static str)
    ensures
        r@ == variant_label_spec(*variant),
{
    match variant {
        GeodeButtonsVariant::Primary => "Primary",
        GeodeButtonsVariant::Secondary => "Secondary",
        GeodeButtonsVariant::DarkAqua => "Dark Aqua",
        GeodeButtonsVariant::DarkPurple => "Dark Purple",
        GeodeButtonsVariant::Gray => "Gray",
        GeodeButtonsVariant::Error => "Error",
        GeodeButtonsVariant::Info => "Info",
        GeodeButtonsVariant::Pink => "Pink",
    }
}

/// The label of a button kind.
pub open spec fn base_label_spec(t: Seq<char>) -> Seq<char> {
    if t == "tabs"@ {
        "Tabs"@
    } else if t == "editorBase"@ {
        "Editor Base"@
    } else if t == "accountBase"@ {
        "Account Base"@
    } else if t == "iconSelect"@ {
        "Icon Button"@
    } else if t == "cross"@ {
        "Cross"@
    } else if t == "category"@ {
        "Category"@
    } else if t == "leaderboard"@ {
        "Leaderboard"@
    } else if t == "circle"@ {
        "Circle"@
    } else {
        "Unknown"@
    }
}

/// The label of a button kind.
pub fn base_type_label(base_type: &str) -> (r: &'static str)
    ensures
        r@ == base_label_spec(base_type@),
{
    if str_eq(base_type, "tabs") {
        "Tabs"
    } else if str_eq(base_type, "editorBase") {
        "Editor Base"
    } else if str_eq(base_type, "accountBase") {
        "Account Base"
    } else if str_eq(base_type, "iconSelect") {
        "Icon Button"
    } else if str_eq(base_type, "cross") {
        "Cross"
    } else if str_eq(base_type, "category") {
        "Category"
    } else if str_eq(base_type, "leaderboard") {
        "Leaderboard"
    } else if str_eq(base_type, "circle") {
        "Circle"
    } else {
        "Unknown"
    }
}


/// What follows the last `_` of a frame name, without `.png`.
pub open spec fn trailing_token_spec(name: Seq<char>) -> Option<Seq<char>> {
    let u = last_index_of(name, '_');
    if u < 0 {
        None
    } else {
        let right = name.subrange(u + 1, name.len() as int);
        if has_suffix(right, ".png"@) {
            Some(right.subrange(0, right.len() - 4))
        } else {
            Some(right)
        }
    }
}

/// What follows the last `_` of a frame name, without `.png`.
pub fn trailing_token_from_frame_name(frame_name: &str) -> (r: Option<String>)
    ensures
        match r {
            Some(t) => trailing_token_spec(frame_name@) == Some(t@),
            None => trailing_token_spec(frame_name@) is None,
        },
{
    let v = chars_of(frame_name);
    let u = match last_index_of_exec(v.as_slice(), '_') {
        Some(u) => u,
        None => return None,
    };
    let right = copy_range(v.as_slice(), u + 1, v.len());
    proof {
        reveal_strlit(".png");
    }
    if ends_with_str(right.as_slice(), ".png") {
        Some(string_from_chars(copy_range(right.as_slice(), 0, right.len() - 4).as_slice()))
    } else {
        Some(string_from_chars(right.as_slice()))
    }
}

/// The last character is an ASCII lower-case letter or digit.
pub open spec fn ends_lower_or_digit(t: Seq<char>) -> bool {
    t.len() > 0 && (('a' <= t.last() && t.last() <= 'z') || ('0' <= t.last() && t.last() <= '9'))
}

/// A camel-case token with a space before each upper-case letter that
/// follows a lower-case letter or a digit (`DarkAqua` → `Dark Aqua`).
pub open spec fn humanize_spec(t: Seq<char>) -> Seq<char>
    decreases t.len(),
{
    if t.len() == 0 {
        t
    } else {
        let prev = humanize_spec(t.drop_last());
        let c = t.last();
        if 'A' <= c && c <= 'Z' && ends_lower_or_digit(t.drop_last()) {
            prev.push(' ').push(c)
        } else {
            prev.push(c)
        }
    }
}

/// A camel-case token split into words.
pub fn humanize_camel_token(token: &str) -> (r: String)
    ensures
        r@ == humanize_spec(token@),
{
    let v = chars_of(token);
    let mut out: Vec<char> = Vec::new();
    let mut prev_is_lower_or_digit = false;
    let mut i: usize = 0;
    proof {
        assert(v@.subrange(0, 0) =~= Seq::<char>::empty());
    }
    while i < v.len()
        invariant
            i <= v.len(),
            v@ == token@,
            out@ == humanize_spec(v@.subrange(0, i as int)),
            prev_is_lower_or_digit == ends_lower_or_digit(v@.subrange(0, i as int)),
        decreases v.len() - i,
    {
        let ch = v[i];
        proof {
            assert(v@.subrange(0, i + 1).drop_last() =~= v@.subrange(0, i as int));
            assert(v@.subrange(0, i + 1).last() == ch);
        }
        let upper = 'A' <= ch && ch <= 'Z';
        if upper && prev_is_lower_or_digit {
            out.push(' ');
        }
        out.push(ch);
        prev_is_lower_or_digit = ('a' <= ch && ch <= 'z') || ('0' <= ch && ch <= '9');
        i = i + 1;
    }
    proof {
        assert(v@.subrange(0, v@.len() as int) =~= v@);
    }
    string_from_chars(out.as_slice())
}

/// The label of a frame with its own group: the kind's label and the
/// frame's trailing token in words (`Unknown` without one).
pub open spec fn individual_label_spec(base_type: Seq<char>, name: Seq<char>) -> Seq<char> {
    base_label_spec(base_type) + " "@ + humanize_spec(
        match trailing_token_spec(name) {
            Some(t) => t,
            None => "Unknown"@,
        },
    )
}

/// The label of a frame with its own group.
pub fn individual_frame_label(base_type: &str, frame_name: &str) -> (r: String)
    ensures
        r@ == individual_label_spec(base_type@, frame_name@),
{
    let base = base_type_label(base_type);
    let token = match trailing_token_from_frame_name(frame_name) {
        Some(t) => t,
        None => "Unknown".to_string(),
    };
    let words = humanize_camel_token(token.as_str());
    let a = chars_of(base);
    let b = concat_str(a.as_slice(), " ");
    let w = chars_of(words.as_str());
    let c = concat_chars(b.as_slice(), w.as_slice());
    string_from_chars(c.as_slice())
}

/// The group id of a frame with its own group: `{kind}:{frame}`.
pub fn individual_frame_group_id(base_type: &str, frame_name: &str) -> (r: String)
    ensures
        r@ == base_type@ + ":"@ + frame_name@,
{
    let a = chars_of(base_type);
    let b = concat_str(a.as_slice(), ":");
    let c = concat_str(b.as_slice(), frame_name);
    string_from_chars(c.as_slice())
}

/// The colour variant named after a frame's last `_` (without `.png`).
pub open spec fn variant_of_spec(name: Seq<char>) -> Option<GeodeButtonsVariant> {
    let u = last_index_of(name, '_');
    let suffix = if u < 0 {
        Seq::empty()
    } else {
        name.subrange(u + 1, name.len() as int)
    };
    let color = if has_suffix(suffix, ".png"@) {
        suffix.subrange(0, suffix.len() - 4)
    } else {
        suffix
    };
    if color == "Green"@ {
        Some(GeodeButtonsVariant::Primary)
    } else if color == "Cyan"@ {
        Some(GeodeButtonsVariant::Secondary)
    } else if color == "DarkAqua"@ {
        Some(GeodeButtonsVariant::DarkAqua)
    } else if color == "DarkPurple"@ {
        Some(GeodeButtonsVariant::DarkPurple)
    } else if color == "Gray"@ {
        Some(GeodeButtonsVariant::Gray)
    } else if color == "Red"@ {
        Some(GeodeButtonsVariant::Error)
    } else if color == "Blue"@ {
        Some(GeodeButtonsVariant::Info)
    } else if color == "Pink"@ {
        Some(GeodeButtonsVariant::Pink)
    } else {
        None
    }
}

/// The colour variant named after a frame's last `_`.
pub fn frame_variant_from_color_suffix(frame_name: &str) -> (r: Option<GeodeButtonsVariant>)
    ensures
        r == variant_of_spec(frame_name@),
{
    let v = chars_of(frame_name);
    let suffix = match last_index_of_exec(v.as_slice(), '_') {
        Some(u) => copy_range(v.as_slice(), u + 1, v.len()),
        None => Vec::new(),
    };
    proof {
        reveal_strlit(".png");
    }
    let color = if ends_with_str(suffix.as_slice(), ".png") {
        copy_range(suffix.as_slice(), 0, suffix.len() - 4)
    } else {
        copy_range(suffix.as_slice(), 0, suffix.len())
    };
    proof {
        assert(suffix@.subrange(0, suffix@.len() as int) =~= suffix@);
    }
    let c = string_from_chars(color.as_slice());
    let cs = c.as_str();
    if str_eq(cs, "Green") {
        Some(GeodeButtonsVariant::Primary)
    } else if str_eq(cs, "Cyan") {
        Some(GeodeButtonsVariant::Secondary)
    } else if str_eq(cs, "DarkAqua") {
        Some(GeodeButtonsVariant::DarkAqua)
    } else if str_eq(cs, "DarkPurple") {
        Some(GeodeButtonsVariant::DarkPurple)
    } else if str_eq(cs, "Gray") {
        Some(GeodeButtonsVariant::Gray)
    } else if str_eq(cs, "Red") {
        Some(GeodeButtonsVariant::Error)
    } else if str_eq(cs, "Blue") {
        Some(GeodeButtonsVariant::Info)
    } else if str_eq(cs, "Pink") {
        Some(GeodeButtonsVariant::Pink)
    } else {
        None
    }
}

/// A kind whose frames each form their own group.
pub open spec fn individual_kind(t: Seq<char>) -> bool {
    t == "tabs"@ || t == "iconSelect"@ || t == "editorBase"@ || t == "accountBase"@
}

/// The family a frame is sized and tinted with: `{kind}:{frame}` for the
/// kinds with one group per frame, else `{kind}:{variant}`.
pub open spec fn family_id_spec(name: Seq<char>) -> Option<Seq<char>> {
    match base_type_spec(name) {
        None => None,
        Some(t) => if individual_kind(t) {
            Some(t + ":"@ + name)
        } else {
            match variant_of_spec(name) {
                Some(v) => Some(t + ":"@ + variant_slug_spec(v)),
                None => None,
            }
        },
    }
}

/// The family a frame is sized and tinted with.
pub fn frame_family_id(frame_name: &str) -> (r: Option<String>)
    ensures
        match r {
            Some(f) => family_id_spec(frame_name@) == Some(f@),
            None => family_id_spec(frame_name@) is None,
        },
{
    let base = match frame_base_type(frame_name) {
        Some(b) => b,
        None => return None,
    };
    if str_eq(base, "tabs") || str_eq(base, "iconSelect") || str_eq(base, "editorBase") || str_eq(
        base,
        "accountBase",
    ) {
        return Some(individual_frame_group_id(base, frame_name));
    }
    let variant = match frame_variant_from_color_suffix(frame_name) {
        Some(v) => v,
        None => return None,
    };
    let slug = variant_slug(&variant);
    let a = chars_of(base);
    let b = concat_str(a.as_slice(), ":");
    let c = concat_str(b.as_slice(), slug);
    Some(string_from_chars(c.as_slice()))
}

/// An ASCII letter.
pub open spec fn ascii_letter(c: char) -> bool {
    ('a' <= c && c <= 'z') || ('A' <= c && c <= 'Z')
}

/// A non-empty run of ASCII letters.
pub open spec fn letters(s: Seq<char>) -> bool {
    s.len() > 0 && forall|i: int| 0 <= i < s.len() ==> ascii_letter(#[trigger] s[i])
}

/// The name of a circle button frame:
/// `geode.loader/baseCircle_{size}[Alt]_{color}.png`, size and colour runs
/// of ASCII letters.
pub open spec fn circle_name_spec(name: Seq<char>) -> bool {
    exists|a: Seq<char>, b: Seq<char>|
        #![trigger letters(a), letters(b)]
        letters(a) && letters(b) && name == "geode.loader/baseCircle_"@ + a + "_"@ + b + ".png"@
}

/// `regex::Regex::new` and `Regex::is_match`: whether the frame name matches
/// `^geode\.loader/baseCircle_(?P<size>[A-Za-z]+?)(?P<alt>Alt)?_(?P<color>[A-Za-z]+)\.png$`,
/// which is what [`circle_name_spec`] says. `Regex::new` fails only on a
/// pattern that does not parse or whose compiled form exceeds the default
/// size limit; this fixed pattern does neither, so the result is `Ok`.
#[verifier::external_body]
fn circle_frame_matches(frame_name: &str) -> (r: Result<bool, String>)
    ensures
        r is Ok,
        r matches Ok(b) ==> b == circle_name_spec(frame_name@),
{
    match regex::Regex::new(
        r"^geode\.loader/baseCircle_(?P<size>[A-Za-z]+?)(?P<alt>Alt)?_(?P<color>[A-Za-z]+)\.png$",
    ) {
        Ok(re) => Ok(re.is_match(frame_name)),
        Err(err) => Err(err.to_string()),
    }
}

/// The group a frame with a sprite size joins, as its id and label: kinds
/// with one group per frame by the frame; circle frames only when their name
/// has the circle shape; the others by their colour variant. None when the
/// frame is not a target.
pub open spec fn target_group_spec(name: Seq<char>) -> Option<(Seq<char>, Seq<char>)> {
    match base_type_spec(name) {
        None => None,
        Some(t) => if individual_kind(t) {
            Some((t + ":"@ + name, individual_label_spec(t, name)))
        } else if t == "circle"@ && !circle_name_spec(name) {
            None
        } else {
            match variant_of_spec(name) {
                Some(v) => Some(
                    (t + ":"@ + variant_slug_spec(v), base_label_spec(t) + " "@ + variant_label_spec(v)),
                ),
                None => None,
            }
        },
    }
}

/// The group a frame joins, when it is a target (the circle pattern always
/// compiles, so this never fails).
pub fn target_group_for_frame(frame_name: &str) -> (r: Result<Option<(String, String)>, AppError>)
    ensures
        match r {
            Ok(Some((id, label))) => target_group_spec(frame_name@) == Some((id@, label@)),
            Ok(None) => target_group_spec(frame_name@) is None,
            Err(_) => false,
        },
{
    let base = match frame_base_type(frame_name) {
        Some(b) => b,
        None => return Ok(None),
    };
    if str_eq(base, "tabs") || str_eq(base, "iconSelect") || str_eq(base, "editorBase") || str_eq(
        base,
        "accountBase",
    ) {
        let id = individual_frame_group_id(base, frame_name);
        let label = individual_frame_label(base, frame_name);
        return Ok(Some((id, label)));
    }
    if str_eq(base, "circle") {
        match circle_frame_matches(frame_name) {
            Ok(true) => {},
            Ok(false) => return Ok(None),
            Err(msg) => {
                let a = chars_of("failed to compile regex: ");
                let b = chars_of(msg.as_str());
                let c = concat_chars(a.as_slice(), b.as_slice());
                return Err(AppError::ParseError(string_from_chars(c.as_slice())));
            },
        }
    }
    let variant = match frame_variant_from_color_suffix(frame_name) {
        Some(v) => v,
        None => return Ok(None),
    };
    let slug = variant_slug(&variant);
    let a = chars_of(base);
    let b = concat_str(a.as_slice(), ":");
    let id = concat_str(b.as_slice(), slug);
    let l = chars_of(base_type_label(base));
    let l2 = concat_str(l.as_slice(), " ");
    let label = concat_str(l2.as_slice(), variant_label(&variant));
    Ok(Some((string_from_chars(id.as_slice()), string_from_chars(label.as_slice()))))
}

/// The progress total: at least 1, at most `u32::MAX`.
pub fn progress_total_as_u32(total: usize) -> (r: u32)
    ensures
        r == if total < 1 { 1 } else if total > u32::MAX { u32::MAX as int } else { total as int },
{
    let t = if total < 1 { 1 } else { total };
    if t > u32::MAX as usize { u32::MAX } else { t as u32 }
}

/// The progress done: at most the total (at least 1), at most `u32::MAX`.
pub fn progress_done_as_u32(done: usize, total: usize) -> (r: u32)
    ensures
        ({
            let t: int = if total < 1 { 1 } else { total as int };
            let d: int = if done < t { done as int } else { t };
            r == if d > u32::MAX { u32::MAX as int } else { d }
        }),
{
    let t = if total < 1 { 1 } else { total };
    let d = if done < t { done } else { t };
    if d > u32::MAX as usize { u32::MAX } else { d as u32 }
}

/// The default input of the buttons tool: Geode's `geode.loader` resources
/// when Geometry Dash is there, else nothing.
pub fn resolve_geode_buttons_default_input_dir(
    layout: &GameFilesLayout,
    facts: &PathFacts,
    platform: Platform,
) -> (r: String)
    ensures
        r@ == if layout.found_spec(*facts) {
            j(layout.geode_resources@, "geode.loader"@)
        } else {
            Seq::empty()
        },
{
    if !layout.geometry_dash_found(facts) {
        return String::new();
    }
    join_path(layout.geode_resources.as_str(), "geode.loader")
}

/// The BlankSheet stems, best first.
pub open spec fn blank_stems() -> Seq<Seq<char>> {
    seq!["BlankSheet-uhd"@, "BlankSheet-hd"@, "BlankSheet"@]
}

/// The first of the BlankSheet stems found live under `rel`.
pub open spec fn first_blank_sheet(
    layout: GameFilesLayout,
    rel: Seq<char>,
    facts: PathFacts,
    platform: Platform,
    tree: Seq<Seq<char>>,
) -> Option<(Seq<char>, Seq<char>, Seq<char>, Seq<char>)> {
    if locate_spec(layout, rel, blank_stems()[0], facts, platform, tree) is Some {
        locate_spec(layout, rel, blank_stems()[0], facts, platform, tree)
    } else if locate_spec(layout, rel, blank_stems()[1], facts, platform, tree) is Some {
        locate_spec(layout, rel, blank_stems()[1], facts, platform, tree)
    } else {
        locate_spec(layout, rel, blank_stems()[2], facts, platform, tree)
    }
}

/// The BlankSheet the buttons tool reads by default: when Geometry Dash is
/// there, the best BlankSheet under Geode's `geode.loader`, else the best
/// one in the vanilla resources. `loader_tree` and `root_tree` are the files
/// the walks of those two source folders met.
pub fn resolve_geode_buttons_default_sheet(
    layout: &GameFilesLayout,
    facts: &PathFacts,
    platform: Platform,
    loader_tree: &Vec<String>,
    root_tree: &Vec<String>,
) -> (r: Option<SheetCandidate>)
    ensures
        match r {
            Some(c) => layout.found_spec(*facts) && Some(cand_view(c)) == if first_blank_sheet(*layout, "geode.loader"@, *facts, platform, strs(loader_tree@)) is Some {
                first_blank_sheet(*layout, "geode.loader"@, *facts, platform, strs(loader_tree@))
            } else {
                first_blank_sheet(*layout, ""@, *facts, platform, strs(root_tree@))
            },
            None => !layout.found_spec(*facts) || (first_blank_sheet(*layout, "geode.loader"@, *facts, platform, strs(loader_tree@)) is None
                && first_blank_sheet(*layout, ""@, *facts, platform, strs(root_tree@)) is None),
        },
{
    if !layout.geometry_dash_found(facts) {
        return None;
    }
    if let Some(pair) = first_blank_in(layout, "geode.loader", facts, platform, loader_tree) {
        return Some(pair);
    }
    first_blank_in(layout, "", facts, platform, root_tree)
}

/// The first of the BlankSheet stems found live under `rel`.
pub fn first_blank_in(
    layout: &GameFilesLayout,
    rel: &str,
    facts: &PathFacts,
    platform: Platform,
    tree: &Vec<String>,
) -> (r: Option<SheetCandidate>)
    ensures
        match r {
            Some(c) => first_blank_sheet(*layout, rel@, *facts, platform, strs(tree@)) == Some(cand_view(c)),
            None => first_blank_sheet(*layout, rel@, *facts, platform, strs(tree@)) is None,
        },
{
    proof {
        reveal_strlit("BlankSheet-uhd");
        reveal_strlit("BlankSheet-hd");
        reveal_strlit("BlankSheet");
    }
    if let Some(pair) = find_current_sheet_for_input(layout, rel, "BlankSheet-uhd", facts, platform, tree) {
        return Some(pair);
    }
    if let Some(pair) = find_current_sheet_for_input(layout, rel, "BlankSheet-hd", facts, platform, tree) {
        return Some(pair);
    }
    find_current_sheet_for_input(layout, rel, "BlankSheet", facts, platform, tree)
}

/// How a BlankSheet stem ranks: `-uhd` 3, `-hd` 2, other 1 (in lower case).
pub open spec fn blank_rank(stem: Seq<char>) -> int {
    if has_suffix(lower(stem), "-uhd"@) {
        3
    } else if has_suffix(lower(stem), "-hd"@) {
        2
    } else {
        1
    }
}

/// A stem that names a BlankSheet (any case).
pub open spec fn is_blank_stem(stem: Seq<char>) -> bool {
    contains_seq(lower(stem), "blanksheet"@)
}

/// The `.plist` of the first sheet with the best rank among the BlankSheets.
pub open spec fn best_blank_spec(pairs: Seq<SheetCandidate>) -> Option<Seq<char>>
    decreases pairs.len(),
{
    if pairs.len() == 0 {
        None
    } else {
        let prev = best_blank_spec(pairs.drop_last());
        let c = pairs.last();
        if !is_blank_stem(c.stem@) {
            prev
        } else if prev is None || blank_rank(c.stem@) > best_rank_spec(pairs.drop_last()) {
            Some(c.plist_path@)
        } else {
            prev
        }
    }
}

/// The best rank among the BlankSheets, or -1.
pub open spec fn best_rank_spec(pairs: Seq<SheetCandidate>) -> int
    decreases pairs.len(),
{
    if pairs.len() == 0 {
        -1
    } else {
        let prev = best_rank_spec(pairs.drop_last());
        let c = pairs.last();
        if is_blank_stem(c.stem@) && blank_rank(c.stem@) > prev {
            blank_rank(c.stem@)
        } else {
            prev
        }
    }
}

/// The `.plist` of the best BlankSheet among the sheets: `-uhd`, then `-hd`,
/// then one without a tier; the first of equal rank.
pub fn best_blank_sheet_plist(pairs: &Vec<SheetCandidate>) -> (r: Option<String>)
    ensures
        match r {
            Some(p) => best_blank_spec(pairs@) == Some(p@),
            None => best_blank_spec(pairs@) is None,
        },
{
    let mut best: Option<String> = None;
    let mut best_rank: i32 = -1;
    let mut i: usize = 0;
    while i < pairs.len()
        invariant
            i <= pairs.len(),
            best_rank as int == best_rank_spec(pairs@.subrange(0, i as int)),
            match best {
                Some(p) => best_blank_spec(pairs@.subrange(0, i as int)) == Some(p@),
                None => best_blank_spec(pairs@.subrange(0, i as int)) is None,
            },
            best is None <==> best_rank == -1,
            -1 <= best_rank <= 3,
        decreases pairs.len() - i,
    {
        let c = &pairs[i];
        proof {
            assert(pairs@.subrange(0, i + 1).drop_last() =~= pairs@.subrange(0, i as int));
            assert(pairs@.subrange(0, i + 1).last() == pairs@[i as int]);
            reveal_strlit("-uhd");
            reveal_strlit("-hd");
        }
        let sv = chars_of(c.stem.as_str());
        let low = lower_chars(sv.as_slice());
        if contains_str(low.as_slice(), "blanksheet") {
            let rank: i32 = if ends_with_str(low.as_slice(), "-uhd") {
                3
            } else if ends_with_str(low.as_slice(), "-hd") {
                2
            } else {
                1
            };
            if rank > best_rank {
                best_rank = rank;
                best = Some(c.plist_path.clone());
            }
        }
        i = i + 1;
    }
    proof {
        assert(pairs@.subrange(0, pairs@.len() as int) =~= pairs@);
    }
    best
}

/// The `.plist` of the best BlankSheet among the sheets found in the input
/// tree (see [`discover_sheet_pairs`] and [`best_blank_sheet_plist`]).
pub fn resolve_geode_buttons_plist(input_dir: &str, files: &Vec<String>) -> (r: Result<Option<String>, AppError>)
    ensures
        r is Err <==> walk_fails(input_dir@, strs(files@)) || bad_key_exists(input_dir@, strs(files@)),
        r matches Ok(Some(p)) ==> exists|k: Seq<char>| #[trigger] is_sheet_key(input_dir@, strs(files@), k) && key_cand(input_dir@, strs(files@), k).2 == p@ && best_blank_key(input_dir@, strs(files@), k),
        r matches Ok(None) ==> forall|k: Seq<char>| #[trigger] is_sheet_key(input_dir@, strs(files@), k) ==> !is_blank_stem(key_cand(input_dir@, strs(files@), k).0),
{
    let pairs = match discover_sheet_pairs(input_dir, files) {
        Ok(p) => p,
        Err(e) => return Err(e),
    };
    let r = best_blank_sheet_plist(&pairs);
    proof {
        lemma_best_blank_member(pairs@);
        let fs = strs(files@);
        match &r {
            Some(p) => {
                let t = lemma_best_blank_at(pairs@);
                lemma_rank_upper(pairs@);
                assert(cand_views(pairs@)[t] == cand_view(pairs@[t]));
                assert(cand_views(pairs@).contains(cand_view(pairs@[t])));
                let k = choose|k: Seq<char>| is_sheet_key(input_dir@, fs, k) && cand_view(pairs@[t]) == key_cand(input_dir@, fs, k);
                assert forall|k2: Seq<char>| #[trigger] is_sheet_key(input_dir@, fs, k2) && is_blank_stem(key_cand(input_dir@, fs, k2).0) implies ranks_no_higher(key_cand(input_dir@, fs, k2).0, key_cand(input_dir@, fs, k).0) by {
                    let x = key_cand(input_dir@, fs, k2);
                    assert(cand_views(pairs@).contains(x));
                    let u = choose|u: int| 0 <= u < cand_views(pairs@).len() && cand_views(pairs@)[u] == x;
                    assert(cand_views(pairs@)[u] == cand_view(pairs@[u]));
                    if u == t {
                        lemma_lex_irreflexive(pairs@[t].stem@);
                    } else if u > t {
                        assert(!lex_lt(pairs@[u].stem@, pairs@[t].stem@));
                    }
                }
                assert(best_blank_key(input_dir@, fs, k));
            },
            None => {
                assert forall|k: Seq<char>| #[trigger] is_sheet_key(input_dir@, fs, k) implies !is_blank_stem(key_cand(input_dir@, fs, k).0) by {
                    let x = key_cand(input_dir@, fs, k);
                    assert(cand_views(pairs@).contains(x));
                    let t = choose|t: int| 0 <= t < cand_views(pairs@).len() && cand_views(pairs@)[t] == x;
                    assert(cand_views(pairs@)[t] == cand_view(pairs@[t]));
                }
            },
        }
    }
    Ok(r)
}

/// `s2` ranks below `s`, or equal and not before it in stem order.
pub open spec fn ranks_no_higher(s2: Seq<char>, s: Seq<char>) -> bool {
    blank_rank(s2) < blank_rank(s) || (blank_rank(s2) == blank_rank(s) && !lex_lt(s2, s))
}

/// A BlankSheet key that no other BlankSheet key of the tree outranks: none
/// of a better tier, and none of the same tier earlier in stem order.
pub open spec fn best_blank_key(input: Seq<char>, files: Seq<Seq<char>>, k: Seq<char>) -> bool {
    &&& is_sheet_key(input, files, k)
    &&& is_blank_stem(key_cand(input, files, k).0)
    &&& forall|k2: Seq<char>| #[trigger] is_sheet_key(input, files, k2) && is_blank_stem(key_cand(input, files, k2).0)
        ==> ranks_no_higher(key_cand(input, files, k2).0, key_cand(input, files, k).0)
}

proof fn lemma_rank_upper(pairs: Seq<SheetCandidate>)
    ensures
        forall|u: int| 0 <= u < pairs.len() && is_blank_stem(#[trigger] pairs[u].stem@) ==> blank_rank(pairs[u].stem@) <= best_rank_spec(pairs),
    decreases pairs.len(),
{
    if pairs.len() > 0 {
        let d = pairs.drop_last();
        lemma_rank_upper(d);
        assert forall|u: int| 0 <= u < pairs.len() && is_blank_stem(#[trigger] pairs[u].stem@) implies blank_rank(pairs[u].stem@) <= best_rank_spec(pairs) by {
            if u < d.len() {
                assert(pairs[u] == d[u]);
            }
        }
    }
}

/// Where the best BlankSheet stands: the first of the best rank.
proof fn lemma_best_blank_at(pairs: Seq<SheetCandidate>) -> (t: int)
    requires
        best_blank_spec(pairs) is Some,
    ensures
        0 <= t < pairs.len(),
        pairs[t].plist_path@ == best_blank_spec(pairs)->0,
        is_blank_stem(pairs[t].stem@),
        blank_rank(pairs[t].stem@) == best_rank_spec(pairs),
        forall|u: int| 0 <= u < t && is_blank_stem(#[trigger] pairs[u].stem@) ==> blank_rank(pairs[u].stem@) < blank_rank(pairs[t].stem@),
    decreases pairs.len(),
{
    let d = pairs.drop_last();
    let c = pairs.last();
    lemma_best_blank_member(d);
    lemma_rank_upper(d);
    if !is_blank_stem(c.stem@) {
        let t = lemma_best_blank_at(d);
        assert forall|u: int| 0 <= u < t && is_blank_stem(#[trigger] pairs[u].stem@) implies blank_rank(pairs[u].stem@) < blank_rank(pairs[t].stem@) by {
            assert(pairs[u] == d[u]);
        }
        assert(pairs[t] == d[t]);
        t
    } else if best_blank_spec(d) is None || blank_rank(c.stem@) > best_rank_spec(d) {
        let t = pairs.len() - 1;
        assert forall|u: int| 0 <= u < t && is_blank_stem(#[trigger] pairs[u].stem@) implies blank_rank(pairs[u].stem@) < blank_rank(pairs[t].stem@) by {
            assert(pairs[u] == d[u]);
            assert(blank_rank(d[u].stem@) <= best_rank_spec(d));
        }
        t
    } else {
        let t = lemma_best_blank_at(d);
        assert forall|u: int| 0 <= u < t && is_blank_stem(#[trigger] pairs[u].stem@) implies blank_rank(pairs[u].stem@) < blank_rank(pairs[t].stem@) by {
            assert(pairs[u] == d[u]);
        }
        assert(pairs[t] == d[t]);
        t
    }
}

proof fn lemma_best_blank_member(pairs: Seq<SheetCandidate>)
    ensures
        best_blank_spec(pairs) matches Some(p) ==> exists|t: int| 0 <= t < pairs.len() && pairs[t].plist_path@ == p && is_blank_stem(pairs[t].stem@),
        best_blank_spec(pairs) is None ==> forall|t: int| 0 <= t < pairs.len() ==> !is_blank_stem(#[trigger] pairs[t].stem@),
        best_blank_spec(pairs) is None <==> best_rank_spec(pairs) == -1,
    decreases pairs.len(),
{
    if pairs.len() > 0 {
        let d = pairs.drop_last();
        lemma_best_blank_member(d);
        lemma_rank_bounds(d);
        if best_blank_spec(pairs) is Some && best_blank_spec(pairs) == best_blank_spec(d) {
            let t = choose|t: int| 0 <= t < d.len() && d[t].plist_path@ == best_blank_spec(d)->0 && is_blank_stem(d[t].stem@);
            assert(pairs[t] == d[t]);
        }
        if best_blank_spec(pairs) is None {
            assert forall|t: int| 0 <= t < pairs.len() implies !is_blank_stem(#[trigger] pairs[t].stem@) by {
                if t < d.len() {
                    assert(pairs[t] == d[t]);
                }
            }
        }
    }
}

proof fn lemma_rank_bounds(pairs: Seq<SheetCandidate>)
    ensures
        -1 <= best_rank_spec(pairs) <= 3,
        best_rank_spec(pairs) != 0,
    decreases pairs.len(),
{
    if pairs.len() > 0 {
        lemma_rank_bounds(pairs.drop_last());
    }
}

/// The last `_` of `p _ b` is the one before `b` when `b` holds none.
proof fn lemma_last_underscore(p: Seq<char>, b: Seq<char>)
    requires
        forall|i: int| 0 <= i < b.len() ==> b[i] != '_',
    ensures
        last_index_of(p.push('_') + b, '_') == p.len(),
    decreases b.len(),
{
    let n = p.push('_') + b;
    if b.len() == 0 {
        assert(n =~= p.push('_'));
    } else {
        assert(n.drop_last() =~= p.push('_') + b.drop_last());
        assert(n.last() == b.last());
        lemma_last_underscore(p, b.drop_last());
    }
}

/// The colour written after a frame's last `_` (with or without `.png`).
proof fn lemma_colour_after_underscore(p: Seq<char>, colour: Seq<char>, png: bool)
    requires
        forall|i: int| 0 <= i < colour.len() ==> colour[i] != '_' && colour[i] != '.',
    ensures
        variant_of_spec(p.push('_') + colour + (if png { ".png"@ } else { Seq::empty() }))
            == variant_of_spec(seq!['_'] + colour),
{
    reveal_strlit(".png");
    if has_suffix(colour, ".png"@) {
        assert(colour.subrange(colour.len() - 4, colour.len() as int)[0] == '.');
        assert(colour[colour.len() - 4] == '.');
    }
    let tail = colour + (if png { ".png"@ } else { Seq::empty() });
    assert forall|i: int| 0 <= i < tail.len() implies tail[i] != '_' by {
        if i >= colour.len() {
            assert(tail[i] == ".png"@[i - colour.len()]);
        }
    }
    let n = p.push('_') + tail;
    assert(n =~= p.push('_') + colour + (if png { ".png"@ } else { Seq::empty() }));
    lemma_last_underscore(p, tail);
    lemma_last_underscore(Seq::empty(), tail);
    assert(seq!['_'] + tail =~= Seq::<char>::empty().push('_') + tail);
    assert(n.subrange(p.len() as int + 1, n.len() as int) =~= tail);
    let m = seq!['_'] + tail;
    assert(m.subrange(1, m.len() as int) =~= tail);
    if png {
        assert(tail.subrange(tail.len() - 4, tail.len() as int) =~= ".png"@);
        assert(tail.subrange(0, tail.len() - 4) =~= colour);
    }
    if !png {
        assert(tail =~= colour);
    } else {
        let c = seq!['_'] + colour;
        assert(c.subrange(1, c.len() as int) =~= colour);
        lemma_last_underscore(Seq::empty(), colour);
        assert(c =~= Seq::<char>::empty().push('_') + colour);
    }
}

/// Each Geode button colour names its own variant, whatever comes before
/// the last `_` and whether or not the name ends in `.png`: Green is the
/// primary variant, Cyan the secondary, Blue info, Red error, and
/// DarkAqua, DarkPurple, Gray and Pink their own; so two different
/// colours never share a family.
pub proof fn law_colour_suffix_names_its_variant(p: Seq<char>, png: bool)
    ensures
        ({
            let ext = if png { ".png"@ } else { Seq::<char>::empty() };
            &&& variant_of_spec(p + "_Green"@ + ext) == Some(GeodeButtonsVariant::Primary)
            &&& variant_of_spec(p + "_Cyan"@ + ext) == Some(GeodeButtonsVariant::Secondary)
            &&& variant_of_spec(p + "_DarkAqua"@ + ext) == Some(GeodeButtonsVariant::DarkAqua)
            &&& variant_of_spec(p + "_DarkPurple"@ + ext) == Some(GeodeButtonsVariant::DarkPurple)
            &&& variant_of_spec(p + "_Gray"@ + ext) == Some(GeodeButtonsVariant::Gray)
            &&& variant_of_spec(p + "_Red"@ + ext) == Some(GeodeButtonsVariant::Error)
            &&& variant_of_spec(p + "_Blue"@ + ext) == Some(GeodeButtonsVariant::Info)
            &&& variant_of_spec(p + "_Pink"@ + ext) == Some(GeodeButtonsVariant::Pink)
        }),
{
    reveal_strlit(".png");
    reveal_strlit("_Green");
    reveal_strlit("_Cyan");
    reveal_strlit("_DarkAqua");
    reveal_strlit("_DarkPurple");
    reveal_strlit("_Gray");
    reveal_strlit("_Red");
    reveal_strlit("_Blue");
    reveal_strlit("_Pink");
    reveal_strlit("Green");
    reveal_strlit("Cyan");
    reveal_strlit("DarkAqua");
    reveal_strlit("DarkPurple");
    reveal_strlit("Gray");
    reveal_strlit("Red");
    reveal_strlit("Blue");
    reveal_strlit("Pink");
    let ext = if png { ".png"@ } else { Seq::<char>::empty() };
    assert(variant_of_spec(p + "_Green"@ + ext) == Some(GeodeButtonsVariant::Primary)) by {
        lemma_one_colour(p, "Green"@, "_Green"@, png);
    }
    assert(variant_of_spec(p + "_Cyan"@ + ext) == Some(GeodeButtonsVariant::Secondary)) by {
        lemma_one_colour(p, "Cyan"@, "_Cyan"@, png);
        assert("Cyan"@ != "Green"@);
    }
    assert(variant_of_spec(p + "_DarkAqua"@ + ext) == Some(GeodeButtonsVariant::DarkAqua)) by {
        lemma_one_colour(p, "DarkAqua"@, "_DarkAqua"@, png);
        assert("DarkAqua"@ != "Green"@ && "DarkAqua"@ != "Cyan"@);
    }
    assert(variant_of_spec(p + "_DarkPurple"@ + ext) == Some(GeodeButtonsVariant::DarkPurple)) by {
        lemma_one_colour(p, "DarkPurple"@, "_DarkPurple"@, png);
        assert("DarkPurple"@ != "Green"@ && "DarkPurple"@ != "Cyan"@ && "DarkPurple"@ != "DarkAqua"@);
    }
    assert(variant_of_spec(p + "_Gray"@ + ext) == Some(GeodeButtonsVariant::Gray)) by {
        lemma_one_colour(p, "Gray"@, "_Gray"@, png);
        assert("Gray"@ != "Green"@ && "Gray"@ != "Cyan"@ && "Gray"@ != "DarkAqua"@ && "Gray"@ != "DarkPurple"@);
        assert("Gray"@[0] != "Cyan"@[0]);
    }
    assert(variant_of_spec(p + "_Red"@ + ext) == Some(GeodeButtonsVariant::Error)) by {
        lemma_one_colour(p, "Red"@, "_Red"@, png);
        assert("Red"@ != "Green"@ && "Red"@ != "Cyan"@ && "Red"@ != "DarkAqua"@ && "Red"@ != "DarkPurple"@ && "Red"@ != "Gray"@);
    }
    assert(variant_of_spec(p + "_Blue"@ + ext) == Some(GeodeButtonsVariant::Info)) by {
        lemma_one_colour(p, "Blue"@, "_Blue"@, png);
        assert("Blue"@[0] != "Cyan"@[0] && "Blue"@[0] != "Gray"@[0]);
        assert("Blue"@ != "Green"@ && "Blue"@ != "Cyan"@ && "Blue"@ != "DarkAqua"@ && "Blue"@ != "DarkPurple"@ && "Blue"@ != "Gray"@ && "Blue"@ != "Red"@);
    }
    assert(variant_of_spec(p + "_Pink"@ + ext) == Some(GeodeButtonsVariant::Pink)) by {
        lemma_one_colour(p, "Pink"@, "_Pink"@, png);
        assert("Pink"@[0] != "Cyan"@[0] && "Pink"@[0] != "Gray"@[0] && "Pink"@[0] != "Blue"@[0]);
        assert("Pink"@ != "Green"@ && "Pink"@ != "Cyan"@ && "Pink"@ != "DarkAqua"@ && "Pink"@ != "DarkPurple"@ && "Pink"@ != "Gray"@ && "Pink"@ != "Red"@ && "Pink"@ != "Blue"@);
    }
}

proof fn lemma_one_colour(p: Seq<char>, colour: Seq<char>, tagged: Seq<char>, png: bool)
    requires
        tagged =~= seq!['_'] + colour,
        forall|i: int| 0 <= i < colour.len() ==> colour[i] != '_' && colour[i] != '.',
    ensures
        variant_of_spec(p + tagged + (if png { ".png"@ } else { Seq::<char>::empty() })) == variant_of_spec(seq!['_'] + colour),
        last_index_of(seq!['_'] + colour, '_') == 0,
        (seq!['_'] + colour).subrange(1, colour.len() as int + 1) == colour,
        !has_suffix(colour, ".png"@),
{
    assert(p + tagged + (if png { ".png"@ } else { Seq::<char>::empty() }) =~= p.push('_') + colour + (if png { ".png"@ } else { Seq::<char>::empty() }));
    lemma_colour_after_underscore(p, colour, png);
    lemma_last_underscore(Seq::empty(), colour);
    reveal_strlit(".png");
    if has_suffix(colour, ".png"@) {
        assert(colour.subrange(colour.len() - 4, colour.len() as int)[0] == '.');
        assert(colour[colour.len() - 4] == '.');
    }
    let c = seq!['_'] + colour;
    assert(c =~= Seq::<char>::empty().push('_') + colour);
    assert(c.subrange(1, c.len() as int) =~= colour);
}


/// Each colour variant has its own family slug, so two variants never
/// share a family.
pub proof fn law_variant_slugs_are_distinct(a: GeodeButtonsVariant, b: GeodeButtonsVariant)
    requires
        a != b,
    ensures
        variant_slug_spec(a) != variant_slug_spec(b),
{
    reveal_strlit("primary");
    reveal_strlit("secondary");
    reveal_strlit("darkAqua");
    reveal_strlit("darkPurple");
    reveal_strlit("gray");
    reveal_strlit("error");
    reveal_strlit("info");
    reveal_strlit("pink");
    assert("gray"@[0] != "info"@[0] && "gray"@[0] != "pink"@[0] && "info"@[0] != "pink"@[0]);
    let la = variant_slug_spec(a).len();
    let lb = variant_slug_spec(b).len();
    if la == lb {
        assert(la == 4);
        assert(variant_slug_spec(a)[0] != variant_slug_spec(b)[0]);
    }
}

} // verus!
