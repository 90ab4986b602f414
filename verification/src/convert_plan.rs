//! The decisions of Convert to New Version: which sheets it rewrites, what
//! it does with each, and where the frames of a legacy `GJ_GameSheet02` go.
//! The atlas work that follows a decision (adding missing sprites below an
//! atlas, painting replacements into their slots) is in `convert_atlas`;
//! reading and writing files is the caller's part.

use vstd::prelude::*;
use crate::discovery::SheetCandidate;
use crate::facts::PathFacts;
use crate::game_files::j;
use crate::layout::GameFilesLayout;
use crate::legacy_icons::{
    excluded_icon_id_spec, gamesheet04_moved_spec, gamesheet04_stem_spec, glow_frame_names_for_icon,
    glow_of_icon_spec, icon_id_spec,
    icon_sheet_id_from_frame_name, is_excluded_legacy_icon_id, is_fireboost_frame_name,
    is_gamesheet04_moved_frame, is_gamesheet04_stem, is_glow_frame_name,
    is_legacy_combined_icon_sheet, is_legacy_icon_glow_sheet, is_legacy_icon_split_version,
    legacy_split_version_spec, listed, listed_exec, pack_uses_legacy_combined_icons,
    remove_from_gs02_spec, sheet_is_under_icons, should_remove_from_legacy_gamesheet02, tier_of,
    under_icons_spec, uses_legacy_icons_spec,
};
use crate::order::strs;
use crate::paths::join_path;
use crate::report::{issue_view, issues_view, ReportIssue, ReportLevel};
use crate::text::{chars_of, concat_str, contains_seq, copy_range, ends_with_str, eq_ic, has_suffix, string_from_chars};

verus! {

/// Whether the pack gets the legacy icon split: the previous version is 2.0
/// or 2.11, or a legacy combined icon sheet still holds icon frames.
/// `frame_lists[i]` is the frame names of sheet `i`, when they could be read.
pub fn convert_legacy_icon_split(
    game_version: &str,
    pairs: &Vec<SheetCandidate>,
    frame_lists: &Vec<Option<Vec<String>>>,
) -> (r: bool)
    requires
        pairs@.len() == frame_lists@.len(),
    ensures
        r == (legacy_split_version_spec(game_version@) || uses_legacy_icons_spec(pairs@, frame_lists@)),
{
    is_legacy_icon_split_version(game_version) || pack_uses_legacy_combined_icons(pairs, frame_lists)
}

/// A sheet Convert rewrites: not under an `icons` folder, and not a legacy
/// glow sheet when the icon split applies (that one is read beside its
/// `GJ_GameSheet02`).
pub open spec fn converted_sheet(p: SheetCandidate, legacy_icon_split: bool) -> bool {
    !under_icons_spec(p.relative_dir@) && !(legacy_icon_split && tier_of(p.stem@, "gj_gamesheetglow"@) is Some)
}

/// The sheets Convert rewrites, in discovery order.
pub fn convert_sheets_to_process(pairs: &Vec<SheetCandidate>, legacy_icon_split: bool) -> (r: Vec<SheetCandidate>)
    ensures
        r@ == pairs@.filter(|p: SheetCandidate| converted_sheet(p, legacy_icon_split)),
{
    let ghost pred = |p: SheetCandidate| converted_sheet(p, legacy_icon_split);
    let mut out: Vec<SheetCandidate> = Vec::new();
    let mut i: usize = 0;
    while i < pairs.len()
        invariant
            i <= pairs@.len(),
            pred == (|p: SheetCandidate| converted_sheet(p, legacy_icon_split)),
            out@ == pairs@.subrange(0, i as int).filter(pred),
        decreases pairs@.len() - i,
    {
        let p = &pairs[i];
        proof {
            assert(pairs@.subrange(0, i + 1) =~= pairs@.subrange(0, i as int).push(*p));
            pairs@.subrange(0, i as int).lemma_filter_push(*p, pred);
        }
        let keep = !sheet_is_under_icons(p.relative_dir.as_str()) && !(legacy_icon_split
            && is_legacy_icon_glow_sheet(p.stem.as_str()).is_some());
        if keep {
            out.push(p.clone());
        }
        i = i + 1;
    }
    proof {
        assert(pairs@.subrange(0, pairs@.len() as int) =~= pairs@);
    }
    out
}

/// The progress units of a run: two per input sprite, one per sheet and one
/// per unpaired image, saturating, at least 1.
pub open spec fn total_units_spec(sprites: usize, sheets: usize, unpaired: usize) -> int {
    let doubled: int = if 2 * sprites > usize::MAX { usize::MAX as int } else { 2 * sprites };
    let a: int = if doubled + sheets > usize::MAX { usize::MAX as int } else { doubled + sheets };
    let b: int = if a + unpaired > usize::MAX { usize::MAX as int } else { a + unpaired };
    if b < 1 { 1 } else { b }
}

/// The progress units of a run.
pub fn convert_total_units(input_sprites: usize, sheets: usize, unpaired: usize) -> (r: usize)
    ensures
        r == total_units_spec(input_sprites, sheets, unpaired),
{
    let doubled = match input_sprites.checked_mul(2) {
        Some(v) => v,
        None => usize::MAX,
    };
    let b = doubled.saturating_add(sheets).saturating_add(unpaired);
    if b < 1 { 1 } else { b }
}

/// The note a run opens with, naming the previous version.
pub open spec fn version_note_spec(game_version: Seq<char>, legacy_icon_split: bool) -> Seq<char> {
    if legacy_icon_split {
        "previous game version `"@ + game_version
            + "`; applying legacy GJ_GameSheet02 icon split and comparing other sheets against Steam Geometry Dash Resources / geode mods"@
    } else {
        "previous game version `"@ + game_version
            + "`; comparing sheets against Steam Geometry Dash Resources / geode mods"@
    }
}

/// The note a run opens with.
pub fn convert_version_note(game_version: &str, legacy_icon_split: bool) -> (r: String)
    ensures
        r@ == version_note_spec(game_version@, legacy_icon_split),
{
    let a = chars_of("previous game version `");
    let b = concat_str(a.as_slice(), game_version);
    let c = if legacy_icon_split {
        concat_str(
            b.as_slice(),
            "`; applying legacy GJ_GameSheet02 icon split and comparing other sheets against Steam Geometry Dash Resources / geode mods",
        )
    } else {
        concat_str(b.as_slice(), "`; comparing sheets against Steam Geometry Dash Resources / geode mods")
    };
    string_from_chars(c.as_slice())
}

/// What Convert does with one sheet.
#[derive(Debug, PartialEq, Eq)]
pub enum ConvertSheetRoute {
    /// Sheets under an `icons` folder are left alone.
    IconsFolder,
    /// A legacy glow sheet is read beside its `GJ_GameSheet02`, not on its own.
    LegacyGlowSheet,
    /// A legacy `GJ_GameSheet02` is split into one sheet per icon; the tier
    /// suffix of its stem.
    LegacyIconSheet(String),
    /// Other sheets get the frames the latest game version added.
    LatestFrames,
}

/// The route of a sheet.
pub fn convert_sheet_route(pair: &SheetCandidate, legacy_icon_split: bool) -> (r: ConvertSheetRoute)
    ensures
        under_icons_spec(pair.relative_dir@) ==> r == ConvertSheetRoute::IconsFolder,
        !under_icons_spec(pair.relative_dir@) && legacy_icon_split && tier_of(pair.stem@, "gj_gamesheetglow"@) is Some
            ==> r == ConvertSheetRoute::LegacyGlowSheet,
        !under_icons_spec(pair.relative_dir@) && legacy_icon_split && tier_of(pair.stem@, "gj_gamesheetglow"@) is None
            && tier_of(pair.stem@, "gj_gamesheet02"@) is Some ==> (r matches ConvertSheetRoute::LegacyIconSheet(t)
            && Some(t@) == tier_of(pair.stem@, "gj_gamesheet02"@)),
        !under_icons_spec(pair.relative_dir@) && !(legacy_icon_split && (tier_of(pair.stem@, "gj_gamesheetglow"@) is Some
            || tier_of(pair.stem@, "gj_gamesheet02"@) is Some)) ==> r == ConvertSheetRoute::LatestFrames,
{
    if sheet_is_under_icons(pair.relative_dir.as_str()) {
        return ConvertSheetRoute::IconsFolder;
    }
    if legacy_icon_split && is_legacy_icon_glow_sheet(pair.stem.as_str()).is_some() {
        return ConvertSheetRoute::LegacyGlowSheet;
    }
    if legacy_icon_split {
        if let Some(t) = is_legacy_combined_icon_sheet(pair.stem.as_str()) {
            return ConvertSheetRoute::LegacyIconSheet(t);
        }
    }
    ConvertSheetRoute::LatestFrames
}

/// The frames of a sheet that move to `GJ_GameSheet04`: none when the sheet
/// is itself a `GJ_GameSheet04`, else the moved menu buttons, in frame order.
pub fn gamesheet04_frames_to_move(stem: &str, frame_names: &Vec<String>) -> (r: Vec<String>)
    ensures
        strs(r@) == if gamesheet04_stem_spec(stem@) {
            Seq::<Seq<char>>::empty()
        } else {
            strs(frame_names@).filter(|n: Seq<char>| gamesheet04_moved_spec(n))
        },
{
    let mut out: Vec<String> = Vec::new();
    if is_gamesheet04_stem(stem) {
        proof {
            assert(strs(out@) =~= Seq::<Seq<char>>::empty());
        }
        return out;
    }
    let ghost pred = |n: Seq<char>| gamesheet04_moved_spec(n);
    let mut i: usize = 0;
    while i < frame_names.len()
        invariant
            i <= frame_names@.len(),
            pred == (|n: Seq<char>| gamesheet04_moved_spec(n)),
            strs(out@) == strs(frame_names@).subrange(0, i as int).filter(pred),
        decreases frame_names@.len() - i,
    {
        let name = &frame_names[i];
        let ghost prefix = strs(frame_names@).subrange(0, i as int);
        proof {
            assert(strs(frame_names@).subrange(0, i + 1) =~= prefix.push(name@));
            prefix.lemma_filter_push(name@, pred);
        }
        if is_gamesheet04_moved_frame(name.as_str()) {
            out.push(name.clone());
            proof {
                assert(strs(out@) =~= prefix.filter(pred).push(name@));
            }
        }
        i = i + 1;
    }
    proof {
        assert(strs(frame_names@).subrange(0, frame_names@.len() as int) =~= strs(frame_names@));
    }
    out
}

/// What to write for a sheet routed to the latest frames, once the latest
/// sheet was looked up and its new frames were read.
#[derive(Debug, PartialEq, Eq)]
pub enum ConvertSheetDecision {
    /// Nothing is written; the warning says why.
    Skip(&'static str),
    /// The input sheet is written as it is, without its moved frames.
    WriteInputSheet,
    /// The new frames are appended below the input atlas.
    AppendFrames,
}

/// The decision for a sheet: without a latest sheet, or with nothing new and
/// no moved frames, it is skipped with a warning; with nothing new but moved
/// frames, the input is written; with new frames that could be read, they are
/// appended; with new frames none of which could be read, as with nothing new
/// (another warning). `mergeable_frames` counts only when `missing_frames`
/// is not zero.
pub fn convert_sheet_decision(
    latest_found: bool,
    missing_frames: usize,
    mergeable_frames: usize,
    relocated_frames: usize,
) -> (r: ConvertSheetDecision)
    ensures
        !latest_found ==> r == ConvertSheetDecision::Skip("no latest placeholder plist found for sheet"),
        latest_found && missing_frames == 0 && relocated_frames == 0 ==> r
            == ConvertSheetDecision::Skip("no new frame keys found versus latest placeholder plist"),
        latest_found && missing_frames != 0 && mergeable_frames == 0 && relocated_frames == 0 ==> r
            == ConvertSheetDecision::Skip(
            "sheet has missing frame keys but no mergeable payloads; keeping original sheet content",
        ),
        latest_found && (missing_frames == 0 || mergeable_frames == 0) && relocated_frames != 0 ==> r
            == ConvertSheetDecision::WriteInputSheet,
        latest_found && missing_frames != 0 && mergeable_frames != 0 ==> r
            == ConvertSheetDecision::AppendFrames,
{
    if !latest_found {
        return ConvertSheetDecision::Skip("no latest placeholder plist found for sheet");
    }
    if missing_frames == 0 {
        if relocated_frames == 0 {
            return ConvertSheetDecision::Skip("no new frame keys found versus latest placeholder plist");
        }
        return ConvertSheetDecision::WriteInputSheet;
    }
    if mergeable_frames == 0 {
        if relocated_frames == 0 {
            return ConvertSheetDecision::Skip(
                "sheet has missing frame keys but no mergeable payloads; keeping original sheet content",
            );
        }
        return ConvertSheetDecision::WriteInputSheet;
    }
    ConvertSheetDecision::AppendFrames
}

/// A frame of a legacy `GJ_GameSheet02` whose sprite type now lives on
/// another sheet: not the fire boost, not a glow frame, and its icon id is
/// an excluded one.
pub open spec fn excluded_frame_spec(n: Seq<char>) -> bool {
    &&& !eq_ic(n, "fireBoost_001.png"@)
    &&& !contains_seq(n, "_glow_"@)
    &&& icon_id_spec(n) matches Some(id) && excluded_icon_id_spec(id)
}

fn is_excluded_frame(n: &str) -> (r: bool)
    ensures
        r == excluded_frame_spec(n@),
{
    if is_fireboost_frame_name(n) || is_glow_frame_name(n) {
        return false;
    }
    match icon_sheet_id_from_frame_name(n) {
        Some(id) => is_excluded_legacy_icon_id(id.as_str()),
        None => false,
    }
}

/// The frames of a legacy `GJ_GameSheet02` whose sprite type moved to
/// another sheet, in frame order.
pub fn excluded_legacy_frame_names(frame_names: &Vec<String>) -> (r: Vec<String>)
    ensures
        strs(r@) == strs(frame_names@).filter(|n: Seq<char>| excluded_frame_spec(n)),
{
    let ghost pred = |n: Seq<char>| excluded_frame_spec(n);
    let mut out: Vec<String> = Vec::new();
    let mut i: usize = 0;
    while i < frame_names.len()
        invariant
            i <= frame_names@.len(),
            pred == (|n: Seq<char>| excluded_frame_spec(n)),
            strs(out@) == strs(frame_names@).subrange(0, i as int).filter(pred),
        decreases frame_names@.len() - i,
    {
        let name = &frame_names[i];
        let ghost prefix = strs(frame_names@).subrange(0, i as int);
        proof {
            assert(strs(frame_names@).subrange(0, i + 1) =~= prefix.push(name@));
            prefix.lemma_filter_push(name@, pred);
        }
        if is_excluded_frame(name.as_str()) {
            out.push(name.clone());
            proof {
                assert(strs(out@) =~= prefix.filter(pred).push(name@));
            }
        }
        i = i + 1;
    }
    proof {
        assert(strs(frame_names@).subrange(0, frame_names@.len() as int) =~= strs(frame_names@));
    }
    out
}

/// A frame name without a trailing `.png`.
pub open spec fn png_stem(n: Seq<char>) -> Seq<char> {
    if has_suffix(n, ".png"@) { n.subrange(0, n.len() - 4) } else { n }
}

/// The vanilla resources hold a standalone image for the frame, in some tier.
pub open spec fn vanilla_standalone_spec(layout: GameFilesLayout, facts: PathFacts, n: Seq<char>) -> bool {
    ||| facts.has_file(j(layout.resources@, png_stem(n) + ".png"@))
    ||| facts.has_file(j(layout.resources@, png_stem(n) + "-hd.png"@))
    ||| facts.has_file(j(layout.resources@, png_stem(n) + "-uhd.png"@))
}

/// Whether the vanilla resources hold a standalone image for the frame
/// (`{stem}.png`, `{stem}-hd.png` or `{stem}-uhd.png`).
pub fn vanilla_resources_has_standalone_png(layout: &GameFilesLayout, facts: &PathFacts, frame_name: &str) -> (r: bool)
    ensures
        r == vanilla_standalone_spec(*layout, *facts, frame_name@),
{
    let v = chars_of(frame_name);
    proof {
        reveal_strlit(".png");
    }
    let stem = if ends_with_str(v.as_slice(), ".png") {
        copy_range(v.as_slice(), 0, v.len() - 4)
    } else {
        v
    };
    let a = concat_str(stem.as_slice(), ".png");
    let b = concat_str(stem.as_slice(), "-hd.png");
    let c = concat_str(stem.as_slice(), "-uhd.png");
    let pa = join_path(layout.resources.as_str(), string_from_chars(a.as_slice()).as_str());
    let pb = join_path(layout.resources.as_str(), string_from_chars(b.as_slice()).as_str());
    let pc = join_path(layout.resources.as_str(), string_from_chars(c.as_slice()).as_str());
    facts.is_file(pa.as_str()) || facts.is_file(pb.as_str()) || facts.is_file(pc.as_str())
}

/// A frame of a legacy `GJ_GameSheet02` exported as a standalone image: not
/// already exported, not a glow frame, not an excluded frame, not an icon
/// frame, and with a standalone image in the vanilla resources.
pub open spec fn standalone_frame_spec(
    layout: GameFilesLayout,
    facts: PathFacts,
    exported: Seq<String>,
    excluded: Seq<String>,
    n: Seq<char>,
) -> bool {
    &&& !listed(exported, n)
    &&& !contains_seq(n, "_glow_"@)
    &&& !listed(excluded, n)
    &&& icon_id_spec(n) is None
    &&& vanilla_standalone_spec(layout, facts, n)
}

/// The frames of a legacy `GJ_GameSheet02` exported as standalone images,
/// in frame order. `exported` is what was exported already, `excluded` the
/// frames that go to another sheet.
pub fn legacy_standalone_frame_names(
    frame_names: &Vec<String>,
    exported: &Vec<String>,
    excluded: &Vec<String>,
    layout: &GameFilesLayout,
    facts: &PathFacts,
) -> (r: Vec<String>)
    ensures
        strs(r@) == strs(frame_names@).filter(
            |n: Seq<char>| standalone_frame_spec(*layout, *facts, exported@, excluded@, n),
        ),
{
    let ghost pred = |n: Seq<char>| standalone_frame_spec(*layout, *facts, exported@, excluded@, n);
    let mut out: Vec<String> = Vec::new();
    let mut i: usize = 0;
    while i < frame_names.len()
        invariant
            i <= frame_names@.len(),
            pred == (|n: Seq<char>| standalone_frame_spec(*layout, *facts, exported@, excluded@, n)),
            strs(out@) == strs(frame_names@).subrange(0, i as int).filter(pred),
        decreases frame_names@.len() - i,
    {
        let name = &frame_names[i];
        let ghost prefix = strs(frame_names@).subrange(0, i as int);
        proof {
            assert(strs(frame_names@).subrange(0, i + 1) =~= prefix.push(name@));
            prefix.lemma_filter_push(name@, pred);
        }
        let n = name.as_str();
        let keep = !listed_exec(exported, n) && !is_glow_frame_name(n) && !listed_exec(excluded, n)
            && icon_sheet_id_from_frame_name(n).is_none() && vanilla_resources_has_standalone_png(
            layout,
            facts,
            n,
        );
        if keep {
            out.push(name.clone());
            proof {
                assert(strs(out@) =~= prefix.filter(pred).push(name@));
            }
        }
        i = i + 1;
    }
    proof {
        assert(strs(frame_names@).subrange(0, frame_names@.len() as int) =~= strs(frame_names@));
    }
    out
}

/// The frames that stay on a rewritten legacy `GJ_GameSheet02`, in frame
/// order (see [`should_remove_from_legacy_gamesheet02`]).
pub fn legacy_leftover_frame_names(
    frame_names: &Vec<String>,
    extracted_icon_ids: &Vec<String>,
    exported: &Vec<String>,
) -> (r: Vec<String>)
    ensures
        strs(r@) == strs(frame_names@).filter(
            |n: Seq<char>| !remove_from_gs02_spec(n, extracted_icon_ids@, exported@),
        ),
{
    let ghost pred = |n: Seq<char>| !remove_from_gs02_spec(n, extracted_icon_ids@, exported@);
    let mut out: Vec<String> = Vec::new();
    let mut i: usize = 0;
    while i < frame_names.len()
        invariant
            i <= frame_names@.len(),
            pred == (|n: Seq<char>| !remove_from_gs02_spec(n, extracted_icon_ids@, exported@)),
            strs(out@) == strs(frame_names@).subrange(0, i as int).filter(pred),
        decreases frame_names@.len() - i,
    {
        let name = &frame_names[i];
        let ghost prefix = strs(frame_names@).subrange(0, i as int);
        proof {
            assert(strs(frame_names@).subrange(0, i + 1) =~= prefix.push(name@));
            prefix.lemma_filter_push(name@, pred);
        }
        if !should_remove_from_legacy_gamesheet02(name.as_str(), extracted_icon_ids, exported) {
            out.push(name.clone());
            proof {
                assert(strs(out@) =~= prefix.filter(pred).push(name@));
            }
        }
        i = i + 1;
    }
    proof {
        assert(strs(frame_names@).subrange(0, frame_names@.len() as int) =~= strs(frame_names@));
    }
    out
}

/// The note for a frame of a legacy `GJ_GameSheet02` that joins no icon
/// sheet: a warning when its name maps to no icon, a note when its sprite
/// type moved to another sheet; nothing for the fire boost, exported, glow
/// and excluded frames.
pub open spec fn ungrouped_note(n: Seq<char>, exported: Seq<String>, excluded: Seq<String>) -> Option<(ReportLevel, Seq<char>, Option<Seq<char>>)> {
    if eq_ic(n, "fireBoost_001.png"@) || listed(exported, n) || contains_seq(n, "_glow_"@) || listed(excluded, n) {
        None
    } else {
        match icon_id_spec(n) {
            None => Some((ReportLevel::Warning, "frame name does not map to an icon sheet id; skipping"@, Some(n))),
            Some(id) => if excluded_icon_id_spec(id) {
                Some((
                    ReportLevel::Info,
                    "frame belongs to a sprite type that now lives on another gamesheet; skipping"@,
                    Some(n),
                ))
            } else {
                None
            },
        }
    }
}

/// The notes of the frames, in frame order.
pub open spec fn ungrouped_notes_spec(names: Seq<Seq<char>>, exported: Seq<String>, excluded: Seq<String>) -> Seq<(ReportLevel, Seq<char>, Option<Seq<char>>)>
    decreases names.len(),
{
    if names.len() == 0 {
        Seq::empty()
    } else {
        let prev = ungrouped_notes_spec(names.drop_last(), exported, excluded);
        match ungrouped_note(names.last(), exported, excluded) {
            Some(x) => prev.push(x),
            None => prev,
        }
    }
}

/// The notes for the frames of a legacy `GJ_GameSheet02` that join no icon
/// sheet; none when every frame was grouped (`grouped_count` is the number of
/// frames the icon groups hold).
pub fn legacy_ungrouped_frame_issues(
    frame_names: &Vec<String>,
    grouped_count: usize,
    exported: &Vec<String>,
    excluded: &Vec<String>,
) -> (r: Vec<ReportIssue>)
    ensures
        issues_view(r@) == if grouped_count < frame_names@.len() {
            ungrouped_notes_spec(strs(frame_names@), exported@, excluded@)
        } else {
            Seq::empty()
        },
{
    let mut out: Vec<ReportIssue> = Vec::new();
    if grouped_count >= frame_names.len() {
        proof {
            assert(issues_view(out@) =~= Seq::empty());
        }
        return out;
    }
    let ghost names = strs(frame_names@);
    let mut i: usize = 0;
    proof {
        assert(names.subrange(0, 0) =~= Seq::<Seq<char>>::empty());
        assert(issues_view(out@) =~= Seq::empty());
    }
    while i < frame_names.len()
        invariant
            i <= frame_names@.len(),
            names == strs(frame_names@),
            issues_view(out@) == ungrouped_notes_spec(names.subrange(0, i as int), exported@, excluded@),
        decreases frame_names@.len() - i,
    {
        let n = frame_names[i].as_str();
        proof {
            assert(names.subrange(0, i + 1).drop_last() =~= names.subrange(0, i as int));
            assert(names.subrange(0, i + 1).last() == n@);
        }
        let skip = is_fireboost_frame_name(n) || listed_exec(exported, n) || is_glow_frame_name(n)
            || listed_exec(excluded, n);
        if !skip {
            match icon_sheet_id_from_frame_name(n) {
                None => {
                    let issue = ReportIssue {
                        level: ReportLevel::Warning,
                        message: "frame name does not map to an icon sheet id; skipping".to_string(),
                        file: Some(n.to_string()),
                    };
                    proof {
                        assert(issues_view(out@.push(issue)) =~= issues_view(out@).push(issue_view(issue)));
                    }
                    out.push(issue);
                },
                Some(id) => {
                    if is_excluded_legacy_icon_id(id.as_str()) {
                        let issue = ReportIssue {
                            level: ReportLevel::Info,
                            message: "frame belongs to a sprite type that now lives on another gamesheet; skipping".to_string(),
                            file: Some(n.to_string()),
                        };
                        proof {
                            assert(issues_view(out@.push(issue)) =~= issues_view(out@).push(issue_view(issue)));
                        }
                        out.push(issue);
                    }
                },
            }
        }
        i = i + 1;
    }
    proof {
        assert(names.subrange(0, names.len() as int) =~= names);
    }
    out
}

/// The glow frames of an icon as a legacy split reads them: those of the
/// accompanying glow sheet when it has some, else those of
/// `GJ_GameSheet02`. The flag tells whether they came from the glow sheet.
pub fn icon_glow_frame_names(
    glow_sheet_frames: &Option<Vec<String>>,
    gamesheet02_frames: &Vec<String>,
    icon_id: &str,
) -> (r: (Vec<String>, bool))
    ensures
        ({
            let from_glow = match glow_sheet_frames {
                Some(g) => strs(g@).filter(|n: Seq<char>| glow_of_icon_spec(n, icon_id@)),
                None => Seq::<Seq<char>>::empty(),
            };
            if from_glow.len() > 0 {
                strs(r.0@) == from_glow && r.1
            } else {
                strs(r.0@) == strs(gamesheet02_frames@).filter(|n: Seq<char>| glow_of_icon_spec(n, icon_id@)) && !r.1
            }
        }),
{
    let from_glow = match glow_sheet_frames {
        Some(g) => glow_frame_names_for_icon(g, icon_id),
        None => Vec::new(),
    };
    proof {
        if glow_sheet_frames is None {
            assert(strs(from_glow@) =~= Seq::<Seq<char>>::empty());
        }
    }
    if from_glow.len() > 0 {
        (from_glow, true)
    } else {
        (glow_frame_names_for_icon(gamesheet02_frames, icon_id), false)
    }
}

} // verus!
