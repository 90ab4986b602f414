//! Turning a tool request into a plan: input checks and option normalization.

use vstd::prelude::*;
use crate::contracts::{
    phase_defaults, ConvertToNewVersionOptions, GeodeButtonsPlanOptions, GeodeButtonsTemplates,
    GlowMakerOptions, MergerOptions, OperationKind, OperationOptions, OperationPlan,
    OperationRequest, PorterOptions, RandomizerOptions, SplitterOptions,
};
use crate::errors::AppError;
use crate::text::{chars_of, string_from_chars, trim, trim_str};
use std::collections::BTreeMap;

verus! {

/// `v.clamp(lo, hi)`.
pub open spec fn clamp_spec(v: u32, lo: u32, hi: u32) -> u32 {
    if v < lo {
        lo
    } else if v > hi {
        hi
    } else {
        v
    }
}

fn clamp_u32(v: u32, lo: u32, hi: u32) -> (r: u32)
    requires
        lo <= hi,
    ensures
        r == clamp_spec(v, lo, hi),
{
    if v < lo {
        lo
    } else if v > hi {
        hi
    } else {
        v
    }
}

/// The options a plan carries for a request of kind `kind` whose options were
/// `given`, when they agree; `None` when they disagree.
pub open spec fn planned_options_ok(
    kind: OperationKind,
    given: Option<OperationOptions>,
    out: OperationOptions,
) -> bool {
    match (kind, given) {
        (OperationKind::Splitter, Some(OperationOptions::Splitter(e))) => out matches OperationOptions::Splitter(o)
            && o.sheet_concurrency == clamp_spec(e.sheet_concurrency, 1, 64) && o.skip_icons
            == e.skip_icons,
        (OperationKind::Splitter, None) => out matches OperationOptions::Splitter(o)
            && o.sheet_concurrency == 5 && !o.skip_icons,
        (OperationKind::PorterSplitter, Some(OperationOptions::PorterSplitter(e))) => out matches OperationOptions::PorterSplitter(
            o,
        ) && o.low_port == e.low_port && o.dimensions == e.dimensions && o.sheet_concurrency
            == clamp_spec(e.sheet_concurrency, 1, 64),
        (OperationKind::PorterSplitter, None) => out matches OperationOptions::PorterSplitter(o)
            && !o.low_port && o.dimensions is None && o.sheet_concurrency == 5,
        (OperationKind::Merger, Some(OperationOptions::Merger(e))) => out matches OperationOptions::Merger(o)
            && o.include_outside_plist_files == e.include_outside_plist_files && o.dimensions
            == e.dimensions && o.sheet_concurrency == clamp_spec(e.sheet_concurrency, 1, 64),
        (OperationKind::Merger, None) => out matches OperationOptions::Merger(o)
            && !o.include_outside_plist_files && o.dimensions is None && o.sheet_concurrency == 5,
        (
            OperationKind::ConvertToNewVersion,
            Some(OperationOptions::ConvertToNewVersion(e)),
        ) => out matches OperationOptions::ConvertToNewVersion(o) && o.game_version@ == trim(
            e.game_version@,
        ) && o.sheet_concurrency == clamp_spec(e.sheet_concurrency, 1, 64),
        (OperationKind::ConvertToNewVersion, None) => out matches OperationOptions::ConvertToNewVersion(
            o,
        ) && o.game_version@ == Seq::<char>::empty() && o.sheet_concurrency == 5,
        (OperationKind::Randomizer, Some(OperationOptions::Randomizer(e))) => out == OperationOptions::Randomizer(e),
        (OperationKind::Randomizer, None) => out matches OperationOptions::Randomizer(o)
            && o.seed is None,
        (OperationKind::GlowMaker, Some(OperationOptions::GlowMaker(e))) => out matches OperationOptions::GlowMaker(o)
            && o.thickness == clamp_spec(e.thickness, 1, 128) && o.tolerance == e.tolerance
            && o.dimensions == e.dimensions && o.rainbow_glow == e.rainbow_glow
            && o.composite_layers == e.composite_layers,
        (OperationKind::GlowMaker, None) => out matches OperationOptions::GlowMaker(o)
            && o.thickness == 3 && o.tolerance == 6 && o.dimensions is None && !o.rainbow_glow
            && !o.composite_layers,
        (OperationKind::GeodeButtons, Some(OperationOptions::GeodeButtons(e))) => out matches OperationOptions::GeodeButtons(
            o,
        ) && o.sheet_stem@ == trim(e.sheet_stem@) && o.templates == e.templates
            && o.sheet_concurrency == clamp_spec(e.sheet_concurrency, 1, 64),
        (OperationKind::GeodeButtons, None) => out matches OperationOptions::GeodeButtons(o)
            && o.sheet_stem@ == "BlankSheet-uhd"@ && o.templates.family_templates@.len() == 0
            && o.templates.tab_selected is None && o.templates.tab_unselected is None
            && o.templates.tab_unselected_dark is None && o.sheet_concurrency == 1,
        (OperationKind::Upscaler, Some(OperationOptions::Upscaler(e))) => out == OperationOptions::Upscaler(e),
        (OperationKind::Upscaler, None) => out matches OperationOptions::Upscaler(o)
            && o.game_version@ == Seq::<char>::empty() && o.sheet_concurrency == 1
            && !o.convert_to_latest,
        _ => false,
    }
}

/// The given options belong to another tool than the request's kind.
pub open spec fn options_mismatch(kind: OperationKind, given: Option<OperationOptions>) -> bool {
    match given {
        None => false,
        Some(o) => match (kind, o) {
            (OperationKind::Splitter, OperationOptions::Splitter(_)) => false,
            (OperationKind::PorterSplitter, OperationOptions::PorterSplitter(_)) => false,
            (OperationKind::Merger, OperationOptions::Merger(_)) => false,
            (OperationKind::ConvertToNewVersion, OperationOptions::ConvertToNewVersion(_)) => false,
            (OperationKind::Randomizer, OperationOptions::Randomizer(_)) => false,
            (OperationKind::GlowMaker, OperationOptions::GlowMaker(_)) => false,
            (OperationKind::GeodeButtons, OperationOptions::GeodeButtons(_)) => false,
            (OperationKind::Upscaler, OperationOptions::Upscaler(_)) => false,
            _ => true,
        },
    }
}

/// The message of the mismatch error for each tool.
pub open spec fn mismatch_message(kind: OperationKind) -> Seq<char> {
    match kind {
        OperationKind::Splitter => "splitter options mismatch"@,
        OperationKind::PorterSplitter => "porter splitter options mismatch"@,
        OperationKind::Merger => "merger options mismatch"@,
        OperationKind::ConvertToNewVersion => "convert to new version options mismatch"@,
        OperationKind::Randomizer => "randomizer options mismatch"@,
        OperationKind::GlowMaker => "glow maker options mismatch"@,
        OperationKind::GeodeButtons => "geode buttons options mismatch"@,
        OperationKind::Upscaler => "upscaler options mismatch"@,
    }
}

fn mismatch(kind: OperationKind) -> (e: AppError)
    ensures
        e matches AppError::InvalidOperation(m) && m@ == mismatch_message(kind),
{
    match kind {
        OperationKind::Splitter => AppError::InvalidOperation("splitter options mismatch"),
        OperationKind::PorterSplitter => AppError::InvalidOperation(
            "porter splitter options mismatch",
        ),
        OperationKind::Merger => AppError::InvalidOperation("merger options mismatch"),
        OperationKind::ConvertToNewVersion => AppError::InvalidOperation(
            "convert to new version options mismatch",
        ),
        OperationKind::Randomizer => AppError::InvalidOperation("randomizer options mismatch"),
        OperationKind::GlowMaker => AppError::InvalidOperation("glow maker options mismatch"),
        OperationKind::GeodeButtons => AppError::InvalidOperation("geode buttons options mismatch"),
        OperationKind::Upscaler => AppError::InvalidOperation("upscaler options mismatch"),
    }
}

/// Porter options with the concurrency clamped to 1..=64.
pub fn with_porter_phase_one_defaults(existing: PorterOptions) -> (o: PorterOptions)
    ensures
        o.low_port == existing.low_port,
        o.dimensions == existing.dimensions,
        o.sheet_concurrency == clamp_spec(existing.sheet_concurrency, 1, 64),
{
    PorterOptions {
        low_port: existing.low_port,
        dimensions: existing.dimensions,
        sheet_concurrency: clamp_u32(existing.sheet_concurrency, 1, 64),
    }
}

/// Glow Maker options with the thickness clamped to 1..=128.
pub fn with_glow_phase_three_defaults(existing: GlowMakerOptions) -> (o: GlowMakerOptions)
    ensures
        o.thickness == clamp_spec(existing.thickness, 1, 128),
        o.tolerance == existing.tolerance,
        o.dimensions == existing.dimensions,
        o.rainbow_glow == existing.rainbow_glow,
        o.composite_layers == existing.composite_layers,
{
    GlowMakerOptions {
        thickness: clamp_u32(existing.thickness, 1, 128),
        tolerance: existing.tolerance,
        dimensions: existing.dimensions,
        rainbow_glow: existing.rainbow_glow,
        composite_layers: existing.composite_layers,
    }
}

/// Geode buttons options with a trimmed sheet stem and the concurrency clamped to 1..=64.
pub fn with_geode_buttons_defaults(existing: GeodeButtonsPlanOptions) -> (o:
    GeodeButtonsPlanOptions)
    ensures
        o.sheet_stem@ == trim(existing.sheet_stem@),
        o.templates == existing.templates,
        o.sheet_concurrency == clamp_spec(existing.sheet_concurrency, 1, 64),
{
    let stem = trim_str(existing.sheet_stem.as_str());
    GeodeButtonsPlanOptions {
        sheet_stem: string_from_chars(stem.as_slice()),
        templates: existing.templates,
        sheet_concurrency: clamp_u32(existing.sheet_concurrency, 1, 64),
    }
}

/// Merger options with the concurrency clamped to 1..=64.
pub fn with_merger_phase_one_defaults(existing: MergerOptions) -> (o: MergerOptions)
    ensures
        o.include_outside_plist_files == existing.include_outside_plist_files,
        o.dimensions == existing.dimensions,
        o.sheet_concurrency == clamp_spec(existing.sheet_concurrency, 1, 64),
{
    MergerOptions {
        include_outside_plist_files: existing.include_outside_plist_files,
        dimensions: existing.dimensions,
        sheet_concurrency: clamp_u32(existing.sheet_concurrency, 1, 64),
    }
}

/// Convert options with a trimmed game version and the concurrency clamped to 1..=64.
pub fn with_convert_to_new_version_defaults(existing: ConvertToNewVersionOptions) -> (o:
    ConvertToNewVersionOptions)
    ensures
        o.game_version@ == trim(existing.game_version@),
        o.sheet_concurrency == clamp_spec(existing.sheet_concurrency, 1, 64),
{
    let version = trim_str(existing.game_version.as_str());
    ConvertToNewVersionOptions {
        game_version: string_from_chars(version.as_slice()),
        sheet_concurrency: clamp_u32(existing.sheet_concurrency, 1, 64),
    }
}

/// Checks a request and fills in its options: empty input or output folders are
/// refused, options of another tool are refused, missing options take the phase
/// defaults, and given options are normalized.
pub fn build_operation_plan(request: OperationRequest) -> (r: Result<OperationPlan, AppError>)
    ensures
        trim(request.input_dir@).len() == 0 ==> (r matches Err(AppError::InvalidPath(m))
            && m@ == "input directory cannot be empty"@),
        trim(request.input_dir@).len() != 0 && trim(request.output_dir@).len() == 0
            ==> (r matches Err(AppError::InvalidPath(m)) && m@
            == "output directory cannot be empty"@),
        trim(request.input_dir@).len() != 0 && trim(request.output_dir@).len() != 0
            && options_mismatch(request.kind, request.options) ==> (r matches Err(
            AppError::InvalidOperation(m),
        ) && m@ == mismatch_message(request.kind)),
        trim(request.input_dir@).len() != 0 && trim(request.output_dir@).len() != 0
            && !options_mismatch(request.kind, request.options) ==> (r matches Ok(plan)
            && plan.kind == request.kind && plan.input_dir@ == request.input_dir@
            && plan.output_dir@ == request.output_dir@ && planned_options_ok(
            request.kind,
            request.options,
            plan.options,
        )),
{
    let input_trimmed = trim_str(request.input_dir.as_str());
    if input_trimmed.len() == 0 {
        return Err(AppError::InvalidPath("input directory cannot be empty"));
    }
    let output_trimmed = trim_str(request.output_dir.as_str());
    if output_trimmed.len() == 0 {
        return Err(AppError::InvalidPath("output directory cannot be empty"));
    }
    let defaults = phase_defaults();
    let kind = request.kind;
    let options = match kind {
        OperationKind::Splitter => match request.options {
            Some(OperationOptions::Splitter(existing)) => OperationOptions::Splitter(
                SplitterOptions {
                    sheet_concurrency: clamp_u32(existing.sheet_concurrency, 1, 64),
                    skip_icons: existing.skip_icons,
                },
            ),
            None => OperationOptions::Splitter(defaults.splitter),
            Some(_) => return Err(mismatch(kind)),
        },
        OperationKind::PorterSplitter => match request.options {
            Some(OperationOptions::PorterSplitter(existing)) => OperationOptions::PorterSplitter(
                with_porter_phase_one_defaults(existing),
            ),
            None => OperationOptions::PorterSplitter(defaults.porter),
            Some(_) => return Err(mismatch(kind)),
        },
        OperationKind::Merger => match request.options {
            Some(OperationOptions::Merger(existing)) => OperationOptions::Merger(
                with_merger_phase_one_defaults(existing),
            ),
            None => OperationOptions::Merger(defaults.merger),
            Some(_) => return Err(mismatch(kind)),
        },
        OperationKind::ConvertToNewVersion => match request.options {
            Some(OperationOptions::ConvertToNewVersion(existing)) => {
                OperationOptions::ConvertToNewVersion(
                    with_convert_to_new_version_defaults(existing),
                )
            },
            None => OperationOptions::ConvertToNewVersion(defaults.convert_to_new_version),
            Some(_) => return Err(mismatch(kind)),
        },
        OperationKind::Randomizer => match request.options {
            Some(OperationOptions::Randomizer(existing)) => OperationOptions::Randomizer(existing),
            None => OperationOptions::Randomizer(RandomizerOptions { seed: None }),
            Some(_) => return Err(mismatch(kind)),
        },
        OperationKind::GlowMaker => match request.options {
            Some(OperationOptions::GlowMaker(existing)) => OperationOptions::GlowMaker(
                with_glow_phase_three_defaults(existing),
            ),
            None => OperationOptions::GlowMaker(
                GlowMakerOptions {
                    thickness: 3,
                    tolerance: 6,
                    dimensions: None,
                    rainbow_glow: false,
                    composite_layers: false,
                },
            ),
            Some(_) => return Err(mismatch(kind)),
        },
        OperationKind::GeodeButtons => match request.options {
            Some(OperationOptions::GeodeButtons(existing)) => OperationOptions::GeodeButtons(
                with_geode_buttons_defaults(existing),
            ),
            None => {
                let stem = chars_of("BlankSheet-uhd");
                OperationOptions::GeodeButtons(
                    GeodeButtonsPlanOptions {
                        sheet_stem: string_from_chars(stem.as_slice()),
                        templates: GeodeButtonsTemplates {
                            family_templates: BTreeMap::new(),
                            tab_selected: None,
                            tab_unselected: None,
                            tab_unselected_dark: None,
                        },
                        sheet_concurrency: 1,
                    },
                )
            },
            Some(_) => return Err(mismatch(kind)),
        },
        OperationKind::Upscaler => match request.options {
            Some(OperationOptions::Upscaler(existing)) => OperationOptions::Upscaler(existing),
            None => OperationOptions::Upscaler(defaults.upscaler),
            Some(_) => return Err(mismatch(kind)),
        },
    };
    Ok(OperationPlan {
        kind: request.kind,
        input_dir: request.input_dir,
        output_dir: request.output_dir,
        options,
    })
}

} // verus!
