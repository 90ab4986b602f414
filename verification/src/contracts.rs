//! Option records of the tools and their phase defaults.

use vstd::prelude::*;
use std::collections::BTreeMap;

verus! {

/// The tool an operation runs.
#[derive(Debug, Clone, Copy, PartialEq, Eq)]
pub enum OperationKind {
    Splitter,
    PorterSplitter,
    Merger,
    ConvertToNewVersion,
    Randomizer,
    GlowMaker,
    GeodeButtons,
    Upscaler,
}

/// Fixed output width/height of an atlas.
#[derive(Debug, Clone, Copy, PartialEq, Eq)]
pub struct DimensionOverride {
    pub width: u32,
    pub height: u32,
}

/// Splitter options.
#[derive(Debug, Clone, PartialEq, Eq)]
pub struct SplitterOptions {
    /// Max concurrent gamesheets (plist/png pairs) processed in parallel.
    pub sheet_concurrency: u32,
    /// When true, skip discovering/splitting sheets under an `icons` folder.
    pub skip_icons: bool,
}

/// Porter options.
#[derive(Debug, Clone, PartialEq, Eq)]
pub struct PorterOptions {
    /// "Port to Low Graphics": write a medium and a low atlas.
    pub low_port: bool,
    pub dimensions: Option<DimensionOverride>,
    /// Max concurrent gamesheets and standalone `.png` copy-through jobs.
    pub sheet_concurrency: u32,
}

/// Merger options.
#[derive(Debug, Clone, PartialEq, Eq)]
pub struct MergerOptions {
    pub include_outside_plist_files: bool,
    pub dimensions: Option<DimensionOverride>,
    /// Max concurrent gamesheet plist merges.
    pub sheet_concurrency: u32,
}

/// Convert-to-new-version options.
#[derive(Debug, Clone, PartialEq, Eq)]
pub struct ConvertToNewVersionOptions {
    pub game_version: String,
    /// Max concurrent plist/png gamesheets processed in parallel.
    pub sheet_concurrency: u32,
}

/// Upscaler model.
#[derive(Debug, Clone, Copy, PartialEq, Eq)]
pub enum UpscalerModel {
    /// Real-ESRGAN AnimeVideo v3, used for icon sprites.
    RealesrganAnime,
    /// Waifu2x CUNet, the model for non-icon sprites.
    Waifu2x,
}

impl UpscalerModel {
    /// Gamesheet default. Icons still route to `RealesrganAnime`.
    pub const USER_DEFAULT: UpscalerModel = UpscalerModel::Waifu2x;
}

/// Upscaler output tier.
#[derive(Debug, Clone, Copy, PartialEq, Eq)]
pub enum UpscalerTargetGraphics {
    Hd,
    Uhd,
}

/// How pack sprites are matched to vanilla sprites for cache reuse.
#[derive(Debug, Clone, Copy, PartialEq, Eq)]
pub enum UpscalerCacheMatchMode {
    ExactHash,
    LooseSimilarity,
}

impl Default for UpscalerCacheMatchMode {
    /// Loose similarity.
    fn default() -> (m: UpscalerCacheMatchMode)
        ensures
            m == UpscalerCacheMatchMode::LooseSimilarity,
    {
        UpscalerCacheMatchMode::LooseSimilarity
    }
}

/// Upscaler options.
#[derive(Debug, Clone, PartialEq, Eq)]
pub struct UpscalerOptions {
    pub model: UpscalerModel,
    pub target_graphics: UpscalerTargetGraphics,
    /// Run Convert to Latest on the upscaled tree afterwards.
    pub convert_to_latest: bool,
    /// Previous game version for convert.
    pub game_version: String,
    /// Max concurrent gamesheets.
    pub sheet_concurrency: u32,
    pub cache_match_mode: UpscalerCacheMatchMode,
}

/// Randomizer options.
#[derive(Debug, Clone, PartialEq, Eq)]
pub struct RandomizerOptions {
    pub seed: Option<String>,
}

/// Glow Maker options.
#[derive(Debug, Clone, PartialEq, Eq)]
pub struct GlowMakerOptions {
    pub thickness: u32,
    pub tolerance: u8,
    pub dimensions: Option<DimensionOverride>,
    pub rainbow_glow: bool,
    pub composite_layers: bool,
}

/// Geode button color variants.
#[derive(Debug, Clone, Copy, PartialEq, Eq, PartialOrd, Ord)]
pub enum GeodeButtonsVariant {
    Primary,
    Secondary,
    DarkAqua,
    DarkPurple,
    Gray,
    Error,
    Info,
    Pink,
}

/// Template images of the Geode buttons tool.
#[derive(Debug, Clone, PartialEq, Eq)]
pub struct GeodeButtonsTemplates {
    /// One template image per family id, except `tabs`.
    pub family_templates: BTreeMap<String, String>,
    /// Optional per-tab-state templates.
    pub tab_selected: Option<String>,
    pub tab_unselected: Option<String>,
    pub tab_unselected_dark: Option<String>,
}

/// The Geode buttons options that planning reads: the sheet filter, the
/// templates and the concurrency. The color rules travel beside it.
#[derive(Debug, Clone, PartialEq, Eq)]
pub struct GeodeButtonsPlanOptions {
    /// If non-empty, only sheets whose stem matches (case-insensitive) are processed.
    pub sheet_stem: String,
    pub templates: GeodeButtonsTemplates,
    /// Max concurrent sheets.
    pub sheet_concurrency: u32,
}

/// Options of one operation, by tool.
#[derive(Debug, Clone, PartialEq, Eq)]
pub enum OperationOptions {
    Splitter(SplitterOptions),
    PorterSplitter(PorterOptions),
    Merger(MergerOptions),
    ConvertToNewVersion(ConvertToNewVersionOptions),
    Randomizer(RandomizerOptions),
    GlowMaker(GlowMakerOptions),
    GeodeButtons(GeodeButtonsPlanOptions),
    Upscaler(UpscalerOptions),
}

/// A request to run a tool.
#[derive(Debug, Clone, PartialEq, Eq)]
pub struct OperationRequest {
    pub kind: OperationKind,
    pub input_dir: String,
    pub output_dir: String,
    pub options: Option<OperationOptions>,
}

/// A checked request with its options filled in.
#[derive(Debug, Clone, PartialEq, Eq)]
pub struct OperationPlan {
    pub kind: OperationKind,
    pub input_dir: String,
    pub output_dir: String,
    pub options: OperationOptions,
}

/// Defaults of each phase.
#[derive(Debug, Clone, PartialEq, Eq)]
pub struct PhaseDefaults {
    pub splitter: SplitterOptions,
    pub porter: PorterOptions,
    pub merger: MergerOptions,
    pub convert_to_new_version: ConvertToNewVersionOptions,
    pub upscaler: UpscalerOptions,
}

/// The documented phase defaults.
pub open spec fn phase_defaults_hold(d: PhaseDefaults) -> bool {
    &&& d.splitter.sheet_concurrency == 5 && !d.splitter.skip_icons
    &&& !d.porter.low_port && d.porter.dimensions is None && d.porter.sheet_concurrency == 5
    &&& !d.merger.include_outside_plist_files && d.merger.dimensions is None
        && d.merger.sheet_concurrency == 5
    &&& d.convert_to_new_version.game_version@ == Seq::<char>::empty()
        && d.convert_to_new_version.sheet_concurrency == 5
    &&& d.upscaler.model == UpscalerModel::Waifu2x
    &&& d.upscaler.target_graphics == UpscalerTargetGraphics::Uhd
    &&& !d.upscaler.convert_to_latest
    &&& d.upscaler.game_version@ == Seq::<char>::empty()
    &&& d.upscaler.sheet_concurrency == 1
    &&& d.upscaler.cache_match_mode == UpscalerCacheMatchMode::LooseSimilarity
}

/// Defaults used when a request carries no options.
pub fn phase_defaults() -> (d: PhaseDefaults)
    ensures
        phase_defaults_hold(d),
{
    PhaseDefaults {
        splitter: SplitterOptions { sheet_concurrency: 5, skip_icons: false },
        porter: PorterOptions { low_port: false, dimensions: None, sheet_concurrency: 5 },
        merger: MergerOptions {
            include_outside_plist_files: false,
            dimensions: None,
            sheet_concurrency: 5,
        },
        convert_to_new_version: ConvertToNewVersionOptions {
            game_version: String::new(),
            sheet_concurrency: 5,
        },
        upscaler: UpscalerOptions {
            model: UpscalerModel::USER_DEFAULT,
            target_graphics: UpscalerTargetGraphics::Uhd,
            convert_to_latest: false,
            game_version: String::new(),
            sheet_concurrency: 1,
            cache_match_mode: UpscalerCacheMatchMode::LooseSimilarity,
        },
    }
}

} // verus!
