//! Where the cache, the legacy sheets and the live Geometry Dash / Geode trees
//! are, and how an input pack folder maps onto them.

use vstd::prelude::*;
use crate::discovery::SheetCandidate;
use crate::facts::PathFacts;
use crate::game_files::{
    geode_dir_spec, j, looks_like_geode_dir, looks_like_geode_spec, looks_like_geometry_dash_dir,
    looks_like_gd_spec, normalize_legacy_version, normalized_version, path_has_dotdot,
    has_dotdot, resolve_geode_dir, resolve_vanilla_resources_dir, vanilla_resources_spec,
    Platform,
};
use crate::order::strs;
use crate::paths::{
    is_abs, is_abs_path, join_all, join_all_exec, join_path, normal_segments,
    path_normal_segments, path_segments, segments,
};
use crate::text::{chars_of, eq_ic, eq_ignore_case_str, string_from_chars};

verus! {

/// The folders the tools read from and write to.
pub struct GameFilesLayout {
    /// The user-owned cache and legacy root.
    pub root: String,
    /// The Geometry Dash install root (on Android, the Geode media `game` folder).
    pub geometry_dash_dir: String,
    /// The vanilla textures.
    pub resources: String,
    /// Geode's built-in resources.
    pub geode_resources: String,
    /// Geode's unzipped mods.
    pub geode_unzipped: String,
    /// The split cache.
    pub current_split: String,
    /// The legacy sheets.
    pub legacy: String,
}

impl Clone for GameFilesLayout {
    fn clone(&self) -> (r: Self)
        ensures
            r == *self,
    {
        GameFilesLayout {
            root: self.root.clone(),
            geometry_dash_dir: self.geometry_dash_dir.clone(),
            resources: self.resources.clone(),
            geode_resources: self.geode_resources.clone(),
            geode_unzipped: self.geode_unzipped.clone(),
            current_split: self.current_split.clone(),
            legacy: self.legacy.clone(),
        }
    }
}

/// The layout as the settings screen shows it; the Geometry Dash folders are
/// empty while the install is not found.
#[derive(Debug, Clone)]
pub struct GameFilesLayoutDto {
    pub root_dir: String,
    pub current_dir: String,
    pub split_dir: String,
    pub legacy_dir: String,
    pub geometry_dash_dir: String,
    pub resources_dir: String,
    pub geode_resources_dir: String,
    pub geode_unzipped_dir: String,
    pub geode_config_dir: String,
    pub geode_mods_dir: String,
    pub texture_loader_packs_dir: String,
    pub geometry_dash_save_dir: String,
    pub geometry_dash_found: bool,
}

/// The text shown for a Geometry Dash folder: the path when the install is
/// found, else nothing.
pub open spec fn shown(found: bool, p: Seq<char>) -> Seq<char> {
    if found {
        p
    } else {
        Seq::empty()
    }
}

impl GameFilesLayout {
    /// Whether Geometry Dash is there: the install folder looks like one, or
    /// it is not the placeholder of an unresolved install and its Geode
    /// folder looks like one and its tree can be read (a Geode loader tree is
    /// enough where the vanilla resources hold no markers).
    pub open spec fn found_spec(&self, facts: PathFacts) -> bool {
        looks_like_gd_spec(facts, self.geometry_dash_dir@) || (crate::paths::file_name_spec(self.geometry_dash_dir@)
            != Some("_unresolved_geometry_dash"@) && looks_like_geode_spec(
            facts,
            j(self.geometry_dash_dir@, "geode"@),
        ) && facts.readable_game(self.geometry_dash_dir@))
    }

    /// `{Geode}/config`.
    pub open spec fn geode_config_spec(&self, facts: PathFacts) -> Seq<char> {
        j(geode_dir_spec(facts, self.geometry_dash_dir@), "config"@)
    }

    /// `{Geode}/mods`.
    pub open spec fn geode_mods_spec(&self, facts: PathFacts) -> Seq<char> {
        j(geode_dir_spec(facts, self.geometry_dash_dir@), "mods"@)
    }

    /// `{Geode}/config/geode.texture-loader/packs`.
    pub open spec fn packs_spec(&self, facts: PathFacts) -> Seq<char> {
        j(j(self.geode_config_spec(facts), "geode.texture-loader"@), "packs"@)
    }

    /// The vanilla textures folder, the default input of several tools.
    pub fn current(&self) -> (r: &str)
        ensures
            r@ == self.resources@,
    {
        self.resources.as_str()
    }

    /// Whether Geometry Dash is there.
    pub fn geometry_dash_found(&self, facts: &PathFacts) -> (r: bool)
        ensures
            r == self.found_spec(*facts),
    {
        if looks_like_geometry_dash_dir(facts, self.geometry_dash_dir.as_str()) {
            return true;
        }
        let is_placeholder = match crate::paths::file_name_of(self.geometry_dash_dir.as_str()) {
            Some(n) => crate::facts::str_eq(n.as_str(), "_unresolved_geometry_dash"),
            None => false,
        };
        if is_placeholder {
            return false;
        }
        let geode = join_path(self.geometry_dash_dir.as_str(), "geode");
        if !looks_like_geode_dir(facts, geode.as_str()) {
            return false;
        }
        facts.game_storage_readable(self.geometry_dash_dir.as_str())
    }

    /// `{Geode}/config`.
    pub fn geode_config(&self, facts: &PathFacts) -> (r: String)
        ensures
            r@ == self.geode_config_spec(*facts),
    {
        let g = resolve_geode_dir(facts, self.geometry_dash_dir.as_str());
        join_path(g.as_str(), "config")
    }

    /// `{Geode}/mods`.
    pub fn geode_mods(&self, facts: &PathFacts) -> (r: String)
        ensures
            r@ == self.geode_mods_spec(*facts),
    {
        let g = resolve_geode_dir(facts, self.geometry_dash_dir.as_str());
        join_path(g.as_str(), "mods")
    }

    /// `{Geode}/config/geode.texture-loader/packs`.
    pub fn texture_loader_packs(&self, facts: &PathFacts) -> (r: String)
        ensures
            r@ == self.packs_spec(*facts),
    {
        let c = self.geode_config(facts);
        let t = join_path(c.as_str(), "geode.texture-loader");
        join_path(t.as_str(), "packs")
    }

    /// The layout for the settings screen; `save_dir` is the user save root
    /// when it could be resolved.
    pub fn to_dto(&self, facts: &PathFacts, save_dir: Option<String>) -> (r:
        GameFilesLayoutDto)
        ensures
            r.geometry_dash_found == self.found_spec(*facts),
            r.root_dir@ == self.root@,
            r.split_dir@ == self.current_split@,
            r.legacy_dir@ == self.legacy@,
            r.current_dir@ == shown(r.geometry_dash_found, self.resources@),
            r.geometry_dash_dir@ == shown(r.geometry_dash_found, self.geometry_dash_dir@),
            r.resources_dir@ == shown(r.geometry_dash_found, self.resources@),
            r.geode_resources_dir@ == shown(r.geometry_dash_found, self.geode_resources@),
            r.geode_unzipped_dir@ == shown(r.geometry_dash_found, self.geode_unzipped@),
            r.geode_config_dir@ == shown(r.geometry_dash_found, self.geode_config_spec(*facts)),
            r.geode_mods_dir@ == shown(r.geometry_dash_found, self.geode_mods_spec(*facts)),
            r.texture_loader_packs_dir@ == shown(r.geometry_dash_found, self.packs_spec(*facts)),
            r.geometry_dash_save_dir@ == match save_dir {
                Some(s) => s@,
                None => Seq::<char>::empty(),
            },
    {
        let found = self.geometry_dash_found(facts);
        let save = match save_dir {
            Some(s) => s,
            None => String::new(),
        };
        GameFilesLayoutDto {
            root_dir: self.root.clone(),
            current_dir: if found { self.resources.clone() } else { String::new() },
            split_dir: self.current_split.clone(),
            legacy_dir: self.legacy.clone(),
            geometry_dash_dir: if found { self.geometry_dash_dir.clone() } else { String::new() },
            resources_dir: if found { self.resources.clone() } else { String::new() },
            geode_resources_dir: if found { self.geode_resources.clone() } else { String::new() },
            geode_unzipped_dir: if found { self.geode_unzipped.clone() } else { String::new() },
            geode_config_dir: if found { self.geode_config(facts) } else { String::new() },
            geode_mods_dir: if found { self.geode_mods(facts) } else { String::new() },
            texture_loader_packs_dir: if found {
                self.texture_loader_packs(facts)
            } else {
                String::new()
            },
            geometry_dash_save_dir: save,
            geometry_dash_found: found,
        }
    }

    /// The folder of the legacy sheets of one version: `{legacy}/{version}`,
    /// the version normalized.
    pub fn legacy_gamesheets_dir(&self, version: &str) -> (r: String)
        ensures
            r@ == j(self.legacy@, normalized_version(version@)),
    {
        let v = normalize_legacy_version(version);
        join_path(self.legacy.as_str(), v.as_str())
    }
}

/// The current layout, shared by the commands: a read gives back what the
/// last write stored.
pub struct GameFilesState {
    layout: GameFilesLayout,
}

impl GameFilesState {
    /// The layout the state holds.
    pub closed spec fn held(&self) -> GameFilesLayout {
        self.layout
    }

    /// A state holding `layout`.
    pub fn new(layout: GameFilesLayout) -> (r: GameFilesState)
        ensures
            r.held() == layout,
    {
        GameFilesState { layout }
    }

    /// A copy of the held layout.
    pub fn snapshot(&self) -> (r: GameFilesLayout)
        ensures
            r == self.held(),
    {
        self.layout.clone()
    }

    /// Stores `layout` in place of the held one.
    pub fn replace(&mut self, layout: GameFilesLayout)
        ensures
            final(self).held() == layout,
    {
        self.layout = layout;
    }

    /// Runs `f` on the held layout and returns its result.
    pub fn with_layout<R, F: FnOnce(&GameFilesLayout) -> R>(&self, f: F) -> (r: R)
        requires
            f.requires((&self.held(),)),
        ensures
            f.ensures((&self.held(),), r),
    {
        f(&self.layout)
    }
}

/// The layout for a cache root and an install folder.
pub open spec fn layout_spec(facts: PathFacts, root: Seq<char>, gd: Seq<char>) -> (Seq<char>, Seq<char>, Seq<char>, Seq<char>, Seq<char>, Seq<char>, Seq<char>) {
    (
        root,
        gd,
        vanilla_resources_spec(facts, gd),
        j(geode_dir_spec(facts, gd), "resources"@),
        j(geode_dir_spec(facts, gd), "unzipped"@),
        j(root, "split-cache"@),
        j(root, "legacy"@),
    )
}

/// The fields of a layout, in declaration order.
pub open spec fn layout_fields(l: GameFilesLayout) -> (Seq<char>, Seq<char>, Seq<char>, Seq<char>, Seq<char>, Seq<char>, Seq<char>) {
    (
        l.root@,
        l.geometry_dash_dir@,
        l.resources@,
        l.geode_resources@,
        l.geode_unzipped@,
        l.current_split@,
        l.legacy@,
    )
}

/// The layout for a cache root and an install folder.
pub fn layout_from_parts(facts: &PathFacts, root: String, geometry_dash_dir: String) -> (r:
    GameFilesLayout)
    ensures
        layout_fields(r) == layout_spec(*facts, root@, geometry_dash_dir@),
{
    let resources = resolve_vanilla_resources_dir(facts, geometry_dash_dir.as_str());
    let geode_dir = resolve_geode_dir(facts, geometry_dash_dir.as_str());
    let geode_resources = join_path(geode_dir.as_str(), "resources");
    let geode_unzipped = join_path(geode_dir.as_str(), "unzipped");
    let current_split = join_path(root.as_str(), "split-cache");
    let legacy = join_path(root.as_str(), "legacy");
    GameFilesLayout {
        root,
        geometry_dash_dir,
        resources,
        geode_resources,
        geode_unzipped,
        current_split,
        legacy,
    }
}

/// The install folder used when Geometry Dash is not resolved:
/// `{root}/_unresolved_geometry_dash`.
pub open spec fn unresolved_gd_spec(root: Seq<char>) -> Seq<char> {
    j(root, "_unresolved_geometry_dash"@)
}

/// The layout for a cache root and, when resolved, the install folder.
pub fn build_game_files_layout(
    facts: &PathFacts,
    root: String,
    geometry_dash_dir: Option<String>,
) -> (r: GameFilesLayout)
    ensures
        layout_fields(r) == layout_spec(
            *facts,
            root@,
            match geometry_dash_dir {
                Some(g) => g@,
                None => unresolved_gd_spec(root@),
            },
        ),
        geometry_dash_dir is None ==> !r.found_spec(*facts),
{
    let gd = match geometry_dash_dir {
        Some(g) => g,
        None => join_path(root.as_str(), "_unresolved_geometry_dash"),
    };
    let r = layout_from_parts(facts, root, gd);
    proof {
        if geometry_dash_dir is None {
            reveal_strlit("_unresolved_geometry_dash");
            crate::paths::lemma_file_name_of_join(r.root@, "_unresolved_geometry_dash"@);
        }
    }
    r
}

/// The live source folder for an input pack folder: the pack root maps to
/// the vanilla resources (on Android to Geode's `geode.loader` when present),
/// `icons/...` to the vanilla icons, `geode.loader/...` to Geode's built-in
/// resources, and `{mod}/...` to `{unzipped}/{mod}/resources/{mod}/...`.
pub open spec fn current_source_spec(
    layout: GameFilesLayout,
    rel: Seq<char>,
    facts: PathFacts,
    platform: Platform,
) -> Seq<char> {
    let parts = normal_segments(rel);
    if parts.len() == 0 {
        if platform == Platform::Android && facts.has_dir(
            j(layout.geode_resources@, "geode.loader"@),
        ) {
            j(layout.geode_resources@, "geode.loader"@)
        } else {
            layout.resources@
        }
    } else if eq_ic(parts[0], "icons"@) {
        join_all(j(layout.resources@, "icons"@), parts.drop_first())
    } else if eq_ic(parts[0], "geode.loader"@) {
        join_all(j(layout.geode_resources@, "geode.loader"@), parts.drop_first())
    } else {
        join_all(
            j(j(j(layout.geode_unzipped@, parts[0]), "resources"@), parts[0]),
            parts.drop_first(),
        )
    }
}

/// The live source folder for an input pack folder.
pub fn resolve_current_source_dir(
    layout: &GameFilesLayout,
    relative_dir: &str,
    facts: &PathFacts,
    platform: Platform,
) -> (r: String)
    ensures
        r@ == current_source_spec(*layout, relative_dir@, *facts, platform),
{
    let mut parts = path_normal_segments(relative_dir);
    if parts.len() == 0 {
        if platform == Platform::Android {
            let geode_loader = join_path(layout.geode_resources.as_str(), "geode.loader");
            if facts.is_dir(geode_loader.as_str()) {
                return geode_loader;
            }
        }
        return layout.resources.clone();
    }
    let ghost all = strs(parts@);
    let first = parts.remove(0);
    proof {
        assert(strs(parts@) =~= all.drop_first());
    }
    let fv = chars_of(first.as_str());
    if eq_ignore_case_str(fv.as_slice(), "icons") {
        let base = join_path(layout.resources.as_str(), "icons");
        return join_all_exec(base.as_str(), parts.as_slice());
    }
    if eq_ignore_case_str(fv.as_slice(), "geode.loader") {
        let base = join_path(layout.geode_resources.as_str(), "geode.loader");
        return join_all_exec(base.as_str(), parts.as_slice());
    }
    let a = join_path(layout.geode_unzipped.as_str(), first.as_str());
    let b = join_path(a.as_str(), "resources");
    let c = join_path(b.as_str(), first.as_str());
    join_all_exec(c.as_str(), parts.as_slice())
}

/// The split-cache folder of a sheet: `{split}/{relative dir}/{stem}`, or
/// `{split}/{stem}` when the relative folder is absolute or climbs with `..`.
pub open spec fn split_output_spec(layout: GameFilesLayout, pair: SheetCandidate) -> Seq<char> {
    if is_abs(pair.relative_dir@) || has_dotdot(pair.relative_dir@) {
        j(layout.current_split@, pair.stem@)
    } else {
        j(join_all(layout.current_split@, segments(pair.relative_dir@)), pair.stem@)
    }
}

/// The split-cache folder of a sheet.
pub fn split_output_dir_for(layout: &GameFilesLayout, pair: &SheetCandidate) -> (r: String)
    ensures
        r@ == split_output_spec(*layout, *pair),
{
    if is_abs_path(pair.relative_dir.as_str()) || path_has_dotdot(pair.relative_dir.as_str()) {
        return join_path(layout.current_split.as_str(), pair.stem.as_str());
    }
    let segs = path_segments(pair.relative_dir.as_str());
    let dir = join_all_exec(layout.current_split.as_str(), segs.as_slice());
    join_path(dir.as_str(), pair.stem.as_str())
}

/// `\` replaced by `/`.
pub open spec fn forward_slashes(s: Seq<char>) -> Seq<char> {
    s.map_values(|c: char| if c == '\\' { '/' } else { c })
}

/// The key of a sheet in the split-cache hash file: the stem, or the relative
/// folder joined with the stem, with forward slashes.
pub open spec fn split_cache_key_spec(pair: SheetCandidate) -> Seq<char> {
    if pair.relative_dir@.len() == 0 {
        pair.stem@
    } else {
        forward_slashes(j(pair.relative_dir@, pair.stem@))
    }
}

/// `str::replace('\\', "/")`.
pub fn to_forward_slashes(s: &str) -> (r: String)
    ensures
        r@ == forward_slashes(s@),
{
    let v = chars_of(s);
    let mut out: Vec<char> = Vec::new();
    let mut i: usize = 0;
    while i < v.len()
        invariant
            i <= v.len(),
            v@ == s@,
            out@ == forward_slashes(v@.subrange(0, i as int)),
        decreases v.len() - i,
    {
        let c = v[i];
        out.push(if c == '\\' { '/' } else { c });
        proof {
            assert(forward_slashes(v@.subrange(0, i + 1)) =~= forward_slashes(
                v@.subrange(0, i as int),
            ).push(if c == '\\' { '/' } else { c }));
        }
        i = i + 1;
    }
    proof {
        assert(v@.subrange(0, v@.len() as int) =~= v@);
    }
    string_from_chars(out.as_slice())
}

/// The key of a sheet in the split-cache hash file.
pub fn split_cache_entry_key(pair: &SheetCandidate) -> (r: String)
    ensures
        r@ == split_cache_key_spec(*pair),
{
    if pair.relative_dir.as_str().unicode_len() == 0 {
        return pair.stem.clone();
    }
    let joined = join_path(pair.relative_dir.as_str(), pair.stem.as_str());
    to_forward_slashes(joined.as_str())
}

/// `{split}/hashes.json`.
pub fn split_cache_hashes_path(layout: &GameFilesLayout) -> (r: String)
    ensures
        r@ == j(layout.current_split@, "hashes.json"@),
{
    join_path(layout.current_split.as_str(), "hashes.json")
}

} // verus!
