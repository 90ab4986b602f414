//! Layout of the user's cache folder and of the Geometry Dash / Geode install.

use vstd::prelude::*;
use crate::errors::AppError;
use crate::facts::PathFacts;
use crate::order::strs;
use crate::paths::{
    extension_of, extension_spec, file_name_of, file_name_spec, is_dotdot, is_dotdot_str,
    join_all, join_all_exec, join_path, join_spec, normal_segments, opt_str, parent_of,
    parent_spec, path_normal_segments, path_segments, segments,
};
use crate::text::{
    chars_of, eq_ic, eq_ignore_case_str, string_from_chars, trim, trim_start_char,
    trim_start_char_exec, trim_str,
};

verus! {

/// The operating system the app runs on, where the layout differs by it.
#[derive(Debug, Clone, Copy, PartialEq, Eq, Structural)]
pub enum Platform {
    Windows,
    MacOs,
    Linux,
    Android,
    Other,
}

/// A legacy version text without surrounding whitespace and without a leading
/// `v` (then `V`) prefix.
pub open spec fn normalized_version(v: Seq<char>) -> Seq<char> {
    trim_start_char(trim_start_char(trim(v), 'v'), 'V')
}

/// Normalizes a legacy version text (` 2.11 ` → `2.11`, `v2.205` → `2.205`).
pub fn normalize_legacy_version(version: &str) -> (r: String)
    ensures
        r@ == normalized_version(version@),
{
    let t = trim_str(version);
    let a = trim_start_char_exec(t.as_slice(), 'v');
    let b = trim_start_char_exec(a.as_slice(), 'V');
    string_from_chars(b.as_slice())
}

/// The message of the error a tool returns when it needs Geometry Dash and the
/// install is not configured.
pub open spec fn gd_required_message(platform: Platform) -> Seq<char> {
    if platform == Platform::Android {
        "Geode folder not found. Open Settings, grant all-files access if needed, then Re-detect Android/media/com.geode.launcher/game/geode."@
    } else {
        "Geometry Dash is not configured. Open Settings and set or detect the install path."@
    }
}

/// The error a tool returns when it needs Geometry Dash and it is missing.
pub fn geometry_dash_required_error(platform: Platform) -> (r: AppError)
    ensures
        r matches AppError::IoError(m) && m@ == gd_required_message(platform),
{
    if platform == Platform::Android {
        AppError::IoError(
            "Geode folder not found. Open Settings, grant all-files access if needed, then Re-detect Android/media/com.geode.launcher/game/geode.".to_string(),
        )
    } else {
        AppError::IoError(
            "Geometry Dash is not configured. Open Settings and set or detect the install path.".to_string(),
        )
    }
}

/// `a.join(b)` on text.
pub open spec fn j(a: Seq<char>, b: Seq<char>) -> Seq<char> {
    join_spec(a, b)
}

/// Whether the extension of the path's file name is `app`, in any case.
pub open spec fn is_app_bundle(path: Seq<char>) -> bool {
    match file_name_spec(path) {
        Some(n) => match extension_spec(n) {
            Some(e) => eq_ic(e, "app"@),
            None => false,
        },
        None => false,
    }
}

/// The macOS `Contents` folder: `Geometry Dash.app/Contents` under `path` when
/// it is a directory, else `path/Contents` when `path` is itself an `.app`
/// bundle and that is a directory.
pub open spec fn macos_contents_spec(facts: PathFacts, path: Seq<char>) -> Option<Seq<char>> {
    let nested = j(j(path, "Geometry Dash.app"@), "Contents"@);
    if facts.has_dir(nested) {
        Some(nested)
    } else if is_app_bundle(path) && facts.has_dir(j(path, "Contents"@)) {
        Some(j(path, "Contents"@))
    } else {
        None
    }
}

/// The vanilla texture folder: `{GD}/Resources`, or the macOS bundle's
/// `Contents/Resources` when only that one is a directory.
pub open spec fn vanilla_resources_spec(facts: PathFacts, gd: Seq<char>) -> Seq<char> {
    let windows_style = j(gd, "Resources"@);
    if facts.has_dir(windows_style) {
        windows_style
    } else {
        match macos_contents_spec(facts, gd) {
            Some(c) => if facts.has_dir(j(c, "Resources"@)) {
                j(c, "Resources"@)
            } else {
                windows_style
            },
            None => windows_style,
        }
    }
}

/// The Geode data folder: `{GD}/geode` when it is a directory, else the macOS
/// bundle's `Contents/geode` whenever the bundle exists, else `{GD}/geode`.
pub open spec fn geode_dir_spec(facts: PathFacts, gd: Seq<char>) -> Seq<char> {
    let windows_style = j(gd, "geode"@);
    if facts.has_dir(windows_style) {
        windows_style
    } else {
        match macos_contents_spec(facts, gd) {
            Some(c) => j(c, "geode"@),
            None => windows_style,
        }
    }
}

/// Files and folders that only a real Geometry Dash `Resources` tree holds.
pub open spec fn texture_markers_spec(facts: PathFacts, r: Seq<char>) -> bool {
    ||| facts.has_dir(j(r, "icons"@))
    ||| facts.has_file(j(r, "game_bg_01_001-uhd.png"@))
    ||| facts.has_file(j(r, "game_bg_01_001-hd.png"@))
    ||| facts.has_file(j(r, "game_bg_01_001.png"@))
    ||| facts.has_file(j(r, "GJ_GameSheet-uhd.plist"@))
    ||| facts.has_file(j(r, "GJ_GameSheet-hd.plist"@))
    ||| facts.has_file(j(r, "GJ_GameSheet.plist"@))
}

/// Game binaries of the Windows, Linux and macOS installs.
pub open spec fn binary_markers_spec(facts: PathFacts, path: Seq<char>) -> bool {
    ||| facts.has_file(j(path, "GeometryDash.exe"@))
    ||| facts.has_file(j(path, "libcocos2d.dll"@))
    ||| facts.has_file(j(path, "libfmod.dll"@))
    ||| facts.has_file(j(path, "GeometryDash"@))
    ||| facts.has_file(j(path, "GeometryDash.x86_64"@))
    ||| facts.has_file(
        j(j(j(j(path, "Geometry Dash.app"@), "Contents"@), "MacOS"@), "Geometry Dash"@),
    )
    ||| facts.has_file(j(j(j(path, "Contents"@), "MacOS"@), "Geometry Dash"@))
}

/// Some segment of the path is `..`.
pub open spec fn has_dotdot(path: Seq<char>) -> bool {
    exists|k: int| 0 <= k < segments(path).len() && is_dotdot(#[trigger] segments(path)[k])
}

/// A Geometry Dash install: a plain path (not empty, no `..`, not the
/// unresolved placeholder) whose vanilla resources folder is a directory, with
/// a game binary or a texture marker.
pub open spec fn looks_like_gd_spec(facts: PathFacts, path: Seq<char>) -> bool {
    &&& path.len() > 0
    &&& !has_dotdot(path)
    &&& file_name_spec(path) != Some("_unresolved_geometry_dash"@)
    &&& facts.has_dir(vanilla_resources_spec(facts, path))
    &&& (binary_markers_spec(facts, path) || texture_markers_spec(facts, vanilla_resources_spec(
        facts,
        path,
    )))
}

/// A Geode data folder: a plain directory named `geode` (any case), or one
/// holding `config`, `resources`, `mods` or `unzipped`.
pub open spec fn looks_like_geode_spec(facts: PathFacts, path: Seq<char>) -> bool {
    &&& path.len() > 0
    &&& !has_dotdot(path)
    &&& facts.has_dir(path)
    &&& ({
        ||| (file_name_spec(path) matches Some(n) && eq_ic(n, "geode"@))
        ||| facts.has_dir(j(path, "config"@))
        ||| facts.has_dir(j(path, "resources"@))
        ||| facts.has_dir(j(path, "mods"@))
        ||| facts.has_dir(j(path, "unzipped"@))
    })
}

/// Whether a path has a `..` segment.
pub fn path_has_dotdot(path: &str) -> (r: bool)
    ensures
        r == has_dotdot(path@),
{
    let segs = path_segments(path);
    let mut i: usize = 0;
    while i < segs.len()
        invariant
            i <= segs.len(),
            strs(segs@) == segments(path@),
            forall|k: int| 0 <= k < i ==> !is_dotdot(#[trigger] segments(path@)[k]),
        decreases segs.len() - i,
    {
        if is_dotdot_str(segs[i].as_str()) {
            proof {
                assert(segments(path@)[i as int] == segs@[i as int]@);
            }
            return true;
        }
        proof {
            assert(segments(path@)[i as int] == segs@[i as int]@);
        }
        i = i + 1;
    }
    false
}

/// Whether the path's file name has the extension `app`, in any case.
pub fn is_app_bundle_exec(path: &str) -> (r: bool)
    ensures
        r == is_app_bundle(path@),
{
    match file_name_of(path) {
        Some(n) => match extension_of(n.as_str()) {
            Some(e) => {
                let ev = chars_of(e.as_str());
                eq_ignore_case_str(ev.as_slice(), "app")
            },
            None => false,
        },
        None => false,
    }
}

/// The macOS `Contents` folder of an install or bundle, when it exists.
pub fn macos_app_contents_dir(facts: &PathFacts, path: &str) -> (r: Option<String>)
    ensures
        opt_str(r) == macos_contents_spec(*facts, path@),
{
    let app = join_path(path, "Geometry Dash.app");
    let nested = join_path(app.as_str(), "Contents");
    if facts.is_dir(nested.as_str()) {
        return Some(nested);
    }
    if is_app_bundle_exec(path) {
        let contents = join_path(path, "Contents");
        if facts.is_dir(contents.as_str()) {
            return Some(contents);
        }
    }
    None
}

/// The vanilla texture folder of an install.
pub fn resolve_vanilla_resources_dir(facts: &PathFacts, geometry_dash_dir: &str) -> (r: String)
    ensures
        r@ == vanilla_resources_spec(*facts, geometry_dash_dir@),
{
    let windows_style = join_path(geometry_dash_dir, "Resources");
    if facts.is_dir(windows_style.as_str()) {
        return windows_style;
    }
    if let Some(contents) = macos_app_contents_dir(facts, geometry_dash_dir) {
        let mac = join_path(contents.as_str(), "Resources");
        if facts.is_dir(mac.as_str()) {
            return mac;
        }
    }
    windows_style
}

/// The Geode data folder of an install.
pub fn resolve_geode_dir(facts: &PathFacts, geometry_dash_dir: &str) -> (r: String)
    ensures
        r@ == geode_dir_spec(*facts, geometry_dash_dir@),
{
    let windows_style = join_path(geometry_dash_dir, "geode");
    if facts.is_dir(windows_style.as_str()) {
        return windows_style;
    }
    if let Some(contents) = macos_app_contents_dir(facts, geometry_dash_dir) {
        return join_path(contents.as_str(), "geode");
    }
    windows_style
}

/// Whether a `Resources` folder holds one of the texture markers.
pub fn resources_has_texture_markers(facts: &PathFacts, resources: &str) -> (r: bool)
    ensures
        r == texture_markers_spec(*facts, resources@),
{
    facts.is_dir(join_path(resources, "icons").as_str()) || facts.is_file(
        join_path(resources, "game_bg_01_001-uhd.png").as_str(),
    ) || facts.is_file(join_path(resources, "game_bg_01_001-hd.png").as_str()) || facts.is_file(
        join_path(resources, "game_bg_01_001.png").as_str(),
    ) || facts.is_file(join_path(resources, "GJ_GameSheet-uhd.plist").as_str()) || facts.is_file(
        join_path(resources, "GJ_GameSheet-hd.plist").as_str(),
    ) || facts.is_file(join_path(resources, "GJ_GameSheet.plist").as_str())
}

/// Whether an install folder holds one of the game binaries.
pub fn has_binary_markers(facts: &PathFacts, path: &str) -> (r: bool)
    ensures
        r == binary_markers_spec(*facts, path@),
{
    if facts.is_file(join_path(path, "GeometryDash.exe").as_str()) || facts.is_file(
        join_path(path, "libcocos2d.dll").as_str(),
    ) || facts.is_file(join_path(path, "libfmod.dll").as_str()) || facts.is_file(
        join_path(path, "GeometryDash").as_str(),
    ) || facts.is_file(join_path(path, "GeometryDash.x86_64").as_str()) {
        return true;
    }
    let a = join_path(path, "Geometry Dash.app");
    let b = join_path(a.as_str(), "Contents");
    let c = join_path(b.as_str(), "MacOS");
    let d = join_path(c.as_str(), "Geometry Dash");
    if facts.is_file(d.as_str()) {
        return true;
    }
    let e = join_path(path, "Contents");
    let f = join_path(e.as_str(), "MacOS");
    let g = join_path(f.as_str(), "Geometry Dash");
    facts.is_file(g.as_str())
}

/// Whether `path` looks like a Geometry Dash install.
pub fn looks_like_geometry_dash_dir(facts: &PathFacts, path: &str) -> (r: bool)
    ensures
        r == looks_like_gd_spec(*facts, path@),
{
    if path.unicode_len() == 0 {
        return false;
    }
    if path_has_dotdot(path) {
        return false;
    }
    let name = file_name_of(path);
    let is_unresolved = match &name {
        Some(n) => n.as_str().unicode_len() == 25 && crate::facts::str_eq(
            n.as_str(),
            "_unresolved_geometry_dash",
        ),
        None => false,
    };
    proof {
        reveal_strlit("_unresolved_geometry_dash");
    }
    if is_unresolved {
        return false;
    }
    let resources = resolve_vanilla_resources_dir(facts, path);
    if !facts.is_dir(resources.as_str()) {
        return false;
    }
    let has_binary = has_binary_markers(facts, path);
    let has_textures = resources_has_texture_markers(facts, resources.as_str());
    has_binary || has_textures
}

/// Whether `path` looks like a Geode data folder.
pub fn looks_like_geode_dir(facts: &PathFacts, path: &str) -> (r: bool)
    ensures
        r == looks_like_geode_spec(*facts, path@),
{
    if path.unicode_len() == 0 {
        return false;
    }
    if path_has_dotdot(path) {
        return false;
    }
    if !facts.is_dir(path) {
        return false;
    }
    let named = match file_name_of(path) {
        Some(n) => {
            let nv = chars_of(n.as_str());
            eq_ignore_case_str(nv.as_slice(), "geode")
        },
        None => false,
    };
    if named {
        return true;
    }
    facts.is_dir(join_path(path, "config").as_str()) || facts.is_dir(
        join_path(path, "resources").as_str(),
    ) || facts.is_dir(join_path(path, "mods").as_str()) || facts.is_dir(
        join_path(path, "unzipped").as_str(),
    )
}

/// The install root for a path the user picked: on Android the parent of a
/// Geode folder; a macOS `Geometry Dash.app` bundle that holds the game is
/// replaced by the folder that holds it; any other path stays.
pub open spec fn normalized_user_path_spec(
    facts: PathFacts,
    platform: Platform,
    path: Seq<char>,
) -> Seq<char> {
    if platform == Platform::Android && looks_like_geode_spec(facts, path) && parent_spec(
        path,
    ) is Some {
        parent_spec(path)->0
    } else if is_app_bundle(path) && (facts.has_file(
        j(j(j(path, "Contents"@), "MacOS"@), "Geometry Dash"@),
    ) || texture_markers_spec(facts, j(j(path, "Contents"@), "Resources"@))) && parent_spec(
        path,
    ) is Some {
        parent_spec(path)->0
    } else {
        path
    }
}

/// The install root for a path the user picked.
pub fn normalize_geometry_dash_user_path(facts: &PathFacts, platform: Platform, path: String) -> (r:
    String)
    ensures
        r@ == normalized_user_path_spec(*facts, platform, path@),
{
    if platform == Platform::Android && looks_like_geode_dir(facts, path.as_str()) {
        if let Some(parent) = parent_of(path.as_str()) {
            return parent;
        }
    }
    if is_app_bundle_exec(path.as_str()) {
        let c = join_path(path.as_str(), "Contents");
        let m = join_path(c.as_str(), "MacOS");
        let bin = join_path(m.as_str(), "Geometry Dash");
        let res = join_path(c.as_str(), "Resources");
        let looks_like_gd_app = facts.is_file(bin.as_str()) || resources_has_texture_markers(
            facts,
            res.as_str(),
        );
        if looks_like_gd_app {
            if let Some(parent) = parent_of(path.as_str()) {
                return parent;
            }
        }
    }
    path
}

/// Whether a folder is accepted as the Geometry Dash install: it looks like
/// one, or on Android it holds a Geode folder.
pub open spec fn accepts_gd_spec(facts: PathFacts, platform: Platform, path: Seq<char>) -> bool {
    looks_like_gd_spec(facts, path) || (platform == Platform::Android && looks_like_geode_spec(
        facts,
        j(path, "geode"@),
    ))
}

/// Whether a folder is accepted as the Geometry Dash install.
pub fn accepts_geometry_dash_dir(facts: &PathFacts, platform: Platform, path: &str) -> (r: bool)
    ensures
        r == accepts_gd_spec(*facts, platform, path@),
{
    if looks_like_geometry_dash_dir(facts, path) {
        return true;
    }
    if platform == Platform::Android {
        return looks_like_geode_dir(facts, join_path(path, "geode").as_str());
    }
    false
}

} // verus!
