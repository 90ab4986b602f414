//! Geode user save folders (apart from the game install), where mods such as
//! the texture loader keep their data.

use vstd::prelude::*;
use crate::errors::AppError;
use crate::game_files::{j, Platform};
use crate::paths::{join_path, opt_str};
use crate::text::{string_from_chars, trim, trim_str};

verus! {

/// Whether reading and writing the texture loader's applied pack order is
/// implemented on this platform (it is on all of them).
pub fn texture_loader_applied_save_supported() -> (r: bool)
    ensures
        r,
{
    true
}

/// The user's home folder: `USERPROFILE`, else `HOME`, each trimmed and used
/// only when not empty.
pub open spec fn home_dir_spec(userprofile: Option<Seq<char>>, home: Option<Seq<char>>) -> Option<Seq<char>> {
    if userprofile is Some && trim(userprofile->0).len() > 0 {
        Some(trim(userprofile->0))
    } else if home is Some && trim(home->0).len() > 0 {
        Some(trim(home->0))
    } else {
        None
    }
}

/// The user's home folder from the `USERPROFILE` and `HOME` variables.
pub fn home_dir(userprofile: Option<String>, home: Option<String>) -> (r: Option<String>)
    ensures
        opt_str(r) == home_dir_spec(opt_str(userprofile), opt_str(home)),
{
    if let Some(u) = userprofile {
        let t = trim_str(u.as_str());
        if t.len() > 0 {
            return Some(string_from_chars(t.as_slice()));
        }
    }
    if let Some(h) = home {
        let t = trim_str(h.as_str());
        if t.len() > 0 {
            return Some(string_from_chars(t.as_slice()));
        }
    }
    None
}

/// What the environment says about the user save root.
pub struct SaveDirInputs {
    /// `LOCALAPPDATA`, when set.
    pub local_app_data: Option<String>,
    /// `USERPROFILE`, when set.
    pub userprofile: Option<String>,
    /// `HOME`, when set.
    pub home: Option<String>,
    /// On Android, the first launcher save folder that is readable.
    pub android_detected: Option<String>,
    /// On Android, the launcher save folder candidates, in order.
    pub android_candidates: Vec<String>,
}

/// An outcome of resolving the save root as plain values: the path, or the
/// error as whether it is an I/O error and its message.
pub open spec fn save_result_view(r: Result<String, AppError>) -> Result<Seq<char>, (bool, Seq<char>)> {
    match r {
        Ok(s) => Ok(s@),
        Err(AppError::IoError(m)) => Err((true, m@)),
        Err(AppError::InvalidOperation(m)) => Err((false, m@)),
        Err(_) => Err((false, Seq::empty())),
    }
}

/// The user save root for a platform and environment (see
/// [`resolve_geometry_dash_save_dir`]).
pub open spec fn save_dir_spec(platform: Platform, inputs: SaveDirInputs) -> Result<Seq<char>, (bool, Seq<char>)> {
    match platform {
        Platform::Android => match inputs.android_detected {
            Some(d) => Ok(d@),
            None => if inputs.android_candidates@.len() > 0 {
                Ok(inputs.android_candidates@[0]@)
            } else {
                Err((true, "Could not resolve Geode save directory on Android internal storage."@))
            },
        },
        Platform::Windows => match inputs.local_app_data {
            None => Err((true, "LOCALAPPDATA is not set."@)),
            Some(l) => if trim(l@).len() == 0 {
                Err((true, "LOCALAPPDATA is empty."@))
            } else {
                Ok(j(trim(l@), "GeometryDash"@))
            },
        },
        Platform::Linux => match home_dir_spec(opt_str(inputs.userprofile), opt_str(inputs.home)) {
            None => Err((true, "HOME is not set."@)),
            Some(h) => Ok(j(j(j(h, ".local"@), "share"@), "GeometryDash"@)),
        },
        Platform::MacOs => match home_dir_spec(opt_str(inputs.userprofile), opt_str(inputs.home)) {
            None => Err((true, "HOME is not set."@)),
            Some(h) => Ok(j(j(j(h, "Library"@), "Application Support"@), "GeometryDash"@)),
        },
        Platform::Other => Err((false, "Texture loader applied packs are not supported on this platform."@)),
    }
}

/// The user save root: on Android the detected launcher save folder, else
/// the first candidate; on Windows `{LOCALAPPDATA}/GeometryDash`; on Linux
/// `{home}/.local/share/GeometryDash`; on macOS
/// `{home}/Library/Application Support/GeometryDash`.
pub fn resolve_geometry_dash_save_dir(platform: Platform, inputs: SaveDirInputs) -> (r: Result<
    String,
    AppError,
>)
    ensures
        platform == Platform::Android ==> match inputs.android_detected {
            Some(d) => r matches Ok(s) && s@ == d@,
            None => if inputs.android_candidates@.len() > 0 {
                r matches Ok(s) && s@ == inputs.android_candidates@[0]@
            } else {
                r matches Err(AppError::IoError(m)) && m@
                    == "Could not resolve Geode save directory on Android internal storage."@
            },
        },
        platform == Platform::Windows ==> match inputs.local_app_data {
            None => r matches Err(AppError::IoError(m)) && m@ == "LOCALAPPDATA is not set."@,
            Some(l) => if trim(l@).len() == 0 {
                r matches Err(AppError::IoError(m)) && m@ == "LOCALAPPDATA is empty."@
            } else {
                r matches Ok(s) && s@ == j(trim(l@), "GeometryDash"@)
            },
        },
        platform == Platform::Linux ==> match home_dir_spec(
            opt_str(inputs.userprofile),
            opt_str(inputs.home),
        ) {
            None => r matches Err(AppError::IoError(m)) && m@ == "HOME is not set."@,
            Some(h) => r matches Ok(s) && s@ == j(j(j(h, ".local"@), "share"@), "GeometryDash"@),
        },
        platform == Platform::MacOs ==> match home_dir_spec(
            opt_str(inputs.userprofile),
            opt_str(inputs.home),
        ) {
            None => r matches Err(AppError::IoError(m)) && m@ == "HOME is not set."@,
            Some(h) => r matches Ok(s) && s@ == j(
                j(j(h, "Library"@), "Application Support"@),
                "GeometryDash"@,
            ),
        },
        platform == Platform::Other ==> (r matches Err(AppError::InvalidOperation(m)) && m@
            == "Texture loader applied packs are not supported on this platform."@),
        save_result_view(r) == save_dir_spec(platform, inputs),
{
    match platform {
        Platform::Android => {
            if let Some(d) = inputs.android_detected {
                return Ok(d);
            }
            if inputs.android_candidates.len() > 0 {
                return Ok(inputs.android_candidates[0].clone());
            }
            Err(
                AppError::IoError(
                    "Could not resolve Geode save directory on Android internal storage.".to_string(),
                ),
            )
        },
        Platform::Windows => {
            let local = match inputs.local_app_data {
                Some(l) => l,
                None => return Err(AppError::IoError("LOCALAPPDATA is not set.".to_string())),
            };
            let t = trim_str(local.as_str());
            if t.len() == 0 {
                return Err(AppError::IoError("LOCALAPPDATA is empty.".to_string()));
            }
            let base = string_from_chars(t.as_slice());
            Ok(join_path(base.as_str(), "GeometryDash"))
        },
        Platform::Linux => {
            let h = match home_dir(inputs.userprofile, inputs.home) {
                Some(h) => h,
                None => return Err(AppError::IoError("HOME is not set.".to_string())),
            };
            let a = join_path(h.as_str(), ".local");
            let b = join_path(a.as_str(), "share");
            Ok(join_path(b.as_str(), "GeometryDash"))
        },
        Platform::MacOs => {
            let h = match home_dir(inputs.userprofile, inputs.home) {
                Some(h) => h,
                None => return Err(AppError::IoError("HOME is not set.".to_string())),
            };
            let a = join_path(h.as_str(), "Library");
            let b = join_path(a.as_str(), "Application Support");
            Ok(join_path(b.as_str(), "GeometryDash"))
        },
        Platform::Other => Err(
            AppError::InvalidOperation(
                "Texture loader applied packs are not supported on this platform.",
            ),
        ),
    }
}

/// `{save}/geode/mods/geode.texture-loader`.
pub open spec fn mod_save_dir_spec(save: Seq<char>) -> Seq<char> {
    j(j(j(save, "geode"@), "mods"@), "geode.texture-loader"@)
}

/// The texture loader's save folder under the user save root.
pub fn texture_loader_mod_save_dir(save_dir: &str) -> (r: String)
    ensures
        r@ == mod_save_dir_spec(save_dir@),
{
    let a = join_path(save_dir, "geode");
    let b = join_path(a.as_str(), "mods");
    join_path(b.as_str(), "geode.texture-loader")
}

/// The texture loader's save folder: the user save root (see
/// [`resolve_geometry_dash_save_dir`]) joined with
/// `geode/mods/geode.texture-loader`, or the error resolving it gave.
pub fn texture_loader_mod_save_dir_for(platform: Platform, inputs: SaveDirInputs) -> (r: Result<String, AppError>)
    ensures
        match save_dir_spec(platform, inputs) {
            Ok(s) => r matches Ok(t) && t@ == mod_save_dir_spec(s),
            Err(e) => save_result_view(r) == Err::<Seq<char>, (bool, Seq<char>)>(e),
        },
{
    match resolve_geometry_dash_save_dir(platform, inputs) {
        Ok(s) => Ok(texture_loader_mod_save_dir(s.as_str())),
        Err(e) => Err(e),
    }
}

/// The texture loader's `saved.json` under the user save root.
pub fn texture_loader_saved_json_path(save_dir: &str) -> (r: String)
    ensures
        r@ == j(mod_save_dir_spec(save_dir@), "saved.json"@),
{
    let d = texture_loader_mod_save_dir(save_dir);
    join_path(d.as_str(), "saved.json")
}

} // verus!
