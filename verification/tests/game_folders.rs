use texture_manager::android_geode::{
    android_geode_internal_storage_roots, android_geode_media_candidates,
    android_geode_save_dir_candidates, detect_android_geometry_dash_dir, push_unique,
};
use texture_manager::discovery::SheetCandidate;
use texture_manager::errors::AppError;
use texture_manager::facts::PathFacts;
use texture_manager::game_files::{
    accepts_geometry_dash_dir, geometry_dash_required_error, looks_like_geode_dir,
    looks_like_geometry_dash_dir, normalize_geometry_dash_user_path, normalize_legacy_version,
    path_has_dotdot, resolve_geode_dir, resolve_vanilla_resources_dir, Platform,
};
use texture_manager::geode_user_data::{
    home_dir, resolve_geometry_dash_save_dir, texture_loader_mod_save_dir,
    texture_loader_saved_json_path, SaveDirInputs,
};
use texture_manager::layout::{
    build_game_files_layout, layout_from_parts, resolve_current_source_dir, split_cache_entry_key,
    split_cache_hashes_path, split_output_dir_for, to_forward_slashes, GameFilesLayout,
    GameFilesState,
};
use texture_manager::steam::parse_steam_library_paths;

/// Facts for a tree in which every listed directory, and every ancestor of a
/// listed path, is a directory.
fn tree(dirs: &[&str], files: &[&str]) -> PathFacts {
    let mut all_dirs: Vec<String> = Vec::new();
    let mut add_ancestors = |p: &str, include_self: bool, all: &mut Vec<String>| {
        let mut cut = p.len();
        if !include_self {
            cut = p.rfind('/').unwrap_or(0);
        }
        let mut cur = p[..cut].to_string();
        while !cur.is_empty() {
            if !all.contains(&cur) {
                all.push(cur.clone());
            }
            match cur.rfind('/') {
                Some(0) | None => break,
                Some(i) => cur.truncate(i),
            }
        }
    };
    for d in dirs {
        add_ancestors(d, true, &mut all_dirs);
    }
    for f in files {
        add_ancestors(f, false, &mut all_dirs);
    }
    PathFacts {
        dirs: all_dirs,
        files: files.iter().map(|f| f.to_string()).collect(),
        readable_game_dirs: Vec::new(),
    }
}

fn test_layout(root: &str, gd: &str) -> GameFilesLayout {
    GameFilesLayout {
        root: root.to_string(),
        geometry_dash_dir: gd.to_string(),
        resources: format!("{gd}/Resources"),
        geode_resources: format!("{gd}/geode/resources"),
        geode_unzipped: format!("{gd}/geode/unzipped"),
        current_split: format!("{root}/split-cache"),
        legacy: format!("{root}/legacy"),
    }
}

#[test]
fn looks_like_geode_dir_requires_known_subdir() {
    let root = "/tmp/tm_game_files_geode_shape";
    let empty = format!("{root}/empty_geode");
    let named = format!("{root}/geode");
    let with_config = format!("{root}/with_config");
    let with_resources = format!("{root}/with_resources");
    let facts = tree(
        &[
            &empty,
            &named,
            &format!("{with_config}/config"),
            &format!("{with_resources}/resources"),
        ],
        &[],
    );
    assert!(!looks_like_geode_dir(&facts, &empty));
    assert!(
        looks_like_geode_dir(&facts, &named),
        "a directory literally named geode counts on Android media trees"
    );
    assert!(looks_like_geode_dir(&facts, &with_config));
    assert!(looks_like_geode_dir(&facts, &with_resources));
}

#[test]
fn looks_like_geometry_dash_requires_more_than_resources_dirname() {
    let root = "/tmp/tm_game_files_gd_shape";
    let plain = format!("{root}/NotGD");
    let resources = format!("{plain}/Resources");
    let facts = tree(&[&resources], &[]);
    assert!(
        !looks_like_geometry_dash_dir(&facts, &plain),
        "empty Resources alone must not count as GD"
    );

    let facts = tree(&[&format!("{resources}/icons")], &[]);
    assert!(
        looks_like_geometry_dash_dir(&facts, &plain),
        "Resources/icons is a valid texture marker"
    );

    let with_exe = format!("{root}/SteamGD");
    let facts = tree(
        &[&format!("{with_exe}/Resources")],
        &[&format!("{with_exe}/GeometryDash.exe")],
    );
    assert!(looks_like_geometry_dash_dir(&facts, &with_exe));

    let unresolved = format!("{root}/_unresolved_geometry_dash");
    let facts = tree(&[&format!("{unresolved}/Resources/icons")], &[]);
    assert!(!looks_like_geometry_dash_dir(&facts, &unresolved));

    let mac = format!("{root}/MacSteamGD");
    let mac_resources = format!("{mac}/Geometry Dash.app/Contents/Resources");
    let facts = tree(
        &[
            &format!("{mac_resources}/icons"),
            &format!("{mac}/Geometry Dash.app/Contents/MacOS"),
        ],
        &[&format!("{mac}/Geometry Dash.app/Contents/MacOS/Geometry Dash")],
    );
    assert!(
        looks_like_geometry_dash_dir(&facts, &mac),
        "macOS .app bundle under Steam common/Geometry Dash must validate"
    );
    assert_eq!(
        resolve_vanilla_resources_dir(&facts, &mac),
        mac_resources,
        "macOS resources resolve inside the .app bundle"
    );
    assert_eq!(
        resolve_geode_dir(&facts, &mac),
        format!("{mac}/Geometry Dash.app/Contents/geode"),
        "macOS geode resolves under Contents when .app exists"
    );

    let app_only = format!("{mac}/Geometry Dash.app");
    assert!(looks_like_geometry_dash_dir(&facts, &app_only));
    assert_eq!(
        normalize_geometry_dash_user_path(&facts, Platform::MacOs, app_only.clone()),
        mac,
        "selecting the .app normalizes to the Steam install parent"
    );
}

#[test]
fn accepts_real_macos_steam_geometry_dash_when_present() {
    let home = "/Users/player";
    let candidate = format!(
        "{home}/Library/Application Support/Steam/steamapps/common/Geometry Dash"
    );
    let facts = tree(
        &[&format!("{candidate}/Geometry Dash.app/Contents/Resources/icons")],
        &[&format!("{candidate}/Geometry Dash.app/Contents/MacOS/Geometry Dash")],
    );
    assert!(looks_like_geometry_dash_dir(&facts, &candidate));
    let resources = resolve_vanilla_resources_dir(&facts, &candidate);
    assert!(resources.ends_with("Contents/Resources") || resources.ends_with("Resources"));
    assert!(facts.is_dir(&format!("{resources}/icons")));
}

#[test]
fn paths_with_parent_segments_are_not_installs() {
    let facts = tree(&["/games/GD/Resources/icons"], &[]);
    assert!(looks_like_geometry_dash_dir(&facts, "/games/GD"));
    assert!(path_has_dotdot("/games/x/../GD"));
    assert!(!looks_like_geometry_dash_dir(&facts, "/games/x/../GD"));
    assert!(!looks_like_geometry_dash_dir(&facts, ""));
}

#[test]
fn android_accepts_game_folder_holding_geode() {
    let facts = tree(&["/sdcard/Android/media/com.geode.launcher/game/geode/mods"], &[]);
    let game = "/sdcard/Android/media/com.geode.launcher/game";
    assert!(accepts_geometry_dash_dir(&facts, Platform::Android, game));
    assert!(!accepts_geometry_dash_dir(&facts, Platform::Linux, game));
    assert_eq!(
        normalize_geometry_dash_user_path(&facts, Platform::Android, format!("{game}/geode")),
        game.to_string()
    );
}

#[test]
fn required_error_names_the_platform_fix() {
    match geometry_dash_required_error(Platform::Android) {
        AppError::IoError(m) => assert!(m.starts_with("Geode folder not found.")),
        other => panic!("unexpected {other:?}"),
    }
    match geometry_dash_required_error(Platform::Windows) {
        AppError::IoError(m) => assert!(m.starts_with("Geometry Dash is not configured.")),
        other => panic!("unexpected {other:?}"),
    }
}

#[test]
fn normalize_legacy_version_strips_prefix_and_whitespace() {
    assert_eq!(normalize_legacy_version(" 2.11 "), "2.11");
    assert_eq!(normalize_legacy_version("v2.205"), "2.205");
}

#[test]
fn resolve_current_source_dir_maps_root_icons_and_mods() {
    let layout = test_layout("/cache", "/gd");
    let none = PathFacts::empty();
    let p = Platform::Linux;
    assert_eq!(resolve_current_source_dir(&layout, "", &none, p), "/gd/Resources");
    assert_eq!(resolve_current_source_dir(&layout, "icons", &none, p), "/gd/Resources/icons");
    assert_eq!(
        resolve_current_source_dir(&layout, "icons/extra", &none, p),
        "/gd/Resources/icons/extra"
    );
    assert_eq!(
        resolve_current_source_dir(&layout, "geode.loader", &none, p),
        "/gd/geode/resources/geode.loader"
    );
    assert_eq!(
        resolve_current_source_dir(&layout, "geode.loader/sub", &none, p),
        "/gd/geode/resources/geode.loader/sub"
    );
    assert_eq!(
        resolve_current_source_dir(&layout, "my.mod/sub", &none, p),
        "/gd/geode/unzipped/my.mod/resources/my.mod/sub"
    );
}

#[test]
fn android_pack_root_maps_to_geode_loader_when_present() {
    let layout = test_layout("/cache", "/gd");
    let facts = tree(&["/gd/geode/resources/geode.loader"], &[]);
    assert_eq!(
        resolve_current_source_dir(&layout, "", &facts, Platform::Android),
        "/gd/geode/resources/geode.loader"
    );
    assert_eq!(
        resolve_current_source_dir(&layout, "", &facts, Platform::Linux),
        "/gd/Resources"
    );
}

#[test]
fn split_output_dir_matches_splitter_layout() {
    let layout = test_layout("/game-files", "/gd");
    let pair = SheetCandidate {
        stem: "BlankSheet-uhd".to_string(),
        relative_dir: String::new(),
        plist_path: "/gd/Resources/BlankSheet-uhd.plist".to_string(),
        png_path: "/gd/Resources/BlankSheet-uhd.png".to_string(),
    };
    assert_eq!(split_output_dir_for(&layout, &pair), "/game-files/split-cache/BlankSheet-uhd");
}

#[test]
fn split_output_dir_keeps_relative_folder_but_not_parent_climbs() {
    let layout = test_layout("/game-files", "/gd");
    let nested = SheetCandidate {
        stem: "player_01-uhd".to_string(),
        relative_dir: "icons".to_string(),
        plist_path: "/p/icons/player_01-uhd.plist".to_string(),
        png_path: "/p/icons/player_01-uhd.png".to_string(),
    };
    assert_eq!(
        split_output_dir_for(&layout, &nested),
        "/game-files/split-cache/icons/player_01-uhd"
    );
    let climbing = SheetCandidate { relative_dir: "../x".to_string(), ..nested.clone() };
    assert_eq!(split_output_dir_for(&layout, &climbing), "/game-files/split-cache/player_01-uhd");
    assert_eq!(split_cache_entry_key(&nested), "icons/player_01-uhd");
    assert_eq!(split_cache_hashes_path(&layout), "/game-files/split-cache/hashes.json");
}

#[test]
fn layout_places_cache_under_root_and_textures_under_install() {
    let facts = tree(&["/gd/Resources"], &[]);
    let layout = layout_from_parts(&facts, "/cache".to_string(), "/gd".to_string());
    assert_eq!(layout.resources, "/gd/Resources");
    assert_eq!(layout.geode_resources, "/gd/geode/resources");
    assert_eq!(layout.geode_unzipped, "/gd/geode/unzipped");
    assert_eq!(layout.current_split, "/cache/split-cache");
    assert_eq!(layout.legacy, "/cache/legacy");
    let unresolved = build_game_files_layout(&PathFacts::empty(), "/cache".to_string(), None);
    assert_eq!(unresolved.geometry_dash_dir, "/cache/_unresolved_geometry_dash");
    assert_eq!(layout.legacy_gamesheets_dir(" v2.11 "), "/cache/legacy/2.11");
}

#[test]
fn game_files_state_reads_back_the_replaced_layout() {
    let mut state = GameFilesState::new(test_layout("/a", "/gd"));
    assert_eq!(state.snapshot().root, "/a");
    state.replace(test_layout("/b", "/gd2"));
    let snap = state.snapshot();
    assert_eq!(snap.root, "/b");
    assert_eq!(snap.geometry_dash_dir, "/gd2");
    assert_eq!(state.with_layout(|l| l.current_split.clone()), "/b/split-cache");
}

#[test]
fn forward_slashes_replace_backslashes() {
    assert_eq!(to_forward_slashes(r"icons\extra\a"), "icons/extra/a");
}

#[test]
fn parse_steam_library_paths_reads_path_entries() {
    let vdf = r#"
"libraryfolders"
{
	"0"
	{
		"path"		"C:\\Program Files (x86)\\Steam"
	}
	"1"
	{
		"path"		"D:\\SteamLibrary"
	}
	"2"
	{
		"Path" "E:\\Games\\SteamLibrary"
	}
}
"#;
    let paths = parse_steam_library_paths(vdf);
    let as_text: Vec<String> = paths.iter().map(|p| p.replace('\\', "/")).collect();
    assert!(
        as_text.iter().any(|p| p.ends_with("/Steam") || p.ends_with("Steam")),
        "expected a Steam root, got {as_text:?}"
    );
    assert!(
        as_text
            .iter()
            .any(|p| p.ends_with("/SteamLibrary") || p.ends_with("SteamLibrary")),
        "expected a SteamLibrary root, got {as_text:?}"
    );
    assert!(as_text.iter().any(|p| p.contains("E:") && p.contains("SteamLibrary")));
}

#[test]
fn steam_library_paths_are_unescaped_in_order() {
    let vdf = "\"path\"\t\t\"C:\\\\Program Files (x86)\\\\Steam\"\n\"label\" \"x\"\n\"path\" \"/home/u/.steam\"\n";
    assert_eq!(
        parse_steam_library_paths(vdf),
        vec![r"C:\Program Files (x86)\Steam".to_string(), "/home/u/.steam".to_string()]
    );
    assert!(parse_steam_library_paths("no entries here").is_empty());
}

#[test]
fn save_dir_ends_with_expected_folder() {
    let inputs = SaveDirInputs {
        local_app_data: None,
        userprofile: None,
        home: Some("/home/player".to_string()),
        android_detected: None,
        android_candidates: Vec::new(),
    };
    let dir = resolve_geometry_dash_save_dir(Platform::Linux, inputs).expect("save dir");
    assert_eq!(dir.rsplit('/').next(), Some("GeometryDash"));
    assert_eq!(dir, "/home/player/.local/share/GeometryDash");
}

#[test]
fn windows_save_dir_needs_local_app_data() {
    let base = SaveDirInputs {
        local_app_data: None,
        userprofile: None,
        home: None,
        android_detected: None,
        android_candidates: Vec::new(),
    };
    assert_eq!(
        resolve_geometry_dash_save_dir(Platform::Windows, base),
        Err(AppError::IoError("LOCALAPPDATA is not set.".to_string()))
    );
    let empty = SaveDirInputs {
        local_app_data: Some("  ".to_string()),
        userprofile: None,
        home: None,
        android_detected: None,
        android_candidates: Vec::new(),
    };
    assert_eq!(
        resolve_geometry_dash_save_dir(Platform::Windows, empty),
        Err(AppError::IoError("LOCALAPPDATA is empty.".to_string()))
    );
    let set = SaveDirInputs {
        local_app_data: Some("/appdata/local".to_string()),
        userprofile: None,
        home: None,
        android_detected: None,
        android_candidates: Vec::new(),
    };
    assert_eq!(
        resolve_geometry_dash_save_dir(Platform::Windows, set),
        Ok("/appdata/local/GeometryDash".to_string())
    );
}

#[test]
fn mac_save_dir_without_home_fails() {
    let none = SaveDirInputs {
        local_app_data: None,
        userprofile: None,
        home: None,
        android_detected: None,
        android_candidates: Vec::new(),
    };
    assert_eq!(
        resolve_geometry_dash_save_dir(Platform::MacOs, none),
        Err(AppError::IoError("HOME is not set.".to_string()))
    );
    assert_eq!(home_dir(Some(" ".to_string()), Some("/h".to_string())), Some("/h".to_string()));
}

#[test]
fn android_save_dir_prefers_detected_then_first_candidate() {
    let detected = SaveDirInputs {
        local_app_data: None,
        userprofile: None,
        home: None,
        android_detected: Some("/sdcard/Android/media/com.geode.launcher/save".to_string()),
        android_candidates: vec!["/x/save".to_string()],
    };
    assert_eq!(
        resolve_geometry_dash_save_dir(Platform::Android, detected),
        Ok("/sdcard/Android/media/com.geode.launcher/save".to_string())
    );
    let fallback = SaveDirInputs {
        local_app_data: None,
        userprofile: None,
        home: None,
        android_detected: None,
        android_candidates: vec!["/x/save".to_string()],
    };
    assert_eq!(resolve_geometry_dash_save_dir(Platform::Android, fallback), Ok("/x/save".to_string()));
}

#[test]
fn saved_json_path_ends_with_expected_suffix() {
    let path = texture_loader_saved_json_path("/home/player/.local/share/GeometryDash");
    assert!(path.ends_with("geode/mods/geode.texture-loader/saved.json"));
    assert_eq!(
        texture_loader_mod_save_dir("/s"),
        "/s/geode/mods/geode.texture-loader".to_string()
    );
}

#[test]
fn android_save_candidates_include_launcher_save_path() {
    let roots = android_geode_internal_storage_roots(None);
    let candidates = android_geode_save_dir_candidates(&roots);
    assert!(candidates
        .iter()
        .any(|text| text.contains("com.geode.launcher") && text.ends_with("save")));
    assert!(candidates
        .iter()
        .any(|text| text.contains("/Android/media/com.geode.launcher/save")));
}

#[test]
fn storage_roots_start_with_external_storage_without_repeats() {
    let roots = android_geode_internal_storage_roots(Some(" /sdcard ".to_string()));
    assert_eq!(roots, vec!["/sdcard".to_string(), "/storage/emulated/0".to_string()]);
    let mut list = vec!["a".to_string()];
    push_unique(&mut list, "a".to_string());
    push_unique(&mut list, String::new());
    push_unique(&mut list, "b".to_string());
    assert_eq!(list, vec!["a".to_string(), "b".to_string()]);
}

#[test]
fn android_detection_needs_readable_game_folder() {
    let roots = vec!["/sdcard".to_string()];
    let geode_candidates = android_geode_media_candidates(&roots);
    assert_eq!(geode_candidates[0], "/sdcard/Android/media/com.geode.launcher/game/geode");
    let mut facts = tree(&["/sdcard/Android/media/com.geode.launcher/game/geode"], &[]);
    assert_eq!(detect_android_geometry_dash_dir(&facts, &geode_candidates), None);
    facts
        .readable_game_dirs
        .push("/sdcard/Android/media/com.geode.launcher/game".to_string());
    assert_eq!(
        detect_android_geometry_dash_dir(&facts, &geode_candidates),
        Some("/sdcard/Android/media/com.geode.launcher/game".to_string())
    );
}

#[test]
fn the_texture_loader_folder_follows_the_save_folder_or_its_error() {
    let linux = SaveDirInputs {
        local_app_data: None,
        userprofile: None,
        home: Some("/home/player".to_string()),
        android_detected: None,
        android_candidates: Vec::new(),
    };
    assert_eq!(
        texture_manager::geode_user_data::texture_loader_mod_save_dir_for(Platform::Linux, linux),
        Ok("/home/player/.local/share/GeometryDash/geode/mods/geode.texture-loader".to_string())
    );
    let none = SaveDirInputs {
        local_app_data: None,
        userprofile: None,
        home: None,
        android_detected: None,
        android_candidates: Vec::new(),
    };
    assert_eq!(
        texture_manager::geode_user_data::texture_loader_mod_save_dir_for(Platform::Windows, none),
        Err(AppError::IoError("LOCALAPPDATA is not set.".to_string()))
    );
}

#[test]
fn layout_without_an_install_is_not_found() {
    let facts = tree(
        &["/cache/_unresolved_geometry_dash/Resources", "/cache/_unresolved_geometry_dash/geode/config"],
        &["/cache/_unresolved_geometry_dash/Resources/GJ_GameSheet-uhd.png"],
    );
    let layout = build_game_files_layout(&facts, "/cache".to_string(), None);
    assert!(!layout.geometry_dash_found(&facts));
}
