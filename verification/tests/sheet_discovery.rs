use texture_manager::discovery::{
    discover_merge_source_dirs, discover_sheet_pairs, discover_standalone_fnts,
    discover_standalone_pngs, path_is_under_reserved_output_subtree, porter_stem_eligible,
    reserved_output_dir_name, SheetCandidate,
};
use texture_manager::errors::AppError;
use texture_manager::facts::PathFacts;
use texture_manager::game_files::Platform;
use texture_manager::layout::GameFilesLayout;
use texture_manager::sheet_lookup::{
    build_plist_index_under, current_sheet_query_for_plist, find_current_sheet_for_input,
    find_current_sheet_for_plist, is_safe_path_segment, recursive_find_file_named,
    resolve_png_beside_plist, sheet_uses_external_plist, split_cache_is_valid,
    SplitCacheHashEntry,
};

fn strings(list: &[&str]) -> Vec<String> {
    list.iter().map(|s| s.to_string()).collect()
}

fn facts(dirs: &[&str], files: &[&str]) -> PathFacts {
    PathFacts { dirs: strings(dirs), files: strings(files), readable_game_dirs: Vec::new() }
}

fn test_layout(root: &str, gd: &str) -> GameFilesLayout {
    GameFilesLayout {
        root: root.to_string(),
        geometry_dash_dir: gd.to_string(),
        resources: format!("{gd}/Resources"),
        geode_resources: format!("{gd}/geode/resources"),
        geode_unzipped: format!("{gd}/geode/unzipped"),
        current_split: format!("{root}/split-cache"),
        legacy: format!("{root}/legacy"),
    }
}

#[test]
fn split_merged_ported_direct_children_are_reserved() {
    let root = "C:/proj/textures";
    assert!(path_is_under_reserved_output_subtree(root, "C:/proj/textures/Split/Icons"));
    assert!(path_is_under_reserved_output_subtree(root, "C:/proj/textures/merged/out"));
    assert!(path_is_under_reserved_output_subtree(root, "C:/proj/textures/PORTED/foo.plist"));
    assert!(path_is_under_reserved_output_subtree(root, "C:/proj/textures/GeneratedGlow/icon.plist"));
    assert!(path_is_under_reserved_output_subtree(
        root,
        "C:/proj/textures/ConvertedToLatestVersion/sheet.plist"
    ));
}

#[test]
fn nested_non_reserved_paths_not_flagged() {
    let root = "C:/proj/textures";
    assert!(!path_is_under_reserved_output_subtree(root, "C:/proj/textures/mods/pack/Icons"));
    assert!(path_is_under_reserved_output_subtree(
        root,
        "C:/proj/textures/icons/GeneratedGlow/player_01.plist"
    ));
}

#[test]
fn paths_outside_the_root_are_not_reserved() {
    assert!(!path_is_under_reserved_output_subtree("/a/b", "/a/c/Split/x"));
    assert!(!path_is_under_reserved_output_subtree("/a/b", "/a/b"));
    assert!(reserved_output_dir_name("generatedglow"));
    assert!(!reserved_output_dir_name("icons"));
}

#[test]
fn sheet_pairs_need_both_files_and_come_sorted_by_stem() {
    let files = strings(&[
        "/pack/icons/player_01-uhd.plist",
        "/pack/icons/player_01-uhd.PNG",
        "/pack/GJ_GameSheet03-uhd.plist",
        "/pack/GJ_GameSheet03-uhd.png",
        "/pack/lonely-uhd.png",
        "/pack/notes.txt",
    ]);
    let pairs = discover_sheet_pairs("/pack", &files).expect("pairs");
    assert_eq!(pairs.len(), 2);
    assert_eq!(pairs[0].stem, "GJ_GameSheet03-uhd");
    assert_eq!(pairs[0].relative_dir, "");
    assert_eq!(pairs[0].plist_path, "/pack/GJ_GameSheet03-uhd.plist");
    assert_eq!(pairs[1].stem, "player_01-uhd");
    assert_eq!(pairs[1].relative_dir, "icons");
    assert_eq!(pairs[1].png_path, "/pack/icons/player_01-uhd.PNG");
}

#[test]
fn sheet_pairs_refuse_files_outside_the_input_folder() {
    let files = strings(&["/elsewhere/a.plist"]);
    assert_eq!(
        discover_sheet_pairs("/pack", &files),
        Err(AppError::InvalidOperation("failed to compute relative file path"))
    );
    assert_eq!(discover_sheet_pairs("/pack", &Vec::new()), Ok(Vec::new()));
}

#[test]
fn standalone_images_skip_paired_and_ineligible_files() {
    let files = strings(&["/pack/b-uhd.png", "/pack/a-hd.png", "/pack/sheet-uhd.png", "/pack/plain.png"]);
    let f = facts(&[], &["/pack/b-uhd.png", "/pack/a-hd.png", "/pack/sheet-uhd.png", "/pack/plain.png"]);
    let paired = strings(&["/pack/sheet-uhd.png"]);
    let found = discover_standalone_pngs("/pack", &files, &f, &paired);
    assert_eq!(found, strings(&["/pack/a-hd.png", "/pack/b-uhd.png"]));
    assert!(porter_stem_eligible("x-uhd"));
    assert!(!porter_stem_eligible("x"));
}

#[test]
fn standalone_fonts_are_tiered_fnt_files() {
    let files = strings(&["/pack/z-uhd.fnt", "/pack/bigFont-hd.fnt", "/pack/x.fnt", "/pack/y-uhd.png"]);
    assert_eq!(discover_standalone_fnts(&files), strings(&["/pack/bigFont-hd.fnt", "/pack/z-uhd.fnt"]));
}

#[test]
fn merge_sources_are_folders_with_a_direct_plist() {
    let dirs = strings(&["/pack/b", "/pack", "/pack/a", "/pack/a/deep"]);
    let files = strings(&["/pack/a/s.plist", "/pack/b/readme.txt", "/pack/a/deep/x/t.plist"]);
    let f = facts(&["/pack", "/pack/a", "/pack/b", "/pack/a/deep"], &["/pack/a/s.plist", "/pack/b/readme.txt", "/pack/a/deep/x/t.plist"]);
    assert_eq!(discover_merge_source_dirs("/pack", &dirs, &files, &f), strings(&["/pack/a"]));
}

#[test]
fn build_plist_index_under_indexes_nested_stems() {
    let files = strings(&["/root/icons/player_02-uhd.plist", "/root/icons/player_02-uhd.png"]);
    let index = build_plist_index_under(&files);
    assert!(index.iter().any(|(k, v)| k == "player_02-uhd" && v == "/root/icons/player_02-uhd.plist"));
    assert_eq!(index.len(), 1);
}

#[test]
fn find_current_sheet_for_input_reads_resources_and_mod_paths() {
    let gd = "/tmp/steam_resolve/Geometry Dash";
    let layout = test_layout("/tmp/steam_resolve", gd);
    let resources = format!("{gd}/Resources");
    let icons = format!("{resources}/icons");
    let mod_res = format!("{gd}/geode/resources/geode.loader");
    let files = [
        format!("{resources}/BlankSheet-uhd.plist"),
        format!("{resources}/BlankSheet-uhd.png"),
        format!("{icons}/player_02-uhd.plist"),
        format!("{icons}/player_02-uhd.png"),
        format!("{mod_res}/BlankSheet-uhd.plist"),
        format!("{mod_res}/BlankSheet-uhd.png"),
    ];
    let file_refs: Vec<&str> = files.iter().map(|s| s.as_str()).collect();
    let f = facts(&[&resources, &icons, &mod_res], &file_refs);
    let none: Vec<String> = Vec::new();

    let root_sheet = find_current_sheet_for_input(&layout, "", "BlankSheet-uhd", &f, Platform::Linux, &none);
    assert!(root_sheet.unwrap().plist_path.ends_with("BlankSheet-uhd.plist"));

    let icon_sheet = find_current_sheet_for_input(&layout, "icons", "player_02-uhd", &f, Platform::Linux, &none);
    assert!(icon_sheet.unwrap().plist_path.contains("icons"));

    let mod_sheet = find_current_sheet_for_input(&layout, "geode.loader", "BlankSheet-uhd", &f, Platform::Linux, &none);
    assert!(mod_sheet.unwrap().plist_path.contains("geode/resources/geode.loader"));

    let missing = find_current_sheet_for_input(&layout, "", "Nope-uhd", &f, Platform::Linux, &none);
    assert_eq!(missing, None);
}

#[test]
fn live_sheet_falls_back_to_a_nested_file_of_that_name() {
    let layout = test_layout("/c", "/gd");
    let tree = strings(&["/gd/Resources/sub/Deep-uhd.plist"]);
    let f = facts(&["/gd/Resources", "/gd/Resources/sub"], &["/gd/Resources/sub/Deep-uhd.plist", "/gd/Resources/sub/Deep-uhd.png"]);
    let found = find_current_sheet_for_input(&layout, "", "Deep-uhd", &f, Platform::Linux, &tree).expect("found");
    assert_eq!(found.plist_path, "/gd/Resources/sub/Deep-uhd.plist");
    assert_eq!(found.png_path, "/gd/Resources/sub/Deep-uhd.png");
    assert_eq!(recursive_find_file_named(&tree, "deep-UHD.plist"), Some("/gd/Resources/sub/Deep-uhd.plist".to_string()));
    assert_eq!(recursive_find_file_named(&tree, "../x"), None);
}

#[test]
fn live_plist_maps_back_to_its_pack_location() {
    let layout = test_layout("/c", "/gd");
    assert_eq!(
        current_sheet_query_for_plist(&layout, "/gd/Resources/icons/player_02-uhd.plist"),
        Some(("icons".to_string(), "player_02-uhd".to_string()))
    );
    assert_eq!(
        current_sheet_query_for_plist(&layout, "/gd/geode/resources/geode.loader/Sheet.plist"),
        Some(("geode.loader/".to_string(), "Sheet".to_string()))
    );
    assert_eq!(
        current_sheet_query_for_plist(&layout, "/gd/geode/unzipped/my.mod/resources/my.mod/sub/S.plist"),
        Some(("my.mod/sub".to_string(), "S".to_string()))
    );
    let f = facts(&["/gd/Resources/icons"], &["/gd/Resources/icons/player_02-uhd.plist", "/gd/Resources/icons/player_02-uhd.png"]);
    let found = find_current_sheet_for_plist(&layout, "/gd/Resources/icons/player_02-uhd.plist", &f, Platform::Linux, &Vec::new());
    assert_eq!(found.map(|c| c.relative_dir), Some("icons".to_string()));
}

#[test]
fn png_beside_plist_and_safe_segments() {
    assert_eq!(resolve_png_beside_plist("/a/b/Sheet-uhd.plist"), "/a/b/Sheet-uhd.png");
    assert!(is_safe_path_segment("Sheet-uhd"));
    assert!(!is_safe_path_segment(".."));
    assert!(!is_safe_path_segment("a/b"));
    assert!(!is_safe_path_segment(""));
}

#[test]
fn external_plist_is_one_outside_the_input_folder() {
    let pair = SheetCandidate {
        stem: "S".to_string(),
        relative_dir: String::new(),
        plist_path: "/gd/Resources/S.plist".to_string(),
        png_path: "/pack/S.png".to_string(),
    };
    assert!(sheet_uses_external_plist("/pack", None, &pair, None));
    let inside = SheetCandidate { plist_path: "/pack/S.plist".to_string(), ..pair.clone() };
    assert!(!sheet_uses_external_plist("/pack", None, &inside, None));
    assert!(!sheet_uses_external_plist("/link", Some("/pack".to_string()), &inside, None));
}

#[test]
fn split_cache_is_valid_only_with_matching_hashes_and_cached_plist() {
    let pair = SheetCandidate {
        stem: "Tiny".to_string(),
        relative_dir: String::new(),
        plist_path: "/gd/Resources/Tiny.plist".to_string(),
        png_path: "/gd/Resources/Tiny.png".to_string(),
    };
    let current = SplitCacheHashEntry { plist_sha256: "p1".to_string(), png_sha256: "g1".to_string() };
    let entries = vec![("Tiny".to_string(), current.clone())];
    let cached = facts(&[], &["/c/split-cache/Tiny/Tiny.plist"]);
    assert!(split_cache_is_valid(&pair, "/c/split-cache/Tiny", &cached, &current, &entries));
    let changed = SplitCacheHashEntry { plist_sha256: "p2".to_string(), png_sha256: "g1".to_string() };
    assert!(!split_cache_is_valid(&pair, "/c/split-cache/Tiny", &cached, &changed, &entries));
    assert!(!split_cache_is_valid(&pair, "/c/split-cache/Tiny", &PathFacts::empty(), &current, &entries));
}

#[test]
fn output_folders_are_left_out_of_every_discovery() {
    let files = strings(&[
        "/pack/Split/a-uhd.plist",
        "/pack/Split/a-uhd.png",
        "/pack/icons/GeneratedGlow/b-uhd.plist",
        "/pack/icons/GeneratedGlow/b-uhd.png",
        "/pack/merged/c-uhd.png",
        "/pack/d-uhd.plist",
        "/pack/d-uhd.png",
    ]);
    let pairs = discover_sheet_pairs("/pack", &files).expect("pairs");
    assert_eq!(pairs.len(), 1);
    assert_eq!(pairs[0].stem, "d-uhd");
    let f = facts(&[], &["/pack/merged/c-uhd.png", "/pack/e-uhd.png"]);
    let lone = strings(&["/pack/merged/c-uhd.png", "/pack/e-uhd.png"]);
    assert_eq!(discover_standalone_pngs("/pack", &lone, &f, &Vec::new()), strings(&["/pack/e-uhd.png"]));
    let dirs = strings(&["/pack", "/pack/Split", "/pack/Ported/x"]);
    let plists = strings(&["/pack/Split/a.plist", "/pack/Ported/x/b.plist"]);
    let g = facts(&["/pack", "/pack/Split", "/pack/Ported/x"], &["/pack/Split/a.plist", "/pack/Ported/x/b.plist"]);
    assert_eq!(discover_merge_source_dirs("/pack", &dirs, &plists, &g), Vec::<String>::new());
}

#[test]
fn distinct_walks_give_strictly_ascending_results() {
    let files = strings(&["/pack/c-uhd.png", "/pack/a-uhd.png", "/pack/b/d-hd.png"]);
    let f = facts(&[], &["/pack/c-uhd.png", "/pack/a-uhd.png", "/pack/b/d-hd.png"]);
    let found = discover_standalone_pngs("/pack", &files, &f, &Vec::new());
    assert_eq!(found, strings(&["/pack/a-uhd.png", "/pack/b/d-hd.png", "/pack/c-uhd.png"]));
    let dirs = strings(&["/pack/z", "/pack/y"]);
    let plists = strings(&["/pack/z/a.plist", "/pack/y/b.plist"]);
    let g = facts(&["/pack/z", "/pack/y"], &["/pack/z/a.plist", "/pack/y/b.plist"]);
    assert_eq!(discover_merge_source_dirs("/pack", &dirs, &plists, &g), strings(&["/pack/y", "/pack/z"]));
}
