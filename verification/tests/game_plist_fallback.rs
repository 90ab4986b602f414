use texture_manager::facts::PathFacts;
use texture_manager::fallback_pairs::{
    discover_sheet_pairs_with_game_plist_fallback, discover_sheet_pairs_with_game_plist_fallback_in,
};
use texture_manager::game_files::Platform;
use texture_manager::layout::GameFilesLayout;

fn strings(list: &[&str]) -> Vec<String> {
    list.iter().map(|s| s.to_string()).collect()
}

fn test_layout(root: &str, gd: &str) -> GameFilesLayout {
    GameFilesLayout {
        root: root.to_string(),
        geometry_dash_dir: gd.to_string(),
        resources: format!("{gd}/Resources"),
        geode_resources: format!("{gd}/geode/resources"),
        geode_unzipped: format!("{gd}/geode/unzipped"),
        current_split: format!("{root}/split-cache"),
        legacy: format!("{root}/legacy"),
    }
}

const GD: &str = "/r/Geometry Dash";

fn gd_facts(extra_files: &[&str]) -> PathFacts {
    let mut files = strings(&["/r/Geometry Dash/GeometryDash.exe"]);
    files.extend(strings(extra_files));
    PathFacts {
        dirs: strings(&["/r/Geometry Dash", "/r/Geometry Dash/Resources", "/r/Geometry Dash/Resources/icons", "/r/pack", "/r/pack/icons"]),
        files,
        readable_game_dirs: Vec::new(),
    }
}

#[test]
fn discover_sheet_pairs_with_game_plist_fallback_promotes_unpaired_png() {
    let layout = test_layout("/r", GD);
    let facts = gd_facts(&[
        "/r/Geometry Dash/Resources/GJ_GameSheet-uhd.plist",
        "/r/Geometry Dash/Resources/GJ_GameSheet-uhd.png",
        "/r/pack/GJ_GameSheet-uhd.png",
    ]);
    assert!(layout.geometry_dash_found(&facts));
    let files = strings(&["/r/pack/GJ_GameSheet-uhd.png"]);
    let pairs = discover_sheet_pairs_with_game_plist_fallback(&layout, &facts, Platform::Windows, "/r/pack", &files, &Vec::new())
        .expect("discover");
    assert_eq!(pairs.len(), 1);
    assert_eq!(pairs[0].stem, "GJ_GameSheet-uhd");
    assert_eq!(pairs[0].png_path, "/r/pack/GJ_GameSheet-uhd.png");
    assert_eq!(pairs[0].plist_path, "/r/Geometry Dash/Resources/GJ_GameSheet-uhd.plist");
}

#[test]
fn discover_sheet_pairs_with_game_plist_fallback_keeps_local_plist() {
    let layout = test_layout("/r", GD);
    let facts = gd_facts(&[
        "/r/Geometry Dash/Resources/GJ_GameSheet-uhd.plist",
        "/r/pack/GJ_GameSheet-uhd.plist",
        "/r/pack/GJ_GameSheet-uhd.png",
    ]);
    let files = strings(&["/r/pack/GJ_GameSheet-uhd.plist", "/r/pack/GJ_GameSheet-uhd.png"]);
    let pairs = discover_sheet_pairs_with_game_plist_fallback(&layout, &facts, Platform::Windows, "/r/pack", &files, &Vec::new())
        .expect("discover");
    assert_eq!(pairs.len(), 1);
    assert_eq!(pairs[0].plist_path, "/r/pack/GJ_GameSheet-uhd.plist");
    assert_eq!(pairs[0].png_path, "/r/pack/GJ_GameSheet-uhd.png");
}

#[test]
fn discover_sheet_pairs_with_game_plist_fallback_skips_when_no_vanilla_plist() {
    let layout = test_layout("/r", GD);
    let facts = gd_facts(&["/r/pack/edit_eAlphaBtn_001.png"]);
    let files = strings(&["/r/pack/edit_eAlphaBtn_001.png"]);
    let pairs = discover_sheet_pairs_with_game_plist_fallback(&layout, &facts, Platform::Windows, "/r/pack", &files, &Vec::new())
        .expect("discover");
    assert!(pairs.is_empty());
}

#[test]
fn discover_sheet_pairs_with_game_plist_fallback_skips_when_gd_missing() {
    let layout = test_layout("/r", "/r/_unresolved_geometry_dash");
    let facts = PathFacts {
        dirs: strings(&["/r/_unresolved_geometry_dash/Resources", "/r/pack"]),
        files: strings(&["/r/_unresolved_geometry_dash/Resources/GJ_GameSheet-uhd.plist", "/r/pack/GJ_GameSheet-uhd.png"]),
        readable_game_dirs: Vec::new(),
    };
    assert!(!layout.geometry_dash_found(&facts));
    let files = strings(&["/r/pack/GJ_GameSheet-uhd.png"]);
    let pairs = discover_sheet_pairs_with_game_plist_fallback(&layout, &facts, Platform::Windows, "/r/pack", &files, &Vec::new())
        .expect("discover");
    assert!(pairs.is_empty());
}

#[test]
fn discover_sheet_pairs_with_game_plist_fallback_in_uses_icons_prefix() {
    let layout = test_layout("/r", GD);
    let facts = gd_facts(&[
        "/r/Geometry Dash/Resources/icons/player_01-uhd.plist",
        "/r/Geometry Dash/Resources/icons/player_01-uhd.png",
        "/r/pack/icons/player_01-uhd.png",
    ]);
    let files = strings(&["/r/pack/icons/player_01-uhd.png"]);
    let pairs = discover_sheet_pairs_with_game_plist_fallback_in(
        &layout, &facts, Platform::Windows, "/r/pack/icons", &files, "icons", &Vec::new(),
    )
    .expect("discover");
    assert_eq!(pairs.len(), 1);
    assert_eq!(pairs[0].stem, "player_01-uhd");
    assert_eq!(pairs[0].png_path, "/r/pack/icons/player_01-uhd.png");
    assert_eq!(pairs[0].plist_path, "/r/Geometry Dash/Resources/icons/player_01-uhd.plist");
}

#[test]
fn a_geode_loader_tree_that_can_be_read_counts_as_the_game() {
    let gd = "/g/gd2";
    let layout = test_layout("/g/root2", gd);
    let facts = PathFacts {
        dirs: strings(&[
            "/g/gd2",
            "/g/gd2/Resources",
            "/g/gd2/geode",
            "/g/gd2/geode/resources",
            "/g/gd2/geode/resources/geode.loader",
        ]),
        files: strings(&[
            "/g/gd2/geode/resources/geode.loader/BlankSheet-uhd.plist",
            "/g/gd2/geode/resources/geode.loader/BlankSheet-uhd.png",
        ]),
        readable_game_dirs: strings(&["/g/gd2"]),
    };
    assert!(layout.geometry_dash_found(&facts));
    let unreadable = PathFacts { readable_game_dirs: Vec::new(), ..facts };
    assert!(!layout.geometry_dash_found(&unreadable));
}

#[test]
fn the_unresolved_placeholder_never_counts_as_the_game() {
    let gd = "/g/_unresolved_geometry_dash";
    let layout = test_layout("/g", gd);
    let facts = PathFacts {
        dirs: strings(&[
            "/g/_unresolved_geometry_dash",
            "/g/_unresolved_geometry_dash/geode",
            "/g/_unresolved_geometry_dash/geode/resources",
        ]),
        files: Vec::new(),
        readable_game_dirs: strings(&["/g/_unresolved_geometry_dash"]),
    };
    assert!(!layout.geometry_dash_found(&facts));
}
