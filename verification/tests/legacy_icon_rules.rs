use texture_manager::contracts::UpscalerTargetGraphics;
use texture_manager::discovery::SheetCandidate;
use texture_manager::plist_tree::PlistNode;
use texture_manager::sheet_edits::take_gamesheet04_menu_buttons;
use texture_manager::legacy_icons::{
    find_legacy_glow_sheet_pair, frame_belongs_to_extracted_icon, frames_contain_legacy_icon_frames,
    glow_frame_names_for_icon, group_frame_names_by_icon_id, group_icon_output_frames,
    icon_sheet_id_from_frame_name, is_convert_from_2_0, is_excluded_legacy_icon_id,
    is_fireboost_frame_name, is_gamesheet04_moved_frame, is_gamesheet04_stem, is_glow_frame_name,
    is_icon_sprite, is_known_legacy_icon_kind, is_legacy_combined_icon_sheet,
    is_legacy_icon_glow_sheet, is_legacy_icon_split_version, missing_frame_keys,
    pack_quality_suffix, pack_uses_legacy_combined_icons, sheet_is_under_icons,
    sheet_may_hold_legacy_icons, sheet_relative_path, should_remove_from_legacy_gamesheet02,
    should_remove_from_legacy_glow_sheet, target_graphics_quality_suffix,
};

fn names(list: &[&str]) -> Vec<String> {
    list.iter().map(|s| s.to_string()).collect()
}

fn pair(relative_dir: &str, stem: &str) -> SheetCandidate {
    SheetCandidate {
        relative_dir: relative_dir.to_string(),
        stem: stem.to_string(),
        plist_path: format!("/pack/{stem}.plist"),
        png_path: format!("/pack/{stem}.png"),
    }
}

#[test]
fn missing_frame_keys_returns_sorted_latest_minus_input() {
    let latest = names(&["z.png", "a.png", "m.png"]);
    let input = names(&["m.png"]);
    let result = missing_frame_keys(&latest, &input);
    assert_eq!(result, vec!["a.png".to_string(), "z.png".to_string()]);
}

#[test]
fn sheet_is_under_icons_matches_nested_icons_path() {
    assert!(sheet_is_under_icons("icons"));
    assert!(sheet_is_under_icons("mods/icons/shared"));
    assert!(!sheet_is_under_icons("mods/ui"));
}

#[test]
fn is_legacy_icon_split_version_matches_2_0_and_2_11() {
    assert!(is_legacy_icon_split_version("2.0"));
    assert!(is_legacy_icon_split_version(" 2.0 "));
    assert!(is_legacy_icon_split_version("v2.0"));
    assert!(is_legacy_icon_split_version("2.11"));
    assert!(is_legacy_icon_split_version(" 2.11 "));
    assert!(is_legacy_icon_split_version("v2.11"));
    assert!(!is_legacy_icon_split_version("2.2"));
    assert!(!is_legacy_icon_split_version("2.205"));
    assert!(!is_legacy_icon_split_version(""));
}

#[test]
fn known_legacy_icon_kinds_are_the_gd_icon_families() {
    assert!(is_known_legacy_icon_kind("player"));
    assert!(is_known_legacy_icon_kind("ship"));
    assert!(is_known_legacy_icon_kind("robot"));
    assert!(!is_known_legacy_icon_kind("portal"));
    assert!(!is_known_legacy_icon_kind("block"));
    assert!(!is_known_legacy_icon_kind("square"));
}

#[test]
fn sheet_may_hold_legacy_icons_matches_gs02_and_glow() {
    assert!(sheet_may_hold_legacy_icons("GJ_GameSheet02-uhd"));
    assert!(sheet_may_hold_legacy_icons("GJ_GameSheetGlow-hd"));
    assert!(!sheet_may_hold_legacy_icons("GJ_GameSheet03-uhd"));
    assert!(!sheet_may_hold_legacy_icons("player_01-uhd"));
}

#[test]
fn plist_contains_legacy_icon_frames_detects_old_gs02_layout() {
    let with_icons = names(&["player_02_001.png", "portal_01_front_001.png"]);
    let objects_only = names(&["portal_01_front_001.png", "edit_eAlphaBtn_001.png"]);
    assert!(frames_contain_legacy_icon_frames(&with_icons));
    assert!(!frames_contain_legacy_icon_frames(&objects_only));
}

#[test]
fn pack_uses_legacy_combined_icons_ignores_modern_gs02() {
    let pair = SheetCandidate {
        relative_dir: String::new(),
        stem: "GJ_GameSheet03-uhd".to_string(),
        plist_path: "missing.plist".to_string(),
        png_path: "missing.png".to_string(),
    };
    assert!(!pack_uses_legacy_combined_icons(&vec![pair], &vec![None]));
}

#[test]
fn pack_uses_legacy_combined_icons_when_gs02_holds_icon_frames() {
    let pairs = vec![pair("", "GJ_GameSheet03-uhd"), pair("", "GJ_GameSheet02-uhd")];
    let lists = vec![
        Some(names(&["player_02_001.png"])),
        Some(names(&["player_02_001.png", "portal_01_front_001.png"])),
    ];
    assert!(pack_uses_legacy_combined_icons(&pairs, &lists));
    let unreadable = vec![Some(names(&["player_02_001.png"])), None];
    assert!(!pack_uses_legacy_combined_icons(&pairs, &unreadable));
}

#[test]
fn glow_frame_names_prefer_glow_sheet_then_gamesheet02() {
    let sheet02 = names(&["player_02_001.png", "player_02_glow_001.png", "player_03_glow_001.png"]);
    let glow_sheet = names(&["player_02_glow_001.png"]);

    assert_eq!(
        glow_frame_names_for_icon(&glow_sheet, "player_02"),
        vec!["player_02_glow_001.png".to_string()]
    );
    assert!(glow_frame_names_for_icon(&glow_sheet, "player_03").is_empty());
    assert_eq!(
        glow_frame_names_for_icon(&sheet02, "player_03"),
        vec!["player_03_glow_001.png".to_string()]
    );
    assert_eq!(
        glow_frame_names_for_icon(&sheet02, "player_02"),
        vec!["player_02_glow_001.png".to_string()]
    );
}

#[test]
fn is_legacy_combined_icon_sheet_matches_gj_gamesheet02_variants() {
    assert_eq!(is_legacy_combined_icon_sheet("GJ_GameSheet02-uhd"), Some("-uhd".to_string()));
    assert_eq!(is_legacy_combined_icon_sheet("GJ_GameSheet02-hd"), Some("-hd".to_string()));
    assert_eq!(is_legacy_combined_icon_sheet("GJ_GameSheet02"), Some(String::new()));
    assert_eq!(is_legacy_combined_icon_sheet("GJ_GameSheet03-uhd"), None);
}

#[test]
fn icon_sheet_id_from_frame_name_handles_standard_and_multipart_frames() {
    assert_eq!(icon_sheet_id_from_frame_name("player_02_001.png"), Some("player_02".to_string()));
    assert_eq!(icon_sheet_id_from_frame_name("player_02_2_001.png"), Some("player_02".to_string()));
    assert_eq!(icon_sheet_id_from_frame_name("bird_01_glow_001.png"), Some("bird_01".to_string()));
    assert_eq!(
        icon_sheet_id_from_frame_name("player_100_extra_001.png"),
        Some("player_100".to_string())
    );
    assert_eq!(
        icon_sheet_id_from_frame_name("robot_01_03_glow_001.png"),
        Some("robot_01".to_string())
    );
    assert_eq!(
        icon_sheet_id_from_frame_name("spider_02_01_2_001.png"),
        Some("spider_02".to_string())
    );
    assert_eq!(
        icon_sheet_id_from_frame_name("player_ball_00_001.png"),
        Some("player_ball_00".to_string())
    );
    assert_eq!(
        icon_sheet_id_from_frame_name("player_ball_00_2_001.png"),
        Some("player_ball_00".to_string())
    );
    assert_eq!(icon_sheet_id_from_frame_name("edit_eAlphaBtn_001.png"), None);
    assert_eq!(icon_sheet_id_from_frame_name("secretCoin_01_001.png"), None);
    assert_eq!(icon_sheet_id_from_frame_name("secretCoin_2_01_001.png"), None);
    assert_eq!(icon_sheet_id_from_frame_name("not_an_icon.png"), None);
    assert_eq!(icon_sheet_id_from_frame_name("square_01_001.png"), None);
    assert_eq!(icon_sheet_id_from_frame_name("block_01_001.png"), None);
}

#[test]
fn is_icon_sprite_uses_folder_or_frame_identity_not_sheet_filename() {
    assert!(is_icon_sprite("icons", "anything.png"));
    assert!(is_icon_sprite("pack/icons/extra", "weird.png"));
    assert!(is_icon_sprite("", "player_02_001.png"));
    assert!(is_icon_sprite("", "bird_01_glow_001.png"));
    assert!(is_icon_sprite("", "robot_01_03_001.png"));
    assert!(!is_icon_sprite("", "edit_eAlphaBtn_001.png"));
    assert!(!is_icon_sprite("", "secretCoin_01_001.png"));
    assert!(!is_icon_sprite("", "portal_01_front_001.png"));
    assert!(!is_icon_sprite("", "boost_01_001.png"));
    assert!(!is_icon_sprite("", "GJ_GameSheet02-uhd.png"));
    assert!(!is_icon_sprite("", "square_01_001.png"));
    assert!(is_icon_sprite("", "ship_03_001.png"));
}

#[test]
fn group_frame_names_by_icon_id_buckets_frames_per_icon() {
    let frames = names(&[
        "player_02_001.png",
        "player_02_2_001.png",
        "player_03_001.png",
        "robot_01_01_001.png",
        "robot_01_02_glow_001.png",
    ]);
    let groups = group_frame_names_by_icon_id(frames);
    assert_eq!(groups.len(), 3);
    assert_eq!(groups.get("player_02").map(Vec::len), Some(2));
    assert_eq!(groups.get("player_03").map(Vec::len), Some(1));
    assert_eq!(groups.get("robot_01").map(Vec::len), Some(2));
}

#[test]
fn group_icon_output_frames_excludes_moved_sprite_types_glow_and_fireboost() {
    let frames = names(&[
        "player_02_001.png",
        "player_02_glow_001.png",
        "boost_01_001.png",
        "portal_01_back_001.png",
        "checkpoint_01_001.png",
        "floorLine_01_001.png",
        "fireBoost_001.png",
    ]);
    let groups = group_icon_output_frames(frames);
    assert_eq!(groups.len(), 1);
    assert_eq!(groups.get("player_02").map(Vec::len), Some(1));
    assert!(!groups.contains_key("boost_01"));
    assert!(!groups.contains_key("portal_01"));
    assert!(!groups.contains_key("checkpoint_01"));
    assert!(!groups.contains_key("floorLine_01"));
    assert!(is_excluded_legacy_icon_id("boost_01"));
    assert!(is_excluded_legacy_icon_id("portal_07"));
    assert!(is_excluded_legacy_icon_id("floorLine_01"));
    assert!(is_glow_frame_name("bird_01_glow_001.png"));
    assert!(is_fireboost_frame_name("fireBoost_001.png"));
}

#[test]
fn is_legacy_icon_glow_sheet_matches_gj_gamesheetglow_variants() {
    assert_eq!(is_legacy_icon_glow_sheet("GJ_GameSheetGlow-uhd"), Some("-uhd".to_string()));
    assert_eq!(is_legacy_icon_glow_sheet("GJ_GameSheetGlow-hd"), Some("-hd".to_string()));
    assert_eq!(is_legacy_icon_glow_sheet("GJ_GameSheet02-uhd"), None);
}

#[test]
fn strip_predicates_remove_extracted_icons_from_gamesheet_and_glow() {
    let extracted = names(&["player_02", "bird_01"]);
    let exported: Vec<String> = Vec::new();
    assert!(should_remove_from_legacy_gamesheet02("player_02_001.png", &extracted, &exported));
    assert!(should_remove_from_legacy_gamesheet02("player_02_glow_001.png", &extracted, &exported));
    assert!(should_remove_from_legacy_gamesheet02("fireBoost_001.png", &extracted, &exported));
    assert!(should_remove_from_legacy_gamesheet02(
        "edit_eAlphaBtn_001.png",
        &extracted,
        &names(&["edit_eAlphaBtn_001.png"])
    ));
    assert!(!should_remove_from_legacy_gamesheet02("portal_01_back_001.png", &extracted, &exported));
    assert!(!should_remove_from_legacy_gamesheet02("player_03_001.png", &extracted, &exported));
    assert!(should_remove_from_legacy_gamesheet02("GJ_featuredBtn_001.png", &extracted, &exported));

    assert!(should_remove_from_legacy_glow_sheet("bird_01_glow_001.png", &extracted));
    assert!(!should_remove_from_legacy_glow_sheet("player_03_glow_001.png", &extracted));
    assert!(frame_belongs_to_extracted_icon("robot_01_02_glow_001.png", &names(&["robot_01"])));
}

#[test]
fn gamesheet04_moved_frames_are_recognized_and_taken_from_sheet() {
    assert!(is_gamesheet04_moved_frame("GJ_featuredBtn_001.png"));
    assert!(is_gamesheet04_moved_frame("GJ_searchBtn_001.png"));
    assert!(is_gamesheet04_moved_frame("GJ_highscoreBtn_001.png"));
    assert!(is_gamesheet04_moved_frame("GJ_mapPacksBtn_001.png"));
    assert!(is_gamesheet04_moved_frame("gj_createbtn_001.png"));
    assert!(is_gamesheet04_moved_frame("GJ_savedBtn_001.png"));
    assert!(!is_gamesheet04_moved_frame("GJ_playBtn_001.png"));
    assert!(is_gamesheet04_stem("GJ_GameSheet04-uhd"));
    assert!(is_gamesheet04_stem("GJ_GameSheet04"));
    assert!(!is_gamesheet04_stem("GJ_GameSheet-uhd"));
    assert!(is_convert_from_2_0("2.0"));
    assert!(!is_convert_from_2_0("2.1"));

    let frames = PlistNode::Dict(vec![
        ("GJ_featuredBtn_001.png".to_string(), PlistNode::Dict(vec![])),
        ("keep_me_001.png".to_string(), PlistNode::Dict(vec![])),
    ]);
    let root = PlistNode::Dict(vec![("frames".to_string(), frames)]);
    let sprites = names(&["GJ_featuredBtn_001.png", "keep_me_001.png"]);
    let (sheet, taken, kept) = take_gamesheet04_menu_buttons(root, &sprites);
    assert_eq!(taken.len(), 1);
    assert_eq!(taken[0].0, "GJ_featuredBtn_001.png");
    assert!(!kept.contains(&"GJ_featuredBtn_001.png".to_string()));
    assert!(kept.contains(&"keep_me_001.png".to_string()));
    let left = PlistNode::Dict(vec![(
        "frames".to_string(),
        PlistNode::Dict(vec![("keep_me_001.png".to_string(), PlistNode::Dict(vec![]))]),
    )]);
    assert_eq!(sheet, left);
}

#[test]
fn pack_quality_prefers_uhd_then_hd() {
    assert_eq!(pack_quality_suffix(&vec![pair("", "a-hd"), pair("", "b-UHD")]), "-uhd");
    assert_eq!(pack_quality_suffix(&vec![pair("", "a-hd")]), "-hd");
    assert_eq!(pack_quality_suffix(&vec![pair("", "a")]), "");
    assert_eq!(target_graphics_quality_suffix(UpscalerTargetGraphics::Uhd), "-uhd");
}

#[test]
fn legacy_glow_sheet_is_found_beside_gamesheet02() {
    let pairs = vec![
        pair("", "GJ_GameSheet02-uhd"),
        pair("", "GJ_GameSheetGlow-uhd"),
        pair("", "GJ_GameSheetGlow-hd"),
    ];
    assert_eq!(find_legacy_glow_sheet_pair(&pairs, "", "-uhd"), Some(1));
    assert_eq!(find_legacy_glow_sheet_pair(&pairs, "", "-hd"), Some(2));
    assert_eq!(find_legacy_glow_sheet_pair(&pairs, "mods", "-uhd"), None);
    assert_eq!(sheet_relative_path(&pair("icons", "player_01-uhd")), "icons/player_01-uhd");
    assert_eq!(sheet_relative_path(&pair("", "x")), "x");
}

#[test]
fn icon_group_ids_come_out_in_ascending_order() {
    let frames = vec![
        "robot_01_001.png".to_string(),
        "player_02_001.png".to_string(),
        "robot_01_2_001.png".to_string(),
        "bird_03_001.png".to_string(),
    ];
    let groups = group_frame_names_by_icon_id(frames);
    assert_eq!(groups.len(), 3);
    assert_eq!(
        groups.ids(),
        vec!["bird_03".to_string(), "player_02".to_string(), "robot_01".to_string()]
    );
}
