use texture_manager::button_targets::geode_buttons_target_index;
use texture_manager::convert_plan::{
    convert_legacy_icon_split, convert_sheet_decision, convert_sheet_route,
    convert_sheets_to_process, convert_total_units, convert_version_note,
    excluded_legacy_frame_names, gamesheet04_frames_to_move, icon_glow_frame_names,
    legacy_leftover_frame_names, legacy_standalone_frame_names, legacy_ungrouped_frame_issues,
    vanilla_resources_has_standalone_png, ConvertSheetDecision, ConvertSheetRoute,
};
use texture_manager::discovery::SheetCandidate;
use texture_manager::errors::AppError;
use texture_manager::facts::PathFacts;
use texture_manager::game_files::Platform;
use texture_manager::geode_buttons::GeodeButtonsTargetSize;
use texture_manager::icon_editor::{
    copied_metadata_texture_name, frame_keys_to_remove, icon_editor_copy_name_check,
    icon_editor_copy_targets,
};
use texture_manager::layout::GameFilesLayout;
use texture_manager::report::{operation_progress, ReportLevel};
use texture_manager::run_plan::{
    check_operation_input, job_queue_workers, splitter_sheets, vanilla_plist_fallback_issues,
};

fn names(list: &[&str]) -> Vec<String> {
    list.iter().map(|s| s.to_string()).collect()
}

fn pair(relative_dir: &str, stem: &str) -> SheetCandidate {
    SheetCandidate {
        stem: stem.to_string(),
        relative_dir: relative_dir.to_string(),
        plist_path: format!("/pack/{stem}.plist"),
        png_path: format!("/pack/{stem}.png"),
    }
}

fn layout() -> GameFilesLayout {
    GameFilesLayout {
        root: "/cache".to_string(),
        geometry_dash_dir: "/gd".to_string(),
        resources: "/gd/Resources".to_string(),
        geode_resources: "/gd/geode/resources".to_string(),
        geode_unzipped: "/gd/geode/unzipped".to_string(),
        current_split: "/cache/split-cache".to_string(),
        legacy: "/cache/legacy".to_string(),
    }
}

fn size(width: u32, height: u32) -> Option<GeodeButtonsTargetSize> {
    Some(GeodeButtonsTargetSize { width, height })
}

#[test]
fn legacy_split_applies_for_old_versions_or_icon_sheets() {
    let pairs = vec![pair("", "GJ_GameSheet02-uhd")];
    assert!(convert_legacy_icon_split("v2.11", &pairs, &vec![None]));
    assert!(!convert_legacy_icon_split("2.2", &pairs, &vec![None]));
    assert!(convert_legacy_icon_split("2.2", &pairs, &vec![Some(names(&["player_02_001.png"]))]));
}

#[test]
fn convert_skips_icon_folders_and_legacy_glow_sheets() {
    let pairs = vec![
        pair("icons", "player_01-uhd"),
        pair("", "GJ_GameSheetGlow-uhd"),
        pair("", "GJ_GameSheet03-uhd"),
    ];
    let with_split = convert_sheets_to_process(&pairs, true);
    assert_eq!(with_split, vec![pair("", "GJ_GameSheet03-uhd")]);
    let without_split = convert_sheets_to_process(&pairs, false);
    assert_eq!(without_split.len(), 2);
    assert_eq!(without_split[0].stem, "GJ_GameSheetGlow-uhd");
}

#[test]
fn sheet_routes() {
    assert_eq!(convert_sheet_route(&pair("mods/icons", "x"), true), ConvertSheetRoute::IconsFolder);
    assert_eq!(convert_sheet_route(&pair("", "GJ_GameSheetGlow-hd"), true), ConvertSheetRoute::LegacyGlowSheet);
    assert_eq!(
        convert_sheet_route(&pair("", "GJ_GameSheet02-uhd"), true),
        ConvertSheetRoute::LegacyIconSheet("-uhd".to_string())
    );
    assert_eq!(convert_sheet_route(&pair("", "GJ_GameSheet02-uhd"), false), ConvertSheetRoute::LatestFrames);
    assert_eq!(convert_sheet_route(&pair("", "GJ_GameSheet03-uhd"), true), ConvertSheetRoute::LatestFrames);
}

#[test]
fn sheet_decisions_after_the_latest_lookup() {
    assert_eq!(
        convert_sheet_decision(false, 3, 3, 0),
        ConvertSheetDecision::Skip("no latest placeholder plist found for sheet")
    );
    assert_eq!(
        convert_sheet_decision(true, 0, 0, 0),
        ConvertSheetDecision::Skip("no new frame keys found versus latest placeholder plist")
    );
    assert_eq!(convert_sheet_decision(true, 0, 0, 2), ConvertSheetDecision::WriteInputSheet);
    assert_eq!(
        convert_sheet_decision(true, 4, 0, 0),
        ConvertSheetDecision::Skip(
            "sheet has missing frame keys but no mergeable payloads; keeping original sheet content"
        )
    );
    assert_eq!(convert_sheet_decision(true, 4, 0, 1), ConvertSheetDecision::WriteInputSheet);
    assert_eq!(convert_sheet_decision(true, 4, 2, 0), ConvertSheetDecision::AppendFrames);
}

#[test]
fn moved_menu_buttons_leave_other_sheets_only() {
    let frames = names(&["GJ_featuredBtn_001.png", "keep_me_001.png", "GJ_savedBtn_001.png"]);
    assert_eq!(
        gamesheet04_frames_to_move("GJ_GameSheet03-uhd", &frames),
        names(&["GJ_featuredBtn_001.png", "GJ_savedBtn_001.png"])
    );
    assert!(gamesheet04_frames_to_move("GJ_GameSheet04-uhd", &frames).is_empty());
}

#[test]
fn progress_units_and_version_note() {
    assert_eq!(convert_total_units(10, 2, 1), 23);
    assert_eq!(convert_total_units(0, 0, 0), 1);
    assert_eq!(convert_total_units(usize::MAX, 1, 1), usize::MAX);
    assert_eq!(
        convert_version_note("2.11", false),
        "previous game version `2.11`; comparing sheets against Steam Geometry Dash Resources / geode mods"
    );
    assert!(convert_version_note("2.0", true).contains("applying legacy GJ_GameSheet02 icon split"));
    let p = operation_progress("s".to_string(), 9, 4, 1, 2);
    assert_eq!((p.sprites_completed, p.sprites_total, p.plists_completed, p.plists_total), (4, 4, 1, 2));
}

#[test]
fn legacy_sheet_frames_are_routed() {
    let frames = names(&[
        "player_02_001.png",
        "player_02_glow_001.png",
        "boost_01_001.png",
        "fireBoost_001.png",
        "edit_eAlphaBtn_001.png",
        "GJ_featuredBtn_001.png",
        "mystery.png",
    ]);
    // Only the known icon kinds have icon ids, so no frame id is an excluded one.
    assert!(excluded_legacy_frame_names(&frames).is_empty());
    let facts = PathFacts {
        dirs: names(&["/gd/Resources"]),
        files: names(&["/gd/Resources/edit_eAlphaBtn_001-uhd.png"]),
        readable_game_dirs: Vec::new(),
    };
    assert!(vanilla_resources_has_standalone_png(&layout(), &facts, "edit_eAlphaBtn_001.png"));
    assert!(!vanilla_resources_has_standalone_png(&layout(), &facts, "mystery.png"));
    let exported = names(&["fireBoost_001.png"]);
    let excluded = names(&["boost_01_001.png"]);
    assert_eq!(
        legacy_standalone_frame_names(&frames, &exported, &excluded, &layout(), &facts),
        names(&["edit_eAlphaBtn_001.png"])
    );
    let exported = names(&["fireBoost_001.png", "edit_eAlphaBtn_001.png"]);
    assert_eq!(
        legacy_leftover_frame_names(&frames, &names(&["player_02"]), &exported),
        names(&["boost_01_001.png", "mystery.png"])
    );
    let issues = legacy_ungrouped_frame_issues(&frames, 1, &exported, &Vec::new());
    assert_eq!(issues.len(), 3);
    assert_eq!(issues[0].level, ReportLevel::Warning);
    assert_eq!(issues[0].file, Some("boost_01_001.png".to_string()));
    assert_eq!(issues[1].level, ReportLevel::Warning);
    assert_eq!(issues[1].message, "frame name does not map to an icon sheet id; skipping");
    assert_eq!(issues[1].file, Some("GJ_featuredBtn_001.png".to_string()));
    assert!(legacy_ungrouped_frame_issues(&frames, 7, &exported, &Vec::new()).is_empty());
}

#[test]
fn icon_glow_frames_prefer_the_glow_sheet() {
    let gs02 = names(&["player_02_001.png", "player_02_glow_001.png", "player_03_glow_001.png"]);
    let glow = Some(names(&["player_02_glow_001.png"]));
    assert_eq!(icon_glow_frame_names(&glow, &gs02, "player_02"), (names(&["player_02_glow_001.png"]), true));
    assert_eq!(icon_glow_frame_names(&glow, &gs02, "player_03"), (names(&["player_03_glow_001.png"]), false));
    assert_eq!(icon_glow_frame_names(&None, &gs02, "player_04"), (Vec::new(), false));
}

#[test]
fn copy_sheet_checks_names_and_targets() {
    assert_eq!(
        icon_editor_copy_name_check("/a/old-uhd.plist", " "),
        Err(AppError::InvalidOperation("new sheet name cannot be empty"))
    );
    assert_eq!(
        icon_editor_copy_name_check("/a/old-uhd.plist", "x/y"),
        Err(AppError::InvalidOperation("new sheet name cannot contain separators"))
    );
    assert_eq!(
        icon_editor_copy_name_check("/a/old-uhd.plist", "old-uhd"),
        Err(AppError::InvalidOperation("copy name must differ from the current sheet name"))
    );
    assert_eq!(icon_editor_copy_name_check("/a/old-uhd.plist", "new-uhd"), Ok("old-uhd".to_string()));
    let none = PathFacts::empty();
    let targets = icon_editor_copy_targets("/a/old-uhd.plist", "/b/old-uhd.png", "new-uhd", &none).expect("targets");
    assert_eq!(targets.plist_path, "/a/new-uhd.plist");
    assert_eq!(targets.atlas_path, "/b/new-uhd.png");
    let taken = PathFacts { dirs: Vec::new(), files: names(&["/b/new-uhd.png"]), readable_game_dirs: Vec::new() };
    assert_eq!(
        icon_editor_copy_targets("/a/old-uhd.plist", "/b/old-uhd.png", "new-uhd", &taken),
        Err(AppError::InvalidOperation("target png name already exists in destination directory"))
    );
    assert_eq!(copied_metadata_texture_name("/b/new-uhd.png"), "icons/new-uhd.png");
    assert_eq!(
        frame_keys_to_remove(&names(&[" bird_01_extra_001.png ", "bird_01_001.png", "  "])),
        names(&["bird_01_extra_001.png"])
    );
}

#[test]
fn target_index_groups_and_sorts_frames() {
    let frames = vec![
        ("geode.loader/baseCross_Big_Red.png".to_string(), size(40, 40)),
        ("geode.loader/baseCircle_Big_Green.png".to_string(), size(60, 60)),
        ("geode.loader/baseCross_Alt_Red.png".to_string(), size(30, 30)),
        ("geode.loader/baseCross_Small_Red.png".to_string(), None),
        ("GJ_button_01.png".to_string(), size(10, 10)),
        ("geode.loader/baseTab_Normal_Selected.png".to_string(), size(20, 8)),
    ];
    let groups = geode_buttons_target_index(&layout(), &PathFacts::empty(), Platform::Linux, false, Ok(frames))
        .expect("index");
    let ids: Vec<&str> = groups.iter().map(|g| g.id.as_str()).collect();
    assert_eq!(ids, vec!["circle:primary", "cross:error", "tabs:geode.loader/baseTab_Normal_Selected.png"]);
    let cross = &groups[1];
    assert_eq!(cross.label, "Cross Error");
    let cross_names: Vec<&str> = cross.frames.iter().map(|f| f.name.as_str()).collect();
    assert_eq!(cross_names, vec!["geode.loader/baseCross_Alt_Red.png", "geode.loader/baseCross_Big_Red.png"]);
    assert_eq!(cross.frames[0].sprite_size, GeodeButtonsTargetSize { width: 30, height: 30 });
    assert!(groups.iter().all(|g| g.preview_png_data_url.is_none()));
}

#[test]
fn target_index_needs_the_game_when_reading_the_cache() {
    let result = geode_buttons_target_index(&layout(), &PathFacts::empty(), Platform::Linux, true, Ok(Vec::new()));
    match result {
        Err(AppError::IoError(m)) => assert!(m.starts_with("Geometry Dash is not configured")),
        other => panic!("unexpected {other:?}"),
    }
    let parse_error = AppError::ParseError("failed to parse plist: bad".to_string());
    assert_eq!(
        geode_buttons_target_index(&layout(), &PathFacts::empty(), Platform::Linux, false, Err(parse_error.clone())),
        Err(parse_error)
    );
}

#[test]
fn run_input_must_be_an_existing_folder() {
    let facts = PathFacts {
        dirs: names(&["/in"]),
        files: names(&["/file.txt"]),
        readable_game_dirs: Vec::new(),
    };
    assert_eq!(check_operation_input("/in", &facts), Ok(()));
    assert_eq!(
        check_operation_input("/file.txt", &facts),
        Err(AppError::InvalidPath("input path is not a directory"))
    );
    assert_eq!(
        check_operation_input("/missing", &facts),
        Err(AppError::InvalidPath("input directory does not exist"))
    );
}

#[test]
fn splitter_can_skip_icon_folders() {
    let pairs = vec![pair("icons", "player_01-uhd"), pair("", "GJ_GameSheet03-uhd")];
    assert_eq!(splitter_sheets(&pairs, true), vec![pair("", "GJ_GameSheet03-uhd")]);
    assert_eq!(splitter_sheets(&pairs, false), pairs);
}

#[test]
fn borrowed_vanilla_plists_are_noted() {
    let local = pair("", "Local-uhd");
    let borrowed = SheetCandidate {
        plist_path: "/gd/Resources/Borrowed-uhd.plist".to_string(),
        ..pair("", "Borrowed-uhd")
    };
    let issues = vanilla_plist_fallback_issues("/pack", &None, &vec![local, borrowed], &vec![None, None]);
    assert_eq!(issues.len(), 1);
    assert_eq!(issues[0].level, ReportLevel::Info);
    assert_eq!(issues[0].message, "Using vanilla plist for Borrowed-uhd");
    assert_eq!(issues[0].file, Some("/pack/Borrowed-uhd.png".to_string()));
}

#[test]
fn job_queue_splits_workers_between_heavy_and_light_jobs() {
    assert_eq!(job_queue_workers(0), (1, 0));
    assert_eq!(job_queue_workers(5), (3, 2));
    assert_eq!(job_queue_workers(200), (32, 32));
}
