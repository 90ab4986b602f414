use texture_manager::contracts::{DimensionOverride, GeodeButtonsVariant};
use texture_manager::discovery::SheetCandidate;
use texture_manager::errors::AppError;
use texture_manager::geode_buttons::{
    best_blank_sheet_plist, frame_base_type, frame_family_id, frame_variant_from_color_suffix,
    humanize_camel_token, individual_frame_label, progress_done_as_u32, progress_total_as_u32,
    resolve_geode_buttons_plist, target_group_for_frame, trailing_token_from_frame_name,
    variant_label, variant_slug,
};
use texture_manager::hashing::{hash_sheet_pair, hex_lower, sha256_hex};
use texture_manager::icon_editor::{
    apply_rename_replacements, atlas_crop_rect_for_frame, ensure_png_frame_key,
    format_texture_rect, frame_key_stem, icon_editor_rename_sheet, is_removable_extra_frame_key,
    parse_rotate_direction, sheet_stem_from_plist_path, strip_graphics_tier_suffix,
    swap_icon_editor_size, validate_sheet_stem, IconEditorRect, IconEditorRotateDirection,
    IconEditorSize,
};
use texture_manager::layout::GameFilesLayout;
use texture_manager::merger::{
    best_area_fit_index, find_position_best_area_fit, free_rect_intersects, maxrects_place_rect,
    maxrects_split_free_node, pack_sprites_maxrects, prune_free_list, rect_contained_in,
    resolve_target_width, slot_area_stats, sort_for_packing, FreeRect, PackPlacement,
};
use texture_manager::steam::unescape_vdf_path;
use texture_manager::sync::{
    check_for_updates, local_manifest_path, placeholder_manifest, unix_timestamp_text, SyncStatus,
};

fn sprite(name: &str, width: u32, height: u32) -> PackPlacement {
    PackPlacement { name: name.to_string(), width, height, x: 0, y: 0 }
}

fn rect(x: u32, y: u32, w: u32, h: u32) -> FreeRect {
    FreeRect { x, y, w, h }
}

fn pair(stem: &str) -> SheetCandidate {
    SheetCandidate {
        stem: stem.to_string(),
        relative_dir: String::new(),
        plist_path: format!("/p/{stem}.plist"),
        png_path: format!("/p/{stem}.png"),
    }
}

#[test]
fn packing_order_is_area_then_height_then_width_and_stable() {
    let sorted = sort_for_packing(vec![
        sprite("small", 2, 2),
        sprite("wide", 8, 2),
        sprite("tall", 2, 8),
        sprite("twin", 2, 2),
    ]);
    let names: Vec<&str> = sorted.iter().map(|p| p.name.as_str()).collect();
    assert_eq!(names, vec!["tall", "wide", "small", "twin"]);
}

#[test]
fn single_sprite_sits_inside_the_margin() {
    let mut placements = vec![sprite("a", 4, 3)];
    let size = pack_sprites_maxrects(&mut placements, 10);
    assert_eq!((placements[0].x, placements[0].y), (1, 1));
    assert_eq!(size, (7, 6));
    let mut none: Vec<PackPlacement> = Vec::new();
    assert_eq!(pack_sprites_maxrects(&mut none, 10), (2, 2));
}

#[test]
fn packed_slots_never_overlap_and_stay_in_width() {
    let mut placements = vec![
        sprite("a", 5, 5),
        sprite("b", 3, 7),
        sprite("c", 6, 2),
        sprite("d", 1, 1),
        sprite("e", 4, 4),
    ];
    let (w, h) = pack_sprites_maxrects(&mut placements, 12);
    for (i, p) in placements.iter().enumerate() {
        assert!(p.x >= 1 && p.y >= 1);
        assert!(p.x + p.width + 1 <= 11);
        assert!(p.x + p.width + 1 + 1 <= w && p.y + p.height + 1 + 1 <= h);
        for q in placements.iter().skip(i + 1) {
            let apart = p.x + p.width + 1 <= q.x
                || q.x + q.width + 1 <= p.x
                || p.y + p.height + 1 <= q.y
                || q.y + q.height + 1 <= p.y;
            assert!(apart, "{} and {} overlap", p.name, q.name);
        }
    }
}

#[test]
fn second_sprite_takes_the_tighter_column_beside_the_first() {
    let mut placements = vec![sprite("b", 3, 3), sprite("a", 5, 5)];
    let size = pack_sprites_maxrects(&mut placements, 12);
    assert_eq!(placements[0].name, "a");
    assert_eq!((placements[0].x, placements[0].y), (1, 1));
    assert_eq!((placements[1].x, placements[1].y), (7, 1));
    assert_eq!(size, (12, 8));
}

#[test]
fn best_area_fit_picks_the_tightest_free_rectangle() {
    let free = [rect(0, 0, 10, 10), rect(20, 0, 4, 4), rect(30, 0, 3, 3)];
    assert_eq!(best_area_fit_index(&free, 3, 3), Some(2));
    assert_eq!(find_position_best_area_fit(&free, 4, 4), Some((20, 0)));
    assert_eq!(best_area_fit_index(&free, 11, 1), None);
}

#[test]
fn free_rect_relations() {
    assert!(free_rect_intersects(rect(0, 0, 4, 4), rect(3, 3, 4, 4)));
    assert!(!free_rect_intersects(rect(0, 0, 4, 4), rect(4, 0, 4, 4)));
    assert!(rect_contained_in(rect(1, 1, 2, 2), rect(0, 0, 4, 4)));
    assert!(!rect_contained_in(rect(1, 1, 4, 2), rect(0, 0, 4, 4)));
}

#[test]
fn placing_a_rect_splits_and_prunes_free_space() {
    let mut out = Vec::new();
    maxrects_split_free_node(rect(0, 0, 10, 10), rect(0, 0, 4, 4), &mut out);
    assert!(out.contains(&rect(4, 0, 6, 10)));
    assert!(out.contains(&rect(0, 4, 10, 6)));
    let mut list = vec![rect(0, 0, 10, 10)];
    maxrects_place_rect(&mut list, rect(0, 0, 4, 4));
    assert_eq!(list.len(), 2);
    let mut dup = vec![rect(0, 0, 4, 4), rect(1, 1, 2, 2)];
    prune_free_list(&mut dup);
    assert_eq!(dup, vec![rect(0, 0, 4, 4)]);
}

#[test]
fn target_width_prefers_request_then_estimate() {
    let sprites = vec![sprite("a", 4, 3), sprite("b", 2, 2)];
    let (area, widest) = slot_area_stats(&sprites);
    assert_eq!(area, 5 * 4 + 3 * 3);
    assert_eq!(widest, 5);
    assert_eq!(resolve_target_width(&sprites, Some(DimensionOverride { width: 1, height: 9 }), widest, 6), 2);
    assert_eq!(resolve_target_width(&sprites, Some(DimensionOverride { width: 64, height: 9 }), widest, 6), 64);
    assert_eq!(resolve_target_width(&sprites, None, widest, 6), 8);
    assert_eq!(resolve_target_width(&sprites, None, widest, 3), 7);
    assert_eq!(resolve_target_width(&Vec::new(), None, 1, 0), 2);
}

#[test]
fn geode_button_frames_group_by_kind_and_colour() {
    assert_eq!(frame_base_type("geode.loader/baseCross_Big_Green.png"), Some("cross"));
    assert_eq!(frame_base_type("GJ_button_01.png"), None);
    assert_eq!(
        frame_variant_from_color_suffix("geode.loader/baseCategory_Big_DarkAqua.png"),
        Some(GeodeButtonsVariant::DarkAqua)
    );
    assert_eq!(frame_variant_from_color_suffix("x_Orange.png"), None);
    assert_eq!(variant_slug(&GeodeButtonsVariant::Error), "error");
    assert_eq!(variant_label(&GeodeButtonsVariant::DarkPurple), "Dark Purple");
    assert_eq!(
        frame_family_id("geode.loader/baseCross_Big_Red.png"),
        Some("cross:error".to_string())
    );
    assert_eq!(
        frame_family_id("geode.loader/baseTab_Normal_Selected.png"),
        Some("tabs:geode.loader/baseTab_Normal_Selected.png".to_string())
    );
}

#[test]
fn geode_button_labels_humanize_the_trailing_token() {
    assert_eq!(humanize_camel_token("DarkAqua"), "Dark Aqua");
    assert_eq!(humanize_camel_token("Tab2Selected"), "Tab2 Selected");
    assert_eq!(
        trailing_token_from_frame_name("geode.loader/baseTab_Normal_Selected.png"),
        Some("Selected".to_string())
    );
    assert_eq!(trailing_token_from_frame_name("plain"), None);
    assert_eq!(
        individual_frame_label("tabs", "geode.loader/baseTab_Normal_Selected.png"),
        "Tabs Selected"
    );
}

#[test]
fn circle_frames_join_a_group_only_with_the_circle_shape() {
    assert_eq!(
        target_group_for_frame("geode.loader/baseCircle_Big_Green.png"),
        Ok(Some(("circle:primary".to_string(), "Circle Primary".to_string())))
    );
    assert_eq!(
        target_group_for_frame("geode.loader/baseCircle_MediumAlt_Blue.png"),
        Ok(Some(("circle:info".to_string(), "Circle Info".to_string())))
    );
    assert_eq!(target_group_for_frame("geode.loader/baseCircle_Big2_Green.png"), Ok(None));
    assert_eq!(target_group_for_frame("GJ_button_01.png"), Ok(None));
}

#[test]
fn progress_counts_fit_in_u32() {
    assert_eq!(progress_total_as_u32(0), 1);
    assert_eq!(progress_total_as_u32(12), 12);
    assert_eq!(progress_done_as_u32(20, 12), 12);
    assert_eq!(progress_done_as_u32(3, 0), 1);
}

#[test]
fn best_blanksheet_prefers_uhd() {
    let pairs = vec![pair("BlankSheet"), pair("BlankSheet-uhd"), pair("Other-uhd"), pair("BlankSheet-hd")];
    assert_eq!(best_blank_sheet_plist(&pairs), Some("/p/BlankSheet-uhd.plist".to_string()));
    assert_eq!(best_blank_sheet_plist(&vec![pair("Other-uhd")]), None);
    let files = vec!["/in/BlankSheet-hd.plist".to_string(), "/in/BlankSheet-hd.png".to_string()];
    assert_eq!(resolve_geode_buttons_plist("/in", &files), Ok(Some("/in/BlankSheet-hd.plist".to_string())));
}

#[test]
fn sha256_of_known_inputs() {
    assert_eq!(sha256_hex(b"abc"), "ba7816bf8f01cfea414140de5dae2223b00361a396177a9cb410ff61f20015ad");
    assert_eq!(sha256_hex(b""), "e3b0c44298fc1c149afbf4c8996fb92427ae41e4649b934ca495991b7852b855");
    let entry = hash_sheet_pair(b"abc", b"");
    assert_eq!(entry.plist_sha256, sha256_hex(b"abc"));
    assert_eq!(entry.png_sha256, sha256_hex(b""));
    assert_eq!(hex_lower(&[0x00, 0xab, 0x10]), "00ab10");
}

#[test]
fn rotate_direction_names() {
    assert_eq!(parse_rotate_direction("cw"), Ok(IconEditorRotateDirection::Clockwise));
    assert_eq!(parse_rotate_direction("counter-clockwise"), Ok(IconEditorRotateDirection::CounterClockwise));
    assert_eq!(
        parse_rotate_direction("sideways"),
        Err(AppError::ParseError("unsupported rotate direction `sideways`".to_string()))
    );
}

#[test]
fn atlas_crop_rect_swaps_for_rotated_frames() {
    let texture = IconEditorRect { x: 5, y: 6, width: 0, height: 0 };
    let plain = atlas_crop_rect_for_frame(&texture, IconEditorSize { width: 10, height: 4 }, false);
    assert_eq!(plain, IconEditorRect { x: 5, y: 6, width: 10, height: 4 });
    let rotated = atlas_crop_rect_for_frame(&texture, IconEditorSize { width: 10, height: 0 }, true);
    assert_eq!(rotated, IconEditorRect { x: 5, y: 6, width: 1, height: 10 });
    assert_eq!(swap_icon_editor_size(IconEditorSize { width: 3, height: 7 }), IconEditorSize { width: 7, height: 3 });
    assert_eq!(format_texture_rect(&IconEditorRect { x: 1, y: 22, width: 333, height: 0 }), "{{1,22},{333,0}}");
}

#[test]
fn frame_key_helpers() {
    assert_eq!(frame_key_stem(" player_01_001.png "), "player_01_001");
    assert_eq!(ensure_png_frame_key("player_01_001"), "player_01_001.png");
    assert_eq!(ensure_png_frame_key("  "), "");
    assert!(is_removable_extra_frame_key("bird_01_EXTRA_001.png"));
    assert!(!is_removable_extra_frame_key("bird_01_001.png"));
    assert_eq!(strip_graphics_tier_suffix("player_01-uhd"), "player_01");
    assert_eq!(strip_graphics_tier_suffix("player_01-hd"), "player_01");
    assert_eq!(strip_graphics_tier_suffix("player_01"), "player_01");
}

#[test]
fn rename_replaces_stems_in_text() {
    let text = "<string>old-uhd.png</string><key>old_001.png</key>";
    assert_eq!(
        apply_rename_replacements(text, "old-uhd", "new-uhd", "old", "new"),
        "<string>new-uhd.png</string><key>new_001.png</key>"
    );
    assert_eq!(apply_rename_replacements(text, "old", "old", "x", "x"), text);
}

#[test]
fn sheet_names_are_checked_before_renaming() {
    assert_eq!(validate_sheet_stem("ok-name"), Ok(()));
    assert_eq!(
        validate_sheet_stem("   "),
        Err(AppError::InvalidOperation("new sheet name cannot be empty"))
    );
    assert_eq!(
        validate_sheet_stem("a/b"),
        Err(AppError::InvalidOperation("new sheet name cannot contain separators"))
    );
    assert_eq!(
        validate_sheet_stem("con.sheet"),
        Err(AppError::InvalidOperation("new sheet name cannot use a reserved system name"))
    );
    assert_eq!(sheet_stem_from_plist_path("/a/Sheet-uhd.plist"), Ok("Sheet-uhd".to_string()));
    let renamed = icon_editor_rename_sheet("/a/old-uhd.plist", "/b/old-uhd.png", "new-uhd").expect("rename");
    assert_eq!(renamed.plist_path, "/a/new-uhd.plist");
    assert_eq!(renamed.atlas_path, "/b/new-uhd.png");
    assert_eq!(
        icon_editor_rename_sheet("/a/old.plist", "/a/old.png", "LPT1"),
        Err(AppError::InvalidOperation("new sheet name cannot use a reserved system name"))
    );
}

#[test]
fn vdf_escapes_are_undone() {
    assert_eq!(unescape_vdf_path(r"C:\\Games\\Steam"), r"C:\Games\Steam");
    assert_eq!(unescape_vdf_path(r#"say \"hi\""#), r#"say "hi""#);
}

#[test]
fn update_check_without_hosted_manifest() {
    assert_eq!(check_for_updates(Ok(())), Ok(SyncStatus::NotConfigured));
    assert_eq!(
        check_for_updates(Err(AppError::IoError("disk full".to_string()))),
        Err(AppError::IoError("disk full".to_string()))
    );
    assert_eq!(unix_timestamp_text(1700000000), "unix:1700000000");
    let manifest = placeholder_manifest(0);
    assert_eq!(manifest.schema_version, 1);
    assert_eq!(manifest.installed_at, "unix:0");
    assert!(manifest.files.is_empty());
    let layout = GameFilesLayout {
        root: "/r".to_string(),
        geometry_dash_dir: "/g".to_string(),
        resources: "/g/Resources".to_string(),
        geode_resources: "/g/geode/resources".to_string(),
        geode_unzipped: "/g/geode/unzipped".to_string(),
        current_split: "/r/split-cache".to_string(),
        legacy: "/r/legacy".to_string(),
    };
    assert_eq!(local_manifest_path(&layout), "/r/manifest.local.json");
}
