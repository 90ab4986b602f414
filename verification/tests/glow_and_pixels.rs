use texture_manager::contracts::GlowMakerOptions;
use texture_manager::glow_names::{
    clamp_glow_options, glow_primary_name_for, icon_stem_from_frame_name, is_excluded_preview_icon_stem,
    is_icon_extra_frame, is_icon_primary_frame, is_preview_excluded_variant_frame,
    normalize_frame_key, PreviewIconAudience,
};
use texture_manager::icon_editor::{trim_transparent_insets, TrimInsets};
use texture_manager::image_alpha::{clear_orthogonally_isolated_pixels, is_occupied, RgbaBuffer};
use texture_manager::pixel_rules::{
    channel_max, is_ink_black, is_mask_boundary, is_white_rgb, mask_neighbor_count, pixel_chroma,
    pixel_is_outside_background, pixel_luma, touches_true_8,
};

fn default_options(composite: bool, rainbow: bool) -> GlowMakerOptions {
    GlowMakerOptions {
        thickness: 3,
        tolerance: 6,
        dimensions: None,
        rainbow_glow: rainbow,
        composite_layers: composite,
    }
}

fn canvas(width: u32, height: u32, px: [u8; 4]) -> RgbaBuffer {
    let mut data = Vec::with_capacity((width * height * 4) as usize);
    for _ in 0..(width * height) {
        data.extend_from_slice(&px);
    }
    RgbaBuffer { width, height, data }
}

fn put_pixel(img: &mut RgbaBuffer, x: u32, y: u32, px: [u8; 4]) {
    let i = ((y * img.width + x) * 4) as usize;
    img.data[i..i + 4].copy_from_slice(&px);
}

fn get_pixel(img: &RgbaBuffer, x: u32, y: u32) -> [u8; 4] {
    let i = ((y * img.width + x) * 4) as usize;
    [img.data[i], img.data[i + 1], img.data[i + 2], img.data[i + 3]]
}

#[test]
fn icon_stem_parses_primary_secondary_and_extra_names() {
    assert_eq!(icon_stem_from_frame_name("player_12_001.png"), Some("player_12".to_string()));
    assert_eq!(icon_stem_from_frame_name("player_12_2_001"), Some("player_12".to_string()));
    assert_eq!(icon_stem_from_frame_name("player_12_extra_001.png"), Some("player_12".to_string()));
    assert_eq!(icon_stem_from_frame_name("Viper_WaterMark.png"), None);
}

#[test]
fn is_icon_primary_frame_filters_variants() {
    assert!(is_icon_primary_frame("player_12_001.png"));
    assert!(!is_icon_primary_frame("player_12_glow_001.png"));
    assert!(!is_icon_primary_frame("player_12_2_001.png"));
    assert!(!is_icon_primary_frame("player_12_extra_001.png"));
    assert!(!is_icon_primary_frame("player_12_002.png"));
    assert!(!is_icon_primary_frame("bird_01_capsule_001.png"));
    assert!(!is_icon_primary_frame("hero.png"));
}

#[test]
fn excluded_preview_stems_cover_ufo_robot_spider() {
    let glow = PreviewIconAudience::GlowMaker;
    assert!(is_excluded_preview_icon_stem("bird_01-uhd", glow));
    assert!(is_excluded_preview_icon_stem("bird_42-hd", glow));
    assert!(is_excluded_preview_icon_stem("ufo_01-uhd", glow));
    assert!(is_excluded_preview_icon_stem("robot_01_01-uhd", glow));
    assert!(is_excluded_preview_icon_stem("spider_05_03-uhd", glow));
    assert!(!is_excluded_preview_icon_stem("player_12-uhd", glow));
    assert!(!is_excluded_preview_icon_stem("ship_03-uhd", glow));
    assert!(!is_excluded_preview_icon_stem("player_ball_01-uhd", glow));
    assert!(!is_excluded_preview_icon_stem("dart_02-uhd", glow));
    assert!(!is_excluded_preview_icon_stem("swing_01-uhd", glow));
}

#[test]
fn particle_silhouette_also_excludes_waves_and_swings() {
    let particle = PreviewIconAudience::ParticleSilhouette;
    assert!(is_excluded_preview_icon_stem("dart_02-uhd", particle));
    assert!(is_excluded_preview_icon_stem("swing_01-uhd", particle));
    assert!(is_excluded_preview_icon_stem("robot_01_01-uhd", particle));
    assert!(is_excluded_preview_icon_stem("spider_05_03-uhd", particle));
    assert!(!is_excluded_preview_icon_stem("player_12-uhd", particle));
    assert!(!is_excluded_preview_icon_stem("ship_03-uhd", particle));
    assert!(!is_excluded_preview_icon_stem("player_ball_01-uhd", particle));
}

#[test]
fn particle_ship_audience_only_allows_ships() {
    let ship = PreviewIconAudience::ParticleShip;
    assert!(!is_excluded_preview_icon_stem("ship_03-uhd", ship));
    assert!(!is_excluded_preview_icon_stem("ship_42-uhd", ship));
    assert!(is_excluded_preview_icon_stem("player_12-uhd", ship));
    assert!(is_excluded_preview_icon_stem("player_ball_01-uhd", ship));
    assert!(is_excluded_preview_icon_stem("dart_02-uhd", ship));
}

#[test]
fn silhouette_skips_every_stem_the_glow_preview_skips() {
    for stem in ["bird_01-uhd", "ufo_01-uhd", "robot_01_01-uhd", "spider_05_03-uhd"] {
        assert!(is_excluded_preview_icon_stem(stem, PreviewIconAudience::GlowMaker));
        assert!(is_excluded_preview_icon_stem(stem, PreviewIconAudience::ParticleSilhouette));
    }
}

#[test]
fn thickness_clamped_to_valid_range() {
    let mut opts = default_options(false, false);
    opts.thickness = 0;
    assert_eq!(clamp_glow_options(&opts).thickness, 1);
    opts.thickness = 999;
    assert_eq!(clamp_glow_options(&opts).thickness, 128);
    opts.thickness = 7;
    assert_eq!(clamp_glow_options(&opts), GlowMakerOptions { thickness: 7, ..default_options(false, false) });
}

#[test]
fn glow_frames_lead_back_to_their_primary() {
    assert_eq!(glow_primary_name_for("player_12_glow_001.png"), Some("player_12_001.png".to_string()));
    assert_eq!(glow_primary_name_for("robot_01_02_glow_001.png"), Some("robot_01_02_001.png".to_string()));
    assert_eq!(glow_primary_name_for("player_12_001.png"), None);
}

#[test]
fn frame_keys_normalize_without_extension_in_lower_case() {
    assert_eq!(normalize_frame_key("Player_12_001.PNG"), "player_12_001");
    assert_eq!(normalize_frame_key("x.png"), "x");
    assert!(is_preview_excluded_variant_frame("player_12_glow_001.png"));
}

#[test]
fn is_icon_extra_frame_matches_suffix() {
    assert!(is_icon_extra_frame("bird_15_extra_001.png"));
    assert!(is_icon_extra_frame("robot_01_01_extra_001"));
    assert!(is_icon_extra_frame(r"icons\bird_15_extra_001.png"));
    assert!(!is_icon_extra_frame("bird_15_001.png"));
    assert!(!is_icon_extra_frame("bird_15_2_001.png"));
    assert!(!is_icon_extra_frame("bird_15_glow_001.png"));
}

#[test]
fn occupied_is_any_nonzero_alpha() {
    assert!(is_occupied([0, 0, 0, 1]));
    assert!(is_occupied([255, 255, 255, 40]));
    assert!(!is_occupied([255, 255, 255, 0]));
}

#[test]
fn clears_pixels_without_orthogonal_neighbor() {
    let mut img = canvas(10, 8, [0, 0, 0, 0]);
    for y in 2..6 {
        for x in 2..6 {
            put_pixel(&mut img, x, y, [80, 80, 80, 255]);
        }
    }
    put_pixel(&mut img, 6, 3, [200, 40, 40, 255]);
    put_pixel(&mut img, 7, 1, [255, 255, 255, 255]);
    put_pixel(&mut img, 8, 6, [30, 30, 30, 90]);
    put_pixel(&mut img, 1, 1, [180, 180, 180, 200]);
    let trimmed = clear_orthogonally_isolated_pixels(&img);
    assert_eq!(get_pixel(&trimmed, 6, 3)[3], 255, "orthogonal edge must keep");
    assert_eq!(get_pixel(&trimmed, 7, 1), [0, 0, 0, 0], "isolated white must drop");
    assert_eq!(get_pixel(&trimmed, 8, 6), [0, 0, 0, 0], "isolated dark must drop");
    assert_eq!(get_pixel(&trimmed, 1, 1), [0, 0, 0, 0], "diagonal-only touch must drop");
    assert_eq!(get_pixel(&trimmed, 3, 3)[3], 255);
}

#[test]
fn clears_isolated_pure_white_specks() {
    let mut img = canvas(10, 8, [0, 0, 0, 0]);
    for y in 2..6 {
        for x in 1..5 {
            put_pixel(&mut img, x, y, [40, 40, 40, 255]);
        }
    }
    put_pixel(&mut img, 8, 1, [255, 255, 255, 255]);
    put_pixel(&mut img, 8, 6, [255, 255, 255, 180]);
    let trimmed = clear_orthogonally_isolated_pixels(&img);
    assert_eq!(get_pixel(&trimmed, 8, 1), [0, 0, 0, 0]);
    assert_eq!(get_pixel(&trimmed, 8, 6), [0, 0, 0, 0]);
    assert_eq!(get_pixel(&trimmed, 2, 3)[3], 255);
}

#[test]
fn keeps_white_attached_to_body() {
    let mut img = canvas(10, 8, [0, 0, 0, 0]);
    for y in 2..6 {
        for x in 2..6 {
            put_pixel(&mut img, x, y, [80, 80, 80, 255]);
        }
    }
    put_pixel(&mut img, 6, 3, [255, 255, 255, 255]);
    for y in 2..5 {
        for x in 7..10 {
            put_pixel(&mut img, x, y, [255, 255, 255, 255]);
        }
    }
    let trimmed = clear_orthogonally_isolated_pixels(&img);
    assert_eq!(get_pixel(&trimmed, 6, 3), [255, 255, 255, 255]);
    assert_eq!(get_pixel(&trimmed, 8, 3), [255, 255, 255, 255]);
}

#[test]
fn keeps_orthogonal_pair_even_if_floating() {
    let mut img = canvas(8, 8, [0, 0, 0, 0]);
    put_pixel(&mut img, 1, 1, [10, 20, 30, 255]);
    put_pixel(&mut img, 2, 1, [40, 50, 60, 200]);
    let trimmed = clear_orthogonally_isolated_pixels(&img);
    assert_eq!(get_pixel(&trimmed, 1, 1)[3], 255);
    assert_eq!(get_pixel(&trimmed, 2, 1)[3], 200);
}

#[test]
fn does_not_change_canvas_size() {
    let img = canvas(12, 9, [1, 2, 3, 255]);
    let trimmed = clear_orthogonally_isolated_pixels(&img);
    assert_eq!((trimmed.width, trimmed.height), (12, 9));
    assert_eq!(trimmed.data.len(), 12 * 9 * 4);
}

#[test]
fn clearing_twice_changes_nothing_more() {
    let mut img = canvas(6, 5, [0, 0, 0, 0]);
    put_pixel(&mut img, 0, 0, [9, 9, 9, 255]);
    put_pixel(&mut img, 2, 2, [9, 9, 9, 255]);
    put_pixel(&mut img, 3, 2, [9, 9, 9, 255]);
    put_pixel(&mut img, 5, 4, [9, 9, 9, 255]);
    let once = clear_orthogonally_isolated_pixels(&img);
    let twice = clear_orthogonally_isolated_pixels(&once);
    assert_eq!(once.data, twice.data);
    assert_eq!(get_pixel(&once, 0, 0), [0, 0, 0, 0]);
    assert_eq!(get_pixel(&once, 2, 2), [9, 9, 9, 255]);
}

#[test]
fn trim_insets_measure_the_occupied_box() {
    let mut img = canvas(8, 6, [0, 0, 0, 0]);
    put_pixel(&mut img, 2, 1, [1, 1, 1, 255]);
    put_pixel(&mut img, 5, 3, [1, 1, 1, 10]);
    assert_eq!(trim_transparent_insets(&img), TrimInsets { left: 2, top: 1, right: 2, bottom: 2 });
    let empty = canvas(8, 6, [0, 0, 0, 0]);
    assert_eq!(trim_transparent_insets(&empty), TrimInsets { left: 0, top: 0, right: 7, bottom: 5 });
    let zero = canvas(0, 0, [0, 0, 0, 0]);
    assert_eq!(trim_transparent_insets(&zero), TrimInsets { left: 0, top: 0, right: 0, bottom: 0 });
}

#[test]
fn pixel_measures() {
    assert_eq!(pixel_luma([30, 60, 90, 255]), 60);
    assert_eq!(channel_max([30, 60, 90, 255]), 90);
    assert_eq!(pixel_chroma([30, 60, 90, 255]), 60);
    assert!(is_white_rgb([250, 250, 240, 255]));
    assert!(!is_white_rgb([250, 40, 40, 255]));
    assert!(is_ink_black([10, 10, 10, 255], 200));
    assert!(!is_ink_black([10, 10, 10, 100], 200));
    assert!(pixel_is_outside_background([0, 0, 0, 7]));
    assert!(!pixel_is_outside_background([0, 0, 0, 8]));
}

#[test]
fn mask_neighbours_and_boundaries() {
    // 3x3 mask with the centre and its right neighbour set.
    let mask = vec![false, false, false, false, true, true, false, false, false];
    assert_eq!(mask_neighbor_count(&mask, 3, 3, 1, 1), 1);
    assert_eq!(mask_neighbor_count(&mask, 3, 3, 0, 0), 1);
    assert!(is_mask_boundary(&mask, 3, 3, 1, 1));
    assert!(touches_true_8(&mask, 3, 3, 0, 0));
    assert!(touches_true_8(&mask, 3, 3, 0, 2));
    let empty = vec![false; 9];
    assert!(!touches_true_8(&empty, 3, 3, 1, 1));
    assert_eq!(mask_neighbor_count(&empty, 3, 3, 1, 1), 0);
}
