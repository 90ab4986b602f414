use texture_manager::errors::AppError;
use texture_manager::preview_pick::{
    compositable_primary_keys, pick_preview_frame_name, preview_frame_candidates, sample_with_visible_primary,
    PrimaryChoice, PrimaryFramePick,
};

fn names(list: &[&str]) -> Vec<String> {
    list.iter().map(|s| s.to_string()).collect()
}

#[test]
fn pick_preview_frame_allows_single_custom_sprite() {
    let sprites = names(&["hero.png", "hero_glow.png"]);
    let name = pick_preview_frame_name(&sprites, PrimaryFramePick::First).expect("frame");
    assert_eq!(name, "hero.png");
}

#[test]
fn pick_preview_frame_rejects_ambiguous_multipart_pieces() {
    let sprites = names(&["bird_01_capsule_001.png", "bird_01_dome_001.png"]);
    assert!(pick_preview_frame_name(&sprites, PrimaryFramePick::First).is_err());
}

#[test]
fn first_pick_is_the_least_primary_frame() {
    let sprites = names(&["player_02_001.png", "player_01_001.png", "player_01_glow_001.png", "player_01_2_001.png"]);
    assert_eq!(pick_preview_frame_name(&sprites, PrimaryFramePick::First).unwrap(), "player_01_001.png");
    let random = pick_preview_frame_name(&sprites, PrimaryFramePick::Random).unwrap();
    assert!(random == "player_01_001.png" || random == "player_02_001.png");
}

#[test]
fn compositable_key_is_used_when_no_primary_frame_exists() {
    let sprites = names(&["ball_5a_001.png", "ball_5a_2_001.png"]);
    assert_eq!(compositable_primary_keys(&sprites), names(&["ball_5a_001.png"]));
    assert_eq!(preview_frame_candidates(&sprites).unwrap(), names(&["ball_5a_001.png"]));
    assert_eq!(pick_preview_frame_name(&sprites, PrimaryFramePick::First).unwrap(), "ball_5a_001.png");
}

#[test]
fn no_candidate_gives_the_compositing_error() {
    let err = preview_frame_candidates(&names(&["a_glow.png", "b_glow.png"])).unwrap_err();
    assert_eq!(
        err,
        AppError::InvalidOperation("icon sheet has no standalone sprite frame to preview without compositing")
    );
    assert!(preview_frame_candidates(&Vec::new()).is_err());
}

#[test]
fn candidates_come_sorted_without_repeats() {
    let sprites = names(&["ship_03_001.png", "ship_01_001.png", "ship_03_001.png"]);
    assert_eq!(preview_frame_candidates(&sprites).unwrap(), names(&["ship_01_001.png", "ship_03_001.png"]));
}

#[test]
fn visible_primary_pick_is_kept() {
    let sprites = names(&["player_01_001.png", "player_01_glow_001.png"]);
    assert_eq!(
        sample_with_visible_primary(&sprites, &vec![true, true], "player_01_001.png", true),
        PrimaryChoice::KeepPicked
    );
}

#[test]
fn first_visible_stand_in_replaces_a_blank_pick() {
    let sprites = names(&["player_01_001.png", "player_02_001.png", "player_02_glow_001.png"]);
    assert_eq!(
        sample_with_visible_primary(&sprites, &vec![false, true, true], "player_01_001.png", false),
        PrimaryChoice::Use("player_02_001.png".to_string())
    );
}

#[test]
fn multipart_sheet_keeps_a_blank_primary_and_single_blank_sprite_gives_nothing() {
    let pieces = names(&["bird_01_capsule_001.png", "bird_01_dome_001.png"]);
    assert_eq!(
        sample_with_visible_primary(&pieces, &vec![true, true], "", false),
        PrimaryChoice::Blank(String::new())
    );
    let composite = names(&["ball_5a_001.png", "ball_5a_2_001.png"]);
    assert_eq!(
        sample_with_visible_primary(&composite, &vec![false, true], "missing.png", false),
        PrimaryChoice::Blank("ball_5a_001.png".to_string())
    );
    assert_eq!(
        sample_with_visible_primary(&names(&["hero.png"]), &vec![false], "hero.png", false),
        PrimaryChoice::Nothing
    );
}
