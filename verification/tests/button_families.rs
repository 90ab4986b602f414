use texture_manager::button_families::{
    build_family_largest_dims, geode_button_frame_step, geode_buttons_summary_issue, largest_family_sprite,
    template_path_for_frame, ButtonFrameStep,
};
use texture_manager::report::ReportLevel;

fn sprite(name: &str, w: u32, h: u32) -> (String, u32, u32) {
    (name.to_string(), w, h)
}

#[test]
fn each_family_keeps_its_largest_size() {
    let sprites = vec![
        sprite("geode.loader/baseCross_Big_Red.png", 40, 40),
        sprite("geode.loader/baseCross_Small_Red.png", 20, 20),
        sprite("geode.loader/baseCross_Huge_Red.png", 50, 32),
        sprite("geode.loader/baseCircle_Big_Green.png", 30, 30),
        sprite("unrelated.png", 500, 500),
    ];
    let dims = build_family_largest_dims(&sprites);
    assert_eq!(dims.len(), 2);
    assert!(dims.contains(&("cross:error".to_string(), 40, 40)));
    assert!(dims.contains(&("circle:primary".to_string(), 30, 30)));
}

#[test]
fn largest_family_sprite_prefers_area_then_name() {
    let sprites = vec![
        sprite("geode.loader/baseCross_A_Red.png", 10, 40),
        sprite("geode.loader/baseCross_B_Red.png", 40, 10),
        sprite("geode.loader/baseCross_C_Red.png", 5, 5),
        sprite("geode.loader/baseCircle_Big_Green.png", 90, 90),
    ];
    assert_eq!(largest_family_sprite("cross:error", &sprites), Some(0));
    assert_eq!(largest_family_sprite("circle:primary", &sprites), Some(3));
    assert_eq!(largest_family_sprite("tabs", &sprites), None);
}

#[test]
fn templates_come_from_the_family_then_the_tab_states() {
    let family = vec![
        ("cross:error".to_string(), "cross.png".to_string()),
        ("tabs".to_string(), "tabs.png".to_string()),
    ];
    let selected = Some("selected.png".to_string());
    assert_eq!(
        template_path_for_frame(&family, &None, &None, &None, "geode.loader/baseCross_Big_Red.png"),
        Some("cross.png".to_string())
    );
    assert_eq!(
        template_path_for_frame(&family, &selected, &None, &None, "geode.loader/baseTab_Normal_Selected.png"),
        Some("selected.png".to_string())
    );
    assert_eq!(
        template_path_for_frame(&family, &selected, &None, &None, "geode.loader/baseTab_Normal_Unselected.png"),
        Some("tabs.png".to_string())
    );
    assert_eq!(
        template_path_for_frame(&family, &None, &None, &None, "geode.loader/baseCircle_Big_Green.png"),
        None
    );
}

#[test]
fn each_frame_is_redrawn_from_its_template_or_its_family() {
    let family = vec![("cross:error".to_string(), "cross.png".to_string())];
    assert_eq!(
        geode_button_frame_step(&family, &None, &None, &None, "geode.loader/baseCross_Big_Red.png"),
        ButtonFrameStep::Template("cross.png".to_string())
    );
    assert_eq!(
        geode_button_frame_step(&family, &None, &None, &None, "geode.loader/baseCircle_Big_Green.png"),
        ButtonFrameStep::FamilyBase("circle:primary".to_string())
    );
    assert_eq!(
        geode_button_frame_step(&family, &None, &None, &None, "GJ_button_01.png"),
        ButtonFrameStep::NotTarget
    );
}

#[test]
fn a_run_closes_with_a_warning_when_nothing_was_targeted_or_replaced() {
    let none = geode_buttons_summary_issue(0, 0, "GJ_GameSheet03-uhd").expect("issue");
    assert_eq!(none.level, ReportLevel::Warning);
    assert_eq!(none.message, "no target frames found in this sheet");
    assert_eq!(none.file, Some("GJ_GameSheet03-uhd".to_string()));
    let missing = geode_buttons_summary_issue(4, 0, "s").expect("issue");
    assert_eq!(missing.message, "no frames were replaced (likely missing templates)");
    assert_eq!(geode_buttons_summary_issue(4, 2, "s"), None);
}
