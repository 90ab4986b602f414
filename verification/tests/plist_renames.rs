use texture_manager::errors::AppError;
use texture_manager::plist_tree::{
    rename_all_string_values, rename_plist_sheet_identifiers, PlistNode,
};

fn text(s: &str) -> PlistNode {
    PlistNode::Text(s.to_string())
}

fn dict(entries: Vec<(&str, PlistNode)>) -> PlistNode {
    PlistNode::Dict(entries.into_iter().map(|(k, v)| (k.to_string(), v)).collect())
}

#[test]
fn unchanged_names_hand_the_list_back_as_it_is() {
    let out = rename_plist_sheet_identifiers(text("player_01-uhd.png"), "player_01", "player_01", "player_01", "player_01");
    assert_eq!(out, Ok(text("player_01-uhd.png")));
}

#[test]
fn renaming_needs_a_dictionary_root() {
    let root = PlistNode::List(vec![text("player_01-uhd.png")]);
    let out = rename_plist_sheet_identifiers(root, "player_01", "player_05", "player_01", "player_05");
    assert_eq!(
        out,
        Err(AppError::ParseError("plist root must be a dictionary".to_string()))
    );
}

#[test]
fn frames_keys_and_text_values_are_renamed() {
    let root = dict(vec![
        (
            "frames",
            dict(vec![
                (
                    "player_01_001.png",
                    dict(vec![
                        ("textureRotated", PlistNode::Leaf(0)),
                        ("aliases", PlistNode::List(vec![text("player_01_001.png")])),
                    ]),
                ),
                ("player_01_2_001.png", dict(vec![("spriteSize", text("{10,12}"))])),
            ]),
        ),
        (
            "metadata",
            dict(vec![
                ("realTextureFileName", text("player_01-uhd.png")),
                ("textureFileName", text("player_01-uhd.png")),
                ("player_01", text("kept key")),
            ]),
        ),
    ]);
    let expected = dict(vec![
        (
            "frames",
            dict(vec![
                (
                    "player_05_001.png",
                    dict(vec![
                        ("textureRotated", PlistNode::Leaf(0)),
                        ("aliases", PlistNode::List(vec![text("player_05_001.png")])),
                    ]),
                ),
                ("player_05_2_001.png", dict(vec![("spriteSize", text("{10,12}"))])),
            ]),
        ),
        (
            "metadata",
            dict(vec![
                ("realTextureFileName", text("player_05-uhd.png")),
                ("textureFileName", text("player_05-uhd.png")),
                ("player_01", text("kept key")),
            ]),
        ),
    ]);
    let out = rename_plist_sheet_identifiers(root, "player_01-uhd", "player_05-uhd", "player_01", "player_05");
    assert_eq!(out, Ok(expected));
}

#[test]
fn frames_that_meet_under_one_name_keep_the_first_place_and_the_last_value() {
    let root = dict(vec![(
        "frames",
        dict(vec![
            ("ship_01_001.png", PlistNode::Leaf(1)),
            ("other.png", PlistNode::Leaf(2)),
            ("ship_02_001.png", PlistNode::Leaf(3)),
        ]),
    )]);
    let out = rename_plist_sheet_identifiers(root, "ship_02", "ship_01", "ship_02", "ship_01");
    let expected = dict(vec![(
        "frames",
        dict(vec![
            ("ship_01_001.png", PlistNode::Leaf(3)),
            ("other.png", PlistNode::Leaf(2)),
        ]),
    )]);
    assert_eq!(out, Ok(expected));
}

#[test]
fn a_frames_entry_that_is_not_a_dictionary_only_has_its_text_renamed() {
    let root = dict(vec![("frames", text("bird_01_001.png"))]);
    let out = rename_plist_sheet_identifiers(root, "bird_01", "bird_02", "", "");
    assert_eq!(out, Ok(dict(vec![("frames", text("bird_02_001.png"))])));
}

#[test]
fn every_text_in_a_tree_is_renamed_and_other_values_stay() {
    let tree = PlistNode::List(vec![
        text("robot_03_001.png"),
        PlistNode::Leaf(7),
        dict(vec![("robot_03", text("robot_03_glow_001.png"))]),
    ]);
    let out = rename_all_string_values(&tree, "robot_03", "robot_04", "", "");
    let expected = PlistNode::List(vec![
        text("robot_04_001.png"),
        PlistNode::Leaf(7),
        dict(vec![("robot_03", text("robot_04_glow_001.png"))]),
    ]);
    assert_eq!(out, expected);
}
