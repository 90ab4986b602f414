use texture_manager::errors::AppError;
use texture_manager::leftover_sheet::leftover_sheet_plist;
use texture_manager::plist_tree::PlistNode;

fn text(s: &str) -> PlistNode {
    PlistNode::Text(s.to_string())
}

fn dict(entries: Vec<(&str, PlistNode)>) -> PlistNode {
    PlistNode::Dict(entries.into_iter().map(|(k, v)| (k.to_string(), v)).collect())
}

fn strings(list: &[&str]) -> Vec<String> {
    list.iter().map(|s| s.to_string()).collect()
}

#[test]
fn the_rewritten_gamesheet_keeps_the_other_frames_in_name_order() {
    let source = dict(vec![
        (
            "frames",
            dict(vec![
                ("zeta_001.png", PlistNode::Leaf(1)),
                ("player_02_001.png", PlistNode::Leaf(2)),
                ("fireBoost_001.png", PlistNode::Leaf(3)),
                ("alpha_001.png", PlistNode::Leaf(4)),
                ("nosprite_001.png", PlistNode::Leaf(5)),
            ]),
        ),
        (
            "metadata",
            dict(vec![("format", PlistNode::Leaf(6)), ("size", text("{1,1}")), ("pixelFormat", text("RGBA8888"))]),
        ),
    ]);
    let sprites = strings(&["zeta_001.png", "player_02_001.png", "fireBoost_001.png", "alpha_001.png"]);
    let (out, gone) = leftover_sheet_plist(
        &source,
        false,
        &strings(&["player_02"]),
        &Vec::new(),
        &sprites,
        "GJ_GameSheet02-uhd",
    )
    .expect("rewrite");
    assert_eq!(gone, 2);
    let expected = dict(vec![
        ("frames", dict(vec![("alpha_001.png", PlistNode::Leaf(4)), ("zeta_001.png", PlistNode::Leaf(1))])),
        (
            "metadata",
            dict(vec![
                ("format", PlistNode::Leaf(6)),
                ("pixelFormat", text("RGBA8888")),
                ("textureFileName", text("GJ_GameSheet02-uhd.png")),
                ("realTextureFileName", text("GJ_GameSheet02-uhd.png")),
            ]),
        ),
    ]);
    assert_eq!(out, Some(expected));
}

#[test]
fn a_glow_sheet_left_empty_is_not_written() {
    let source = dict(vec![("frames", dict(vec![("player_02_glow_001.png", PlistNode::Leaf(1))]))]);
    let (out, gone) = leftover_sheet_plist(
        &source,
        true,
        &strings(&["player_02"]),
        &Vec::new(),
        &strings(&["player_02_glow_001.png"]),
        "GJ_GameSheetGlow-uhd",
    )
    .expect("rewrite");
    assert_eq!((out, gone), (None, 1));
    assert_eq!(
        leftover_sheet_plist(&text("x"), true, &Vec::new(), &Vec::new(), &Vec::new(), "s").err(),
        Some(AppError::ParseError("plist missing top-level `frames` dictionary".to_string()))
    );
}

#[test]
fn a_new_icon_sheet_names_its_texture_under_icons() {
    let source = dict(vec![
        ("frames", dict(vec![])),
        ("metadata", dict(vec![("premultiplyAlpha", PlistNode::Bool(false)), ("format", PlistNode::Int(2))])),
    ]);
    let frames = vec![
        ("player_02_001.png".to_string(), PlistNode::Leaf(1)),
        ("player_02_2_001.png".to_string(), PlistNode::Leaf(2)),
    ];
    let out = texture_manager::leftover_sheet::build_icon_plist_from_frames(&frames, &source, "player_02-uhd")
        .expect("build");
    let expected = dict(vec![
        ("frames", dict(vec![("player_02_001.png", PlistNode::Leaf(1)), ("player_02_2_001.png", PlistNode::Leaf(2))])),
        (
            "metadata",
            dict(vec![
                ("premultiplyAlpha", PlistNode::Bool(false)),
                ("format", PlistNode::Int(3)),
                ("textureFileName", text("icons/player_02-uhd.png")),
                ("realTextureFileName", text("icons/player_02-uhd.png")),
            ]),
        ),
    ]);
    assert_eq!(out, expected);
}
