use texture_manager::errors::AppError;
use texture_manager::plist_tree::PlistNode;
use texture_manager::sheet_edits::remove_extra_frames;

fn dict(entries: Vec<(&str, PlistNode)>) -> PlistNode {
    PlistNode::Dict(entries.into_iter().map(|(k, v)| (k.to_string(), v)).collect())
}

#[test]
fn removed_extra_frames_leave_and_the_last_frame_takes_their_place() {
    let root = dict(vec![(
        "frames",
        dict(vec![
            ("player_01_001.png", PlistNode::Leaf(1)),
            ("player_01_extra_001.png", PlistNode::Leaf(2)),
            ("player_01_2_001.png", PlistNode::Leaf(3)),
            ("player_01_glow_001.png", PlistNode::Leaf(4)),
        ]),
    )]);
    let removed = vec![
        "  player_01_extra_001.png ".to_string(),
        "player_01_2_001.png".to_string(),
        "missing_extra_001.png".to_string(),
    ];
    let out = remove_extra_frames(root, &removed).expect("remove");
    let expected = dict(vec![(
        "frames",
        dict(vec![
            ("player_01_001.png", PlistNode::Leaf(1)),
            ("player_01_glow_001.png", PlistNode::Leaf(4)),
            ("player_01_2_001.png", PlistNode::Leaf(3)),
        ]),
    )]);
    assert_eq!(out, expected);
}

#[test]
fn no_removal_request_hands_the_list_back() {
    let out = remove_extra_frames(PlistNode::Leaf(9), &Vec::new());
    assert_eq!(out, Ok(PlistNode::Leaf(9)));
    let err = remove_extra_frames(PlistNode::Leaf(9), &vec!["a_extra_001.png".to_string()]);
    assert_eq!(err, Err(AppError::ParseError("plist root must be a dictionary".to_string())));
}
