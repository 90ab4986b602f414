use texture_manager::errors::AppError;
use texture_manager::merge_sheet::{format_size, merge_sheet_layout, plan_merged_frames, write_merged_sheet};
use texture_manager::merger::PackPlacement;
use texture_manager::plist_tree::PlistNode;
use texture_manager::report::ReportLevel;

fn text(s: &str) -> PlistNode {
    PlistNode::Text(s.to_string())
}

fn dict(entries: Vec<(&str, PlistNode)>) -> PlistNode {
    PlistNode::Dict(entries.into_iter().map(|(k, v)| (k.to_string(), v)).collect())
}

fn sheet() -> PlistNode {
    dict(vec![
        (
            "frames",
            dict(vec![
                ("b.png", dict(vec![("spriteOffset", text("{0,0}"))])),
                ("a.png", dict(vec![])),
                ("c.png", text("not a frame")),
                ("d.png", dict(vec![])),
            ]),
        ),
        ("metadata", dict(vec![("format", PlistNode::Leaf(0))])),
    ])
}

#[test]
fn merge_plan_takes_frames_in_name_order_and_reports_the_rest() {
    let sprites = vec![("b.png".to_string(), 3, 4), ("a.png".to_string(), 0, 2)];
    let (placements, issues) = plan_merged_frames(&sheet(), &sprites).expect("plan");
    let slots: Vec<(String, u32, u32)> =
        placements.iter().map(|p| (p.name.clone(), p.width, p.height)).collect();
    assert_eq!(slots, vec![("a.png".to_string(), 1, 2), ("b.png".to_string(), 3, 4)]);
    assert_eq!(issues.len(), 2);
    assert_eq!(issues[0].level, ReportLevel::Warning);
    assert_eq!(issues[0].message, "frame entry is not a dictionary; skipping");
    assert_eq!(issues[0].file, Some("c.png".to_string()));
    assert_eq!(issues[1].message, "sprite file not found; skipping");
    assert_eq!(issues[1].file, Some("d.png".to_string()));
}

#[test]
fn merge_plan_needs_a_frames_dictionary() {
    let root = dict(vec![("metadata", dict(vec![]))]);
    let out = plan_merged_frames(&root, &Vec::new());
    assert_eq!(
        out.err(),
        Some(AppError::ParseError("plist missing top-level `frames` dictionary".to_string()))
    );
    let out = plan_merged_frames(&text("x"), &Vec::new());
    assert_eq!(out.err(), Some(AppError::ParseError("plist root must be a dictionary".to_string())));
}

#[test]
fn size_text_is_braced_pair() {
    assert_eq!(format_size(12, 340), "{12,340}");
}

#[test]
fn written_sheet_records_each_packed_frame_and_the_atlas_size() {
    let placements = vec![PackPlacement { name: "b.png".to_string(), width: 3, height: 4, x: 1, y: 7 }];
    let out = write_merged_sheet(sheet(), &placements, 10, 0).expect("write");
    let expected = dict(vec![
        (
            "frames",
            dict(vec![
                (
                    "b.png",
                    dict(vec![
                        ("spriteOffset", text("{0,0}")),
                        ("textureRotated", PlistNode::Bool(false)),
                        ("spriteSize", text("{3,4}")),
                        ("spriteSourceSize", text("{3,4}")),
                        ("textureRect", text("{{1,7},{3,4}}")),
                    ]),
                ),
                ("a.png", dict(vec![])),
                ("c.png", text("not a frame")),
                ("d.png", dict(vec![])),
            ]),
        ),
        (
            "metadata",
            dict(vec![("format", PlistNode::Leaf(0)), ("size", text("{10,1}"))]),
        ),
    ]);
    assert_eq!(out, expected);
}

#[test]
fn written_sheet_adds_metadata_when_missing_and_refuses_a_bad_one() {
    let root = dict(vec![("frames", dict(vec![]))]);
    let out = write_merged_sheet(root, &Vec::new(), 2, 2).expect("write");
    assert_eq!(
        out,
        dict(vec![("frames", dict(vec![])), ("metadata", dict(vec![("size", text("{2,2}"))]))])
    );
    let bad = dict(vec![("frames", dict(vec![])), ("metadata", text("x"))]);
    assert_eq!(
        write_merged_sheet(bad, &Vec::new(), 2, 2),
        Err(AppError::ParseError("metadata section must be dictionary".to_string()))
    );
}

#[test]
fn a_whole_merge_packs_the_planned_frames_and_records_them() {
    let sprites = vec![("b.png".to_string(), 3, 4), ("a.png".to_string(), 0, 2)];
    let merged = merge_sheet_layout(sheet(), &sprites, 10).expect("merge");
    assert_eq!(merged.issues.len(), 2);
    assert_eq!(merged.placements.len(), 2);
    let (a, b) = (&merged.placements[0], &merged.placements[1]);
    assert_eq!((b.name.as_str(), a.name.as_str()), ("a.png", "b.png"));
    let apart = a.x + a.width + 1 <= b.x || b.x + b.width + 1 <= a.x || a.y + a.height + 1 <= b.y || b.y + b.height + 1 <= a.y;
    assert!(apart);
    assert!(a.x >= 1 && a.y >= 1 && b.x >= 1 && b.y >= 1);
    let expected_size = format_size(merged.width, merged.height);
    match &merged.plist {
        PlistNode::Dict(es) => {
            let meta = es.iter().find(|(k, _)| k == "metadata").expect("metadata");
            match &meta.1 {
                PlistNode::Dict(md) => assert!(md.iter().any(|(k, v)| k == "size" && *v == PlistNode::Text(expected_size.clone()))),
                _ => panic!("metadata is not a dictionary"),
            }
        }
        _ => panic!("root is not a dictionary"),
    }
}
