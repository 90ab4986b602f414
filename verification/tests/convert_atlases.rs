use texture_manager::convert_atlas::{
    append_sprites_below_atlas, clear_image, existing_texture_slot, gamesheet04_step, insert_missing_latest_frames, Gamesheet04Step,
    prepare_append_sprite, replace_sprites_in_atlas, rotate90_rgba, split_relocated_buttons,
    update_plist_metadata_size,
};
use texture_manager::report::ReportLevel;
use texture_manager::errors::AppError;
use texture_manager::image_alpha::RgbaBuffer;
use texture_manager::plist_tree::PlistNode;

fn text(s: &str) -> PlistNode {
    PlistNode::Text(s.to_string())
}

fn dict(entries: Vec<(&str, PlistNode)>) -> PlistNode {
    PlistNode::Dict(entries.into_iter().map(|(k, v)| (k.to_string(), v)).collect())
}

fn filled(w: u32, h: u32, p: [u8; 4]) -> RgbaBuffer {
    let mut data = Vec::new();
    for _ in 0..(w * h) {
        data.extend_from_slice(&p);
    }
    RgbaBuffer { width: w, height: h, data }
}

fn pixel(img: &RgbaBuffer, x: u32, y: u32) -> [u8; 4] {
    let k = ((y * img.width + x) * 4) as usize;
    [img.data[k], img.data[k + 1], img.data[k + 2], img.data[k + 3]]
}

fn put(img: &mut RgbaBuffer, x: u32, y: u32, p: [u8; 4]) {
    let k = ((y * img.width + x) * 4) as usize;
    img.data[k..k + 4].copy_from_slice(&p);
}

fn get<'a>(n: &'a PlistNode, key: &str) -> Option<&'a PlistNode> {
    match n {
        PlistNode::Dict(es) => es.iter().find(|(k, _)| k == key).map(|(_, v)| v),
        _ => None,
    }
}

fn text_at(n: &PlistNode, path: &[&str]) -> Option<String> {
    let mut cur = n;
    for key in path {
        cur = get(cur, key)?;
    }
    match cur {
        PlistNode::Text(s) => Some(s.clone()),
        _ => None,
    }
}

fn full_frame(rect: &str, size: &str) -> PlistNode {
    dict(vec![
        ("textureRect", text(rect)),
        ("spriteSize", text(size)),
        ("spriteOffset", text("{0,0}")),
        ("spriteSourceSize", text(size)),
        ("textureRotated", PlistNode::Bool(false)),
    ])
}

#[test]
fn append_sprites_below_atlas_keeps_original_pixels_and_records_new_frame() {
    let atlas = filled(8, 8, [255, 0, 0, 255]);
    let sprite = filled(2, 2, [0, 255, 0, 255]);
    let (frame, image) =
        prepare_append_sprite(full_frame("{{0,0},{2,2}}", "{2,2}"), &sprite, "{0.000,0.000}".to_string())
            .expect("prepare");
    let root = dict(vec![
        ("frames", dict(vec![("old.png", dict(vec![("textureRect", text("{{1,1},{4,4}}"))]))])),
        ("metadata", dict(vec![("format", PlistNode::Int(3)), ("size", text("{8,8}"))])),
    ]);
    let (out, root) =
        append_sprites_below_atlas(&atlas, root, &vec![("new.png".to_string(), frame, image)]).expect("append");
    assert!(out.height > 8);
    assert_eq!(pixel(&out, 0, 0), [255, 0, 0, 255]);
    assert!(get(get(&root, "frames").unwrap(), "old.png").is_some());
    assert!(get(get(&root, "frames").unwrap(), "new.png").is_some());
    assert_eq!(text_at(&root, &["frames", "old.png", "textureRect"]), Some("{{1,1},{4,4}}".to_string()));
}

#[test]
fn replace_sprites_in_atlas_overwrites_existing_slot_without_growing_height() {
    let mut atlas = filled(8, 8, [255, 0, 0, 255]);
    for y in 2..6 {
        for x in 2..6 {
            put(&mut atlas, x, y, [0, 0, 255, 255]);
        }
    }
    let replacement = filled(4, 4, [0, 255, 0, 255]);
    let frame = full_frame("{{2,2},{4,4}}", "{4,4}");
    let root = dict(vec![
        ("frames", dict(vec![("GJ_featuredBtn_001.png", full_frame("{{2,2},{4,4}}", "{4,4}"))])),
        ("metadata", dict(vec![("format", PlistNode::Int(3)), ("size", text("{8,8}"))])),
    ]);
    let (pframe, pimage) = prepare_append_sprite(frame, &replacement, "{0.000,0.000}".to_string()).expect("prepare");
    let (rect_text, rotated) = existing_texture_slot(&root, "GJ_featuredBtn_001.png").expect("slot");
    assert_eq!(rect_text, "{{2,2},{4,4}}");
    assert!(!rotated);
    let slots = vec![Some((2, 2, 4, 4, rotated))];
    let (out, root) =
        replace_sprites_in_atlas(&atlas, root, &vec![("GJ_featuredBtn_001.png".to_string(), pframe, pimage)], &slots)
            .expect("replace");
    assert_eq!(out.width, 8);
    assert_eq!(out.height, 8);
    assert_eq!(pixel(&out, 0, 0), [255, 0, 0, 255]);
    assert_eq!(pixel(&out, 2, 2), [0, 255, 0, 255]);
    assert_eq!(pixel(&out, 5, 5), [0, 255, 0, 255]);
    assert_eq!(
        text_at(&root, &["frames", "GJ_featuredBtn_001.png", "textureRect"]),
        Some("{{2,2},{4,4}}".to_string())
    );
}

#[test]
fn prepared_sprite_is_trimmed_and_its_frame_sized() {
    let mut sprite = filled(4, 3, [0, 0, 0, 0]);
    put(&mut sprite, 1, 1, [9, 9, 9, 255]);
    put(&mut sprite, 2, 1, [9, 9, 9, 255]);
    let (frame, image) =
        prepare_append_sprite(dict(vec![("textureRotated", PlistNode::Bool(true))]), &sprite, "{1.500,0.000}".to_string())
            .expect("prepare");
    assert_eq!((image.width, image.height), (2, 1));
    assert_eq!(text_at(&frame, &["spriteSize"]), Some("{2,1}".to_string()));
    assert_eq!(text_at(&frame, &["spriteSourceSize"]), Some("{2,1}".to_string()));
    assert_eq!(text_at(&frame, &["spriteOffset"]), Some("{1.500,0.000}".to_string()));
    assert_eq!(get(&frame, "textureRotated"), Some(&PlistNode::Bool(false)));
    assert!(prepare_append_sprite(text("x"), &sprite, String::new()).is_none());
}

#[test]
fn appended_sprites_pack_in_rows_with_gaps() {
    let atlas = filled(4, 2, [1, 2, 3, 255]);
    let a = filled(2, 2, [10, 0, 0, 255]);
    let b = filled(3, 1, [20, 0, 0, 255]);
    let root = dict(vec![("frames", dict(vec![]))]);
    let sprites = vec![
        ("a.png".to_string(), dict(vec![]), a),
        ("b.png".to_string(), dict(vec![]), b),
        ("c.png".to_string(), text("plain"), filled(1, 1, [30, 0, 0, 255])),
    ];
    let (out, root) = append_sprites_below_atlas(&atlas, root, &sprites).expect("append");
    // width: max(4, widest slot 4 + 2, 2) = 6; each sprite opens a row: (1,0), (1,3), (1,5)
    assert_eq!(out.width, 6);
    assert_eq!(out.height, 2 + 8);
    assert_eq!(pixel(&out, 0, 0), [1, 2, 3, 255]);
    assert_eq!(pixel(&out, 5, 0), [0, 0, 0, 0]);
    assert_eq!(pixel(&out, 1, 2), [10, 0, 0, 255]);
    assert_eq!(pixel(&out, 2, 3), [10, 0, 0, 255]);
    assert_eq!(pixel(&out, 0, 2), [0, 0, 0, 0]);
    assert_eq!(pixel(&out, 1, 5), [20, 0, 0, 255]);
    assert_eq!(pixel(&out, 3, 5), [20, 0, 0, 255]);
    assert_eq!(pixel(&out, 4, 5), [0, 0, 0, 0]);
    assert_eq!(pixel(&out, 1, 7), [30, 0, 0, 255]);
    assert_eq!(text_at(&root, &["frames", "a.png", "textureRect"]), Some("{{1,2},{2,2}}".to_string()));
    assert_eq!(text_at(&root, &["frames", "b.png", "textureRect"]), Some("{{1,5},{3,1}}".to_string()));
    assert_eq!(text_at(&root, &["frames", "c.png"]), Some("plain".to_string()));
    assert_eq!(text_at(&root, &["metadata", "size"]), Some("{6,10}".to_string()));
}

#[test]
fn appending_nothing_changes_nothing_and_errors_follow_the_sheet() {
    let atlas = filled(2, 2, [5, 5, 5, 255]);
    let root = text("not a sheet");
    let (out, back) = append_sprites_below_atlas(&atlas, root, &vec![]).expect("empty");
    assert_eq!((out.width, out.height, &out.data), (atlas.width, atlas.height, &atlas.data));
    assert_eq!(back, text("not a sheet"));
    let one = vec![("a.png".to_string(), dict(vec![]), filled(1, 1, [1, 1, 1, 255]))];
    assert_eq!(
        append_sprites_below_atlas(&atlas, dict(vec![("metadata", dict(vec![]))]), &one).err(),
        Some(AppError::ParseError("plist missing top-level `frames` dictionary".to_string()))
    );
    assert_eq!(
        append_sprites_below_atlas(&atlas, dict(vec![("frames", dict(vec![])), ("metadata", text("m"))]), &one).err(),
        Some(AppError::ParseError("metadata section must be dictionary".to_string()))
    );
}

#[test]
fn replacing_skips_frames_without_a_slot_and_turns_rotated_sprites() {
    let atlas = filled(4, 4, [7, 7, 7, 255]);
    let mut sprite = filled(2, 1, [0, 0, 0, 255]);
    put(&mut sprite, 0, 0, [1, 0, 0, 255]);
    put(&mut sprite, 1, 0, [2, 0, 0, 255]);
    let root = dict(vec![("frames", dict(vec![("r.png", dict(vec![]))]))]);
    let sprites = vec![
        ("skip.png".to_string(), dict(vec![]), filled(1, 1, [9, 9, 9, 255])),
        ("r.png".to_string(), dict(vec![]), sprite),
    ];
    let slots = vec![None, Some((3, 0, 1, 2, true))];
    let (out, root) = replace_sprites_in_atlas(&atlas, root, &sprites, &slots).expect("replace");
    assert_eq!((out.width, out.height), (4, 4));
    assert_eq!(pixel(&out, 3, 0), [1, 0, 0, 255]);
    assert_eq!(pixel(&out, 3, 1), [2, 0, 0, 255]);
    assert_eq!(pixel(&out, 2, 0), [7, 7, 7, 255]);
    assert!(get(get(&root, "frames").unwrap(), "skip.png").is_none());
    assert_eq!(text_at(&root, &["frames", "r.png", "textureRect"]), Some("{{3,0},{1,2}}".to_string()));
    assert_eq!(get(get(get(&root, "frames").unwrap(), "r.png").unwrap(), "textureRotated"), Some(&PlistNode::Bool(true)));
    assert_eq!(text_at(&root, &["metadata", "size"]), Some("{4,4}".to_string()));
}

#[test]
fn replacing_grows_only_as_far_as_a_slot_needs_and_clears_the_old_rect() {
    let atlas = filled(4, 4, [7, 7, 7, 255]);
    let root = dict(vec![("frames", dict(vec![]))]);
    let sprites = vec![("g.png".to_string(), dict(vec![]), filled(2, 2, [3, 3, 3, 255]))];
    let slots = vec![Some((3, 1, 1, 3, false))];
    let (out, _) = replace_sprites_in_atlas(&atlas, root, &sprites, &slots).expect("replace");
    assert_eq!((out.width, out.height), (5, 4));
    assert_eq!(pixel(&out, 0, 0), [7, 7, 7, 255]);
    assert_eq!(pixel(&out, 4, 0), [0, 0, 0, 0]);
    assert_eq!(pixel(&out, 4, 2), [3, 3, 3, 255]);
    assert_eq!(pixel(&out, 3, 3), [0, 0, 0, 0]);
}

#[test]
fn quarter_turn_moves_rows_to_columns() {
    let mut img = filled(2, 1, [0, 0, 0, 255]);
    put(&mut img, 1, 0, [5, 0, 0, 255]);
    let r = rotate90_rgba(&img);
    assert_eq!((r.width, r.height), (1, 2));
    assert_eq!(pixel(&r, 0, 1), [5, 0, 0, 255]);
    let c = clear_image(2, 3);
    assert_eq!(c.data, vec![0u8; 24]);
}

#[test]
fn metadata_size_is_recorded_or_refused() {
    let n = update_plist_metadata_size(dict(vec![("frames", dict(vec![]))]), 12, 34).expect("size");
    assert_eq!(text_at(&n, &["metadata", "size"]), Some("{12,34}".to_string()));
    assert_eq!(
        update_plist_metadata_size(text("x"), 1, 1).err(),
        Some(AppError::ParseError("plist root must be a dictionary".to_string()))
    );
    assert_eq!(
        update_plist_metadata_size(dict(vec![("metadata", PlistNode::Int(1))]), 1, 1).err(),
        Some(AppError::ParseError("metadata section must be dictionary".to_string()))
    );
}

#[test]
fn existing_slot_reads_rect_text_and_rotation() {
    let root = dict(vec![(
        "frames",
        dict(vec![
            ("a.png", dict(vec![("textureRect", text("{{1,2},{3,4}}")), ("textureRotated", PlistNode::Bool(true))])),
            ("b.png", dict(vec![("textureRect", PlistNode::Int(1))])),
        ]),
    )]);
    assert_eq!(existing_texture_slot(&root, "a.png"), Some(("{{1,2},{3,4}}".to_string(), true)));
    assert_eq!(existing_texture_slot(&root, "b.png"), None);
    assert_eq!(existing_texture_slot(&root, "c.png"), None);
}

#[test]
fn missing_latest_frames_are_copied_or_reported() {
    let root = dict(vec![("frames", dict(vec![("have.png", dict(vec![]))]))]);
    let cands = vec![
        ("a.png".to_string(), Some(filled(1, 1, [1, 1, 1, 255])), Some(dict(vec![("k", text("v"))]))),
        ("b.png".to_string(), None, Some(dict(vec![]))),
        ("c.png".to_string(), Some(filled(1, 1, [2, 2, 2, 255])), None),
    ];
    let (n, added, issues) = insert_missing_latest_frames("GJ_GameSheet03", root, Some(&cands)).expect("insert");
    assert_eq!(added.len(), 1);
    assert_eq!(added[0].0, "a.png");
    assert_eq!(added[0].1.data, vec![1, 1, 1, 255]);
    assert_eq!(text_at(&n, &["frames", "a.png", "k"]), Some("v".to_string()));
    assert!(get(get(&n, "frames").unwrap(), "have.png").is_some());
    assert_eq!(issues.len(), 3);
    assert_eq!(issues[0].message, "missing sprite payload in latest placeholder image");
    assert_eq!(issues[0].file, Some("b.png".to_string()));
    assert_eq!(issues[1].message, "missing sprite payload in latest placeholder plist");
    assert_eq!(issues[2].level, ReportLevel::Info);
    assert_eq!(issues[2].message, "copied 1 missing frame(s) from latest Geometry Dash Resources");
    assert_eq!(issues[2].file, Some("GJ_GameSheet03.plist".to_string()));

    let root = dict(vec![("frames", dict(vec![]))]);
    let (_, added, issues) = insert_missing_latest_frames("X", root, None).expect("no latest");
    assert!(added.is_empty());
    assert_eq!(issues[0].message, "no latest placeholder plist found for sheet");
    assert_eq!(issues[0].file, Some("X.plist".to_string()));
    assert_eq!(
        insert_missing_latest_frames("X", text("t"), None).err(),
        Some(AppError::ParseError("plist missing top-level `frames` dictionary".to_string()))
    );
}

#[test]
fn relocated_buttons_split_by_the_modern_sheet_frames() {
    let root = dict(vec![(
        "frames",
        dict(vec![("GJ_featuredBtn_001.png", dict(vec![("textureRect", text("{{2,2},{4,4}}"))]))]),
    )]);
    let relocated = vec![
        ("GJ_featuredBtn_001.png".to_string(), dict(vec![("old", text("1"))]), filled(1, 1, [1, 0, 0, 255])),
        ("GJ_searchBtn_001.png".to_string(), dict(vec![("old", text("2"))]), filled(1, 1, [2, 0, 0, 255])),
    ];
    let (rep, app) = split_relocated_buttons(&root, &relocated).expect("split");
    assert_eq!(rep.len(), 1);
    assert_eq!(rep[0].0, "GJ_featuredBtn_001.png");
    assert_eq!(text_at(&rep[0].1, &["textureRect"]), Some("{{2,2},{4,4}}".to_string()));
    assert_eq!(app.len(), 1);
    assert_eq!(app[0].0, "GJ_searchBtn_001.png");
    assert_eq!(text_at(&app[0].1, &["old"]), Some("2".to_string()));
    assert_eq!(app[0].2.data, vec![2, 0, 0, 255]);
}

#[test]
fn modern_gamesheet04_step_follows_what_is_there() {
    assert!(matches!(gamesheet04_step("-uhd", 0, false, true, true), Gamesheet04Step::Skip));
    match gamesheet04_step("-uhd", 2, false, false, false) {
        Gamesheet04Step::NotFound(i) => {
            assert_eq!(i.level, ReportLevel::Warning);
            assert_eq!(i.message, "modern `GJ_GameSheet04-uhd` not found in Geometry Dash Resources; skipped GameSheet04");
            assert_eq!(i.file, None);
        }
        _ => panic!("expected a warning"),
    }
    match gamesheet04_step("", 0, true, false, true) {
        Gamesheet04Step::CopyBase(from_output, i) => {
            assert!(!from_output);
            assert_eq!(i.message, "wrote `GJ_GameSheet04` from latest Geometry Dash Resources");
            assert_eq!(i.file, Some("GJ_GameSheet04.plist".to_string()));
        }
        _ => panic!("expected a copy"),
    }
    match gamesheet04_step("-hd", 3, false, true, false) {
        Gamesheet04Step::Relocate(from_output, i) => {
            assert!(from_output);
            assert_eq!(i.level, ReportLevel::Info);
            assert_eq!(i.message, "wrote `GJ_GameSheet04-hd` with 3 relocated 2.0 menu button(s)");
        }
        _ => panic!("expected the buttons to be relocated"),
    }
}
