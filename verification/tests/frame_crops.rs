use texture_manager::frame_crop::extract_frame_sprite_from_atlas;
use texture_manager::icon_editor::{IconEditorRect, IconEditorSize};
use texture_manager::image_alpha::RgbaBuffer;

/// A `w × h` atlas whose pixel `(x, y)` is `[v, v, v, v]` with `v = 10 y + x + 1`.
fn atlas(w: u32, h: u32) -> RgbaBuffer {
    let mut data = Vec::new();
    for y in 0..h {
        for x in 0..w {
            let v = (10 * y + x + 1) as u8;
            data.extend_from_slice(&[v, v, v, v]);
        }
    }
    RgbaBuffer { width: w, height: h, data }
}

fn values(b: &RgbaBuffer) -> Vec<u8> {
    b.data.chunks(4).map(|p| p[0]).collect()
}

#[test]
fn an_upright_frame_is_its_rectangle() {
    let a = atlas(4, 3);
    let out = extract_frame_sprite_from_atlas(
        &a,
        &IconEditorRect { x: 1, y: 1, width: 2, height: 2 },
        IconEditorSize { width: 2, height: 2 },
        false,
    );
    assert_eq!((out.width, out.height), (2, 2));
    assert_eq!(values(&out), vec![12, 13, 22, 23]);
}

#[test]
fn a_rotated_frame_is_turned_back_upright() {
    let a = atlas(3, 2);
    let out = extract_frame_sprite_from_atlas(
        &a,
        &IconEditorRect { x: 0, y: 0, width: 3, height: 2 },
        IconEditorSize { width: 2, height: 3 },
        true,
    );
    assert_eq!((out.width, out.height), (2, 3));
    assert_eq!(values(&out), vec![3, 13, 2, 12, 1, 11]);
}

#[test]
fn a_frame_past_the_atlas_edge_is_clipped_and_padded() {
    let a = atlas(3, 2);
    let out = extract_frame_sprite_from_atlas(
        &a,
        &IconEditorRect { x: 2, y: 1, width: 2, height: 2 },
        IconEditorSize { width: 2, height: 2 },
        false,
    );
    assert_eq!((out.width, out.height), (2, 2));
    assert_eq!(values(&out), vec![13, 0, 0, 0]);
}

#[test]
fn a_frame_outside_the_atlas_is_one_clear_pixel() {
    let a = atlas(3, 2);
    let out = extract_frame_sprite_from_atlas(
        &a,
        &IconEditorRect { x: 3, y: 0, width: 2, height: 2 },
        IconEditorSize { width: 5, height: 5 },
        false,
    );
    assert_eq!((out.width, out.height), (1, 1));
    assert_eq!(out.data, vec![0, 0, 0, 0]);
}
