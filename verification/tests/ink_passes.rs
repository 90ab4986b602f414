use texture_manager::image_alpha::RgbaBuffer;
use texture_manager::ink_finish::{
    clear_soft_ink_haze, close_nearly_opaque_ink_cores, dist_sq_to_solid_core, ink_pixel_faces_outside,
    FAR_FROM_CORE,
};

fn canvas(width: u32, height: u32, px: [u8; 4]) -> RgbaBuffer {
    let mut data = Vec::with_capacity((width * height * 4) as usize);
    for _ in 0..(width * height) {
        data.extend_from_slice(&px);
    }
    RgbaBuffer { width, height, data }
}

fn put_pixel(img: &mut RgbaBuffer, x: u32, y: u32, px: [u8; 4]) {
    let i = ((y * img.width + x) * 4) as usize;
    img.data[i..i + 4].copy_from_slice(&px);
}

fn get_pixel(img: &RgbaBuffer, x: u32, y: u32) -> [u8; 4] {
    let i = ((y * img.width + x) * 4) as usize;
    [img.data[i], img.data[i + 1], img.data[i + 2], img.data[i + 3]]
}

#[test]
fn close_nearly_opaque_ink_does_not_thicken_soft_smear() {
    let mut img = canvas(14, 10, [0, 0, 0, 0]);
    for y in 3..7 {
        for x in 3..10 {
            put_pixel(&mut img, x, y, [0, 0, 0, 110]);
        }
    }
    let out = close_nearly_opaque_ink_cores(&img);
    assert_eq!(get_pixel(&out, 6, 5)[3], 110);
}

#[test]
fn close_nearly_opaque_ink_fills_interior_holes() {
    let mut img = canvas(14, 10, [0, 0, 0, 0]);
    for y in 3..7 {
        for x in 3..10 {
            put_pixel(&mut img, x, y, [0, 0, 0, 255]);
        }
    }
    put_pixel(&mut img, 6, 5, [0, 0, 0, 210]);
    let out = close_nearly_opaque_ink_cores(&img);
    assert_eq!(get_pixel(&out, 6, 5), [0, 0, 0, 255]);
    assert_eq!(get_pixel(&out, 3, 5), [0, 0, 0, 255]);
}

#[test]
fn close_nearly_opaque_ink_solidifies_high_alpha_on_silhouette() {
    let mut img = canvas(10, 10, [0, 0, 0, 0]);
    for y in 3..7 {
        put_pixel(&mut img, 4, y, [18, 18, 18, 220]);
    }
    let out = close_nearly_opaque_ink_cores(&img);
    assert_eq!(get_pixel(&out, 4, 5), [0, 0, 0, 255]);
}

#[test]
fn close_nearly_opaque_ink_normalizes_opaque_near_black_rgb() {
    let mut img = canvas(8, 8, [0, 0, 0, 0]);
    put_pixel(&mut img, 3, 3, [8, 8, 8, 255]);
    let out = close_nearly_opaque_ink_cores(&img);
    assert_eq!(get_pixel(&out, 3, 3), [0, 0, 0, 255]);
}

#[test]
fn close_cores_leaves_white_and_gray_fill() {
    let mut img = canvas(4, 4, [0, 0, 0, 0]);
    put_pixel(&mut img, 1, 1, [255, 255, 255, 230]);
    put_pixel(&mut img, 2, 1, [120, 120, 120, 255]);
    let out = close_nearly_opaque_ink_cores(&img);
    assert_eq!(get_pixel(&out, 1, 1), [255, 255, 255, 230]);
    assert_eq!(get_pixel(&out, 2, 1), [120, 120, 120, 255]);
    assert_eq!(out.width, 4);
    assert_eq!(out.height, 4);
}

#[test]
fn ink_on_the_edge_faces_outside_and_interior_ink_does_not() {
    let mut img = canvas(5, 5, [0, 0, 0, 0]);
    for y in 1..4 {
        for x in 1..4 {
            put_pixel(&mut img, x, y, [0, 0, 0, 255]);
        }
    }
    assert!(ink_pixel_faces_outside(&img, 1, 1));
    assert!(!ink_pixel_faces_outside(&img, 2, 2));
    let full = canvas(3, 3, [0, 0, 0, 255]);
    assert!(ink_pixel_faces_outside(&full, 0, 1));
    assert!(!ink_pixel_faces_outside(&full, 1, 1));
}

#[test]
fn soft_haze_on_the_silhouette_is_cleared_and_hard_ink_stays() {
    let mut img = canvas(5, 5, [0, 0, 0, 0]);
    for y in 1..4 {
        for x in 1..4 {
            put_pixel(&mut img, x, y, [0, 0, 0, 255]);
        }
    }
    put_pixel(&mut img, 1, 2, [10, 10, 10, 40]);
    put_pixel(&mut img, 2, 2, [10, 10, 10, 40]);
    put_pixel(&mut img, 3, 1, [255, 255, 255, 40]);
    let out = clear_soft_ink_haze(&img, 128);
    assert_eq!(get_pixel(&out, 1, 2), [0, 0, 0, 0]);
    assert_eq!(get_pixel(&out, 2, 2), [10, 10, 10, 40]);
    assert_eq!(get_pixel(&out, 3, 1), [255, 255, 255, 40]);
    assert_eq!(get_pixel(&out, 1, 1), [0, 0, 0, 255]);
}

#[test]
fn core_distance_is_zero_on_the_core_and_squared_nearby() {
    let w = 12u32;
    let h = 3u32;
    let mut mask = vec![false; (w * h) as usize];
    mask[(1 * w + 1) as usize] = true;
    let dist = dist_sq_to_solid_core(&mask, w, h);
    assert_eq!(dist.len(), mask.len());
    assert_eq!(dist[(1 * w + 1) as usize], 0);
    assert_eq!(dist[(1 * w + 2) as usize], 1);
    assert_eq!(dist[(0 * w + 2) as usize], 2);
    assert_eq!(dist[(1 * w + 5) as usize], 16);
    assert_eq!(dist[(2 * w + 5) as usize], 17);
    assert_eq!(dist[(1 * w + 6) as usize], FAR_FROM_CORE);
    assert_eq!(FAR_FROM_CORE, u32::MAX / 4);
}

#[test]
fn core_distance_leaves_cells_past_the_grid_far() {
    let mask = vec![true, true, true, true, true];
    let dist = dist_sq_to_solid_core(&mask, 2, 2);
    assert_eq!(dist, vec![0, 0, 0, 0, FAR_FROM_CORE]);
}

#[test]
fn closing_cores_keeps_transparent_pixels_transparent() {
    let mut img = canvas(6, 6, [0, 0, 0, 0]);
    for y in 1..5 {
        for x in 1..5 {
            put_pixel(&mut img, x, y, [12, 12, 12, 230]);
        }
    }
    put_pixel(&mut img, 2, 2, [40, 40, 40, 0]);
    let out = close_nearly_opaque_ink_cores(&img);
    for y in 0..6 {
        for x in 0..6 {
            if get_pixel(&img, x, y)[3] == 0 {
                assert_eq!(get_pixel(&out, x, y), get_pixel(&img, x, y));
            }
        }
    }
    assert_eq!(get_pixel(&out, 1, 1), [0, 0, 0, 255]);
}
