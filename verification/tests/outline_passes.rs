use texture_manager::image_alpha::RgbaBuffer;
use texture_manager::outline_aa::{
    enforce_outline_aa_falloff, falloff_cap, refine_outline_boundary_aa, solid_core_mask, MAX_AA_ALPHA,
};

fn canvas(width: u32, height: u32, px: [u8; 4]) -> RgbaBuffer {
    let mut data = Vec::with_capacity((width * height * 4) as usize);
    for _ in 0..(width * height) {
        data.extend_from_slice(&px);
    }
    RgbaBuffer { width, height, data }
}

fn put_pixel(img: &mut RgbaBuffer, x: u32, y: u32, px: [u8; 4]) {
    let i = ((y * img.width + x) * 4) as usize;
    img.data[i..i + 4].copy_from_slice(&px);
}

fn get_pixel(img: &RgbaBuffer, x: u32, y: u32) -> [u8; 4] {
    let i = ((y * img.width + x) * 4) as usize;
    [img.data[i], img.data[i + 1], img.data[i + 2], img.data[i + 3]]
}

fn boost_existing_aa_alpha(alpha: u8) -> u8 {
    const GAMMA: f32 = 0.38;
    if alpha == 0 || alpha >= 230 {
        return alpha;
    }
    let t = f32::from(alpha) / 255.0;
    let lifted = (t.powf(GAMMA) * 255.0).round() as u8;
    lifted.max(alpha).min(230)
}

fn boost_table() -> Vec<u8> {
    (0..=255u8).map(boost_existing_aa_alpha).collect()
}

#[test]
fn boundary_aa_pass_raises_existing_fringe_without_thickening() {
    let mut img = canvas(16, 12, [0, 0, 0, 0]);
    for y in 3..9 {
        for x in 5..11 {
            put_pixel(&mut img, x, y, [0, 0, 0, 255]);
        }
        put_pixel(&mut img, 4, y, [0, 0, 0, 90]);
    }
    let out = refine_outline_boundary_aa(&img, false, &boost_table());
    let fringe = get_pixel(&out, 4, 5)[3];
    assert!(fringe > 90 && fringe < 255, "existing fringe must become more opaque AA, α={fringe}");
    assert_eq!(get_pixel(&out, 7, 6), [0, 0, 0, 255], "interior stays solid");
    assert_eq!(get_pixel(&out, 3, 5)[3], 0, "must not add outward pixels");
    for y in 0..12 {
        for x in 0..16 {
            if get_pixel(&img, x, y)[3] == 0 {
                assert_eq!(get_pixel(&out, x, y)[3], 0, "empty must stay empty at {x},{y}");
            }
        }
    }
}

#[test]
fn outline_aa_falloff_fixes_inverted_opacities() {
    let mut img = canvas(12, 10, [0, 0, 0, 0]);
    for y in 2..8 {
        for x in 5..9 {
            put_pixel(&mut img, x, y, [0, 0, 0, 255]);
        }
    }
    put_pixel(&mut img, 4, 5, [0, 0, 0, 50]);
    put_pixel(&mut img, 3, 5, [0, 0, 0, 170]);
    let out = refine_outline_boundary_aa(&img, false, &boost_table());
    let inner = get_pixel(&out, 4, 5)[3];
    let outer = get_pixel(&out, 3, 5)[3];
    assert!(inner > 0 && outer > 0, "existing fringe stays occupied");
    assert!(inner >= outer, "closer fringe must not be more transparent than further: inner={inner} outer={outer}");
    assert!(inner < 255 && outer < 255, "must remain AA, not solid");
    assert_eq!(get_pixel(&out, 2, 5)[3], 0, "must not add a third ring");
    assert_eq!(get_pixel(&out, 6, 5), [0, 0, 0, 255], "core stays solid");
}

#[test]
fn falloff_cap_is_sixty_eight_percent_rounded() {
    for a in 0..=255u8 {
        let expected = (f32::from(a) * 0.68).round() as u8;
        assert_eq!(falloff_cap(a), expected, "alpha {a}");
    }
    assert_eq!(falloff_cap(100), 68);
    assert_eq!(falloff_cap(255), 173);
}

#[test]
fn falloff_lifts_inner_fringe_to_the_outer_alpha_then_caps_the_outer() {
    let mut img = canvas(12, 10, [0, 0, 0, 0]);
    for y in 2..8 {
        for x in 5..9 {
            put_pixel(&mut img, x, y, [0, 0, 0, 255]);
        }
    }
    put_pixel(&mut img, 4, 5, [0, 0, 0, 50]);
    put_pixel(&mut img, 3, 5, [0, 0, 0, 170]);
    let out = enforce_outline_aa_falloff(&img, false);
    assert_eq!(get_pixel(&out, 4, 5), [0, 0, 0, 170]);
    assert_eq!(get_pixel(&out, 3, 5), [0, 0, 0, 116]);
    assert_eq!(get_pixel(&out, 6, 5), [0, 0, 0, 255]);
}

#[test]
fn falloff_caps_alpha_at_the_aa_limit() {
    let mut img = canvas(12, 10, [0, 0, 0, 0]);
    for y in 2..8 {
        for x in 5..9 {
            put_pixel(&mut img, x, y, [0, 0, 0, 255]);
        }
    }
    put_pixel(&mut img, 4, 5, [0, 0, 0, 240]);
    let out = enforce_outline_aa_falloff(&img, false);
    assert_eq!(get_pixel(&out, 4, 5), [0, 0, 0, MAX_AA_ALPHA]);
}

#[test]
fn small_images_pass_through_the_outline_passes() {
    let mut img = canvas(2, 5, [0, 0, 0, 0]);
    put_pixel(&mut img, 1, 1, [0, 0, 0, 90]);
    let out = enforce_outline_aa_falloff(&img, false);
    assert_eq!(out.data, img.data);
    let refined = refine_outline_boundary_aa(&img, false, &boost_table());
    assert_eq!(refined.data, img.data);
}

#[test]
fn occupancy_mode_keeps_fringe_colour() {
    let mut img = canvas(12, 10, [0, 0, 0, 0]);
    for y in 2..8 {
        for x in 5..9 {
            put_pixel(&mut img, x, y, [90, 90, 90, 255]);
        }
    }
    put_pixel(&mut img, 4, 5, [90, 90, 90, 240]);
    let out = enforce_outline_aa_falloff(&img, true);
    assert_eq!(get_pixel(&out, 4, 5), [90, 90, 90, MAX_AA_ALPHA]);
}

#[test]
fn solid_core_mask_marks_opaque_black_only() {
    let mut img = canvas(3, 1, [0, 0, 0, 0]);
    put_pixel(&mut img, 0, 0, [0, 0, 0, 255]);
    put_pixel(&mut img, 1, 0, [90, 90, 90, 255]);
    put_pixel(&mut img, 2, 0, [0, 0, 0, 200]);
    assert_eq!(solid_core_mask(&img, false), vec![true, false, false]);
    assert_eq!(solid_core_mask(&img, true), vec![true, true, false]);
}
