use texture_manager::glow_alpha::{
    blur_alpha_box3, blur_alpha_box5, build_alpha_field, dilate_alpha_grayscale, disk_offsets,
    primary_whitening_alpha,
};
use texture_manager::image_alpha::RgbaBuffer;

#[test]
fn whitening_alpha_counts_any_visible_pixel() {
    assert_eq!(primary_whitening_alpha([10, 20, 30, 40]), 40);
    assert_eq!(primary_whitening_alpha([10, 90, 30, 0]), 90);
    assert_eq!(primary_whitening_alpha([0, 0, 0, 0]), 0);
}

#[test]
fn disk_offsets_cover_the_disk_row_by_row() {
    assert_eq!(disk_offsets(0), vec![(0, 0)]);
    assert_eq!(disk_offsets(1), vec![(0, -1), (-1, 0), (0, 0), (1, 0), (0, 1)]);
    let two = disk_offsets(2);
    assert_eq!(two.len(), 13);
    assert!(two.iter().all(|(dx, dy)| dx * dx + dy * dy <= 4));
}

#[test]
fn dilation_spreads_the_largest_alpha() {
    // 4x3 field with one bright cell at (1, 1).
    let mut field = vec![0u8; 12];
    field[4 + 1] = 200;
    field[0] = 10;
    let out = dilate_alpha_grayscale(&field, 4, 3, 1);
    assert_eq!(
        out,
        vec![
            10, 200, 0, 0, //
            200, 200, 200, 0, //
            0, 200, 0, 0,
        ]
    );
    assert_eq!(dilate_alpha_grayscale(&field, 4, 3, 0), field);
    let longer = [field.clone(), vec![7, 7]].concat();
    let out = dilate_alpha_grayscale(&longer, 4, 3, 1);
    assert_eq!(&out[12..], &[0, 0]);
    for (i, a) in field.iter().enumerate() {
        assert!(out[i] >= *a);
    }
}

#[test]
fn box_blurs_average_the_clipped_window() {
    let field = vec![9u8, 0, 0, 0, 0, 0, 0, 0, 0];
    let three = blur_alpha_box3(&field, 3, 3);
    assert_eq!(three, vec![2, 1, 0, 1, 1, 0, 0, 0, 0]);
    let five = blur_alpha_box5(&field, 3, 3);
    assert_eq!(five, vec![1; 9]);
    let flat = vec![100u8; 6];
    assert_eq!(blur_alpha_box3(&flat, 3, 2), flat);
}

#[test]
fn alpha_field_places_the_sprite_at_its_offset() {
    let primary = RgbaBuffer {
        width: 2,
        height: 1,
        data: vec![0, 0, 0, 50, 30, 60, 90, 0],
    };
    let field = build_alpha_field(&primary, 4, 3, 1, 1, 0);
    assert_eq!(field, vec![0, 0, 0, 0, 0, 50, 90, 0, 0, 0, 0, 0]);
    let seeded = build_alpha_field(&primary, 4, 3, 1, 1, 60);
    assert_eq!(seeded, vec![0, 0, 0, 0, 0, 0, 90, 0, 0, 0, 0, 0]);
    let clipped = build_alpha_field(&primary, 2, 1, 1, 0, 0);
    assert_eq!(clipped, vec![0, 50]);
}

#[test]
fn the_finished_glow_is_white_where_either_alpha_is_set() {
    let interior = vec![0u8, 200, 0, 10];
    let stroke = vec![0u8, 50, 70, 90];
    let out = texture_manager::glow_alpha::white_glow_from_alphas(&interior, &stroke, 2, 2);
    assert_eq!((out.width, out.height), (2, 2));
    assert_eq!(out.data, vec![0, 0, 0, 0, 255, 255, 255, 200, 255, 255, 255, 70, 255, 255, 255, 90]);
}
