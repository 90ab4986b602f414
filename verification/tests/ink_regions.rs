use texture_manager::contours::{extract_ink_contours, moore_trace_contour};
use texture_manager::holes::{contour_hugs_mask, extract_secondary_holes};
use texture_manager::image_alpha::RgbaBuffer;
use texture_manager::regions::flood_region;

fn mask_from(w: u32, h: u32, set: &[(u32, u32)]) -> Vec<bool> {
    let mut m = vec![false; (w * h) as usize];
    for &(x, y) in set {
        m[(y * w + x) as usize] = true;
    }
    m
}

fn block(x0: u32, y0: u32, x1: u32, y1: u32) -> Vec<(u32, u32)> {
    let mut cells = Vec::new();
    for y in y0..y1 {
        for x in x0..x1 {
            cells.push((x, y));
        }
    }
    cells
}

fn ring_with_window() -> (Vec<bool>, RgbaBuffer) {
    let w = 8u32;
    let h = 8u32;
    let mut ink = vec![false; 64];
    for y in 1..7u32 {
        for x in 1..7u32 {
            let window = (3..5).contains(&x) && (3..5).contains(&y);
            if !window {
                ink[(y * w + x) as usize] = true;
            }
        }
    }
    let mut data = vec![0u8; 64 * 4];
    for (i, &on) in ink.iter().enumerate() {
        if on {
            data[i * 4 + 3] = 255;
        }
    }
    (ink, RgbaBuffer { width: w, height: h, data })
}

#[test]
fn moore_trace_walks_a_block_clockwise() {
    let mask = mask_from(5, 5, &block(1, 1, 4, 4));
    let traced = moore_trace_contour(&mask, 5, 5, (1, 1), 4).expect("a contour");
    assert_eq!(traced, vec![(1, 1), (2, 1), (3, 1), (3, 2), (3, 3), (2, 3), (1, 3), (1, 2)]);
}

#[test]
fn moore_trace_needs_a_start_on_the_mask_and_three_cells() {
    let mask = mask_from(5, 5, &block(1, 1, 4, 4));
    assert_eq!(moore_trace_contour(&mask, 5, 5, (0, 0), 4), None);
    let single = mask_from(5, 5, &[(2, 2)]);
    assert_eq!(moore_trace_contour(&single, 5, 5, (2, 2), 4), None);
}

#[test]
fn flood_finds_the_whole_region_and_marks_it() {
    let mask = mask_from(4, 3, &[(0, 0), (1, 1), (3, 2)]);
    let mut visited = vec![false; 12];
    let mut eight = flood_region(&mask, &mut visited, 4, 3, true, 0);
    eight.sort();
    assert_eq!(eight, vec![0, 5]);
    assert!(visited[0] && visited[5] && !visited[11]);
    let mut visited4 = vec![false; 12];
    let four = flood_region(&mask, &mut visited4, 4, 3, false, 0);
    assert_eq!(four, vec![0]);
    assert!(!visited4[5]);
}

#[test]
fn ink_contours_come_one_per_large_enough_region_in_row_order() {
    let mut cells = block(1, 1, 4, 4);
    cells.extend(block(6, 0, 9, 3));
    let mask = mask_from(10, 5, &cells);
    let contours = extract_ink_contours(&mask, 10, 5, 8);
    assert_eq!(contours.len(), 2);
    assert_eq!(contours[0][0], (6, 0));
    assert_eq!(contours[1], vec![(1, 1), (2, 1), (3, 1), (3, 2), (3, 3), (2, 3), (1, 3), (1, 2)]);
    assert!(extract_ink_contours(&mask, 10, 5, 9).is_empty());
}

#[test]
fn enclosed_window_gives_its_ink_rim() {
    let (ink, image) = ring_with_window();
    let holes = extract_secondary_holes(&image, &ink, 8, 8, 8);
    assert_eq!(holes, vec![vec![(2, 4), (3, 5), (4, 5), (5, 4), (5, 3), (4, 2), (3, 2), (2, 3)]]);
}

#[test]
fn filled_or_open_windows_are_not_secondaries() {
    let (ink, mut image) = ring_with_window();
    let i = ((3 * 8 + 3) * 4) as usize;
    image.data[i..i + 4].copy_from_slice(&[120, 120, 120, 200]);
    assert!(extract_secondary_holes(&image, &ink, 8, 8, 8).is_empty());

    let (mut ink, image) = ring_with_window();
    ink[(3 * 8 + 1) as usize] = false;
    ink[(3 * 8 + 2) as usize] = false;
    assert!(extract_secondary_holes(&image, &ink, 8, 8, 8).is_empty());
}

#[test]
fn hugging_needs_half_the_contour_next_to_the_mask() {
    let mask = mask_from(6, 1, &[(0, 0)]);
    assert!(contour_hugs_mask(&vec![(1, 0), (5, 0)], &mask, 6, 1));
    assert!(!contour_hugs_mask(&vec![(1, 0), (4, 0), (5, 0)], &mask, 6, 1));
    assert!(!contour_hugs_mask(&vec![], &mask, 6, 1));
}
