use image_filters::error::FilterError;
use image_filters::luma_operations::{edge_detection, greyscaling, luma};
use image_filters::raster::{GrayGrid, RgbGrid};

fn luma_grid(rows: &[Vec<(u8, u8, u8)>]) -> RgbGrid {
    let height = rows.len() as u32;
    let width = rows[0].len() as u32;
    let mut samples = Vec::new();
    for row in rows {
        for px in row {
            samples.push(px.0);
            samples.push(px.1);
            samples.push(px.2);
        }
    }
    RgbGrid::from_samples(width, height, &samples).unwrap()
}


fn luma_gray_rows(grid: &GrayGrid) -> Vec<Vec<u8>> {
    let mut rows = Vec::new();
    for y in 0..grid.height() {
        let mut row = Vec::new();
        for x in 0..grid.width() {
            row.push(grid.get_pixel(x, y).unwrap());
        }
        rows.push(row);
    }
    rows
}

#[test]
fn luma_rounds_to_nearest() {
    assert_eq!(luma((0, 0, 0)), 0);
    assert_eq!(luma((255, 255, 255)), 255);
    assert_eq!(luma((10, 20, 30)), 19);
    assert_eq!(luma((100, 50, 200)), 71);
    assert_eq!(luma((1, 1, 1)), 1);
    assert_eq!(luma((200, 10, 90)), 56);
    assert_eq!(luma((255, 0, 0)), 54);
    assert_eq!(luma((0, 255, 0)), 182);
    assert_eq!(luma((0, 0, 255)), 18);
}

#[test]
fn luma_of_a_tie_goes_up() {
    // 0.7154 * 40 + 0.0721 * 40 = 31.5
    assert_eq!(luma((0, 40, 40)), 32);
    // 0.7154 * 120 + 0.0721 * 120 = 94.5
    assert_eq!(luma((0, 120, 120)), 95);
    // 0.2125 * 2 + 0.7154 * 75 + 0.0721 * 200 = 68.5
    assert_eq!(luma((2, 75, 200)), 69);
    // 0.2125 * 3 + 0.7154 * 170 + 0.0721 * 45 = 125.5
    assert_eq!(luma((3, 170, 45)), 126);
    // just under and just over a half
    assert_eq!(luma((4, 0, 50)), 4);
    assert_eq!(luma((196, 200, 180)), 198);
    assert_eq!(luma((2, 0, 0)), 0);
    assert_eq!(luma((4, 0, 0)), 1);
}

#[test]
fn greyscaling_takes_the_luma_of_each_pixel() {
    let grid = luma_grid(&vec![
        vec![(0, 0, 0), (30, 60, 90), (255, 255, 255), (255, 255, 255)],
        vec![(90, 90, 90), (0, 0, 0), (255, 255, 255), (255, 255, 255)],
        vec![(0, 0, 0), (0, 0, 0), (255, 255, 255), (255, 255, 255)],
        vec![(0, 0, 0), (0, 0, 0), (10, 200, 40), (255, 255, 255)],
    ]);
    let grey = greyscaling(4, 4, &grid).unwrap();
    assert_eq!(luma_gray_rows(&grey), vec![
        vec![0, 56, 255, 255],
        vec![90, 0, 255, 255],
        vec![0, 0, 255, 255],
        vec![0, 0, 148, 255],
    ]);
}

#[test]
fn greyscaling_of_a_uniform_grid_is_uniform() {
    let grid = luma_grid(&vec![vec![(100, 50, 200); 5]; 3]);
    let grey = greyscaling(5, 3, &grid).unwrap();
    assert_eq!(luma_gray_rows(&grey), vec![vec![71u8; 5]; 3]);
}

#[test]
fn greyscaling_of_a_part_has_the_extent_asked_for() {
    let grid = luma_grid(&vec![
        vec![(0, 0, 0), (30, 60, 90), (255, 255, 255), (255, 255, 255)],
        vec![(90, 90, 90), (0, 0, 0), (255, 255, 255), (255, 255, 255)],
        vec![(0, 0, 0), (0, 0, 0), (255, 255, 255), (255, 255, 255)],
        vec![(0, 0, 0), (0, 0, 0), (10, 200, 40), (255, 255, 255)],
    ]);
    let grey = greyscaling(2, 3, &grid).unwrap();
    assert_eq!(grey.width(), 2);
    assert_eq!(grey.height(), 3);
    assert_eq!(luma_gray_rows(&grey), vec![vec![0, 56], vec![90, 0], vec![0, 0]]);
}

#[test]
fn greyscaling_of_nothing_is_empty() {
    let grid = luma_grid(&vec![vec![(1, 2, 3); 2]; 2]);
    let grey = greyscaling(0, 0, &grid).unwrap();
    assert_eq!(grey.width(), 0);
    assert_eq!(grey.height(), 0);
}

#[test]
fn greyscaling_refuses_an_extent_beyond_the_grid() {
    let grid = luma_grid(&vec![vec![(1, 2, 3); 2]; 2]);
    assert!(matches!(greyscaling(3, 2, &grid), Err(FilterError::DimensionTooSmall)));
    assert!(matches!(greyscaling(2, 3, &grid), Err(FilterError::DimensionTooSmall)));
    assert!(greyscaling(2, 2, &grid).is_ok());
}

#[test]
fn edge_detection_caps_the_magnitude_and_keeps_luma_on_the_border() {
    let grid = luma_grid(&vec![
        vec![(0, 0, 0), (30, 60, 90), (255, 255, 255), (255, 255, 255)],
        vec![(90, 90, 90), (0, 0, 0), (255, 255, 255), (255, 255, 255)],
        vec![(0, 0, 0), (0, 0, 0), (255, 255, 255), (255, 255, 255)],
        vec![(0, 0, 0), (0, 0, 0), (10, 200, 40), (255, 255, 255)],
    ]);
    let edges = edge_detection(4, 4, &grid).unwrap();
    assert_eq!(luma_gray_rows(&edges), vec![
        vec![255, 255, 255, 255],
        vec![255, 255, 255, 255],
        vec![0, 0, 255, 255],
        vec![0, 0, 148, 255],
    ]);
}

#[test]
fn edge_detection_of_a_ramp() {
    let grid = luma_grid(&vec![
        vec![(0, 0, 0), (40, 40, 40), (80, 80, 80), (120, 120, 120), (160, 160, 160)],
        vec![(3, 3, 3), (43, 43, 43), (83, 83, 83), (123, 123, 123), (163, 163, 163)],
        vec![(6, 6, 6), (46, 46, 46), (86, 86, 86), (126, 126, 126), (166, 166, 166)],
        vec![(9, 9, 9), (49, 49, 49), (89, 89, 89), (129, 129, 129), (169, 169, 169)],
    ]);
    let edges = edge_detection(5, 4, &grid).unwrap();
    assert_eq!(luma_gray_rows(&edges), vec![
        vec![255, 255, 255, 120, 160],
        vec![255, 255, 255, 123, 163],
        vec![6, 46, 86, 126, 166],
        vec![9, 49, 89, 129, 169],
    ]);
}

#[test]
fn edge_detection_of_a_uniform_grid_finds_no_edge() {
    let grid = luma_grid(&vec![vec![(100, 50, 200); 6]; 5]);
    let edges = edge_detection(6, 5, &grid).unwrap();
    for y in 0..5 {
        for x in 0..6 {
            let expected = if x < 4 && y < 3 { 0 } else { 71 };
            assert_eq!(edges.get_pixel(x, y), Some(expected));
        }
    }
}

#[test]
fn edge_detection_of_the_smallest_extent() {
    let grid = luma_grid(&vec![
        vec![(0, 0, 0), (0, 0, 0), (10, 10, 10)],
        vec![(0, 0, 0), (0, 0, 0), (10, 10, 10)],
        vec![(0, 0, 0), (0, 0, 0), (10, 10, 10)],
    ]);
    let edges = edge_detection(3, 3, &grid).unwrap();
    assert_eq!(luma_gray_rows(&edges), vec![vec![40, 0, 10], vec![0, 0, 10], vec![0, 0, 10]]);
}

#[test]
fn edge_detection_refuses_less_than_a_window() {
    let grid = luma_grid(&vec![vec![(1, 2, 3); 4]; 4]);
    assert!(matches!(edge_detection(2, 4, &grid), Err(FilterError::DimensionTooSmall)));
    assert!(matches!(edge_detection(4, 2, &grid), Err(FilterError::DimensionTooSmall)));
    assert!(matches!(edge_detection(0, 0, &grid), Err(FilterError::DimensionTooSmall)));
    assert!(matches!(edge_detection(5, 4, &grid), Err(FilterError::DimensionTooSmall)));
    assert!(matches!(edge_detection(4, 5, &grid), Err(FilterError::DimensionTooSmall)));
    assert!(edge_detection(3, 3, &grid).is_ok());
}
