use image_filters::raster::{GrayGrid, RgbGrid};
use image_filters::luma_operations::greyscaling;

#[test]
fn new_grid_is_black() {
    let grid = RgbGrid::new(3, 2).unwrap();
    assert_eq!(grid.width(), 3);
    assert_eq!(grid.height(), 2);
    for y in 0..2 {
        for x in 0..3 {
            assert_eq!(grid.get_pixel(x, y), Some((0, 0, 0)));
        }
    }
}

#[test]
fn new_grid_may_be_empty() {
    let grid = RgbGrid::new(0, 5).unwrap();
    assert_eq!(grid.width(), 0);
    assert_eq!(grid.height(), 5);
    assert_eq!(grid.get_pixel(0, 0), None);
    assert_eq!(grid.to_samples(), Vec::<u8>::new());
}

#[test]
fn new_grid_refuses_what_no_buffer_holds() {
    assert!(RgbGrid::new(u32::MAX, u32::MAX).is_none());
}

#[test]
fn get_pixel_outside_is_none() {
    let grid = RgbGrid::new(3, 2).unwrap();
    assert_eq!(grid.get_pixel(3, 0), None);
    assert_eq!(grid.get_pixel(0, 2), None);
    assert_eq!(grid.get_pixel(2, 1), Some((0, 0, 0)));
}

#[test]
fn put_pixel_changes_one_pixel() {
    let mut grid = RgbGrid::new(3, 2).unwrap();
    assert!(grid.put_pixel(1, 1, (9, 8, 7)));
    assert!(grid.put_pixel(2, 0, (1, 2, 3)));
    assert_eq!(grid.get_pixel(1, 1), Some((9, 8, 7)));
    assert_eq!(grid.get_pixel(2, 0), Some((1, 2, 3)));
    assert_eq!(grid.get_pixel(0, 0), Some((0, 0, 0)));
    assert_eq!(grid.get_pixel(2, 1), Some((0, 0, 0)));
    assert_eq!(grid.width(), 3);
    assert_eq!(grid.height(), 2);
}

#[test]
fn put_pixel_outside_changes_nothing() {
    let mut grid = RgbGrid::new(2, 2).unwrap();
    assert!(!grid.put_pixel(2, 0, (9, 8, 7)));
    assert!(!grid.put_pixel(0, 2, (9, 8, 7)));
    assert_eq!(grid.to_samples(), vec![0u8; 12]);
}

#[test]
fn from_samples_reads_row_by_row() {
    let samples: Vec<u8> = (1..=18).collect();
    let grid = RgbGrid::from_samples(3, 2, &samples).unwrap();
    assert_eq!(grid.width(), 3);
    assert_eq!(grid.height(), 2);
    assert_eq!(grid.get_pixel(0, 0), Some((1, 2, 3)));
    assert_eq!(grid.get_pixel(1, 0), Some((4, 5, 6)));
    assert_eq!(grid.get_pixel(2, 0), Some((7, 8, 9)));
    assert_eq!(grid.get_pixel(0, 1), Some((10, 11, 12)));
    assert_eq!(grid.get_pixel(2, 1), Some((16, 17, 18)));
}

#[test]
fn from_samples_wants_three_samples_a_pixel() {
    assert!(RgbGrid::from_samples(3, 2, &vec![0u8; 17]).is_none());
    assert!(RgbGrid::from_samples(3, 2, &vec![0u8; 19]).is_none());
    assert!(RgbGrid::from_samples(3, 2, &vec![0u8; 18]).is_some());
    assert!(RgbGrid::from_samples(0, 0, &Vec::new()).is_some());
    assert!(RgbGrid::from_samples(0, 0, &vec![0u8; 1]).is_none());
}

#[test]
fn to_samples_gives_back_what_was_read() {
    let samples: Vec<u8> = (0..60).map(|v| (v * 4) as u8).collect();
    let grid = RgbGrid::from_samples(4, 5, &samples).unwrap();
    assert_eq!(grid.to_samples(), samples);
}

#[test]
fn duplicate_is_equal_and_independent() {
    let samples: Vec<u8> = (0..24).collect();
    let grid = RgbGrid::from_samples(2, 4, &samples).unwrap();
    let mut copy = grid.duplicate();
    assert_eq!(copy.width(), 2);
    assert_eq!(copy.height(), 4);
    assert_eq!(copy.to_samples(), samples);
    assert!(copy.put_pixel(0, 0, (200, 201, 202)));
    assert_eq!(grid.get_pixel(0, 0), Some((0, 1, 2)));
    assert_eq!(copy.get_pixel(0, 0), Some((200, 201, 202)));
}

#[test]
fn gray_grid_samples_run_row_by_row() {
    let samples: Vec<u8> = vec![
        255, 255, 255, 0, 0, 0, 10, 20, 30, 100, 50, 200, 1, 1, 1, 200, 10, 90,
    ];
    let grid = RgbGrid::from_samples(3, 2, &samples).unwrap();
    let grey: GrayGrid = greyscaling(3, 2, &grid).unwrap();
    assert_eq!(grey.width(), 3);
    assert_eq!(grey.height(), 2);
    assert_eq!(grey.to_samples(), vec![255, 0, 19, 71, 1, 56]);
    assert_eq!(grey.get_pixel(2, 0), Some(19));
    assert_eq!(grey.get_pixel(0, 1), Some(71));
    assert_eq!(grey.get_pixel(3, 0), None);
    assert_eq!(grey.get_pixel(0, 2), None);
}
