use image_filters::error::FilterError;
use image_filters::histogram::{equalization, luma_histogram, rgb_to_ycbcr, ycbcr_to_rgb, Histogram};
use image_filters::raster::RgbGrid;

fn hist_grid(rows: &[Vec<(u8, u8, u8)>]) -> RgbGrid {
    let height = rows.len() as u32;
    let width = rows[0].len() as u32;
    let mut samples = Vec::new();
    for row in rows {
        for px in row {
            samples.push(px.0);
            samples.push(px.1);
            samples.push(px.2);
        }
    }
    RgbGrid::from_samples(width, height, &samples).unwrap()
}

fn hist_rows(grid: &RgbGrid) -> Vec<Vec<(u8, u8, u8)>> {
    let mut rows = Vec::new();
    for y in 0..grid.height() {
        let mut row = Vec::new();
        for x in 0..grid.width() {
            row.push(grid.get_pixel(x, y).unwrap());
        }
        rows.push(row);
    }
    rows
}

fn hist_image() -> Vec<Vec<(u8, u8, u8)>> {
    vec![
        vec![(0, 0, 0), (60, 0, 30), (120, 0, 60), (180, 0, 90)],
        vec![(0, 60, 30), (60, 60, 60), (120, 60, 90), (180, 60, 120)],
        vec![(0, 120, 60), (60, 120, 90), (120, 120, 120), (180, 120, 150)],
    ]
}

fn hist_square() -> Vec<Vec<(u8, u8, u8)>> {
    vec![
        vec![(0, 40, 0), (53, 47, 31), (106, 54, 124), (159, 61, 23), (212, 68, 240)],
        vec![(17, 141, 3), (70, 148, 34), (123, 155, 127), (176, 162, 26), (229, 169, 243)],
        vec![(34, 242, 6), (87, 249, 37), (140, 0, 130), (193, 7, 29), (246, 14, 246)],
        vec![(51, 87, 9), (104, 94, 40), (157, 101, 133), (210, 108, 32), (7, 115, 249)],
        vec![(68, 188, 12), (121, 195, 43), (174, 202, 136), (227, 209, 35), (24, 216, 252)],
    ]
}

#[test]
fn rgb_to_ycbcr_rounds_to_nearest() {
    assert_eq!(rgb_to_ycbcr((0, 0, 0)), (16, 128, 128));
    assert_eq!(rgb_to_ycbcr((255, 255, 255)), (235, 128, 128));
    assert_eq!(rgb_to_ycbcr((255, 0, 0)), (82, 90, 240));
    assert_eq!(rgb_to_ycbcr((12, 200, 77)), (127, 102, 54));
    assert_eq!(rgb_to_ycbcr((0, 0, 255)), (41, 240, 110));
    assert_eq!(rgb_to_ycbcr((0, 255, 0)), (145, 54, 34));
}

#[test]
fn ycbcr_to_rgb_clamps_and_cuts() {
    assert_eq!(ycbcr_to_rgb(16, 128, 128), (0, 0, 0));
    assert_eq!(ycbcr_to_rgb(235, 128, 128), (254, 254, 254));
    assert_eq!(ycbcr_to_rgb(255, 128, 128), (255, 255, 255));
    assert_eq!(ycbcr_to_rgb(82, 90, 240), (255, 0, 0));
    assert_eq!(ycbcr_to_rgb(120, 60, 200), (235, 89, 0));
    assert_eq!(ycbcr_to_rgb(0, 0, 0), (0, 135, 0));
    assert_eq!(ycbcr_to_rgb(17, 128, 128), (1, 1, 1));
}

#[test]
fn histogram_wants_256_buckets() {
    assert!(Histogram::from_counts(vec![0; 255]).is_none());
    assert!(Histogram::from_counts(vec![0; 257]).is_none());
    assert!(Histogram::from_counts(Vec::new()).is_none());
    let mut counts = vec![0u64; 256];
    counts[7] = 3;
    counts[255] = u64::MAX;
    let hist = Histogram::from_counts(counts).unwrap();
    assert_eq!(hist.count(7), 3);
    assert_eq!(hist.count(255), u64::MAX);
    assert_eq!(hist.count(0), 0);
}

#[test]
fn luma_histogram_counts_every_pixel_once() {
    let grid = hist_grid(&hist_image());
    let hist = luma_histogram(4, 3, &grid).unwrap();
    let populated = [16u8, 34, 49, 53, 68, 71, 82, 86, 101, 104, 119, 137];
    for v in 0..=255u8 {
        let expected = if populated.contains(&v) { 1 } else { 0 };
        assert_eq!(hist.count(v), expected);
    }
    let part = luma_histogram(1, 2, &grid).unwrap();
    for v in 0..=255u8 {
        let expected = if v == 16 || v == 49 { 1 } else { 0 };
        assert_eq!(part.count(v), expected);
    }
}

#[test]
fn luma_histogram_of_one_colour_fills_one_bucket() {
    let grid = hist_grid(&vec![vec![(12, 200, 77); 7]; 3]);
    let hist = luma_histogram(7, 3, &grid).unwrap();
    for v in 0..=255u8 {
        assert_eq!(hist.count(v), if v == 127 { 21 } else { 0 });
    }
}

#[test]
fn luma_histogram_of_nothing_is_empty() {
    let grid = hist_grid(&hist_image());
    let hist = luma_histogram(0, 3, &grid).unwrap();
    for v in 0..=255u8 {
        assert_eq!(hist.count(v), 0);
    }
    assert!(matches!(luma_histogram(5, 3, &grid), Err(FilterError::DimensionTooSmall)));
    assert!(matches!(luma_histogram(4, 4, &grid), Err(FilterError::DimensionTooSmall)));
}

#[test]
fn lookup_table_leaves_the_darkest_bucket_out_of_the_scale() {
    let mut counts = vec![0u64; 256];
    counts[16] = 4;
    counts[100] = 3;
    counts[200] = 1;
    counts[255] = 2;
    let table = Histogram::from_counts(counts).unwrap().lookup_table();
    assert_eq!(table.entry(0), 0);
    assert_eq!(table.entry(15), 0);
    assert_eq!(table.entry(16), 170);
    assert_eq!(table.entry(99), 170);
    assert_eq!(table.entry(100), 255);
    assert_eq!(table.entry(200), 255);
    assert_eq!(table.entry(255), 255);
}

#[test]
fn lookup_table_rounds_to_nearest() {
    let mut counts = vec![0u64; 256];
    for v in [16usize, 34, 49, 53, 68, 71, 82, 86, 101, 104, 119, 137] {
        counts[v] = 1;
    }
    let table = Histogram::from_counts(counts).unwrap().lookup_table();
    let expected = [
        (16u8, 23u8), (34, 46), (49, 70), (53, 93), (68, 116), (71, 139), (82, 162), (86, 185),
        (101, 209), (104, 232), (119, 255), (137, 255),
    ];
    for (v, mapped) in expected {
        assert_eq!(table.entry(v), mapped);
    }
    assert_eq!(table.entry(15), 0);
    assert_eq!(table.entry(33), 23);
    assert_eq!(table.entry(255), 255);
}

#[test]
fn lookup_table_of_one_bucket_keeps_every_luma() {
    let mut counts = vec![0u64; 256];
    counts[90] = 12;
    let table = Histogram::from_counts(counts).unwrap().lookup_table();
    for v in 0..=255u8 {
        assert_eq!(table.entry(v), v);
    }
    let table = Histogram::from_counts(vec![0u64; 256]).unwrap().lookup_table();
    for v in 0..=255u8 {
        assert_eq!(table.entry(v), v);
    }
}

#[test]
fn lookup_table_of_the_largest_counts() {
    let table = Histogram::from_counts(vec![u64::MAX; 256]).unwrap().lookup_table();
    assert_eq!(table.entry(0), 1);
    assert_eq!(table.entry(1), 2);
    assert_eq!(table.entry(127), 128);
    assert_eq!(table.entry(254), 255);
    assert_eq!(table.entry(255), 255);
}

#[test]
fn equalization_spreads_the_luma() {
    let mut grid = hist_grid(&hist_image());
    assert_eq!(equalization(4, 3, &mut grid), Ok(()));
    assert_eq!(hist_rows(&grid), vec![
        vec![(8, 8, 8), (73, 13, 42), (166, 47, 107), (255, 78, 169)],
        vec![(24, 83, 54), (116, 116, 116), (235, 175, 204), (255, 208, 255)],
        vec![(93, 212, 151), (186, 245, 216), (255, 255, 255), (255, 255, 255)],
    ]);
}

#[test]
fn equalization_of_a_part_leaves_the_rest() {
    let mut grid = hist_grid(&hist_square());
    assert_eq!(equalization(3, 4, &mut grid), Ok(()));
    assert_eq!(hist_rows(&grid), vec![
        vec![(0, 25, 0), (41, 34, 18), (145, 92, 162), (159, 61, 23), (212, 68, 240)],
        vec![(71, 196, 58), (155, 233, 118), (232, 255, 235), (176, 162, 26), (229, 169, 243)],
        vec![(158, 255, 130), (188, 255, 139), (145, 6, 135), (193, 7, 29), (246, 14, 246)],
        vec![(73, 109, 31), (182, 173, 119), (255, 204, 236), (210, 108, 32), (7, 115, 249)],
        vec![(68, 188, 12), (121, 195, 43), (174, 202, 136), (227, 209, 35), (24, 216, 252)],
    ]);
}

#[test]
fn equalization_keeps_black_black() {
    let mut grid = hist_grid(&vec![vec![(0, 0, 0); 4]; 4]);
    assert_eq!(equalization(4, 4, &mut grid), Ok(()));
    assert_eq!(hist_rows(&grid), vec![vec![(0, 0, 0); 4]; 4]);
}

#[test]
fn equalization_of_a_uniform_grid_is_uniform() {
    let mut grid = hist_grid(&vec![vec![(255, 255, 255); 2]; 2]);
    assert_eq!(equalization(2, 2, &mut grid), Ok(()));
    assert_eq!(hist_rows(&grid), vec![vec![(254, 254, 254); 2]; 2]);
    let mut grid = hist_grid(&vec![vec![(10, 200, 77); 3]; 2]);
    assert_eq!(equalization(3, 2, &mut grid), Ok(()));
    assert_eq!(hist_rows(&grid), vec![vec![(9, 200, 76); 3]; 2]);
    let mut grid = hist_grid(&vec![vec![(77, 1, 250)]]);
    assert_eq!(equalization(1, 1, &mut grid), Ok(()));
    let only = grid.get_pixel(0, 0).unwrap();
    let (y, cb, cr) = rgb_to_ycbcr((77, 1, 250));
    assert_eq!(only, ycbcr_to_rgb(y, cb, cr));
}

#[test]
fn equalization_refuses_an_empty_or_too_large_extent() {
    let mut grid = hist_grid(&hist_image());
    for (w, h) in [(0u32, 3u32), (4, 0), (0, 0), (5, 3), (4, 4)] {
        assert_eq!(equalization(w, h, &mut grid), Err(FilterError::DimensionTooSmall));
        assert_eq!(hist_rows(&grid), hist_image());
    }
}
