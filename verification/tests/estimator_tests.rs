use autocrop::estimator::{edge_finder, EdgeMap};
use autocrop::types::{BoundingBox, EstimationError};

/// Builds an edge map of the given size whose samples are non-zero exactly on
/// the closed rectangle [x0, x1] x [y0, y1].
fn rect_map(width: u32, height: u32, x0: u32, x1: u32, y0: u32, y1: u32) -> EdgeMap {
    let mut data = vec![0u8; (width as usize) * (height as usize)];
    for y in y0..=y1 {
        for x in x0..=x1 {
            data[(y as usize) * (width as usize) + (x as usize)] = 255;
        }
    }
    EdgeMap::from_raw(width, height, data).expect("buffer length matches dimensions")
}

#[test]
fn from_raw_accepts_matching_buffer() {
    let m = EdgeMap::from_raw(4, 3, vec![0u8; 12]).expect("4 * 3 == 12");
    assert_eq!(m.width, 4);
    assert_eq!(m.height, 3);
    assert_eq!(m.data.len(), 12);
}

#[test]
fn from_raw_rejects_mismatched_buffer() {
    assert!(EdgeMap::from_raw(4, 3, vec![0u8; 11]).is_none());
    assert!(EdgeMap::from_raw(4, 3, vec![0u8; 13]).is_none());
}

#[test]
fn filled_rectangle_is_recovered() {
    // A 400x200 map, all zero except a filled rectangle from (100, 50) to
    // (300, 150).  Row step 200/200 = 1 samples rows 50..=149, column step
    // 400/200 = 2 samples columns 100, 102, ..., 298: every sampled line
    // crosses the rectangle, so each side's median is the true boundary.
    let m = rect_map(400, 200, 100, 300, 50, 150);
    let b = edge_finder(&m).expect("every sampled line shows an edge");
    assert_eq!(b, BoundingBox { x: 100, y: 50, width: 200, height: 100 });
}

#[test]
fn repeated_estimation_is_deterministic() {
    let m = rect_map(400, 200, 100, 300, 50, 150);
    let first = edge_finder(&m);
    let second = edge_finder(&m);
    assert_eq!(first, second);
}

#[test]
fn all_zero_map_fails_with_empty_accumulation() {
    let m = EdgeMap::from_raw(400, 400, vec![0u8; 400 * 400]).unwrap();
    assert_eq!(edge_finder(&m), Err(EstimationError::EmptyAccumulation));
}

#[test]
fn short_row_axis_fails_with_degenerate_step_size() {
    // Height 150 < 200 makes the row-axis step zero; the estimator must
    // reject the map before any sampling.
    let m = EdgeMap::from_raw(400, 150, vec![255u8; 400 * 150]).unwrap();
    assert_eq!(edge_finder(&m), Err(EstimationError::DegenerateStepSize));
}

#[test]
fn short_column_axis_fails_with_degenerate_step_size() {
    let m = EdgeMap::from_raw(150, 400, vec![255u8; 150 * 400]).unwrap();
    assert_eq!(edge_finder(&m), Err(EstimationError::DegenerateStepSize));
}

#[test]
fn median_ignores_minority_outliers() {
    // 400x200 map holding the same rectangle as above, except that 49 of the
    // 100 sampled rows also carry a noise pixel far left of the true west
    // boundary.  The majority of rows still report west = 100, so the west
    // median, and with it the whole box, is unchanged.
    let mut m = rect_map(400, 200, 100, 300, 50, 150);
    for y in 50..99u32 {
        m.data[(y as usize) * 400 + 5] = 255;
    }
    let b = edge_finder(&m).expect("every sampled line shows an edge");
    assert_eq!(b, BoundingBox { x: 100, y: 50, width: 200, height: 100 });
}

#[test]
fn majority_of_outliers_moves_the_median() {
    // The same map with 51 contaminated rows: the noise is now the majority,
    // so the west median is the noise coordinate.
    let mut m = rect_map(400, 200, 100, 300, 50, 150);
    for y in 50..101u32 {
        m.data[(y as usize) * 400 + 5] = 255;
    }
    let b = edge_finder(&m).expect("every sampled line shows an edge");
    assert_eq!(b, BoundingBox { x: 5, y: 50, width: 295, height: 100 });
}

#[test]
fn edge_only_at_origin_is_invisible() {
    // A map whose only edges sit on the x = 0 column: coordinate zero is the
    // sentinel, so sampled rows record nothing, and the sampled columns never
    // cross x = 0, so no side accumulates anything.
    let mut m = EdgeMap::from_raw(400, 200, vec![0u8; 400 * 200]).unwrap();
    for y in 0..200u32 {
        m.data[(y as usize) * 400] = 255;
    }
    assert_eq!(edge_finder(&m), Err(EstimationError::EmptyAccumulation));
}

#[test]
fn single_column_rectangle_gives_zero_width() {
    // All edges in one sampled column: west and east medians coincide, so the
    // box has zero width, which is a valid rectangle, not an error.
    let m = rect_map(400, 200, 200, 200, 50, 150);
    let b = edge_finder(&m).expect("zero-extent boxes are valid");
    assert_eq!(b, BoundingBox { x: 200, y: 50, width: 0, height: 100 });
}

#[test]
fn scan_row_finds_first_and_last_edge() {
    let m = EdgeMap::from_raw(5, 1, vec![0, 255, 0, 255, 0]).unwrap();
    let mut ep = autocrop::types::EdgePoints::new();
    ep.scan_row(&m, 0);
    assert_eq!(ep.left, 1);
    assert_eq!(ep.right, 3);
    assert_eq!(ep.top, 0);
    assert_eq!(ep.bottom, 0);
}

#[test]
fn scan_row_keeps_sentinels_on_blank_line() {
    let m = EdgeMap::from_raw(5, 1, vec![0, 0, 0, 0, 0]).unwrap();
    let mut ep = autocrop::types::EdgePoints::new();
    ep.scan_row(&m, 0);
    assert_eq!(ep.left, 0);
    assert_eq!(ep.right, 0);
}

#[test]
fn scan_row_misses_an_edge_only_at_the_origin() {
    // The one ambiguity of the sentinel encoding: a lone edge at coordinate
    // zero leaves both fields at the sentinel, as if the row were blank.
    let m = EdgeMap::from_raw(5, 1, vec![255, 0, 0, 0, 0]).unwrap();
    let mut ep = autocrop::types::EdgePoints::new();
    ep.scan_row(&m, 0);
    assert_eq!(ep.left, 0);
    assert_eq!(ep.right, 0);
}

#[test]
fn scan_col_finds_first_and_last_edge() {
    let m = EdgeMap::from_raw(1, 4, vec![0, 255, 255, 0]).unwrap();
    let mut ep = autocrop::types::EdgePoints::new();
    ep.scan_col(&m, 0);
    assert_eq!(ep.top, 1);
    assert_eq!(ep.bottom, 2);
    assert_eq!(ep.left, 0);
    assert_eq!(ep.right, 0);
}
