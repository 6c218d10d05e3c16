use autocrop::types::{BoundingBox, Counter, EdgePoints, Edges, EstimationError};

#[test]
fn counter_starts_and_stops_at_the_band() {
    let c = Counter::new(5);
    assert_eq!(c.step_size, 5);
    assert_eq!(c.position, 250);
    assert_eq!(c.limit, 750);
    assert_eq!(c.max(), 500);
    assert!(!c.done());
}

#[test]
fn counter_advances_by_its_step() {
    let mut c = Counter::new(3);
    assert_eq!(c.position, 150);
    c.next();
    assert_eq!(c.position, 153);
    c.next();
    assert_eq!(c.position, 156);
}

#[test]
fn counter_exhausts_after_one_hundred_steps() {
    let mut c = Counter::new(7);
    let mut steps = 0u32;
    loop {
        c.next();
        steps += 1;
        if c.done() {
            break;
        }
    }
    assert_eq!(steps, 100);
}

#[test]
fn joint_termination_takes_the_smaller_step_count() {
    // Steps 5 and 3, as a row and a column cursor of a 1000x600 map would
    // use.  Each cursor needs one hundred advances to its own limit, so the
    // joint walk, stopping when either is done, performs min(100, 100) = 100
    // iterations.
    let mut rows = Counter::new(5);
    let mut cols = Counter::new(3);
    let mut iterations = 0u32;
    loop {
        iterations += 1;
        rows.next();
        cols.next();
        if rows.done() {
            break;
        }
        if cols.done() {
            break;
        }
    }
    assert_eq!(iterations, 100);
    assert!(rows.done());
    assert!(cols.done());
}

#[test]
fn edge_points_reset_restores_the_sentinels() {
    let mut ep = EdgePoints::new();
    ep.left = 3;
    ep.right = 9;
    ep.top = 1;
    ep.bottom = 7;
    ep.reset();
    assert_eq!(ep.left, 0);
    assert_eq!(ep.right, 0);
    assert_eq!(ep.top, 0);
    assert_eq!(ep.bottom, 0);
}

#[test]
fn push_records_only_non_sentinel_fields() {
    let mut edges = Edges::new(4, 4);
    let all_sentinel = EdgePoints::new();
    edges.push(&all_sentinel);
    assert_eq!(edges.west.len(), 0);
    assert_eq!(edges.east.len(), 0);
    assert_eq!(edges.north.len(), 0);
    assert_eq!(edges.south.len(), 0);

    let row_only = EdgePoints { left: 2, right: 8, top: 0, bottom: 0 };
    edges.push(&row_only);
    assert_eq!(edges.west, vec![2]);
    assert_eq!(edges.east, vec![8]);
    assert_eq!(edges.north.len(), 0);
    assert_eq!(edges.south.len(), 0);
}

#[test]
fn to_bounds_takes_lower_medians() {
    let mut edges = Edges::new(0, 0);
    edges.west = vec![10, 3, 7];
    edges.east = vec![30, 40, 20];
    edges.north = vec![5, 1];
    edges.south = vec![9, 11];
    let b = edges.to_bounds().expect("all four lists are non-empty");
    // Sorted: west [3, 7, 10] -> 7; east [20, 30, 40] -> 30;
    // north [1, 5] -> 5 (even length picks just past the midpoint);
    // south [9, 11] -> 11.
    assert_eq!(b, BoundingBox { x: 7, y: 5, width: 23, height: 6 });
    assert_eq!(edges.west, vec![3, 7, 10]);
    assert_eq!(edges.east, vec![20, 30, 40]);
    assert_eq!(edges.north, vec![1, 5]);
    assert_eq!(edges.south, vec![9, 11]);
}

#[test]
fn to_bounds_median_resists_minority_contamination() {
    // 51 lines report the true west boundary 7, 49 report a far outlier: the
    // lower median is still 7.
    let mut edges = Edges::new(0, 0);
    for _ in 0..51 {
        edges.west.push(7);
        edges.east.push(400);
        edges.north.push(20);
        edges.south.push(90);
    }
    for _ in 0..49 {
        edges.west.push(9999);
    }
    let b = edges.to_bounds().expect("all four lists are non-empty");
    assert_eq!(b.x, 7);
    assert_eq!(b.width, 393);
}

#[test]
fn to_bounds_fails_on_an_empty_side() {
    let mut edges = Edges::new(0, 0);
    edges.west = vec![1];
    edges.east = vec![2];
    edges.north = vec![3];
    assert_eq!(edges.to_bounds(), Err(EstimationError::EmptyAccumulation));
}

#[test]
fn to_bounds_fails_on_inverted_medians() {
    let mut edges = Edges::new(0, 0);
    edges.west = vec![10];
    edges.east = vec![5];
    edges.north = vec![1];
    edges.south = vec![2];
    assert_eq!(edges.to_bounds(), Err(EstimationError::InvalidRectangle));
}

#[test]
fn zero_extent_boxes_are_valid() {
    let mut edges = Edges::new(0, 0);
    edges.west = vec![5];
    edges.east = vec![5];
    edges.north = vec![2];
    edges.south = vec![2];
    let b = edges.to_bounds().expect("equal medians are a zero-extent box");
    assert_eq!(b, BoundingBox { x: 5, y: 2, width: 0, height: 0 });
}
