use rustlike::geometry::Rect;

#[test]
fn rect_new_bounds() {
    let r = Rect::new(2, 3, 4, 5);
    assert_eq!(r.x1, 2);
    assert_eq!(r.y1, 3);
    assert_eq!(r.x2, 6);
    assert_eq!(r.y2, 8);
}

#[test]
fn center_truncates() {
    let r = Rect::new(2, 2, 5, 5);
    assert_eq!(r.center(), (4, 4));
    let r2 = Rect::new(0, 0, 3, 5);
    assert_eq!(r2.center(), (1, 2));
}

#[test]
fn overlaps_symmetric() {
    let a = Rect::new(0, 0, 5, 5);
    let b = Rect::new(3, 3, 5, 5);
    let c = Rect::new(20, 20, 2, 2);
    assert_eq!(a.intersect_with(&b), b.intersect_with(&a));
    assert!(a.intersect_with(&b));
    assert_eq!(a.intersect_with(&c), c.intersect_with(&a));
    assert!(!a.intersect_with(&c));
}

#[test]
fn overlaps_shared_edge_counts() {
    // a.x2 == b.x1 with intersecting y-ranges: boundary contact is overlap.
    let a = Rect::new(0, 0, 5, 5);
    let b = Rect::new(5, 2, 3, 3);
    assert!(a.intersect_with(&b));
    assert!(b.intersect_with(&a));
}

#[test]
fn overlaps_one_cell_gap_is_free() {
    let a = Rect::new(0, 0, 5, 5);
    let b = Rect::new(6, 0, 3, 3);
    assert!(!a.intersect_with(&b));
}

#[test]
fn distance_three_four_five() {
    let a = Rect::new(0, 0, 1, 1); // center (0, 0)
    let b = Rect::new(3, 4, 1, 1); // center (3, 4)
    assert_eq!(a.distance_to(&b), 5);
}

#[test]
fn distance_rounds_to_nearest() {
    let origin = Rect::new(0, 0, 1, 1);
    // sqrt(2) = 1.41.. rounds down to 1
    assert_eq!(origin.distance_to(&Rect::new(1, 1, 1, 1)), 1);
    // sqrt(5) = 2.23.. rounds down to 2
    assert_eq!(origin.distance_to(&Rect::new(1, 2, 1, 1)), 2);
    // sqrt(8) = 2.82.. rounds up to 3
    assert_eq!(origin.distance_to(&Rect::new(2, 2, 1, 1)), 3);
}

#[test]
fn distance_symmetric_and_zero_on_self() {
    let a = Rect::new(1, 2, 4, 3);
    let b = Rect::new(9, 7, 2, 5);
    assert_eq!(a.distance_to(&b), b.distance_to(&a));
    assert!(a.distance_to(&b) >= 0);
    assert_eq!(a.distance_to(&a), 0);
}

#[test]
fn find_closest_picks_minimum() {
    let cand = Rect::new(10, 10, 1, 1); // center (10, 10)
    let rooms = vec![
        Rect::new(0, 0, 1, 1),   // center (0, 0), distance 14
        Rect::new(10, 13, 1, 1), // center (10, 13), distance 3
        Rect::new(20, 10, 1, 1), // center (20, 10), distance 10
    ];
    assert_eq!(cand.find_closest(&rooms), 1);
}

#[test]
fn find_closest_tie_keeps_earliest() {
    let cand = Rect::new(10, 10, 1, 1); // center (10, 10)
    let rooms = vec![
        Rect::new(10, 14, 1, 1), // center (10, 14), distance 4
        Rect::new(10, 6, 1, 1),  // center (10, 6), distance 4
    ];
    assert_eq!(cand.find_closest(&rooms), 0);
}

#[test]
fn find_closest_skips_identical_bounds() {
    let cand = Rect::new(4, 4, 2, 2);
    let rooms = vec![
        Rect::new(4, 4, 2, 2),  // identical bounds: excluded
        Rect::new(30, 30, 2, 2),
    ];
    assert_eq!(cand.find_closest(&rooms), 1);
}
