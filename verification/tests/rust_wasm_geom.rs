use wasm_pong::rust_wasm::geom::{BoundingBox, Point, Vector};

#[test]
fn should_correctly_determine_if_point_is_within_box() {
    let cases = vec![
        (BoundingBox::create(10, 10, 5, 5), Point::create(10, 10), true),
        (BoundingBox::create(10, 10, 5, 5), Point::create(8, 8), true),
        (BoundingBox::create(10, 10, 5, 5), Point::create(20, 20), false),
    ];
    for (bounding_box, point, expected) in cases {
        assert_eq!(bounding_box.is_point_within(&point), expected);
    }
}

#[test]
fn should_correctly_determine_if_overlap_int() {
    let cases = vec![
        (BoundingBox::create(10, 10, 5, 5), BoundingBox::create(10, 10, 5, 5), true),
        (BoundingBox::create(10, 10, 5, 5), BoundingBox::create(8, 8, 5, 5), true),
        (BoundingBox::create(10, 10, 5, 5), BoundingBox::create(5, 5, 5, 5), false),
    ];
    for (a, b, expected) in cases {
        assert_eq!(a.overlaps(&b), expected);
    }
}

#[test]
fn bounding_box_corners_are_half_the_extent_away() {
    let b = BoundingBox::create(10, 20, 6, 9);
    let points = b.points();
    assert_eq!(points.len(), 4);
    assert_eq!((points[0].x, points[0].y), (7, 24));
    assert_eq!((points[1].x, points[1].y), (13, 24));
    assert_eq!((points[2].x, points[2].y), (7, 16));
    assert_eq!((points[3].x, points[3].y), (13, 16));
}

#[test]
fn point_within_includes_the_edges() {
    let b = BoundingBox::create(10, 10, 4, 4);
    assert!(b.is_point_within(&Point::create(8, 12)));
    assert!(b.is_point_within(&Point::create(12, 8)));
    assert!(!b.is_point_within(&Point::create(13, 10)));
    assert!(!b.is_point_within(&Point::create(7, 10)));
    assert!(!b.is_point_within(&Point::create(10, 13)));
    assert!(!b.is_point_within(&Point::create(10, 7)));
}

#[test]
fn overlap_looks_at_the_corners_of_the_other_box() {
    let big = BoundingBox::create(50, 50, 40, 40);
    let small = BoundingBox::create(50, 50, 4, 4);
    assert!(big.overlaps(&small));
    assert!(!small.overlaps(&big));
}

#[test]
fn vector_constructors() {
    assert_eq!(Vector::zero(), Vector { x: 0, y: 0 });
    assert_eq!(Vector::unit(), Vector { x: 1, y: 1 });
}

#[test]
fn vector_invert_twice_restores_it() {
    let mut v = Vector { x: 3, y: -7 };
    v.invert();
    assert_eq!(v, Vector { x: -3, y: 7 });
    v.invert();
    assert_eq!(v, Vector { x: 3, y: -7 });
}

#[test]
fn point_create_keeps_coordinates() {
    let p = Point::create(-4, 9);
    assert_eq!((p.x, p.y), (-4, 9));
}
