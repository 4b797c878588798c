use ray_tracer::bounding_box::{BoundingBox, Point, HIGHEST, LOWEST};

fn coordinate(t: f64) -> i64 {
    let bits = (t + 0.0).to_bits() as i64;
    if bits < 0 {
        bits ^ i64::MAX
    } else {
        bits
    }
}

fn point(x: f64, y: f64, z: f64) -> Point {
    Point {
        x: coordinate(x),
        y: coordinate(y),
        z: coordinate(z),
    }
}

#[test]
fn infinities_are_the_ends() {
    assert_eq!(coordinate(f64::INFINITY), HIGHEST);
    assert_eq!(coordinate(f64::NEG_INFINITY), LOWEST);
    assert!(coordinate(f64::MAX) < HIGHEST);
    assert!(coordinate(f64::MIN) > LOWEST);
}

#[test]
fn insert() {
    let p1 = point(-5.0, 2.0, 0.0);
    let p2 = point(7.0, 0.0, -3.0);

    let bbox = BoundingBox::empty().insert(p1).insert(p2);

    let expected = BoundingBox::new(point(-5.0, 0.0, -3.0), point(7.0, 2.0, 0.0));

    assert!(bbox == expected)
}

#[test]
fn union() {
    let bbox1 = BoundingBox::new(point(-5.0, -2.0, 0.0), point(7.0, 4.0, 4.0));
    let bbox2 = BoundingBox::new(point(8.0, -7.0, -2.0), point(14.0, 2.0, 8.0));

    let bbox = bbox1.union(&bbox2);

    let expected = BoundingBox::new(point(-5.0, -7.0, -2.0), point(14.0, 4.0, 8.0));

    assert!(bbox == expected)
}

#[test]
fn empty_box_is_inside_out() {
    let empty = BoundingBox::empty();
    assert_eq!(empty.min, point(f64::INFINITY, f64::INFINITY, f64::INFINITY));
    assert_eq!(
        empty.max,
        point(f64::NEG_INFINITY, f64::NEG_INFINITY, f64::NEG_INFINITY)
    );
    assert!(!empty.contains(point(0.0, 0.0, 0.0)));
    assert!(!empty.contains(point(f64::INFINITY, f64::INFINITY, f64::INFINITY)));
}

#[test]
fn union_with_the_empty_box() {
    let bbox = BoundingBox::new(point(-1.0, -1.0, -1.0), point(1.0, 1.0, 1.0));
    assert!(BoundingBox::empty().union(&bbox) == bbox);
    let all = BoundingBox::new(
        point(f64::NEG_INFINITY, f64::NEG_INFINITY, f64::NEG_INFINITY),
        point(f64::INFINITY, f64::INFINITY, f64::INFINITY),
    );
    assert!(bbox.union(&BoundingBox::empty()) == all);
}

fn contains_point(p: Point, expected: bool) {
    let bbox = BoundingBox::new(point(5.0, -2.0, 0.0), point(11.0, 4.0, 7.0));
    assert_eq!(bbox.contains(p), expected);
}

#[test]
fn contains() {
    contains_point(point(5.0, -2.0, 0.0), true);
    contains_point(point(11.0, 4.0, 7.0), true);
    contains_point(point(8.0, 1.0, 3.0), true);
    contains_point(point(3.0, 0.0, 3.0), false);
    contains_point(point(8.0, -4.0, 3.0), false);
    contains_point(point(8.0, 1.0, -1.0), false);
    contains_point(point(13.0, 1.0, 3.0), false);
    contains_point(point(8.0, 5.0, 3.0), false);
    contains_point(point(8.0, 1.0, 8.0), false);
}

fn encloses_box(min: Point, max: Point, expected: bool) {
    let bbox = BoundingBox::new(point(5.0, -2.0, 0.0), point(11.0, 4.0, 7.0));
    assert_eq!(bbox.encloses(&BoundingBox::new(min, max)), expected);
}

#[test]
fn encloses() {
    encloses_box(point(5.0, -2.0, 0.0), point(11.0, 4.0, 7.0), true);
    encloses_box(point(6.0, -1.0, 1.0), point(10.0, 3.0, 6.0), true);
    encloses_box(point(4.0, -3.0, -1.0), point(10.0, 3.0, 6.0), false);
    encloses_box(point(6.0, -1.0, 1.0), point(12.0, 5.0, 8.0), false);
}

#[test]
fn enclosing_joins_the_boxes() {
    let a = BoundingBox::new(point(-1.0, -1.0, -1.0), point(1.0, 1.0, 1.0));
    let b = BoundingBox::new(point(0.0, 2.0, -4.5), point(0.5, 3.0, 0.0));
    let hull = BoundingBox::enclosing(&vec![a, b]);
    assert!(hull == BoundingBox::new(point(-1.0, -1.0, -4.5), point(1.0, 3.0, 1.0)));
    assert!(hull.encloses(&a) && hull.encloses(&b));
    assert!(BoundingBox::enclosing(&vec![]) == BoundingBox::empty());
}
