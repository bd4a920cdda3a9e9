use geomodel::Area;
use geomodel::Circle;
use geomodel::Point;
use geomodel::Rectangle;
use geomodel::Shape;
use geomodel::Vector2D;
use geomodel::total_area;

fn ten_by_ten() -> Rectangle {
    Rectangle::new(Point::new(10_000_000, 10_000_000), Point::new(0, 0)).unwrap()
}

#[test]
fn rectangle_new_ordered_corners_succeeds() {
    let r = Rectangle::new(Point::new(10_000_000, 10_000_000), Point::new(0, 0));
    assert!(r.is_some());
}

#[test]
fn rectangle_new_inverted_corners_fails() {
    let r = Rectangle::new(Point::new(0, 0), Point::new(10_000_000, 10_000_000));
    assert!(r.is_none());
}

#[test]
fn rectangle_new_degenerate_corners_fail() {
    assert!(Rectangle::new(Point::new(0, 5), Point::new(0, 0)).is_none());
    assert!(Rectangle::new(Point::new(5, 0), Point::new(0, 0)).is_none());
    assert!(Rectangle::new(Point::new(0, 0), Point::new(0, 0)).is_none());
}

#[test]
fn rectangle_keeps_its_corners() {
    let r = ten_by_ten();
    assert_eq!(r.point_rt(), Point { x: 10_000_000, y: 10_000_000 });
    assert_eq!(r.point_lb(), Point { x: 0, y: 0 });
}

#[test]
fn rectangle_area_is_width_times_height() {
    let r = Rectangle::new(Point::new(3_000_000, 2_000_000), Point::new(1_000_000, -1_000_000))
        .unwrap();
    // 2 units wide, 3 units high: 6 square units
    let a = Shape::Rectangle(r).area();
    assert_eq!(a, Area { units: 6_000_000_000_000, pi_units: 0 });
}

#[test]
fn valid_rectangle_area_is_positive() {
    let r = Rectangle::new(Point::new(2, 2), Point::new(1, 1)).unwrap();
    let a = Shape::Rectangle(r).area();
    assert!(a.units > 0);
    assert_eq!(a.pi_units, 0);
}

#[test]
fn circle_area_is_pi_times_radius_squared() {
    let c = Circle { center: Point::new(5_000_000, 5_000_000), radius: 5_000_000 };
    let a = Shape::Circle(c).area();
    assert_eq!(a, Area { units: 0, pi_units: 25_000_000_000_000 });
    // in real terms, within floating-point tolerance of 25 pi
    let real = (a.pi_units as f64) / 1_000_000_000_000.0 * std::f64::consts::PI;
    assert!((real - 25.0 * std::f64::consts::PI).abs() < 1e-9);
}

#[test]
fn negative_radius_circle_still_has_square_area() {
    let c = Circle { center: Point::new(0, 0), radius: -2_000_000 };
    let a = Shape::Circle(c).area();
    assert_eq!(a, Area { units: 0, pi_units: 4_000_000_000_000 });
}

#[test]
fn vector_contributes_zero_area() {
    let v = Vector2D { point_s: Point::new(0, 0), point_e: Point::new(10_000_000, 10_000_000) };
    assert_eq!(Shape::Vector2D(v).area(), Area { units: 0, pi_units: 0 });
}

#[test]
fn total_area_mixed_shapes() {
    let shapes = vec![
        Shape::Rectangle(ten_by_ten()),
        Shape::Circle(Circle { center: Point::new(5_000_000, 5_000_000), radius: 5_000_000 }),
        Shape::Vector2D(Vector2D {
            point_s: Point::new(0, 0),
            point_e: Point::new(10_000_000, 10_000_000),
        }),
    ];
    let t = total_area(&shapes);
    // 100 square units plus 25 pi square units plus zero
    assert_eq!(t, Area { units: 100_000_000_000_000, pi_units: 25_000_000_000_000 });
    let real = (t.units as f64) / 1_000_000_000_000.0
        + (t.pi_units as f64) / 1_000_000_000_000.0 * std::f64::consts::PI;
    assert!((real - (100.0 + 25.0 * std::f64::consts::PI)).abs() < 1e-9);
}

#[test]
fn total_area_empty_is_zero() {
    let shapes: Vec<Shape> = vec![];
    assert_eq!(total_area(&shapes), Area { units: 0, pi_units: 0 });
}

#[test]
fn total_area_is_order_independent() {
    let a = Shape::Rectangle(ten_by_ten());
    let b = Shape::Circle(Circle { center: Point::new(0, 0), radius: 3_000_000 });
    let ab = total_area(&[a, b]);
    let ba = total_area(&[b, a]);
    assert_eq!(ab, ba);
}
