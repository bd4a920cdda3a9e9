use geomodel::Axis;
use geomodel::Point;
use geomodel::User;
use geomodel::UserError;
use geomodel::move_right;
use geomodel::move_up;

#[test]
fn point_new_keeps_coordinates() {
    let p = Point::new(1_000_000, -2_500_000);
    assert_eq!(p.x, 1_000_000);
    assert_eq!(p.y, -2_500_000);
}

#[test]
fn move_by_selects_the_axis() {
    let mut p = Point::new(0, 7_000_000);
    p.move_by(&Axis::X, 5_000_000);
    assert_eq!(p, Point { x: 5_000_000, y: 7_000_000 });
    p.move_by(&Axis::Y, -1_000_000);
    assert_eq!(p, Point { x: 5_000_000, y: 6_000_000 });
}

#[test]
fn move_right_and_up_accumulate() {
    let mut p = Point::new(3_000_000, 4_000_000);
    move_right(&mut p, 5_000_000);
    move_up(&mut p, 10_000_000);
    assert_eq!(p.x, 8_000_000);
    assert_eq!(p.y, 14_000_000);
    move_right(&mut p, -3_000_000);
    assert_eq!(p.x, 5_000_000);
}

#[test]
fn distance_euclidean_three_four_five() {
    let a = Point::new(0, 0);
    let b = Point::new(3_000_000, 4_000_000);
    assert_eq!(a.distance_euclidean(&b), 5_000_000);
}

#[test]
fn distance_euclidean_rounds_down() {
    let a = Point::new(0, 0);
    let b = Point::new(1_000_000, 1_000_000);
    // sqrt(2) in millionths, rounded down
    assert_eq!(a.distance_euclidean(&b), 1_414_213);
}

#[test]
fn distance_manhattan_adds_axis_gaps() {
    let a = Point::new(1_000_000, 2_000_000);
    let b = Point::new(-1_000_000, 500_000);
    assert_eq!(a.distance_manhattan(&b), 3_500_000);
    assert_eq!(b.distance_manhattan(&a), 3_500_000);
}

#[test]
fn distance_to_self_is_zero() {
    let a = Point::new(123, 456);
    assert_eq!(a.distance_euclidean(&a), 0);
    assert_eq!(a.distance_manhattan(&a), 0);
}

#[test]
fn user_new_accepts_valid_input() {
    let u = User::new("Alice", 30).unwrap();
    assert_eq!(u.get_name(), "Alice");
    assert_eq!(u.get_age(), 30);
}

#[test]
fn user_new_rejects_empty_name() {
    assert_eq!(User::new("", 30).unwrap_err(), UserError::EmptyName);
    // the empty name is reported even when the age is also bad
    assert_eq!(User::new("", 0).unwrap_err(), UserError::EmptyName);
}

#[test]
fn user_new_rejects_out_of_range_age() {
    assert_eq!(User::new("Bob", 0).unwrap_err(), UserError::AgeOutOfRange);
    assert_eq!(User::new("Bob", 151).unwrap_err(), UserError::AgeOutOfRange);
    assert!(User::new("Bob", 1).is_ok());
    assert!(User::new("Bob", 150).is_ok());
}
