use geomodel::append_world;
use geomodel::is_even;
use geomodel::string_len;
use geomodel::sum_from_to;

#[test]
fn string_len_counts_bytes() {
    assert_eq!(string_len(&String::from("hello")), 5);
    assert_eq!(string_len(&String::from("")), 0);
}

#[test]
fn append_world_appends() {
    let mut s = String::from("hello");
    append_world(&mut s);
    assert_eq!(s, "hello world");
}

#[test]
fn add_references() {
    assert_eq!(geomodel::add(&2, &3), 5);
    assert_eq!(geomodel::add(&-2, &2), 0);
}

#[test]
fn is_even_both_parities() {
    assert!(is_even(4));
    assert!(!is_even(5));
    assert!(is_even(0));
    assert!(is_even(-4));
    assert!(!is_even(-3));
}

#[test]
fn sum_from_to_ranges() {
    assert_eq!(sum_from_to(1, 11), 55);
    assert_eq!(sum_from_to(5, 5), 0);
    assert_eq!(sum_from_to(7, 3), 0);
    assert_eq!(sum_from_to(-3, 4), 0);
}
