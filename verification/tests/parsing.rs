use geomodel::NumError;
use geomodel::ParseErrorKind;
use geomodel::Point;
use geomodel::distance_from_str;
use geomodel::parse_coord;
use geomodel::parse_i32_question;
use geomodel::parse_point;

#[test]
fn parse_point_plain_pair() {
    let p = parse_point("1.0,2.0").unwrap();
    assert_eq!(p, Point { x: 1_000_000, y: 2_000_000 });
}

#[test]
fn parse_point_three_fields_is_wrong_field_count() {
    let e = parse_point("1.0,2.0,3.0").unwrap_err();
    assert_eq!(e.kind, ParseErrorKind::WrongFieldCount);
    assert_eq!(e.text, "1.0,2.0,3.0");
}

#[test]
fn parse_point_non_numeric_field_is_conversion_failure() {
    let e = parse_point("x,2.0").unwrap_err();
    assert_eq!(e.kind, ParseErrorKind::NumericConversion(NumError::Malformed));
    assert_eq!(e.text, "x");
}

#[test]
fn parse_point_second_field_bad_reports_second_text() {
    let e = parse_point("1.0,oops").unwrap_err();
    assert_eq!(e.kind, ParseErrorKind::NumericConversion(NumError::Malformed));
    assert_eq!(e.text, "oops");
}

#[test]
fn parse_point_tolerates_whitespace() {
    let p = parse_point(" 1.0 , 2.0 ").unwrap();
    assert_eq!(p, Point { x: 1_000_000, y: 2_000_000 });
}

#[test]
fn parse_point_signs_and_integers() {
    let p = parse_point("-1.5,+2").unwrap();
    assert_eq!(p, Point { x: -1_500_000, y: 2_000_000 });
}

#[test]
fn parse_point_dot_edge_forms() {
    let p = parse_point("5.,.5").unwrap();
    assert_eq!(p, Point { x: 5_000_000, y: 500_000 });
}

#[test]
fn parse_point_extra_fraction_digits_are_ignored() {
    let p = parse_point("0.1234567,0").unwrap();
    assert_eq!(p, Point { x: 123_456, y: 0 });
}

#[test]
fn parse_point_empty_and_single_field_are_wrong_field_count() {
    assert_eq!(parse_point("").unwrap_err().kind, ParseErrorKind::WrongFieldCount);
    assert_eq!(parse_point("1.0").unwrap_err().kind, ParseErrorKind::WrongFieldCount);
    assert_eq!(parse_point("   ").unwrap_err().kind, ParseErrorKind::WrongFieldCount);
}

#[test]
fn parse_point_out_of_range_field() {
    let e = parse_point("9999999999999,0").unwrap_err();
    assert_eq!(e.kind, ParseErrorKind::NumericConversion(NumError::OutOfRange));
    assert_eq!(e.text, "9999999999999");
}

#[test]
fn parse_coord_values() {
    assert_eq!(parse_coord("3.14"), Ok(3_140_000));
    assert_eq!(parse_coord(" -0.25 "), Ok(-250_000));
    assert_eq!(parse_coord("2000000000000"), Ok(2_000_000_000_000_000_000));
    assert_eq!(parse_coord("2000000000000.000001"), Err(NumError::OutOfRange));
    assert_eq!(parse_coord("1.2.3"), Err(NumError::Malformed));
    assert_eq!(parse_coord("."), Err(NumError::Malformed));
    assert_eq!(parse_coord("+"), Err(NumError::Malformed));
    assert_eq!(parse_coord("1 2"), Err(NumError::Malformed));
}

#[test]
fn distance_from_str_three_four_five() {
    assert_eq!(distance_from_str("0,0", "3,4").unwrap(), 5_000_000);
}

#[test]
fn distance_from_str_first_failure_wins() {
    // the first input already fails, so its error is reported even though
    // the second would fail differently
    let e = distance_from_str("bad", "x,1").unwrap_err();
    assert_eq!(e.kind, ParseErrorKind::WrongFieldCount);
    assert_eq!(e.text, "bad");
}

#[test]
fn distance_from_str_second_failure_reported() {
    let e = distance_from_str("0,0", "bad").unwrap_err();
    assert_eq!(e.kind, ParseErrorKind::WrongFieldCount);
    assert_eq!(e.text, "bad");
}

#[test]
fn distance_from_str_rounds_down() {
    // sqrt(2) in millionths is 1414213.56..., reported rounded down
    assert_eq!(distance_from_str("0,0", "1,1").unwrap(), 1_414_213);
}

#[test]
fn parse_error_describe_names_cause_and_text() {
    let e = parse_point("1.0").unwrap_err();
    assert_eq!(e.describe(), "wrong field count: 1.0");
    let e = parse_point("x,1").unwrap_err();
    assert_eq!(e.describe(), "numeric conversion failure, malformed number: x");
    let e = parse_point("9999999999999,1").unwrap_err();
    assert_eq!(e.describe(), "numeric conversion failure, out of range: 9999999999999");
}

#[test]
fn parse_i32_question_ok_values() {
    assert_eq!(parse_i32_question("1234"), Ok(1234));
    assert_eq!(parse_i32_question(" 42 "), Ok(42));
    assert_eq!(parse_i32_question("+17"), Ok(17));
    assert_eq!(parse_i32_question("-5"), Ok(-5));
    assert_eq!(parse_i32_question("-2147483648"), Ok(i32::MIN));
    assert_eq!(parse_i32_question("2147483647"), Ok(i32::MAX));
}

#[test]
fn parse_i32_question_failures() {
    assert_eq!(parse_i32_question("1234!"), Err(NumError::Malformed));
    assert_eq!(parse_i32_question(""), Err(NumError::Malformed));
    assert_eq!(parse_i32_question("1.5"), Err(NumError::Malformed));
    assert_eq!(parse_i32_question("2147483648"), Err(NumError::OutOfRange));
    assert_eq!(parse_i32_question("-2147483649"), Err(NumError::OutOfRange));
    assert_eq!(parse_i32_question("99999999999999999999"), Err(NumError::OutOfRange));
}
