//! A validated geometric data model with fallible text parsing.
//!
//! Coordinates are exact fixed-point values: one unit is a millionth, so the
//! pair `(1_500_000, -2_000_000)` stands for the point `(1.5, -2.0)`. Areas
//! are kept exact as well, as a pair `units + pi_units * pi` in millionths of
//! a millionth. The text parser turns a string such as `"1.5,-2.0"` into a
//! [`geometry::Point`] and reports malformed input as a structured error
//! value instead of panicking.

pub mod basics;
pub mod geometry;
pub mod parse;
pub mod shapes;
pub mod user;

pub use basics::add;
pub use basics::append_world;
pub use basics::is_even;
pub use basics::string_len;
pub use basics::sum_from_to;
pub use geometry::Axis;
pub use geometry::Point;
pub use geometry::move_right;
pub use geometry::move_up;
pub use parse::parse_i32_question;
pub use parse::parse_coord;
pub use parse::parse_point;
pub use parse::distance_from_str;
pub use parse::NumError;
pub use parse::ParseError;
pub use parse::ParseErrorKind;
pub use shapes::Area;
pub use shapes::Circle;
pub use shapes::Rectangle;
pub use shapes::Shape;
pub use shapes::Vector2D;
pub use shapes::total_area;
pub use user::User;
pub use user::UserError;
