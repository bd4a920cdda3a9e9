//! Shapes and their exact areas.
//!
//! A shape is one of exactly three variants: a validated rectangle, a circle
//! or a directed segment. Because coordinates are fixed-point millionths, an
//! area is an exact value `units + pi_units * pi`, both components counted in
//! millionths of millionths of a square unit: a rectangle of one unit by one
//! unit has `units == 1_000_000_000_000`, a circle of radius one unit has
//! `pi_units == 1_000_000_000_000`.

use vstd::prelude::*;
use vstd::arithmetic::mul::lemma_mul_strictly_positive;
use vstd::arithmetic::mul::lemma_mul_upper_bound;
use crate::geometry::Point;

verus! {

/// How many area steps make one square unit: an area of `AREA_SCALE`
/// stands for one square unit.
pub const AREA_SCALE: u128 = 1_000_000_000_000;

/// An axis-aligned rectangle given by its top-right and bottom-left
/// corners. The corners are validated at construction: the top-right
/// corner lies strictly above and strictly to the right of the
/// bottom-left one, and no later operation can break that.
#[derive(Clone, Copy, Debug)]
pub struct Rectangle {
    point_rt: Point,
    point_lb: Point,
}

impl Rectangle {
    /// The top-right corner.
    pub closed spec fn rt_spec(self) -> Point {
        self.point_rt
    }

    /// The bottom-left corner.
    pub closed spec fn lb_spec(self) -> Point {
        self.point_lb
    }

    /// The corner ordering invariant: every rectangle value satisfies it.
    #[verifier::type_invariant]
    pub open spec fn wf(self) -> bool {
        self.rt_spec().x > self.lb_spec().x && self.rt_spec().y > self.lb_spec().y
    }

    /// Validating factory: yields a rectangle exactly when the corners are
    /// strictly ordered, and an absent value otherwise.
    pub fn new(point_rt: Point, point_lb: Point) -> (r: Option<Rectangle>)
        ensures
            (point_rt.x > point_lb.x && point_rt.y > point_lb.y) ==> (r matches Some(rect)
                && rect.rt_spec() == point_rt && rect.lb_spec() == point_lb),
            !(point_rt.x > point_lb.x && point_rt.y > point_lb.y) ==> r is None,
    {
        if point_rt.x <= point_lb.x || point_rt.y <= point_lb.y {
            return None;
        }
        Some(Rectangle { point_rt, point_lb })
    }

    /// The top-right corner.
    pub fn point_rt(&self) -> (r: Point)
        ensures
            r == self.rt_spec(),
    {
        self.point_rt
    }

    /// The bottom-left corner.
    pub fn point_lb(&self) -> (r: Point)
        ensures
            r == self.lb_spec(),
    {
        self.point_lb
    }
}

/// A circle. No invariant is enforced: a zero or negative radius is
/// accepted, and its square still yields a non-negative area.
#[derive(Clone, Copy, Debug)]
pub struct Circle {
    pub center: Point,
    pub radius: i64,
}

/// A directed segment. No invariant; it contributes zero area.
#[derive(Clone, Copy, Debug)]
pub struct Vector2D {
    pub point_s: Point,
    pub point_e: Point,
}

/// The closed set of shape variants.
#[derive(Clone, Copy, Debug)]
pub enum Shape {
    Rectangle(Rectangle),
    Circle(Circle),
    Vector2D(Vector2D),
}

/// An exact area value `units + pi_units * pi`, both counted in
/// millionths of millionths of a square unit.
#[derive(Clone, Copy, PartialEq, Eq, Structural, Debug)]
pub struct Area {
    pub units: u128,
    pub pi_units: u128,
}

/// The rational component of the exact area of a shape: the width times
/// height of a rectangle, zero for the others.
pub open spec fn area_units(s: Shape) -> int {
    match s {
        Shape::Rectangle(rect) => (rect.rt_spec().x - rect.lb_spec().x) * (rect.rt_spec().y
            - rect.lb_spec().y),
        Shape::Circle(_) => 0,
        Shape::Vector2D(_) => 0,
    }
}

/// The pi component of the exact area of a shape: the squared radius of a
/// circle, zero for the others.
pub open spec fn area_pi_units(s: Shape) -> int {
    match s {
        Shape::Rectangle(_) => 0,
        Shape::Circle(circle) => circle.radius * circle.radius,
        Shape::Vector2D(_) => 0,
    }
}

/// The rational component of the summed area of a sequence of shapes.
pub open spec fn total_units(s: Seq<Shape>) -> int
    decreases s.len(),
{
    if s.len() == 0 {
        0
    } else {
        total_units(s.drop_last()) + area_units(s.last())
    }
}

/// The pi component of the summed area of a sequence of shapes.
pub open spec fn total_pi_units(s: Seq<Shape>) -> int
    decreases s.len(),
{
    if s.len() == 0 {
        0
    } else {
        total_pi_units(s.drop_last()) + area_pi_units(s.last())
    }
}

/// Whether every prefix sum of the areas stays representable in `u128`.
pub open spec fn totals_fit(s: Seq<Shape>) -> bool {
    forall|i: int|
        0 <= i <= s.len() ==> (0 <= #[trigger] total_units(s.take(i)) <= u128::MAX && 0
            <= total_pi_units(s.take(i)) <= u128::MAX)
}

impl Shape {
    /// The exact area of the shape. A rectangle contributes its width times
    /// height, which is strictly positive by the corner invariant; a circle
    /// contributes pi times its squared radius; a segment, or any variant
    /// without a surface of its own, contributes the documented zero.
    pub fn area(&self) -> (a: Area)
        ensures
            a.units == area_units(*self),
            a.pi_units == area_pi_units(*self),
            *self matches Shape::Rectangle(_) ==> a.units > 0 && a.pi_units == 0,
    {
        match self {
            Shape::Rectangle(rect) => {
                proof {
                    use_type_invariant(*rect);
                }
                let dx: i128 = rect.point_rt.x as i128 - rect.point_lb.x as i128;
                let dy: i128 = rect.point_rt.y as i128 - rect.point_lb.y as i128;
                let dxu: u128 = dx as u128;
                let dyu: u128 = dy as u128;
                proof {
                    lemma_mul_upper_bound(
                        dxu as int,
                        18446744073709551615,
                        dyu as int,
                        18446744073709551615,
                    );
                    lemma_mul_strictly_positive(dxu as int, dyu as int);
                }
                Area { units: dxu * dyu, pi_units: 0 }
            },
            Shape::Circle(circle) => {
                let r: i128 = circle.radius as i128;
                let ar: u128 = if r < 0 {
                    (-r) as u128
                } else {
                    r as u128
                };
                proof {
                    assert(ar * ar == circle.radius as int * circle.radius as int)
                        by (nonlinear_arith)
                        requires
                            ar == circle.radius as int || ar == -(circle.radius as int),
                    ;
                    lemma_mul_upper_bound(
                        ar as int,
                        9223372036854775808,
                        ar as int,
                        9223372036854775808,
                    );
                }
                Area { units: 0, pi_units: ar * ar }
            },
            Shape::Vector2D(_) => Area { units: 0, pi_units: 0 },
        }
    }
}

/// Sums the exact areas of the shapes in order, sequentially and
/// completely: the result is the componentwise sum over the whole slice.
pub fn total_area(shape_vec: &[Shape]) -> (t: Area)
    requires
        totals_fit(shape_vec@),
    ensures
        t.units == total_units(shape_vec@),
        t.pi_units == total_pi_units(shape_vec@),
{
    let n: usize = shape_vec.len();
    let mut units: u128 = 0;
    let mut pi_units: u128 = 0;
    let mut i: usize = 0;
    while i < n
        invariant
            i <= n,
            n == shape_vec@.len(),
            totals_fit(shape_vec@),
            units == total_units(shape_vec@.take(i as int)),
            pi_units == total_pi_units(shape_vec@.take(i as int)),
        decreases n - i,
    {
        let a: Area = shape_vec[i].area();
        proof {
            assert(shape_vec@.take(i + 1).drop_last() =~= shape_vec@.take(i as int));
            assert(shape_vec@.take(i + 1).last() == shape_vec@[i as int]);
            assert(0 <= total_units(shape_vec@.take(i + 1)) <= u128::MAX);
            assert(0 <= total_pi_units(shape_vec@.take(i + 1)) <= u128::MAX);
        }
        units = units + a.units;
        pi_units = pi_units + a.pi_units;
        i = i + 1;
    }
    proof {
        assert(shape_vec@.take(n as int) =~= shape_vec@);
    }
    Area { units, pi_units }
}

/// Law: every valid rectangle has a strictly positive, pi-free area.
pub proof fn lemma_rect_area_positive(rect: Rectangle)
    requires
        rect.wf(),
    ensures
        area_units(Shape::Rectangle(rect)) > 0,
        area_pi_units(Shape::Rectangle(rect)) == 0,
{
    lemma_mul_strictly_positive(
        rect.rt_spec().x - rect.lb_spec().x,
        rect.rt_spec().y - rect.lb_spec().y,
    );
}

/// Law: the summed area of two shapes does not depend on their order.
pub proof fn lemma_total_area_order_two(a: Shape, b: Shape)
    ensures
        total_units(seq![a, b]) == total_units(seq![b, a]),
        total_pi_units(seq![a, b]) == total_pi_units(seq![b, a]),
{
    reveal_with_fuel(total_units, 3);
    reveal_with_fuel(total_pi_units, 3);
    assert(seq![a, b].drop_last() =~= seq![a]);
    assert(seq![b, a].drop_last() =~= seq![b]);
    assert(seq![a].drop_last() =~= Seq::<Shape>::empty());
    assert(seq![b].drop_last() =~= Seq::<Shape>::empty());
    assert(total_units(seq![a]) == area_units(a));
    assert(total_units(seq![b]) == area_units(b));
    assert(total_units(seq![a, b]) == area_units(a) + area_units(b));
    assert(total_units(seq![b, a]) == area_units(b) + area_units(a));
    assert(total_pi_units(seq![a]) == area_pi_units(a));
    assert(total_pi_units(seq![b]) == area_pi_units(b));
    assert(total_pi_units(seq![a, b]) == area_pi_units(a) + area_pi_units(b));
    assert(total_pi_units(seq![b, a]) == area_pi_units(b) + area_pi_units(a));
}

/// Law: the summed area of no shapes at all is exactly zero.
pub proof fn lemma_total_area_empty()
    ensures
        total_units(Seq::<Shape>::empty()) == 0,
        total_pi_units(Seq::<Shape>::empty()) == 0,
{
}

} // verus!
