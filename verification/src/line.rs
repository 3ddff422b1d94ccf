//! Wall segments.

use vstd::prelude::*;
use crate::arith::{divide, lemma_product_bound, ratio};
use crate::float2::{fits, Float2, Point};

verus! {

/// A straight segment of the plane between two integer points: what a [`Line`]
/// stands for in contracts.
pub struct Segment {
    pub a: Point,
    pub b: Point,
}

/// The line through the two ends of `segment` is the set of points (x, y) with
/// `a * x + b * y == c`, for the three numbers given here in that order.
pub open spec fn line_equation(segment: Segment) -> (int, int, int) {
    let a = segment.b.y - segment.a.y;
    let b = segment.a.x - segment.b.x;
    (a, b, a * segment.a.x + b * segment.a.y)
}

/// What tells whether two lines cross: zero exactly where they are parallel,
/// or one of the two segments is a single point.
pub open spec fn determinant(first: Segment, second: Segment) -> int {
    let (a1, b1, c1) = line_equation(first);
    let (a2, b2, c2) = line_equation(second);
    a1 * b2 - a2 * b1
}

/// The point in which the lines through the two segments cross, each
/// coordinate rounded toward zero.
pub open spec fn crossing(first: Segment, second: Segment) -> Point {
    let (a1, b1, c1) = line_equation(first);
    let (a2, b2, c2) = line_equation(second);
    let det = determinant(first, second);
    Point { x: ratio(b2 * c1 - b1 * c2, det), y: ratio(a1 * c2 - a2 * c1, det) }
}

/// A wall: the straight segment from `a` to `b`.
#[derive(Debug, Clone, Copy)]
pub struct Line {
    a: Float2,
    b: Float2,
}

impl View for Line {
    type V = Segment;

    closed spec fn view(&self) -> Segment {
        Segment { a: self.a@, b: self.b@ }
    }
}

impl Line {
    /// The wall from `a` to `b`.
    pub fn new(a: Float2, b: Float2) -> (line: Self)
        ensures
            line@ == (Segment { a: a@, b: b@ }),
    {
        Self { a, b }
    }

    /// Both ends of a wall have coordinates that fit.
    pub proof fn lemma_ends_fit(self)
        ensures
            fits(self@.a.x),
            fits(self@.a.y),
            fits(self@.b.x),
            fits(self@.b.y),
    {
        self.a.lemma_stands_for_a_point();
        self.b.lemma_stands_for_a_point();
    }

    /// The first end.
    pub fn get_a(&self) -> (a: Float2)
        ensures
            a@ == self@.a,
    {
        self.a
    }

    /// The second end.
    pub fn get_b(&self) -> (b: Float2)
        ensures
            b@ == self@.b,
    {
        self.b
    }

    /// The point in which the line through this wall crosses the line through
    /// `target`. There is none where the two are parallel, and none is given
    /// where it lies too far out for a [`Float2`].
    pub fn get_col_point(&self, target: Line) -> (point: Option<Float2>)
        ensures
            point is Some <==> determinant(self@, target@) != 0 && fits(crossing(self@, target@).x)
                && fits(crossing(self@, target@).y),
            point matches Some(p) ==> p@ == crossing(self@, target@),
    {
        let ax = self.a.get_x() as i128;
        let ay = self.a.get_y() as i128;
        let tx = target.a.get_x() as i128;
        let ty = target.a.get_y() as i128;
        let a1 = self.b.get_y() as i128 - ay;
        let b1 = ax - self.b.get_x() as i128;
        let a2 = target.b.get_y() as i128 - ty;
        let b2 = tx - target.b.get_x() as i128;
        proof {
            let c: int = 0x1_0000_0000;
            let d: int = 0x1_0000_0000_0000_0000;
            lemma_product_bound(a1 as int, ax as int, c, c);
            lemma_product_bound(b1 as int, ay as int, c, c);
            lemma_product_bound(a2 as int, tx as int, c, c);
            lemma_product_bound(b2 as int, ty as int, c, c);
            lemma_product_bound(a1 as int, b2 as int, c, c);
            lemma_product_bound(a2 as int, b1 as int, c, c);
            lemma_product_bound(b2 as int, a1 * ax + b1 * ay, c, 2 * d);
            lemma_product_bound(b1 as int, a2 * tx + b2 * ty, c, 2 * d);
            lemma_product_bound(a1 as int, a2 * tx + b2 * ty, c, 2 * d);
            lemma_product_bound(a2 as int, a1 * ax + b1 * ay, c, 2 * d);
        }
        let c1 = a1 * ax + b1 * ay;
        let c2 = a2 * tx + b2 * ty;

        let determinant = a1 * b2 - a2 * b1;

        // no crossing found
        if determinant == 0 {
            return None;
        }
        let x_part = b2 * c1 - b1 * c2;
        let y_part = a1 * c2 - a2 * c1;
        let x = divide(x_part, determinant);
        let y = divide(y_part, determinant);
        if i32::MIN as i128 <= x && x <= i32::MAX as i128 && i32::MIN as i128 <= y && y
            <= i32::MAX as i128 {
            Some(Float2::new(x as i32, y as i32))
        } else {
            None
        }
    }
}

} // verus!
