use vstd::prelude::*;

use super::point::Point;
use super::ratio::Ratio;

verus! {

/// An axis-aligned rectangle given by its minimum and maximum corner, both
/// inclusive.
#[derive(Debug, PartialEq, Eq, Copy, Clone, Structural)]
pub struct Rect(pub Point, pub Point);

pub open spec fn min_int(a: int, b: int) -> int {
    if a <= b { a } else { b }
}

pub open spec fn max_int(a: int, b: int) -> int {
    if a >= b { a } else { b }
}

impl Rect {
    /// The rectangle whose two corners are both `p`.
    pub open spec fn at(p: Point) -> Rect {
        Rect(p, p)
    }

    /// Minimum corner not right of or below the maximum corner.
    pub open spec fn ordered(self) -> bool {
        self.0.x <= self.1.x && self.0.y <= self.1.y
    }

    /// Whether `p` lies within the rectangle, borders included.
    pub open spec fn covers(self, p: Point) -> bool {
        self.0.x <= p.x <= self.1.x && self.0.y <= p.y <= self.1.y
    }

    /// Whether every point of `o` lies within `self`.
    pub open spec fn encloses(self, o: Rect) -> bool {
        self.0.x <= o.0.x && self.0.y <= o.0.y && o.1.x <= self.1.x && o.1.y <= self.1.y
    }

    /// Component-wise minimum of the minimum corners and maximum of the
    /// maximum corners.
    pub open spec fn spec_expand(self, o: Rect) -> Rect {
        Rect(
            Point { x: min_int(self.0.x as int, o.0.x as int) as i32, y: min_int(self.0.y as int, o.0.y as int) as i32 },
            Point { x: max_int(self.1.x as int, o.1.x as int) as i32, y: max_int(self.1.y as int, o.1.y as int) as i32 },
        )
    }

    /// Number of columns, `max.x - min.x + 1`.
    pub open spec fn spec_width(self) -> int {
        self.1.x - self.0.x + 1
    }

    /// Number of rows, `max.y - min.y + 1`.
    pub open spec fn spec_height(self) -> int {
        self.1.y - self.0.y + 1
    }

    /// The smallest rectangle that covers both `self` and `o`.
    pub fn expand(&self, o: Rect) -> (r: Rect)
        ensures
            r == self.spec_expand(o),
    {
        let x_min: i32 = if self.0.x <= o.0.x { self.0.x } else { o.0.x };
        let x_max: i32 = if self.1.x >= o.1.x { self.1.x } else { o.1.x };
        let y_min: i32 = if self.0.y <= o.0.y { self.0.y } else { o.0.y };
        let y_max: i32 = if self.1.y >= o.1.y { self.1.y } else { o.1.y };
        Rect(Point { x: x_min, y: y_min }, Point { x: x_max, y: y_max })
    }

    /// Number of columns. The count has to fit the return type.
    pub fn width(&self) -> (w: i32)
        requires
            i32::MIN < self.spec_width() <= i32::MAX,
        ensures
            w == self.spec_width(),
    {
        self.1.x - self.0.x + 1
    }

    /// Number of rows. The count has to fit the return type.
    pub fn height(&self) -> (h: i32)
        requires
            i32::MIN < self.spec_height() <= i32::MAX,
        ensures
            h == self.spec_height(),
    {
        self.1.y - self.0.y + 1
    }

    /// Width over height, as an exact fraction.
    pub fn aspect_ratio(&self) -> (r: Ratio)
        ensures
            r.num == self.spec_width(),
            r.den == self.spec_height(),
    {
        let w: i64 = self.1.x as i64 - self.0.x as i64 + 1;
        let h: i64 = self.1.y as i64 - self.0.y as i64 + 1;
        Ratio { num: w, den: h }
    }

    /// Expanding is commutative.
    pub proof fn lemma_expand_commutative(a: Rect, b: Rect)
        ensures
            a.spec_expand(b) == b.spec_expand(a),
    {
    }

    /// Expanding a rectangle by itself changes nothing.
    pub proof fn lemma_expand_idempotent(a: Rect)
        ensures
            a.spec_expand(a) == a,
    {
    }

    /// Expanding is associative.
    pub proof fn lemma_expand_associative(a: Rect, b: Rect, c: Rect)
        ensures
            a.spec_expand(b).spec_expand(c) == a.spec_expand(b.spec_expand(c)),
    {
    }

    /// The expansion encloses both operands, and every rectangle that
    /// encloses both operands encloses the expansion.
    pub proof fn lemma_expand_least_cover(a: Rect, b: Rect, c: Rect)
        ensures
            a.spec_expand(b).encloses(a),
            a.spec_expand(b).encloses(b),
            c.encloses(a) && c.encloses(b) ==> c.encloses(a.spec_expand(b)),
            a.ordered() ==> a.spec_expand(b).ordered(),
    {
    }
}

} // verus!
