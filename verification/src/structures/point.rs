use vstd::prelude::*;

verus! {

/// An integer pixel coordinate.
#[derive(Debug, Eq, PartialEq, PartialOrd, Ord, Clone, Copy, Structural)]
pub struct Point {
    pub x: i32,
    pub y: i32,
}

impl Point {
    /// Whether `q` is one step left, right, above or below `self`.
    pub open spec fn adjacent(self, q: Point) -> bool {
        ||| (self.y == q.y && (self.x - q.x == 1 || q.x - self.x == 1))
        ||| (self.x == q.x && (self.y - q.y == 1 || q.y - self.y == 1))
    }
}

} // verus!
