use vstd::prelude::*;

use super::point::Point;

verus! {

/// A quadrilateral given by its four corners.
#[derive(Debug, PartialEq, Eq, Copy, Clone, Structural)]
pub struct Quad(pub Point, pub Point, pub Point, pub Point);

} // verus!
