use vstd::prelude::*;

use crate::structures::{Point, Quad, Rect};

verus! {

/// A character candidate on a plate.
#[derive(Debug, PartialEq, Eq, Copy, Clone, Structural)]
pub struct Symbol {
    pub bound: Rect,
}

/// A number plate found in an image.
#[derive(Debug, Clone)]
pub struct NumberPlate {
    pub bound: Quad,
    pub symbols: Vec<Point>,
}

} // verus!
