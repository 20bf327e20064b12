use vstd::prelude::*;

use super::feature::Feature;
use crate::extract::cser::incremental::Incremental;
use crate::image::{GridView, Image};
use crate::structures::{Point, Ratio, Rect};

verus! {

/// Width over height of the bounding box of a region.
#[derive(Debug, Copy, Clone)]
pub struct AspectRatio {
    bounds: Rect,
}

impl AspectRatio {
    /// The bounding box that the ratio is taken of.
    pub closed spec fn spec_bounds(&self) -> Rect {
        self.bounds
    }

    /// Width over height of the bounding box, as an exact fraction.
    pub fn value(&self) -> (r: Ratio)
        ensures
            r.num == self.spec_bounds().spec_width(),
            r.den == self.spec_bounds().spec_height(),
    {
        self.bounds.aspect_ratio()
    }

    /// The feature of a region with bounding box `r`.
    pub fn from_bounds(r: Rect) -> (a: AspectRatio)
        ensures
            a.spec_bounds() == r,
    {
        AspectRatio { bounds: r }
    }

    /// The bounding box that the ratio is taken of.
    pub fn bounds(&self) -> (r: Rect)
        ensures
            r == self.spec_bounds(),
    {
        self.bounds
    }
}

impl Incremental for AspectRatio {
    type Model = Rect;

    open spec fn model(&self) -> Rect {
        self.spec_bounds()
    }

    open spec fn wf(&self) -> bool {
        true
    }

    open spec fn within(&self, n: nat) -> bool {
        true
    }

    open spec fn spans(&self, p: Point) -> bool {
        true
    }

    open spec fn init_model(p: Point, reg_idx: usize) -> Rect {
        Rect::at(p)
    }

    open spec fn increment_model(m: Rect, p: Point, img: GridView<u8>, own: GridView<Option<usize>>) -> Rect {
        m.spec_expand(Rect::at(p))
    }

    open spec fn merge_model(m: Rect, other: Rect) -> Rect {
        m.spec_expand(other)
    }

    proof fn lemma_within_more(&self, n: nat, m: nat) {
    }

    fn init(p: Point, reg_idx: usize) -> (s: Self) {
        AspectRatio { bounds: Rect(p, p) }
    }

    fn snapshot(&self) -> (s: Self) {
        *self
    }

    fn increment(&mut self, p: Point, img: &Image<u8>, reg_img: &Image<Option<usize>>) {
        self.bounds = self.bounds.expand(Rect(p, p));
    }

    fn merge(&mut self, other: &Self, img: &Image<u8>, reg_img: &Image<Option<usize>>) {
        self.bounds = self.bounds.expand(other.bounds);
    }
}

impl Feature for AspectRatio {
    open spec fn values(&self) -> Seq<Ratio> {
        seq![Ratio {
            num: self.spec_bounds().spec_width() as i64,
            den: self.spec_bounds().spec_height() as i64,
        }]
    }


    fn value(&self, out: &mut Vec<Ratio>) {
        out.push(self.bounds.aspect_ratio());
    }
}

} // verus!
