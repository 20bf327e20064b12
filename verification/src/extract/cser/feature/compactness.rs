use vstd::prelude::*;

use super::feature::Feature;
use crate::extract::cser::incremental::Incremental;
use crate::image::{GridView, Image};
use crate::structures::{Point, Ratio};

verus! {

/// The mathematical value of a [`Compactness`]: the running boundary and
/// pixel counts of a region.
pub struct Outline {
    pub perimeter: int,
    pub area: int,
}

/// One if `(x, y)` is a pixel of `img` that is no brighter than `level`,
/// else zero.
pub open spec fn no_brighter(img: GridView<u8>, x: int, y: int, level: u8) -> int {
    if img.inside(x, y) && img.at(x, y) <= level {
        1
    } else {
        0
    }
}

/// How many of the four neighbours of `p` are pixels of `img` that are no
/// brighter than `p`. Intensities are compared, not region membership.
pub open spec fn settled_neighbours(img: GridView<u8>, p: Point) -> int {
    let level = img.at(p.x as int, p.y as int);
    no_brighter(img, p.x - 1, p.y as int, level) + no_brighter(img, p.x as int, p.y - 1, level)
        + no_brighter(img, p.x + 1, p.y as int, level) + no_brighter(img, p.x as int, p.y + 1, level)
}

/// Boundary length over area of a region, both counted pixel by pixel.
#[derive(Debug, Copy, Clone)]
pub struct Compactness {
    perimeter: i32,
    area: i32,
}

impl Compactness {
    /// The running boundary count.
    pub fn perimeter(&self) -> (n: i32)
        ensures
            n == self.model().perimeter,
    {
        self.perimeter
    }

    /// The running pixel count.
    pub fn area(&self) -> (n: i32)
        ensures
            n == self.model().area,
    {
        self.area
    }

    fn counts(img: &Image<u8>, x: i32, y: i32, level: u8) -> (n: i32)
        ensures
            n == no_brighter(img@, x as int, y as int, level),
    {
        if img.inside(x, y) {
            if img.pixel(x, y) <= level {
                1
            } else {
                0
            }
        } else {
            0
        }
    }
}

impl Incremental for Compactness {
    type Model = Outline;

    closed spec fn model(&self) -> Outline {
        Outline { perimeter: self.perimeter as int, area: self.area as int }
    }

    open spec fn wf(&self) -> bool {
        true
    }

    open spec fn within(&self, n: nat) -> bool {
        0 <= self.model().area <= n && 0 <= self.model().perimeter <= 4 * n
    }

    open spec fn spans(&self, p: Point) -> bool {
        true
    }

    open spec fn init_model(p: Point, reg_idx: usize) -> Outline {
        Outline { perimeter: 1, area: 1 }
    }

    open spec fn increment_model(m: Outline, p: Point, img: GridView<u8>, own: GridView<Option<usize>>) -> Outline {
        Outline { perimeter: m.perimeter + 4 - settled_neighbours(img, p), area: m.area + 1 }
    }

    open spec fn merge_model(m: Outline, other: Outline) -> Outline {
        Outline { perimeter: m.perimeter + other.perimeter, area: m.area + other.area }
    }

    proof fn lemma_within_more(&self, n: nat, m: nat) {
    }

    fn init(p: Point, reg_idx: usize) -> (s: Self) {
        Compactness { perimeter: 1, area: 1 }
    }

    fn snapshot(&self) -> (s: Self) {
        *self
    }

    fn increment(&mut self, p: Point, img: &Image<u8>, reg_img: &Image<Option<usize>>) {
        self.area += 1;
        let pv: u8 = img.pixel(p.x, p.y);
        let mut sum: i32 = 0;
        sum += Self::counts(img, p.x - 1, p.y, pv);
        sum += Self::counts(img, p.x, p.y - 1, pv);
        sum += Self::counts(img, p.x + 1, p.y, pv);
        sum += Self::counts(img, p.x, p.y + 1, pv);
        self.perimeter += 4 - sum;
    }

    fn merge(&mut self, other: &Self, img: &Image<u8>, reg_img: &Image<Option<usize>>) {
        let ghost (na, nb) = choose|a: nat, b: nat|
            #[trigger] old(self).within(a) && #[trigger] other.within(b) && a + b
                <= crate::extract::cser::incremental::MAX_PIXELS;
        self.perimeter += other.perimeter;
        self.area += other.area;
    }
}

impl Feature for Compactness {
    open spec fn values(&self) -> Seq<Ratio> {
        seq![Ratio { num: self.model().perimeter as i64, den: self.model().area as i64 }]
    }


    fn value(&self, out: &mut Vec<Ratio>) {
        out.push(Ratio::new(self.perimeter as i64, self.area as i64));
    }
}

} // verus!
