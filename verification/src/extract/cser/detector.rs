//! The threshold sweep that grows and merges regions.

use vstd::prelude::*;

use crate::extract::cser::incremental::MAX_PIXELS;
use crate::extract::cser::trace::EmptyTrace;
use crate::extract::region_detector::ExtremalRegion;
use crate::image::{GridView, Image};

pub mod detector;
pub mod labels;
pub mod ledger;
pub mod model;

verus! {

/// The extremal regions of `image`, absorbed ones included, from a sweep
/// that nobody observes.
pub fn detect_regions<T: ExtremalRegion>(image: &Image<u8>) -> (regions: Vec<T>)
    requires
        image@.addressable(),
        image@.cells.len() <= MAX_PIXELS,
    ensures
        exists|own: GridView<Option<usize>>| self::model::is_swept(image@, regions@, own),
{
    let mut trace = EmptyTrace;
    let (all_regions, reg_image) = self::detector::sweep(image, &mut trace);
    all_regions
}

} // verus!
