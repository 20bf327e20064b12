use vstd::prelude::*;

use crate::extract::structures::NumberPlate;
use crate::image::Image;

verus! {

/// A way to find number plates in a grayscale image.
pub trait ExtractPlate {
    /// The plates found. Unless an implementor says otherwise, none.
    fn extract(img: &Image<u8>) -> (plates: Vec<NumberPlate>)
        default_ensures
            plates@.len() == 0,
    {
        Vec::new()
    }
}

/// The plate extractor that finds nothing.
pub struct PlateExtractor;

impl ExtractPlate for PlateExtractor {}

} // verus!
