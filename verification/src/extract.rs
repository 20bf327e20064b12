//! Region extraction.

pub mod cser;
pub mod extractor;
pub mod region_detector;
pub mod structures;

pub use self::region_detector::{ExtremalRegion, RegionDetector};
