//! Shape features that are kept up to date while a region grows.

pub mod aspect_ratio;
pub mod compactness;
pub mod feature;
pub mod feature_tuple;
pub mod horizontal_crossings;
pub mod num_holes;

pub use self::aspect_ratio::AspectRatio;
pub use self::compactness::Compactness;
pub use self::feature::Feature;
pub use self::horizontal_crossings::HorizontalCrossings;
pub use self::num_holes::NumHoles;
