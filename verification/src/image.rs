//! Dense two-dimensional buffers and pixel formats.

pub mod image;
pub mod pixel;

pub use self::image::{GridView, Image, ImageError};
