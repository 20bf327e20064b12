//! Plain geometric value types.

pub mod point;
pub mod quad;
pub mod ratio;
pub mod rect;

pub use self::point::Point;
pub use self::quad::Quad;
pub use self::ratio::Ratio;
pub use self::rect::Rect;
