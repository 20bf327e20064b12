//! Extremal-region extraction from grayscale images.
//!
//! A threshold sweep takes in the pixels of an image from the darkest to the
//! brightest. Each pixel starts a region, joins the region next to it, or
//! joins several regions into one. Every region keeps shape features that
//! are updated pixel by pixel and merge by merge, and records a snapshot of
//! them whenever its weight passes a peak.
//!
//! * [`structures`]: points, rectangles and exact fractions.
//! * [`image`]: the dense grid of cells and pixel formats.
//! * [`extract::cser::feature`]: the shape features.
//! * [`extract::cser::region`]: the region that carries a feature state.
//! * [`extract::cser::detector`]: the sweep.
//! * [`extract::cser::trace`] and [`extract::cser::full_trace`]: observers
//!   of the sweep.
//!
//! Feature values are quotients of integer counters and are handed out as
//! [`structures::Ratio`], numerator and denominator, never rounded.

pub mod structures;
pub mod image;
pub mod extract;
