//! Extremal regions grown in one sweep over the intensity thresholds.

pub mod detector;
pub mod export;
pub mod feature;
pub mod full_trace;
pub mod incremental;
pub mod region;
pub mod trace;

pub use self::detector::detector::CserDetector;
pub use self::export::{TraceWriteError, TraceWriteResult};
pub use self::feature::Feature;
pub use self::full_trace::FullTrace;
pub use self::incremental::{Incremental, MAX_PIXELS};
pub use self::region::Region;
pub use self::trace::{EmptyTrace, PrintTrace, Trace, TracedRegion};
