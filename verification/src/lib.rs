//! Weekly timesheet reports from a time-tracking extract.
//!
//! The input is a configuration header followed by a list of tagged time
//! intervals. Each interval is assigned to exactly one configured project, the
//! durations are summed per project and weekday, rounded to tenths of an hour,
//! and rendered as a fixed-shape text table.

pub mod bounds;
pub mod clock;
pub mod driver;
pub mod error;
pub mod interval;
pub mod json;
pub mod options;
pub mod order;
pub mod render;
pub mod report;
pub mod sums;
pub mod text;
pub mod theorems;

pub use clock::{Clock, LocalInstant};
pub use driver::{run, run_at, Config};
pub use error::{Error, ErrorKind};
pub use interval::{Inclusion, Interval, IntervalFactory};
pub use options::Options;
pub use report::Report;
