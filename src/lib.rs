// Terminal telemetry dashboard core: a sub-cell dot-matrix plotter (`raster`, `rendering`),
// streaming analytics (`stats`, `analytics`, `formula`), load-aware frame pacing
// (`performance`), bounded series (`series`) and the decisions of the dashboard loop
// (`watch`, `trace`, `ranking`). Fractional quantities (percentages, positions, rates) are
// integers counting thousandths (`SCALE`).

use vstd::prelude::*;

pub mod analytics;
mod clock;
pub mod config;
pub mod fixed;
pub mod formula;
pub mod performance;
pub mod ranking;
pub mod raster;
pub mod rendering;
pub mod series;
pub mod stats;
pub mod trace;
pub mod watch;

verus! {

/// Thousandths: every fixed-point quantity of the library is an integer count of these.
pub const SCALE: i64 = 1000;

} // verus!
