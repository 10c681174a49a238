//! Error taxonomy of the calibration engine.

use vstd::prelude::*;

verus! {

/// Failure of a metric computation: the observed and simulated series
/// disagree in length. Carries the two lengths, observations first.
#[derive(Debug, Clone, PartialEq, Eq, Structural)]
pub enum MetricsError {
    LengthMismatch(usize, usize),
}

/// Failures surfaced by the engine.
#[derive(Debug, Clone)]
pub enum Error {
    /// The four forcing series disagree in length. Carries the lengths of
    /// precipitation, temperature, potential evapotranspiration and
    /// day-of-year, in that order.
    LengthMismatch(usize, usize, usize, usize),
    /// A parameter vector has the wrong length. Carries (expected, got).
    ParamsMismatch(usize, usize),
    /// A model name that the registry does not know.
    UnknownModel(String),
    /// An objective name that is none of rmse, nse, kge.
    UnknownObjective(String),
    /// A metric evaluation failed.
    Metrics(MetricsError),
    /// `step` was called before `init` completed.
    Uninitialized,
    /// A reply of the wrong kind or shape was handed to `resume`.
    Protocol,
}

} // verus!
