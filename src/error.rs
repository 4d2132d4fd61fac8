//! The errors that the controllers and the filter report.
use vstd::prelude::*;

verus! {

/// A numerical failure of one control computation.
#[derive(Debug, Clone, Copy, PartialEq, Eq, Structural)]
pub enum NumericalError {
    /// The pseudo-inverse could not meet its tolerance; the controller has no
    /// command for this tick.
    InverseFailed,
    /// The iteration used up its budget without meeting the tolerance; the
    /// last iterate is a best effort.
    NonConvergent,
}

/// A configuration that is refused before any computation starts.
#[derive(Debug, Clone, Copy, PartialEq, Eq, Structural)]
pub enum ConfigurationError {
    /// The sample interval is not positive.
    NonPositiveStep,
    /// A diagonal entry of the input cost is not positive.
    NonPositiveInputCost,
    /// The particle population is empty.
    NoParticles,
    /// The iteration budget is zero.
    NoIterations,
}

} // verus!
