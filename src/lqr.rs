//! Control of the fixed-point Riccati iteration that yields an LQR gain.
use vstd::prelude::*;

use crate::error::{ConfigurationError, NumericalError};
use crate::matrix::Mat;

verus! {

/// What the iteration does after a step.
#[derive(Debug, Clone, Copy, PartialEq, Eq, Structural)]
pub enum DareStep {
    /// Take another step from the new iterate.
    Continue,
    /// The new iterate differs from the previous one by less than the
    /// tolerance: it is the solution.
    Converged,
    /// The budget is used up: the new iterate is returned as a best effort.
    Exhausted,
    /// The pseudo-inverse failed: there is no solution this tick.
    Failed,
}

/// The bookkeeping of one run of the Riccati iteration: how many steps have
/// been taken, out of how many allowed.
#[derive(Debug, Clone, Copy, PartialEq, Eq, Structural)]
pub struct DareIteration {
    /// Steps taken so far.
    pub steps: u32,
    /// Largest number of steps allowed.
    pub max_iter: u32,
}

/// What the iteration does after a step taken when `steps` steps of a budget
/// of `max_iter` were already done.
pub open spec fn step_after(steps: nat, max_iter: nat, inverse_ok: bool, converged: bool) -> DareStep {
    if !inverse_ok {
        DareStep::Failed
    } else if converged {
        DareStep::Converged
    } else if steps + 1 >= max_iter {
        DareStep::Exhausted
    } else {
        DareStep::Continue
    }
}

impl DareIteration {
    /// A run that may take up to `max_iter` steps; a zero budget is refused.
    pub fn new(max_iter: u32) -> (r: Result<DareIteration, ConfigurationError>)
        ensures
            max_iter == 0 <==> r == Err::<DareIteration, ConfigurationError>(ConfigurationError::NoIterations),
            max_iter > 0 <==> r == Ok::<DareIteration, ConfigurationError>(DareIteration { steps: 0, max_iter }),
    {
        if max_iter == 0 {
            Err(ConfigurationError::NoIterations)
        } else {
            Ok(DareIteration { steps: 0, max_iter })
        }
    }

    /// Records one step: whether the pseudo-inverse succeeded and whether the
    /// largest change of an entry stayed below the tolerance.
    pub fn record(&mut self, inverse_ok: bool, converged: bool) -> (r: DareStep)
        requires
            old(self).steps < old(self).max_iter,
        ensures
            r == step_after(old(self).steps as nat, old(self).max_iter as nat, inverse_ok, converged),
            final(self).max_iter == old(self).max_iter,
            final(self).steps == old(self).steps + 1,
            r == DareStep::Continue ==> final(self).steps < final(self).max_iter,
    {
        self.steps = self.steps + 1;
        if !inverse_ok {
            DareStep::Failed
        } else if converged {
            DareStep::Converged
        } else if self.steps >= self.max_iter {
            DareStep::Exhausted
        } else {
            DareStep::Continue
        }
    }
}

impl DareStep {
    /// Whether the iteration stops here.
    pub fn is_final(self) -> (r: bool)
        ensures
            r <==> self != DareStep::Continue,
    {
        !matches!(self, DareStep::Continue)
    }

    /// The error that the run reports when it stops here: none for a
    /// converged run or one that goes on.
    pub fn error(self) -> (r: Option<NumericalError>)
        ensures
            self == DareStep::Exhausted ==> r == Some(NumericalError::NonConvergent),
            self == DareStep::Failed ==> r == Some(NumericalError::InverseFailed),
            self == DareStep::Converged || self == DareStep::Continue ==> r == None::<NumericalError>,
    {
        match self {
            DareStep::Exhausted => Some(NumericalError::NonConvergent),
            DareStep::Failed => Some(NumericalError::InverseFailed),
            _ => None,
        }
    }
}

/// A plant that gives its discrete-time state-space model `(A, B)` for a
/// sample interval `dt`, so that `x[k+1] = A x[k] + B u[k]`.
pub trait StateSpace<S> {
    fn model(&self, dt: S) -> (Mat<S>, Mat<S>);
}

} // verus!
