use rust_robotics_algo::error::{ConfigurationError, NumericalError};
use rust_robotics_algo::lqr::{DareIteration, DareStep};

#[test]
fn zero_budget_is_refused() {
    assert_eq!(DareIteration::new(0), Err(ConfigurationError::NoIterations));
    assert_eq!(DareIteration::new(150), Ok(DareIteration { steps: 0, max_iter: 150 }));
}

#[test]
fn run_stops_at_budget() {
    let mut it = DareIteration::new(3).unwrap();
    assert_eq!(it.record(true, false), DareStep::Continue);
    assert_eq!(it.record(true, false), DareStep::Continue);
    assert_eq!(it.record(true, false), DareStep::Exhausted);
    assert_eq!(it.steps, 3);
    assert_eq!(DareStep::Exhausted.error(), Some(NumericalError::NonConvergent));
}

#[test]
fn convergence_and_failure_stop_early() {
    let mut it = DareIteration::new(150).unwrap();
    assert_eq!(it.record(true, true), DareStep::Converged);
    assert!(DareStep::Converged.is_final());
    assert_eq!(DareStep::Converged.error(), None);
    let mut it = DareIteration::new(150).unwrap();
    assert_eq!(it.record(false, true), DareStep::Failed);
    assert_eq!(DareStep::Failed.error(), Some(NumericalError::InverseFailed));
    assert!(!DareStep::Continue.is_final());
}
