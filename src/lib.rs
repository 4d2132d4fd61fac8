//! Verified building blocks of a small robotics toolkit: dense matrices and
//! their block assembly, the control of the Riccati iteration behind an LQR
//! gain, the landmark selection and systematic resampling of a particle
//! filter, and the column store that records a simulation.
pub mod column;
pub mod error;
pub mod landmarks;
pub mod lqr;
pub mod matrix;
pub mod resample;
