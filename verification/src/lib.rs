//! Verified two-dimensional N-body gravity integrator.
//!
//! Coordinates, velocities and masses are fixed-point numbers: an `i64`
//! counts raw units of `1 / SCALE` (ten decimal digits of fraction), so the
//! distance floor of one raw unit is exactly the documented `1e-10` epsilon.
//! Every arithmetic step of the force computation and of the semi-implicit
//! Euler update is pinned down exactly by spec functions, so a `step` call
//! is a total, deterministic function of its input state.

pub mod scalar;
pub mod simulation;
