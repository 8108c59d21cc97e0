//! A 2D special-relativity rendering core.
//!
//! The crate models the scene as seen by a non-inertial observer: an
//! 8-component geometric algebra ([`r120::R120`]) builds Lorentz boosts as
//! rotors, a worldline solver finds the point of a periodic piecewise-linear
//! path that is causally visible now, and an integrator advances the
//! observer's velocity, position and the two clocks (coordinate and proper
//! time).
//!
//! All quantities are fixed-point numbers: signed 128-bit integers counting
//! steps of `1 / fixed::SCALE` of a world unit. Every operation is specified
//! exactly over that representation, rounding included.

pub mod fixed;
pub mod r120;
pub mod boost;
pub mod worldline;
pub mod observer;
