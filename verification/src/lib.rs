//! A slime-mould growth engine over fixed-point numbers.
//!
//! A population of point agents moves over a rectangular domain, leaves a
//! decaying trail on a shared grid of intensities and steers toward the
//! places where the trail is strong.  Every quantity is an integer: lengths,
//! gains and times are counted in 65536ths, angles in 65536ths of a turn.
//!
//! - `fixed` and `vector` hold the arithmetic: rounding products, integer
//!   square roots, rotations and unit vectors.
//! - `field` holds the trail field with its decay pass, deposits and
//!   sensor readings; `total` proves that a decay pass loses intensity.
//! - `config` holds the steering parameters, `agent` the step of a single
//!   agent.
//! - `random` and `clock` hold the stream of draws and the wall clock that
//!   drive a simulation; `simulation` advances it tick by tick.

pub mod agent;
pub mod clock;
pub mod config;
pub mod field;
pub mod fixed;
pub mod random;
pub mod simulation;
pub mod total;
pub mod vector;
