//! A circular robot with a rangefinder that sweeps all 360 degrees finds the
//! nearest wall of a room, drives up to it, turns along it and follows it.
//!
//! Every quantity is a whole number of millionths: lengths are counted in
//! micrometres, headings in millionths of a degree, time in microseconds, and
//! the components of a unit vector in millionths of one (see [`arith::UNIT`]).
//! Where a quotient is not whole it is rounded toward zero.
//!
//! The library neither reads a clock nor sleeps, and it has no sines: its
//! caller hands it the time that has passed and the unit vectors of the rays,
//! and makes the moves that a tick asks for.
//!
//! - [`float2`] and [`line`]: vectors and walls.
//! - [`utils`]: the distance along a ray to a wall.
//! - [`sensing`]: the sweep of the rangefinder, the nearest reading, and the
//!   test for touching a wall.
//! - [`robot`]: the robot's state, its motion, and its controller.
//! - [`pacing`]: when a loop that ticks at a fixed interval runs, sleeps and
//!   ends.
//! - [`window`]: what the keys of the display ask for.
//! - [`arith`]: division, square roots and bounds.

pub mod arith;
pub mod float2;
pub mod line;
pub mod pacing;
pub mod robot;
pub mod sensing;
pub mod utils;
pub mod window;
