//! Verified core of a real-time gravitational N-body simulator.

pub mod color;
pub mod frame;
pub mod raster;
pub mod schedule;
pub mod seeding;
