//! A verified 2D particle simulation: circular bodies move inside a bounded
//! rectangular arena, bounce off its walls, exchange velocities when they
//! touch, and are rasterized as filled disks into a row-major framebuffer.

pub mod body;
pub mod draw;
mod rng;
pub mod sim;

pub use body::Ball;
pub use body::BallModel;
pub use sim::BallSimulation;
pub use sim::SimModel;
