//! Simulation core of a paddle-and-ball arcade game.
//!
//! The library advances ball and paddle state each tick, detects and
//! resolves collisions between a moving ball and rectangular obstacles
//! (walls, bricks, the paddle), and derives scoring, ball loss and
//! visual feedback from those collisions. All quantities are integers:
//! positions and sizes in pixels, velocities in pixels per second, time
//! in milliseconds, interpolation fractions in thousandths, rotations in
//! millidegrees, and colour channels in thousandths.

pub mod ball;
pub mod collide;
pub mod color;
pub mod combo;
pub mod driver;
pub mod geom;
pub mod motion;
pub mod num;
mod rng;
pub mod state;
pub mod systems;
pub mod world;
