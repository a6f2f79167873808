//! Core of a real-time 2D tile-world simulation: geometry and rectangle
//! overlap math, a tile-grid level with spatial queries, contact generation
//! and resolution between moving rectangles and solid tiles, and the
//! per-tick game state machines (attack, knockback, spawning).
//!
//! All coordinates are fixed-point integers: 60 units per pixel, so that a
//! speed in pixels per second is exactly a whole number of units per tick
//! at the fixed 60 ticks-per-second step. Timers count whole ticks.

pub mod combat;
pub mod contact;
pub mod geom;
pub mod grid;
pub mod knights;
pub mod leaderboard;
pub mod resolve;
pub mod rng;
pub mod sim;
pub mod world;
