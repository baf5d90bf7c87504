//! Animated rectangles: a scene of blocks that is built once and then nudged
//! every frame by random jitter and by a pull towards, or push away from, the
//! mouse cursor.
//!
//! Lengths are held in thousandths of a unit and elapsed time in milliseconds,
//! so that a speed in whole units per second times a time in milliseconds is a
//! length in thousandths exactly.

pub mod geometry;
pub mod motion;
mod random;
pub mod scene;
