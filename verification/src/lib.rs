//! The rules of a small typing game, stated and proved.
//!
//! Letters appear on a fixed schedule, stay for a fixed time, and leave early
//! when the player presses the key of the oldest letter on screen. The host
//! engine draws the letters and reads the keyboard; this crate decides what
//! appears and what leaves.

pub mod clock;
pub mod dice;
pub mod game;
pub mod keys;
pub mod lifecycle;
pub mod model;
pub mod target;
