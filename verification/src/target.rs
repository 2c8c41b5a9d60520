//! A letter on screen.

use vstd::prelude::*;

verus! {

/// One letter that waits for its key.
///
/// The host engine keeps what it needs to draw the letter; the game keeps what
/// decides when the letter leaves.
#[derive(Clone, Copy, Debug, PartialEq, Eq)]
pub struct Target {
    /// The target's place in the log of spawned letters. No two targets share one.
    pub id: usize,
    /// The letter shown.
    pub letter: char,
    /// Nanoseconds on the target's expiry timer.
    pub age_nanos: u64,
}

} // verus!
