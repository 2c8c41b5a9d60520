//! The game's one source of chance.

use crate::keys::is_letter;
use rand::Rng;
use vstd::prelude::*;

verus! {

/// Calls `rand::Rng::gen_range` on `rand::thread_rng()` with the inclusive
/// range from `low` to `high`.
///
/// Trusted: the number drawn lies in the range, both ends included. Which
/// number comes is chance, so nothing more is said. An empty range, on which
/// `gen_range` panics, is left out.
#[verifier::external_body]
fn random_in_range(low: u8, high: u8) -> (n: u8)
    requires
        low <= high,
    ensures
        low <= n <= high,
{
    rand::thread_rng().gen_range(low..=high)
}

/// Draws the letter of the next target: a lowercase letter, each equally likely.
pub fn random_letter() -> (letter: char)
    ensures
        is_letter(letter),
{
    let code: u8 = random_in_range(97, 122);
    code as char
}

} // verus!
