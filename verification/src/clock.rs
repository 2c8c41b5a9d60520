//! Time, in whole nanoseconds, and the repeating timers that measure it.

use bevy::time::{Timer, TimerMode};
use std::time::Duration;
use vstd::prelude::*;

verus! {

/// Nanoseconds between two spawns: 0.4 s.
pub const SPAWN_PERIOD_NANOS: u64 = 400_000_000;

/// Nanoseconds a target stays on screen when no key removes it: 1.2 s.
pub const TARGET_LIFETIME_NANOS: u64 = 1_200_000_000;

/// What a repeating timer shows after one tick.
pub(crate) struct Tick {
    /// Time into the current period.
    pub elapsed_nanos: u64,
    /// Whether the tick reached the end of a period.
    pub finished: bool,
}

/// Whether a timer that stands at `elapsed` reaches `period` when `delta` is added.
pub open spec fn reaches(period: nat, elapsed: nat, delta: nat) -> bool {
    elapsed + delta >= period
}

/// Where a repeating timer of length `period` stands after `delta` is added to `elapsed`.
pub open spec fn wraps_to(period: nat, elapsed: nat, delta: nat) -> nat {
    (elapsed + delta) % period
}

/// One tick of a repeating `bevy::time::Timer`: builds the timer with
/// `Timer::new` for `period_nanos`, puts it at `elapsed_nanos` with
/// `set_elapsed`, calls `Timer::tick` with `delta_nanos`, and reads it back
/// with `elapsed` and `finished`.
///
/// Trusted: the tick adds the delta to the elapsed time; the timer is finished
/// exactly when that sum reaches the period, and it then keeps what is left of
/// the sum after whole periods are taken away. A period of zero is left out.
#[verifier::external_body]
pub(crate) fn tick_repeating(
    period_nanos: u64,
    elapsed_nanos: u64,
    delta_nanos: u64,
) -> (tick: Tick)
    requires
        period_nanos > 0,
    ensures
        tick.finished == reaches(period_nanos as nat, elapsed_nanos as nat, delta_nanos as nat),
        tick.elapsed_nanos == wraps_to(
            period_nanos as nat,
            elapsed_nanos as nat,
            delta_nanos as nat,
        ),
{
    let mut timer = Timer::new(Duration::from_nanos(period_nanos), TimerMode::Repeating);
    timer.set_elapsed(Duration::from_nanos(elapsed_nanos));
    timer.tick(Duration::from_nanos(delta_nanos));
    Tick { elapsed_nanos: timer.elapsed().as_nanos() as u64, finished: timer.finished() }
}

} // verus!
