//! The clock that measures the time between two ticks.

use std::time::{Duration, Instant};
use vstd::prelude::*;
use crate::agent::MAX_ELAPSED;
use crate::fixed::clamp;

verus! {

/// The shortest time a step can span: one 65536th of a second.
pub const MIN_ELAPSED: i64 = 1;

/// The type `Instant` of std, carried as a value of which nothing is known.
#[verifier::external_type_specification]
#[verifier::external_body]
pub struct ExInstant(std::time::Instant);

/// Calls `Instant::now` of std.  Nothing is claimed of the instant that
/// comes back.
#[verifier::external_body]
fn now() -> (instant: Instant) {
    Instant::now()
}

/// Calls `Instant::elapsed` of std.  Nothing is claimed of the duration
/// that comes back.
#[verifier::external_body]
fn time_since(earlier: &Instant) -> (span: Duration) {
    earlier.elapsed()
}

/// Calls `Duration::as_micros` of std.  Nothing is claimed of the number
/// that comes back.
#[verifier::external_body]
fn whole_micros(span: &Duration) -> (micros: u128) {
    span.as_micros()
}

/// The time a step spans, given the time asked for: the same, held between
/// the shortest and the longest span of a step.
pub open spec fn bounded_elapsed(raw: int) -> int {
    clamp(raw, MIN_ELAPSED as int, MAX_ELAPSED as int)
}

/// The time a step spans, in 65536ths of a second, given the microseconds
/// that went by: rounded down, and held between the shortest and the
/// longest span of a step.
pub open spec fn elapsed_of_micros(micros: int) -> int {
    bounded_elapsed((micros * 65536) / 1000000)
}

/// The time a step spans, given the time asked for.
pub fn bound_elapsed(raw: i64) -> (elapsed: i64)
    ensures
        elapsed == bounded_elapsed(raw as int),
        MIN_ELAPSED <= elapsed <= MAX_ELAPSED,
{
    if raw < MIN_ELAPSED {
        MIN_ELAPSED
    } else if raw > MAX_ELAPSED {
        MAX_ELAPSED
    } else {
        raw
    }
}

/// The time a step spans, in 65536ths of a second, given the microseconds
/// that went by.
pub fn elapsed_from_micros(micros: u128) -> (elapsed: i64)
    ensures
        elapsed == elapsed_of_micros(micros as int),
        MIN_ELAPSED <= elapsed <= MAX_ELAPSED,
{
    if micros >= 0x1_0000_0000_0000 {
        assert((micros * 65536) / 1000000 >= MAX_ELAPSED) by (nonlinear_arith)
            requires
                micros >= 0x1_0000_0000_0000,
        ;
        MAX_ELAPSED
    } else {
        let scaled: u128 = micros * 65536 / 1000000;
        bound_elapsed(scaled as i64)
    }
}

/// Remembers when the last tick ended.
pub struct SimulationClock {
    last: Instant,
}

impl SimulationClock {
    /// A clock whose last tick ended now.
    pub fn start() -> (clock: SimulationClock) {
        SimulationClock { last: now() }
    }

    /// The time since the last tick ended, in 65536ths of a second, held
    /// between the shortest and the longest span of a step.
    pub fn elapsed(&self) -> (elapsed: i64)
        ensures
            MIN_ELAPSED <= elapsed <= MAX_ELAPSED,
    {
        let span = time_since(&self.last);
        elapsed_from_micros(whole_micros(&span))
    }

    /// Notes that a tick ends now.
    pub fn mark(&mut self) {
        self.last = now();
    }
}

} // verus!
