//! The parameters that govern how agents sense, turn and move.

use vstd::prelude::*;

verus! {

/// The largest value of a gain, a speed or a distance: 256, in 65536ths.
pub const MAX_GAIN: i64 = 0x100_0000;

/// The steering parameters of a simulation.  Gains, the speed and the probe
/// distance are fixed-point numbers; the sensor spread is an angle in
/// 65536ths of a turn.
#[derive(Clone, Copy, Debug, PartialEq, Eq, Structural)]
pub struct SteeringConfig {
    /// What every cell loses to evaporation in one decay pass.
    pub evaporation: u8,
    /// The length of the wander vector, and its weight in the blend.
    pub wander: i64,
    /// The weight of the steering vector in the blend.
    pub steer: i64,
    /// How far the blend of wander and steering turns the heading.
    pub turn: i64,
    /// The distance an agent covers in one second.
    pub speed: i64,
    /// The distance from an agent to each of its three probes.
    pub probe_distance: i64,
    /// The angle between the middle probe and each outer probe.
    pub sensor_turn: u16,
}

impl SteeringConfig {
    /// No parameter is negative, and none exceeds `MAX_GAIN`.
    pub open spec fn wf(self) -> bool {
        &&& 0 <= self.wander <= MAX_GAIN
        &&& 0 <= self.steer <= MAX_GAIN
        &&& 0 <= self.turn <= MAX_GAIN
        &&& 0 <= self.speed <= MAX_GAIN
        &&& 0 <= self.probe_distance <= MAX_GAIN
    }

    /// Whether every parameter is within bounds.
    pub fn is_valid(&self) -> (ok: bool)
        ensures
            ok == self.wf(),
    {
        0 <= self.wander && self.wander <= MAX_GAIN && 0 <= self.steer && self.steer <= MAX_GAIN
            && 0 <= self.turn && self.turn <= MAX_GAIN && 0 <= self.speed && self.speed
            <= MAX_GAIN && 0 <= self.probe_distance && self.probe_distance <= MAX_GAIN
    }
}

} // verus!
