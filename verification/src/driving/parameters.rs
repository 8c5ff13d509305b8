//! The locomotion part of a spec sheet.

use crate::binary32::encoding::Binary32;
use vstd::prelude::*;

verus! {

/// The drivetrain of a tank variant.
#[derive(Clone, Copy, Debug, PartialEq)]
pub struct Drivetrain {
    /// Thrust of one roadwheel at full throttle, in newtons.
    pub max_thrust: Binary32,
    /// Resistance along the track, in newtons per metre per second: it bounds the top speed, and
    /// without throttle it is the engine brake.
    pub rolling_resistance: Binary32,
    /// Resistance to sliding sideways, in newtons per metre per second.
    pub lateral_grip: Binary32,
    /// Stiffness of the brush anchor that holds the tank at rest, in newtons per metre of slip.
    pub brush_stiffness: Binary32,
    /// Damping of the brush anchor, in newton seconds per metre.
    pub brush_damping: Binary32,
}

/// The suspension of a tank variant.
#[derive(Clone, Copy, Debug, PartialEq)]
pub struct SuspensionParams {
    /// Reach of a roadwheel's suspension ray from the hub, in metres.
    pub ray_length: Binary32,
    /// Free length of the spring from the hub, in metres.
    pub rest_length: Binary32,
    /// Stiffness of one wheel's spring, in newtons per metre.
    pub stiffness: Binary32,
    /// Damping of one wheel's spring, in newton seconds per metre.
    pub damping: Binary32,
}

} // verus!
